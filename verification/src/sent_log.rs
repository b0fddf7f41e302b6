use vstd::prelude::*;

verus! {

/// A message sent to the settlement chain, with its fields already written
/// out as text.
pub struct SentMessage {
    /// The sender, as displayed.
    pub from_address: String,
    /// The recipient, as displayed (`{}`).
    pub to_address: String,
    /// The recipient, as padded hexadecimal (`{:#64x}`).
    pub to_address_hex: String,
    /// The payload entries in hexadecimal.
    pub payload: Vec<String>,
}

/// The log record of one sent message.
pub enum SentMessageLog {
    /// The settlement chain executed the message directly: the payload holds
    /// the target and the selector, then the call data.
    Executed { from_address: String, to_address: String, selector: String, payload: Vec<String> },
    /// The message was sent to the settlement chain and has this hash.
    Sent { hash: String, from_address: String, to_address: String, payload: Vec<String> },
}

/// The recipient that marks a message relayed to an L3: `MSG` in hexadecimal.
pub open spec fn l3_magic() -> Seq<char> {
    "0x4d5347"@
}

/// The payload entries that the log of a message needs.
pub open spec fn payload_fits(hash: Seq<char>, exec_hash: Seq<char>, m: SentMessage) -> bool {
    &&& hash == exec_hash ==> m.payload@.len() >= 2
    &&& (hash != exec_hash && m.to_address@ == l3_magic()) ==> m.payload@.len() >= 1
}

pub open spec fn describes(hash: String, exec_hash: Seq<char>, m: SentMessage, log: SentMessageLog) -> bool {
    let p = m.payload@;
    if hash@ == exec_hash {
        log == SentMessageLog::Executed {
            from_address: m.from_address,
            to_address: p[0],
            selector: p[1],
            payload: log->Executed_payload,
        } && log->Executed_payload@ == p.subrange(2, p.len() as int)
    } else if m.to_address@ == l3_magic() {
        log == SentMessageLog::Sent {
            hash,
            from_address: m.from_address,
            to_address: p[0],
            payload: log->Sent_payload,
        } && log->Sent_payload@ == p.subrange(1, p.len() as int)
    } else {
        log == SentMessageLog::Sent {
            hash,
            from_address: m.from_address,
            to_address: m.to_address_hex,
            payload: log->Sent_payload,
        } && log->Sent_payload@ == p
    }
}

/// The entries of `v` from index `from` on.
fn strings_from(v: &Vec<String>, from: usize) -> (r: Vec<String>)
    requires
        from <= v.len(),
    ensures
        r@ == v@.subrange(from as int, v.len() as int),
{
    let mut r: Vec<String> = Vec::new();
    let mut i: usize = from;
    while i < v.len()
        invariant
            from <= i <= v.len(),
            r@ == v@.subrange(from as int, i as int),
        decreases v.len() - i,
    {
        r.push(v[i].clone());
        i = i + 1;
    }
    r
}

/// What to log of a sent message whose settlement hash is `hash`, where
/// `exec_hash` is the hash the settlement chain answers for a message that it
/// executed directly.
pub fn describe_sent_message(hash: &String, exec_hash: &String, m: &SentMessage) -> (log: SentMessageLog)
    requires
        payload_fits(hash@, exec_hash@, *m),
    ensures
        describes(*hash, exec_hash@, *m, log),
        log is Executed <==> hash@ == exec_hash@,
        log matches SentMessageLog::Executed { payload, .. } ==> payload@.len() + 2 == m.payload@.len(),
        log matches SentMessageLog::Sent { hash: h, to_address, payload, .. } ==> {
            &&& h@ == hash@
            &&& (m.to_address@ == l3_magic() ==> to_address == m.payload@[0] && payload@.len() + 1 == m.payload@.len())
            &&& (m.to_address@ != l3_magic() ==> to_address == m.to_address_hex && payload@ == m.payload@)
        },
{
    let magic = "0x4d5347".to_owned();
    if *hash == *exec_hash {
        SentMessageLog::Executed {
            from_address: m.from_address.clone(),
            to_address: m.payload[0].clone(),
            selector: m.payload[1].clone(),
            payload: strings_from(&m.payload, 2),
        }
    } else if m.to_address == magic {
        SentMessageLog::Sent {
            hash: hash.clone(),
            from_address: m.from_address.clone(),
            to_address: m.payload[0].clone(),
            payload: strings_from(&m.payload, 1),
        }
    } else {
        SentMessageLog::Sent {
            hash: hash.clone(),
            from_address: m.from_address.clone(),
            to_address: m.to_address_hex.clone(),
            payload: {
                let all = strings_from(&m.payload, 0);
                assert(all@ =~= m.payload@);
                all
            },
        }
    }
}

/// What to log of the messages sent from one block, given the hashes the
/// settlement chain answered, one per message.
pub fn describe_sent_messages(messages: &Vec<SentMessage>, hashes: &Vec<String>, exec_hash: &String) -> (logs: Vec<SentMessageLog>)
    requires
        messages.len() == hashes.len(),
        forall|i: int| 0 <= i < messages.len() ==> payload_fits(#[trigger] hashes@[i]@, exec_hash@, messages@[i]),
    ensures
        logs.len() == messages.len(),
        forall|i: int| 0 <= i < messages.len() ==> describes(#[trigger] hashes@[i], exec_hash@, messages@[i], logs@[i]),
{
    let mut logs: Vec<SentMessageLog> = Vec::new();
    let mut i: usize = 0;
    while i < messages.len()
        invariant
            messages.len() == hashes.len(),
            i <= messages.len(),
            logs.len() == i,
            forall|j: int| 0 <= j < messages.len() ==> payload_fits(#[trigger] hashes@[j]@, exec_hash@, messages@[j]),
            forall|j: int| 0 <= j < i ==> describes(#[trigger] hashes@[j], exec_hash@, messages@[j], logs@[j]),
        decreases messages.len() - i,
    {
        let log = describe_sent_message(&hashes[i], exec_hash, &messages[i]);
        logs.push(log);
        i = i + 1;
    }
    logs
}

} // verus!
