use vstd::prelude::*;

use crate::hash::Hash32;

verus! {

#[verifier::external_type_specification]
#[verifier::external_body]
pub struct ExJsonValue(serde_json::Value);

#[verifier::external_type_specification]
#[verifier::external_body]
#[verifier::reject_recursive_types(K)]
#[verifier::reject_recursive_types(V)]
pub struct ExJsonMap<K, V>(serde_json::Map<K, V>);

#[verifier::external_type_specification]
#[verifier::external_body]
pub struct ExJsonError(serde_json::Error);

/// What `serde_json::from_str::<Value>` makes of a text: `None` when it is
/// not JSON; otherwise the fields of the value when it is an object (each key
/// mapped to the compact JSON text of its value), `None` in that place when
/// it is not, and the compact JSON text of the whole value.
pub uninterp spec fn json_parse_model(text: Seq<char>) -> Option<(Option<Map<Seq<char>, Seq<char>>>, Seq<char>)>;

/// The compact JSON text of a value, as its `Display` writes it.
pub uninterp spec fn json_value_text(v: serde_json::Value) -> Seq<char>;

/// The compact JSON text of an object with these fields (keys in order,
/// each with the compact text of its value).
pub uninterp spec fn json_object_text(fields: Map<Seq<char>, Seq<char>>) -> Seq<char>;

/// How deeply arrays and objects nest in a JSON value: 0 for a number, a
/// string, a boolean or null; one more than its deepest member for an array
/// or an object.
pub uninterp spec fn json_nesting(v: serde_json::Value) -> nat;

/// How deeply arrays and objects nest in the values of a JSON map: that of
/// its deepest value, 0 when there is none.
pub uninterp spec fn json_map_nesting(m: serde_json::Map<String, serde_json::Value>) -> nat;

/// The deepest nesting that `serde_json::from_str` reads: its recursion
/// limit refuses 128 levels.
pub open spec fn max_json_nesting() -> nat {
    127
}

/// Whether a JSON value is an object.
pub uninterp spec fn json_is_object(v: serde_json::Value) -> bool;

/// The fields of a JSON object value: each key mapped to the compact JSON text of its value.
pub uninterp spec fn json_value_fields(v: serde_json::Value) -> Map<Seq<char>, Seq<char>>;

/// The entries of a JSON map: each key mapped to the compact JSON text of its value.
pub uninterp spec fn json_map_fields(m: serde_json::Map<String, serde_json::Value>) -> Map<Seq<char>, Seq<char>>;

/// Why a configuration file could not be updated.
#[derive(Clone, Copy, Debug, PartialEq, Eq, Structural)]
pub enum ConfigError {
    /// The file does not hold JSON.
    InvalidJson,
}

pub open spec fn decimal_digit(d: nat) -> char {
    seq!['0', '1', '2', '3', '4', '5', '6', '7', '8', '9'][d as int]
}

/// The decimal digits of `n`, as a JSON number is written.
pub open spec fn decimal_text(n: nat) -> Seq<char>
    decreases n,
{
    if n < 10 {
        seq![decimal_digit(n)]
    } else {
        decimal_text(n / 10).push(decimal_digit(n % 10))
    }
}

pub open spec fn hex_digit(d: nat) -> char {
    seq!['0', '1', '2', '3', '4', '5', '6', '7', '8', '9', 'a', 'b', 'c', 'd', 'e', 'f'][d as int]
}

/// Two lower-case hexadecimal digits per byte.
pub open spec fn lower_hex(bytes: Seq<u8>) -> Seq<char>
    decreases bytes.len(),
{
    if bytes.len() == 0 {
        Seq::empty()
    } else {
        seq![hex_digit((bytes[0] / 16) as nat), hex_digit((bytes[0] % 16) as nat)] + lower_hex(bytes.drop_first())
    }
}

/// A hash as written in the configuration file: `0x` and its lower-case hexadecimal digits.
pub open spec fn prefixed_hex(h: Hash32) -> Seq<char> {
    seq!['0', 'x'] + lower_hex(h.bytes@)
}

/// Text that JSON writes between quotes without escaping.
pub open spec fn json_plain_text(s: Seq<char>) -> bool {
    forall|i: int| 0 <= i < s.len() ==> {
        let c = #[trigger] s[i];
        c != '"' && c != '\\' && (c as u32) >= 0x20
    }
}

/// A JSON string holding `s`.
pub open spec fn json_quoted(s: Seq<char>) -> Seq<char> {
    seq!['"'] + s + seq!['"']
}

pub open spec fn gather_from_block_key() -> Seq<char> {
    "gather_from_block"@
}

pub open spec fn tx_hash_key() -> Seq<char> {
    "tx_hash"@
}

pub open spec fn send_from_block_key() -> Seq<char> {
    "send_from_block"@
}

/// Field texts that serde_json reads back as it wrote them: a `u64` number
/// in decimal, or a string that needs no escaping.
pub open spec fn json_stable_text(t: Seq<char>) -> bool {
    ||| exists|n: u64| t == decimal_text(n as nat)
    ||| exists|s: Seq<char>| json_plain_text(s) && t == json_quoted(s)
}

/// The compact text that a field text has once read again: the compact text
/// of the value that `from_str` reads from it.
pub open spec fn json_reread(t: Seq<char>) -> Seq<char> {
    match json_parse_model(t) {
        Some((_, compact)) => compact,
        None => t,
    }
}

/// A field text that reads again as it is. Every text without a float does;
/// a float may come back in another form.
pub open spec fn json_rereads_same(t: Seq<char>) -> bool {
    json_reread(t) == t
}

/// Reading `text` back gives an object with the keys of `fields`, each field
/// with the re-read text of its value, which is the text itself for a `u64`
/// number and for a string that needs no escaping.
pub open spec fn reads_back(text: Seq<char>, fields: Map<Seq<char>, Seq<char>>) -> bool {
    match json_parse_model(text) {
        Some((Some(read), _)) => {
            &&& read.dom() == fields.dom()
            &&& forall|k: Seq<char>| #[trigger] fields.dom().contains(k) ==> read[k] == json_reread(fields[k])
            &&& forall|k: Seq<char>| #[trigger] fields.dom().contains(k) && json_stable_text(fields[k]) ==> read[k] == fields[k]
        },
        _ => false,
    }
}

/// The text that an update of the field `key` to the JSON text `value`
/// writes: for an object, the object with that field set; for any other
/// document, the document as it was, in compact form; `None` for text that
/// is not JSON.
pub open spec fn updated_text(contents: Seq<char>, key: Seq<char>, value: Seq<char>) -> Option<Seq<char>> {
    match json_parse_model(contents) {
        Some((Some(fields), _)) => Some(json_object_text(fields.insert(key, value))),
        Some((None, compact)) => Some(compact),
        None => None,
    }
}

/// `text` is what an update of the field `key` to `value` writes for
/// `contents`, and reading it back gives the updated fields (or, for a
/// document that is not an object, again a document that is not one).
pub open spec fn update_result(contents: Seq<char>, key: Seq<char>, value: Seq<char>, text: Seq<char>) -> bool {
    &&& updated_text(contents, key, value) == Some(text)
    &&& match json_parse_model(contents) {
        Some((Some(fields), _)) => reads_back(text, fields.insert(key, value)),
        Some((None, _)) => json_parse_model(text) matches Some((None, _)),
        None => false,
    }
}

/// Parses a text as JSON, with `serde_json::from_str`. The contract states
/// whether the text parses and, of the value, whether it is an object, the
/// fields of an object and its compact text.
#[verifier::external_body]
fn parse_json(text: &str) -> (r: Result<serde_json::Value, serde_json::Error>)
    ensures
        (match (r, json_parse_model(text@)) {
            (Ok(v), Some((Some(fields), compact))) => json_is_object(v) && json_value_fields(v) == fields
                && json_value_text(v) == compact && json_nesting(v) <= max_json_nesting(),
            (Ok(v), Some((None, compact))) => !json_is_object(v) && json_value_text(v) == compact
                && json_nesting(v) <= max_json_nesting(),
            (Err(_), None) => true,
            _ => false,
        }),
{
    serde_json::from_str(text)
}

/// Writes a value as compact JSON text, with its `Display`. An object is
/// written from its fields alone. For a value that `from_str` can read (no
/// deeper than its recursion limit), reading the text back gives a value of
/// the same kind; for an object, one with the same keys, each field read
/// from its own text, so that a `u64` number and a string that needs no
/// escaping come back as they were written. That every float comes back
/// unchanged is not stated.
#[verifier::external_body]
fn render_json(v: &serde_json::Value) -> (r: String)
    requires
        json_nesting(*v) <= max_json_nesting(),
    ensures
        r@ == json_value_text(*v),
        json_is_object(*v) ==> r@ == json_object_text(json_value_fields(*v)),
        json_is_object(*v) ==> reads_back(r@, json_value_fields(*v)),
        !json_is_object(*v) ==> json_parse_model(r@) matches Some((None, _)),
{
    v.to_string()
}

/// Takes the map out of a JSON object value (`serde_json::Value::Object`);
/// any other value is handed back as it was.
#[verifier::external_body]
fn take_object(v: serde_json::Value) -> (r: Result<serde_json::Map<String, serde_json::Value>, serde_json::Value>)
    ensures
        r is Ok <==> json_is_object(v),
        r matches Ok(m) ==> json_map_fields(m) == json_value_fields(v) && json_nesting(v) == json_map_nesting(m) + 1,
        r matches Err(w) ==> w == v,
{
    match v {
        serde_json::Value::Object(m) => Ok(m),
        other => Err(other),
    }
}

/// Wraps a map as a JSON object value (`serde_json::Value::Object`).
#[verifier::external_body]
fn object_value(m: serde_json::Map<String, serde_json::Value>) -> (v: serde_json::Value)
    ensures
        json_is_object(v),
        json_value_fields(v) == json_map_fields(m),
        json_nesting(v) == json_map_nesting(m) + 1,
{
    serde_json::Value::Object(m)
}

/// Sets `key` to the JSON number `n` with `serde_json::Map::insert`: the key
/// is added or its value replaced, and a `u64` number is written in decimal.
#[verifier::external_body]
fn map_insert_number(m: &mut serde_json::Map<String, serde_json::Value>, key: &str, n: u64)
    ensures
        json_map_fields(*final(m)) == json_map_fields(*old(m)).insert(key@, decimal_text(n as nat)),
        json_map_nesting(*final(m)) <= json_map_nesting(*old(m)),
{
    m.insert(key.to_string(), serde_json::Value::from(n));
}

/// Sets `key` to the JSON string `text` with `serde_json::Map::insert`: the
/// key is added or its value replaced, the other entries stay; a text that
/// needs no escaping is written between quotes as it is. The written form
/// of a text that needs escaping is not stated.
#[verifier::external_body]
fn map_insert_string(m: &mut serde_json::Map<String, serde_json::Value>, key: &str, text: String)
    ensures
        json_map_fields(*final(m)).dom() == json_map_fields(*old(m)).dom().insert(key@),
        forall|k: Seq<char>| k != key@ && #[trigger] json_map_fields(*old(m)).dom().contains(k)
            ==> json_map_fields(*final(m))[k] == json_map_fields(*old(m))[k],
        json_plain_text(text@) ==> json_map_fields(*final(m))[key@] == json_quoted(text@),
        json_map_nesting(*final(m)) <= json_map_nesting(*old(m)),
{
    m.insert(key.to_string(), serde_json::Value::String(text));
}

/// The hash as `0x` and lower-case hexadecimal digits, with
/// `alloy_primitives::hex::encode_prefixed`, the encoding that `B256` is
/// serialized with.
#[verifier::external_body]
fn hash_hex(h: &Hash32) -> (r: String)
    ensures
        r@ == prefixed_hex(*h),
{
    alloy_primitives::hex::encode_prefixed(h.bytes)
}

/// Sets the field `key` of a JSON object to the number `n`; a document that
/// is not an object is left as it is.
pub fn set_number_field(doc: serde_json::Value, key: &str, n: u64) -> (r: serde_json::Value)
    ensures
        json_is_object(doc) ==> json_is_object(r) && json_value_fields(r) == json_value_fields(doc).insert(key@, decimal_text(n as nat)),
        !json_is_object(doc) ==> r == doc,
        json_nesting(r) <= json_nesting(doc),
{
    match take_object(doc) {
        Ok(mut m) => {
            map_insert_number(&mut m, key, n);
            object_value(m)
        },
        Err(other) => other,
    }
}

/// Sets the field `key` of a JSON object to the string `text`; a document
/// that is not an object is left as it is. The other fields stay, and a text
/// that needs no escaping is written between quotes as it is.
pub fn set_text_field(doc: serde_json::Value, key: &str, text: String) -> (r: serde_json::Value)
    ensures
        json_is_object(doc) ==> {
            &&& json_is_object(r)
            &&& json_value_fields(r).dom() == json_value_fields(doc).dom().insert(key@)
            &&& forall|k: Seq<char>| k != key@ && #[trigger] json_value_fields(doc).dom().contains(k)
                ==> json_value_fields(r)[k] == json_value_fields(doc)[k]
            &&& json_plain_text(text@) ==> json_value_fields(r) == json_value_fields(doc).insert(key@, json_quoted(text@))
        },
        !json_is_object(doc) ==> r == doc,
        json_nesting(r) <= json_nesting(doc),
{
    let ghost t = text@;
    match take_object(doc) {
        Ok(mut m) => {
            let ghost before = json_map_fields(m);
            map_insert_string(&mut m, key, text);
            proof {
                if json_plain_text(t) {
                    assert(json_map_fields(m) =~= before.insert(key@, json_quoted(t)));
                }
            }
            object_value(m)
        },
        Err(other) => other,
    }
}

/// The configuration text with `gather_from_block` set to `new_block_num`:
/// the last settlement block from which messages were gathered.
pub fn update_l2_block(contents: &str, new_block_num: u64) -> (r: Result<String, ConfigError>)
    ensures
        r is Err <==> json_parse_model(contents@) is None,
        r matches Ok(text) ==> update_result(contents@, gather_from_block_key(), decimal_text(new_block_num as nat), text@),
{
    match parse_json(contents) {
        Ok(doc) => {
            let updated = set_number_field(doc, "gather_from_block", new_block_num);
            Ok(render_json(&updated))
        },
        Err(_) => Err(ConfigError::InvalidJson),
    }
}

/// The configuration text with `send_from_block` set to `new_block_num`:
/// the last local block whose messages were sent.
pub fn update_l3(contents: &str, new_block_num: u64) -> (r: Result<String, ConfigError>)
    ensures
        r is Err <==> json_parse_model(contents@) is None,
        r matches Ok(text) ==> update_result(contents@, send_from_block_key(), decimal_text(new_block_num as nat), text@),
{
    match parse_json(contents) {
        Ok(doc) => {
            let updated = set_number_field(doc, "send_from_block", new_block_num);
            Ok(render_json(&updated))
        },
        Err(_) => Err(ConfigError::InvalidJson),
    }
}

/// The hex digits of any bytes need no escaping in JSON.
pub proof fn lemma_lower_hex_plain(bytes: Seq<u8>)
    ensures
        json_plain_text(lower_hex(bytes)),
        lower_hex(bytes).len() == 2 * bytes.len(),
    decreases bytes.len(),
{
    if bytes.len() > 0 {
        lemma_lower_hex_plain(bytes.drop_first());
        let head = seq![hex_digit((bytes[0] / 16) as nat), hex_digit((bytes[0] % 16) as nat)];
        let s = head + lower_hex(bytes.drop_first());
        assert forall|i: int| 0 <= i < s.len() implies {
            let c = #[trigger] s[i];
            c != '"' && c != '\\' && (c as u32) >= 0x20
        } by {
            if i >= 2 {
                assert(s[i] == lower_hex(bytes.drop_first())[i - 2]);
            }
        }
    }
}

/// A hash as written in the configuration file needs no escaping in JSON.
pub proof fn lemma_prefixed_hex_plain(h: Hash32)
    ensures
        json_plain_text(prefixed_hex(h)),
{
    lemma_lower_hex_plain(h.bytes@);
    let p = prefixed_hex(h);
    assert forall|i: int| 0 <= i < p.len() implies {
        let c = #[trigger] p[i];
        c != '"' && c != '\\' && (c as u32) >= 0x20
    } by {
        if i >= 2 {
            assert(p[i] == lower_hex(h.bytes@)[i - 2]);
        }
    }
}

/// The configuration text with `tx_hash` set to `tx_hash`: the hash of the
/// last message processed.
pub fn update_l2_hash(contents: &str, tx_hash: &Hash32) -> (r: Result<String, ConfigError>)
    ensures
        r is Err <==> json_parse_model(contents@) is None,
        r matches Ok(text) ==> update_result(contents@, tx_hash_key(), json_quoted(prefixed_hex(*tx_hash)), text@),
{
    match parse_json(contents) {
        Ok(doc) => {
            let text = hash_hex(tx_hash);
            proof {
                lemma_prefixed_hex_plain(*tx_hash);
            }
            let updated = set_text_field(doc, "tx_hash", text);
            Ok(render_json(&updated))
        },
        Err(_) => Err(ConfigError::InvalidJson),
    }
}

/// The fields of what `text` reads back as, when that is an object.
pub open spec fn parsed_fields(text: Seq<char>) -> Map<Seq<char>, Seq<char>> {
    match json_parse_model(text) {
        Some((Some(fields), _)) => fields,
        _ => Map::empty(),
    }
}

/// The text of the field `key` in what `text` reads back as, if it is an
/// object with that field.
pub open spec fn read_field(text: Seq<char>, key: Seq<char>) -> Option<Seq<char>> {
    match json_parse_model(text) {
        Some((Some(fields), _)) => if fields.dom().contains(key) {
            Some(fields[key])
        } else {
            None
        },
        _ => None,
    }
}

/// A block number is written in a form that reads back as it is.
pub proof fn lemma_block_number_is_stable(n: u64)
    ensures
        json_stable_text(decimal_text(n as nat)),
{
    assert(decimal_text(n as nat) == decimal_text(n as nat));
}

/// A hash is written in a form that reads back as it is.
pub proof fn lemma_hash_is_stable(h: Hash32)
    ensures
        json_stable_text(json_quoted(prefixed_hex(h))),
{
    lemma_prefixed_hex_plain(h);
}

/// The fields of `contents` other than `key` read again as they are.
pub open spec fn others_reread_same(contents: Seq<char>, key: Seq<char>) -> bool {
    forall|k: Seq<char>| k != key && #[trigger] parsed_fields(contents).dom().contains(k)
        ==> json_rereads_same(parsed_fields(contents)[k])
}

/// Law: after an update of an object, reading the written text back gives
/// the new value of the field, the same keys plus that one, and every other
/// field as its text reads again: unchanged, unless it holds a float that
/// does not read back as it was written.
pub proof fn lemma_update_reads_back(contents: Seq<char>, key: Seq<char>, value: Seq<char>, text: Seq<char>)
    requires
        json_parse_model(contents) matches Some((Some(_), _)),
        json_stable_text(value),
        update_result(contents, key, value, text),
    ensures
        read_field(text, key) == Some(value),
        json_parse_model(text) matches Some((Some(read), _))
            && read.dom() == parsed_fields(contents).dom().insert(key)
            && forall|k: Seq<char>| k != key && #[trigger] parsed_fields(contents).dom().contains(k)
                ==> read[k] == json_reread(parsed_fields(contents)[k]),
{
    let fields = parsed_fields(contents);
    let updated = fields.insert(key, value);
    assert(updated.dom().contains(key));
    assert forall|k: Seq<char>| k != key && #[trigger] fields.dom().contains(k)
        implies parsed_fields(text)[k] == json_reread(fields[k]) by {
        assert(updated.dom().contains(k));
    }
}

/// Law: reading back the file after `update_l2_block` gives the block
/// number just written.
pub proof fn lemma_block_update_reads_back(contents: Seq<char>, new_block_num: u64, text: Seq<char>)
    requires
        json_parse_model(contents) matches Some((Some(_), _)),
        update_result(contents, gather_from_block_key(), decimal_text(new_block_num as nat), text),
    ensures
        read_field(text, gather_from_block_key()) == Some(decimal_text(new_block_num as nat)),
{
    lemma_block_number_is_stable(new_block_num);
    lemma_update_reads_back(contents, gather_from_block_key(), decimal_text(new_block_num as nat), text);
}

/// Law: of two updates of the same field of an object, the last one wins:
/// the file ends as the last update alone would leave it (so an update
/// repeated is an update made once). It holds when the object's other fields
/// read again as they are, which every field without a float does.
pub proof fn lemma_last_update_wins(
    contents: Seq<char>,
    key: Seq<char>,
    first: Seq<char>,
    second: Seq<char>,
    after_first: Seq<char>,
    after_both: Seq<char>,
    after_second_alone: Seq<char>,
)
    requires
        json_parse_model(contents) matches Some((Some(_), _)),
        others_reread_same(contents, key),
        json_stable_text(first),
        update_result(contents, key, first, after_first),
        update_result(after_first, key, second, after_both),
        update_result(contents, key, second, after_second_alone),
    ensures
        after_both == after_second_alone,
{
    let fields = parsed_fields(contents);
    let once = fields.insert(key, first);
    let read = parsed_fields(after_first);
    assert(once.dom().contains(key));
    assert forall|k: Seq<char>| k != key && #[trigger] fields.dom().contains(k) implies read[k] == fields[k] by {
        assert(once.dom().contains(k));
    }
    assert(read.insert(key, second) =~= fields.insert(key, second));
}

/// Law: updates of two different fields of an object commute: either order
/// leaves the same file, whatever the object's other fields hold.
pub proof fn lemma_updates_commute(
    contents: Seq<char>,
    key1: Seq<char>,
    value1: Seq<char>,
    key2: Seq<char>,
    value2: Seq<char>,
    t1: Seq<char>,
    t12: Seq<char>,
    t2: Seq<char>,
    t21: Seq<char>,
)
    requires
        key1 != key2,
        json_parse_model(contents) matches Some((Some(_), _)),
        json_stable_text(value1),
        json_stable_text(value2),
        update_result(contents, key1, value1, t1),
        update_result(t1, key2, value2, t12),
        update_result(contents, key2, value2, t2),
        update_result(t2, key1, value1, t21),
    ensures
        t12 == t21,
{
    let fields = parsed_fields(contents);
    let f1 = fields.insert(key1, value1);
    let f2 = fields.insert(key2, value2);
    let r1 = parsed_fields(t1);
    let r2 = parsed_fields(t2);
    assert(f1.dom().contains(key1));
    assert(f2.dom().contains(key2));
    assert forall|k: Seq<char>| k != key1 && #[trigger] fields.dom().contains(k) implies r1[k] == json_reread(fields[k]) by {
        assert(f1.dom().contains(k));
    }
    assert forall|k: Seq<char>| k != key2 && #[trigger] fields.dom().contains(k) implies r2[k] == json_reread(fields[k]) by {
        assert(f2.dom().contains(k));
    }
    assert(r1.insert(key2, value2) =~= r2.insert(key1, value1));
}

/// Law: recording the gathered block (`update_l2_block`) and the last
/// processed message (`update_l2_hash`) commute.
pub proof fn lemma_block_and_hash_updates_commute(
    contents: Seq<char>,
    new_block_num: u64,
    tx_hash: Hash32,
    t1: Seq<char>,
    t12: Seq<char>,
    t2: Seq<char>,
    t21: Seq<char>,
)
    requires
        json_parse_model(contents) matches Some((Some(_), _)),
        update_result(contents, gather_from_block_key(), decimal_text(new_block_num as nat), t1),
        update_result(t1, tx_hash_key(), json_quoted(prefixed_hex(tx_hash)), t12),
        update_result(contents, tx_hash_key(), json_quoted(prefixed_hex(tx_hash)), t2),
        update_result(t2, gather_from_block_key(), decimal_text(new_block_num as nat), t21),
    ensures
        t12 == t21,
{
    reveal_strlit("gather_from_block");
    reveal_strlit("tx_hash");
    assert(gather_from_block_key().len() != tx_hash_key().len());
    lemma_block_number_is_stable(new_block_num);
    lemma_hash_is_stable(tx_hash);
    lemma_updates_commute(
        contents,
        gather_from_block_key(),
        decimal_text(new_block_num as nat),
        tx_hash_key(),
        json_quoted(prefixed_hex(tx_hash)),
        t1,
        t12,
        t2,
        t21,
    );
}

/// `texts[i]` is what updating the field `keys[i]` to `values[i]` writes,
/// starting from `contents` and then from each text written before.
pub open spec fn update_chain(contents: Seq<char>, keys: Seq<Seq<char>>, values: Seq<Seq<char>>, texts: Seq<Seq<char>>) -> bool {
    &&& keys.len() == values.len()
    &&& values.len() == texts.len()
    &&& forall|i: int| 0 <= i < texts.len() ==> update_result(
        if i == 0 { contents } else { texts[i - 1] },
        keys[i],
        values[i],
        #[trigger] texts[i],
    )
}

/// The value that a run of updates leaves in the field `key`: that of its
/// last update of `key` among the first `n`, if any.
pub open spec fn last_written(keys: Seq<Seq<char>>, values: Seq<Seq<char>>, key: Seq<char>, n: nat) -> Option<Seq<char>>
    decreases n,
{
    if n == 0 {
        None
    } else if keys[n - 1] == key {
        Some(values[n - 1])
    } else {
        last_written(keys, values, key, (n - 1) as nat)
    }
}

/// What reading back `text` gives after the first `n` updates of a run
/// starting from `contents`: the last written value of every updated field,
/// and every other field of `contents` that reads again as it is, unchanged.
pub open spec fn chain_read_back(contents: Seq<char>, keys: Seq<Seq<char>>, values: Seq<Seq<char>>, n: nat, text: Seq<char>) -> bool {
    &&& json_parse_model(text) matches Some((Some(_), _))
    &&& forall|k: Seq<char>| #[trigger] last_written(keys, values, k, n) is Some
            ==> read_field(text, k) == last_written(keys, values, k, n)
    &&& forall|k: Seq<char>| last_written(keys, values, k, n) is None
            && #[trigger] parsed_fields(contents).dom().contains(k)
            && json_rereads_same(parsed_fields(contents)[k])
            ==> read_field(text, k) == Some(parsed_fields(contents)[k])
}

/// One more update of a run keeps what reading back gives as the run says.
proof fn lemma_chain_step(
    contents: Seq<char>,
    keys: Seq<Seq<char>>,
    values: Seq<Seq<char>>,
    n: nat,
    prev: Seq<char>,
    text: Seq<char>,
)
    requires
        0 < n <= keys.len(),
        keys.len() == values.len(),
        forall|i: int| 0 <= i < values.len() ==> json_stable_text(#[trigger] values[i]),
        chain_read_back(contents, keys, values, (n - 1) as nat, prev),
        update_result(prev, keys[n - 1], values[n - 1], text),
    ensures
        chain_read_back(contents, keys, values, n, text),
{
    let key = keys[n - 1];
    let value = values[n - 1];
    lemma_update_reads_back(prev, key, value, text);
    let fields = parsed_fields(prev);
    let read = parsed_fields(text);
    assert forall|k: Seq<char>| #[trigger] last_written(keys, values, k, n) is Some
        implies read_field(text, k) == last_written(keys, values, k, n) by {
        if k != key {
            let v = last_written(keys, values, k, (n - 1) as nat)->Some_0;
            assert(read_field(prev, k) == Some(v));
            assert(fields.dom().contains(k) && fields[k] == v);
            lemma_last_written_is_written(keys, values, k, (n - 1) as nat);
            let i = choose|i: int| 0 <= i < n - 1 && v == #[trigger] values[i];
            assert(json_stable_text(values[i]));
            assert(fields.insert(key, value).dom().contains(k));
        }
    }
    assert forall|k: Seq<char>| last_written(keys, values, k, n) is None
        && #[trigger] parsed_fields(contents).dom().contains(k)
        && json_rereads_same(parsed_fields(contents)[k])
        implies read_field(text, k) == Some(parsed_fields(contents)[k]) by {
        assert(last_written(keys, values, k, (n - 1) as nat) is None);
        assert(read_field(prev, k) == Some(parsed_fields(contents)[k]));
        assert(fields.dom().contains(k));
    }
}

/// Law: after a run of field updates of an object (such as a Starknet
/// gathering round, which records each message hash and then the block),
/// reading the file back gives every updated field its last written value
/// and every other field of the object unchanged, when that field reads
/// again as it is (which every field without a float does).
pub proof fn lemma_update_chain_reads_back(
    contents: Seq<char>,
    keys: Seq<Seq<char>>,
    values: Seq<Seq<char>>,
    texts: Seq<Seq<char>>,
)
    requires
        json_parse_model(contents) matches Some((Some(_), _)),
        texts.len() > 0,
        update_chain(contents, keys, values, texts),
        forall|i: int| 0 <= i < values.len() ==> json_stable_text(#[trigger] values[i]),
    ensures
        chain_read_back(contents, keys, values, texts.len(), texts.last()),
{
    lemma_chain_prefix(contents, keys, values, texts, texts.len());
}

/// What reading back gives after the first `m` updates of a run.
proof fn lemma_chain_prefix(
    contents: Seq<char>,
    keys: Seq<Seq<char>>,
    values: Seq<Seq<char>>,
    texts: Seq<Seq<char>>,
    m: nat,
)
    requires
        json_parse_model(contents) matches Some((Some(_), _)),
        m <= texts.len(),
        update_chain(contents, keys, values, texts),
        forall|i: int| 0 <= i < values.len() ==> json_stable_text(#[trigger] values[i]),
    ensures
        chain_read_back(contents, keys, values, m, if m == 0 { contents } else { texts[m - 1] }),
    decreases m,
{
    if m == 0 {
        assert forall|k: Seq<char>| last_written(keys, values, k, 0) is None
            && #[trigger] parsed_fields(contents).dom().contains(k)
            && json_rereads_same(parsed_fields(contents)[k])
            implies read_field(contents, k) == Some(parsed_fields(contents)[k]) by {}
    } else {
        lemma_chain_prefix(contents, keys, values, texts, (m - 1) as nat);
        let prev = if m == 1 { contents } else { texts[m - 2] };
        assert(update_result(if m - 1 == 0 { contents } else { texts[m - 2] }, keys[m - 1], values[m - 1], texts[m - 1]));
        lemma_chain_step(contents, keys, values, m, prev, texts[m - 1]);
    }
}

/// The value a run of updates last wrote in a field is one of the values written.
proof fn lemma_last_written_is_written(keys: Seq<Seq<char>>, values: Seq<Seq<char>>, k: Seq<char>, n: nat)
    requires
        n <= values.len(),
    ensures
        last_written(keys, values, k, n) matches Some(v) ==> exists|i: int| 0 <= i < n && v == #[trigger] values[i],
    decreases n,
{
    if n > 0 {
        lemma_last_written_is_written(keys, values, k, (n - 1) as nat);
        if keys[n - 1] == k {
            assert(values[n - 1] == values[n - 1]);
        }
    }
}

} // verus!
