use katana_messaging::config_file::{
    set_number_field, set_text_field, update_l2_block, update_l2_hash, update_l3, ConfigError,
};
use katana_messaging::hash::Hash32;

#[test]
fn update_l2_block_sets_gather_from_block() {
    let text = update_l2_block("{\"rpc_url\":\"http://x\",\"gather_from_block\":3}", 1234).unwrap();
    assert_eq!(text, "{\"gather_from_block\":1234,\"rpc_url\":\"http://x\"}");
}

#[test]
fn update_l2_block_adds_missing_field() {
    let text = update_l2_block("{\"a\":true}", 0).unwrap();
    assert_eq!(text, "{\"a\":true,\"gather_from_block\":0}");
}

#[test]
fn update_l3_sets_send_from_block() {
    let text = update_l3("{\"send_from_block\":1,\"interval\":2}", 18446744073709551615).unwrap();
    assert_eq!(text, "{\"interval\":2,\"send_from_block\":18446744073709551615}");
}

#[test]
fn update_l2_hash_sets_prefixed_lower_hex() {
    let mut bytes = [0u8; 32];
    bytes[0] = 0xab;
    bytes[31] = 0x0f;
    let text = update_l2_hash("{\"tx_hash\":\"0x00\"}", &Hash32::from_bytes(bytes)).unwrap();
    assert_eq!(
        text,
        "{\"tx_hash\":\"0xab0000000000000000000000000000000000000000000000000000000000000f\"}"
    );
}

#[test]
fn invalid_json_is_refused() {
    assert_eq!(update_l2_block("not json", 1).unwrap_err(), ConfigError::InvalidJson);
    assert_eq!(update_l3("{\"a\":", 1).unwrap_err(), ConfigError::InvalidJson);
    assert_eq!(
        update_l2_hash("", &Hash32::from_bytes([1u8; 32])).unwrap_err(),
        ConfigError::InvalidJson
    );
}

#[test]
fn non_object_document_is_left_as_it_is() {
    assert_eq!(update_l2_block("[1, 2]", 5).unwrap(), "[1,2]");
    assert_eq!(update_l3(" \"text\" ", 5).unwrap(), "\"text\"");
}

#[test]
fn field_setters_keep_other_fields() {
    let doc: serde_json::Value = serde_json::from_str("{\"x\":[1],\"y\":null}").unwrap();
    let doc = set_number_field(doc, "y", 42);
    assert_eq!(doc.to_string(), "{\"x\":[1],\"y\":42}");
    let doc = set_text_field(doc, "z", "0x01".to_string());
    assert_eq!(doc.to_string(), "{\"x\":[1],\"y\":42,\"z\":\"0x01\"}");
}

#[test]
fn repeated_update_keeps_one_field() {
    let once = update_l2_block("{}", 9).unwrap();
    let twice = update_l2_block(&once, 9).unwrap();
    assert_eq!(once, twice);
    assert_eq!(twice, "{\"gather_from_block\":9}");
}

#[test]
fn written_block_reads_back() {
    let text = update_l2_block("{\"tx_hash\":\"0x1\",\"gather_from_block\":1}", 77).unwrap();
    let back: serde_json::Value = serde_json::from_str(&text).unwrap();
    assert_eq!(back["gather_from_block"].as_u64(), Some(77));
    assert_eq!(back["tx_hash"].as_str(), Some("0x1"));
}

#[test]
fn last_update_wins() {
    let start = "{\"x\":\"y\",\"gather_from_block\":1}";
    let both = update_l2_block(&update_l2_block(start, 5).unwrap(), 8).unwrap();
    assert_eq!(both, update_l2_block(start, 8).unwrap());
}

#[test]
fn block_and_hash_updates_commute() {
    let start = "{\"send_from_block\":4}";
    let h = Hash32::from_bytes([0x11u8; 32]);
    let a = update_l2_hash(&update_l2_block(start, 3).unwrap(), &h).unwrap();
    let b = update_l2_block(&update_l2_hash(start, &h).unwrap(), 3).unwrap();
    assert_eq!(a, b);
}

#[test]
fn last_update_wins_with_any_float_free_fields() {
    let start = "{\"flag\":true,\"list\":[1,-2,{\"a\":null}],\"name\":\"a\\\"b\",\"gather_from_block\":1}";
    let both = update_l2_block(&update_l2_block(start, 5).unwrap(), 8).unwrap();
    assert_eq!(both, update_l2_block(start, 8).unwrap());
}

#[test]
fn updates_commute_with_any_fields() {
    let start = "{\"f\":0.1,\"nested\":{\"x\":[true,false]},\"neg\":-7}";
    let h = Hash32::from_bytes([0xabu8; 32]);
    let a = update_l2_hash(&update_l2_block(start, 3).unwrap(), &h).unwrap();
    let b = update_l2_block(&update_l2_hash(start, &h).unwrap(), 3).unwrap();
    assert_eq!(a, b);
}

#[test]
fn gathering_round_keeps_other_fields() {
    let start = "{\"rpc_url\":\"http://x\",\"interval\":2,\"tx_hash\":\"0x0\",\"gather_from_block\":1}";
    let h1 = Hash32::from_bytes([1u8; 32]);
    let h2 = Hash32::from_bytes([2u8; 32]);
    let t = update_l2_hash(start, &h1).unwrap();
    let t = update_l2_hash(&t, &h2).unwrap();
    let t = update_l2_block(&t, 40).unwrap();
    let back: serde_json::Value = serde_json::from_str(&t).unwrap();
    assert_eq!(back["gather_from_block"].as_u64(), Some(40));
    assert_eq!(back["tx_hash"].as_str(), Some(format!("0x{}", "02".repeat(32)).as_str()));
    assert_eq!(back["rpc_url"].as_str(), Some("http://x"));
    assert_eq!(back["interval"].as_u64(), Some(2));
}
