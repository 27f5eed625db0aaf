use openlaundry_backend::codec::{decode_payload, empty_payload, encode_payload, frame_packed};

#[test]
fn decodes_known_payload() {
    let text = decode_payload("H4sIAHsAAAAAAwEMAPP/SGVsbG8gV29ybGQhoxwpHAwAAAA=");
    assert_eq!(text, Some("Hello World!".to_string()));
}

#[test]
fn decodes_json_payload() {
    let text = decode_payload("H4sIAAAAAAACA4uuViotzUxRslJKVKqNBQAkfhFaDgAAAA==");
    assert_eq!(text, Some("[{\"uuid\":\"a\"}]".to_string()));
}

#[test]
fn decodes_invalid_utf8_lossily() {
    let text = decode_payload("H4sIAAAAAAACA/ufnw0ARyLceQMAAAA=");
    assert_eq!(text, Some("\u{FFFD}ok".to_string()));
}

#[test]
fn rejects_text_that_is_not_base64() {
    assert_eq!(decode_payload("not base64!"), None);
}

#[test]
fn rejects_base64_that_is_not_gzip() {
    assert_eq!(decode_payload("bm90IGd6aXA="), None);
}

#[test]
fn rejects_empty_payload_text() {
    assert_eq!(decode_payload(""), None);
}

#[test]
fn decodes_client_sample_payload() {
    let sample = "H4sIAAAAAAAA/6XQvW4DMQgH8P2eovJ8SDYQc86W54g6+A5QO+RDuWSq+u6xWqXq4CztguAPw0/sh49we9ewDYSaVDwCMRuwk0NVIphiEl82yu4YxpdwrAdr5+vpYPDVt+z8djr+hN9DS6vqxdb1kT/GtlkuVq+mu2vYpozMWTZTmTCN4XbW7uZz/A0VzeQJF9C5RmC1AjUbt6JzLOJzrtKzYh+Lz7X4f65nxDm2bwp6+6siFBGFiB5dilHh3LNS30rPrfRH6zC83gFx+AWdBwIAAA==";
    let text = decode_payload(sample).unwrap();
    assert!(text.starts_with("[\n{\"uid\":\"32d1d7f0-344e-4f3f-ad33-8017fc5d4ff2\""));
    assert_eq!(text.matches("\"uid\"").count(), 3);
}

#[test]
fn round_trip_of_json_text() {
    let json = "[{\"uuid\":\"c1\",\"name\":\"Budi\",\"updatedAt\":7}]";
    let packed = encode_payload(json);
    assert_ne!(packed, json);
    assert!(packed.starts_with("H4sI"));
    assert_eq!(decode_payload(&packed), Some(json.to_string()));
}

#[test]
fn round_trip_of_non_ascii_text() {
    let json = "[{\"name\":\"Cuci \u{e9}\u{4e2d}\u{1F600}\"}]";
    let packed = encode_payload(json);
    assert_eq!(decode_payload(&packed), Some(json.to_string()));
}

#[test]
fn round_trip_of_empty_text() {
    let packed = encode_payload("");
    assert_eq!(decode_payload(&packed), Some(String::new()));
}

#[test]
fn empty_payload_holds_empty_list() {
    let packed = empty_payload();
    assert!(packed.starts_with("H4sI"));
    assert_eq!(decode_payload(&packed), Some("[]".to_string()));
}

#[test]
fn frames_compressed_bytes_as_base64() {
    assert_eq!(frame_packed(&[77, 97, 110, 77, 97]), Some("TWFuTWE=".to_string()));
    assert_eq!(frame_packed(&[255]), Some("/w==".to_string()));
    assert_eq!(frame_packed(&[]), Some(String::new()));
}
