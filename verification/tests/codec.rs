use dispatch::headers::{decode_headers, encode_headers};

fn pairs(v: &[(&str, &str)]) -> Vec<(String, String)> {
    v.iter().map(|(k, val)| (k.to_string(), val.to_string())).collect()
}

#[test]
fn encode_empty_set() {
    assert_eq!(encode_headers(&Vec::new()), "[]");
}

#[test]
fn encode_simple_pairs() {
    let h = pairs(&[("Accept", "text/html"), ("X-Id", "1")]);
    assert_eq!(encode_headers(&h), "[[\"Accept\",\"text/html\"],[\"X-Id\",\"1\"]]");
}

#[test]
fn encode_drops_empty_names() {
    let h = pairs(&[("", "lost"), ("Keep", "me"), ("", "also lost")]);
    assert_eq!(encode_headers(&h), "[[\"Keep\",\"me\"]]");
}

#[test]
fn encode_escapes_specials() {
    let h = pairs(&[("q\"k", "a\\b"), ("nl", "x\ny"), ("ctl", "\u{1}")]);
    assert_eq!(
        encode_headers(&h),
        "[[\"q\\\"k\",\"a\\\\b\"],[\"nl\",\"x\\ny\"],[\"ctl\",\"\\u0001\"]]"
    );
}

#[test]
fn round_trip_preserves_order_minus_empty_names() {
    let h = pairs(&[
        ("Accept", "text/html"),
        ("", "dropped"),
        ("Accept", "duplicate kept"),
        ("quote\"", "back\\slash"),
        ("tabs", "a\tb"),
        ("unicode", "caf\u{e9} \u{1F600}"),
        ("ctl", "\u{1}\u{1f}"),
    ]);
    let decoded = decode_headers(&encode_headers(&h)).expect("round trip must parse");
    let expected = pairs(&[
        ("Accept", "text/html"),
        ("Accept", "duplicate kept"),
        ("quote\"", "back\\slash"),
        ("tabs", "a\tb"),
        ("unicode", "caf\u{e9} \u{1F600}"),
        ("ctl", "\u{1}\u{1f}"),
    ]);
    assert_eq!(decoded, expected);
}

#[test]
fn round_trip_of_empty_set() {
    assert_eq!(decode_headers(&encode_headers(&Vec::new())), Some(Vec::new()));
}

#[test]
fn decoder_reads_serde_json_output() {
    let h = pairs(&[("a", "1"), ("b w", "two words"), ("c\"q", "d\\s")]);
    let stored = serde_json::to_string(&h).expect("serialize");
    assert_eq!(decode_headers(&stored), Some(h));
}

#[test]
fn serde_json_reads_encoder_output() {
    let h = pairs(&[("a", "1"), ("nl", "x\ny"), ("", "dropped")]);
    let parsed: Vec<(String, String)> =
        serde_json::from_str(&encode_headers(&h)).expect("parse");
    assert_eq!(parsed, pairs(&[("a", "1"), ("nl", "x\ny")]));
}

#[test]
fn decoder_accepts_unicode_escapes() {
    assert_eq!(
        decode_headers("[[\"\\u0041\",\"\\u00e9\"]]"),
        Some(pairs(&[("A", "\u{e9}")]))
    );
}

#[test]
fn decoder_accepts_simple_escapes() {
    assert_eq!(
        decode_headers("[[\"\\\"\\\\\\/\",\"\\b\\f\\n\\r\\t\"]]"),
        Some(pairs(&[("\"\\/", "\u{8}\u{c}\n\r\t")]))
    );
}

#[test]
fn decoder_rejects_malformed_input() {
    assert_eq!(decode_headers(""), None);
    assert_eq!(decode_headers("{}"), None);
    assert_eq!(decode_headers("["), None);
    assert_eq!(decode_headers("[["), None);
    assert_eq!(decode_headers("[[\"a\"]]"), None);
    assert_eq!(decode_headers("[[\"a\",\"b\",\"c\"]]"), None);
    assert_eq!(decode_headers("[[\"a\",\"b\"]] "), None);
    assert_eq!(decode_headers("[[\"a\",\"b\"],]"), None);
    assert_eq!(decode_headers("[[\"a\",\"b\"]"), None);
    assert_eq!(decode_headers("[[\"\\q\",\"b\"]]"), None);
    assert_eq!(decode_headers("[[\"\\ud800\",\"b\"]]"), None);
    assert_eq!(decode_headers("[[\"a\",\"\u{1}\"]]"), None);
}
