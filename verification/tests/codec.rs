use staticserve::codec::{percent_decode, percent_encode_component};

#[test]
fn encode_reserved_characters() {
    let enc = percent_encode_component(b"a b#c");
    assert_eq!(enc, b"a%20b%23c".to_vec());
}

#[test]
fn encode_keeps_unreserved() {
    let enc = percent_encode_component(b"AZaz09-_.!~*'()");
    assert_eq!(enc, b"AZaz09-_.!~*'()".to_vec());
}

#[test]
fn encode_non_ascii_bytes() {
    let enc = percent_encode_component("中".as_bytes());
    assert_eq!(enc, b"%E4%B8%AD".to_vec());
}

#[test]
fn decode_simple() {
    let dec = percent_decode(b"a%20b%23c");
    assert_eq!(dec, b"a b#c".to_vec());
}

#[test]
fn decode_keeps_lone_percent() {
    assert_eq!(percent_decode(b"%"), b"%".to_vec());
    assert_eq!(percent_decode(b"%4"), b"%4".to_vec());
    assert_eq!(percent_decode(b"%%41"), b"%A".to_vec());
    assert_eq!(percent_decode(b"%zz"), b"%zz".to_vec());
}

#[test]
fn decode_lowercase_hex() {
    assert_eq!(percent_decode(b"%2f%2F"), b"//".to_vec());
}

#[test]
fn round_trip_reserved_name() {
    let name = b"my file #1 (draft).txt";
    let enc = percent_encode_component(name);
    let dec = percent_decode(&enc);
    assert_eq!(dec, name.to_vec());
}

#[test]
fn encode_matches_url_escape() {
    for s in ["a b#c", "my file #1 (draft).txt", "sp&cial/;=?", "中文字", "100%"] {
        let ours = percent_encode_component(s.as_bytes());
        let theirs = url_escape::encode_component(s).to_string();
        assert_eq!(ours, theirs.as_bytes().to_vec());
    }
}

#[test]
fn decode_matches_url_escape() {
    for s in ["a%20b%23c", "%E4%B8%AD", "plain", "%4", "100%25", "%2Fetc%2Fpasswd"] {
        let ours = percent_decode(s.as_bytes());
        let theirs = url_escape::decode(s).to_string();
        assert_eq!(ours, theirs.as_bytes().to_vec());
    }
}
