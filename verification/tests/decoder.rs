use gm65_scanner::decoder::{
    classify_payload, decode_payload, parse_ur_fragment, PayloadType, UrDecoder,
};

#[test]
fn test_classify_cashu_v4() {
    let data = b"cashuA...";
    assert_eq!(classify_payload(data), PayloadType::CashuV3);
}

#[test]
fn test_classify_cashu_v3() {
    let data = b"cashuB...";
    assert_eq!(classify_payload(data), PayloadType::CashuV4);
}

#[test]
fn test_classify_cashu_priority() {
    let data = b"cashuA...";
    assert_eq!(classify_payload(data), PayloadType::CashuV3);
}

#[test]
fn test_classify_ur_fragment() {
    let data = b"ur:bytes/1-3/abc123/data";
    assert_eq!(classify_payload(data), PayloadType::UrFragment);
}

#[test]
fn test_classify_url_http() {
    let data = b"http://example.com";
    assert_eq!(classify_payload(data), PayloadType::Url);
}

#[test]
fn test_classify_url_https() {
    let data = b"https://example.com/path";
    assert_eq!(classify_payload(data), PayloadType::Url);
}

#[test]
fn test_classify_plain_text() {
    let data = b"hello world";
    assert_eq!(classify_payload(data), PayloadType::PlainText);
}

#[test]
fn test_classify_binary() {
    let data: &[u8] = &[0xFF, 0xFE, 0x00, 0x01];
    assert_eq!(classify_payload(data), PayloadType::Binary);
}

#[test]
fn test_classify_empty() {
    let data: &[u8] = b"";
    assert_eq!(classify_payload(data), PayloadType::PlainText);
}

#[test]
fn test_decode_payload() {
    let data = b"https://example.com";
    let payload = decode_payload(data);
    assert_eq!(payload.payload_type, PayloadType::Url);
    assert_eq!(payload.raw, data.to_vec());
}

#[test]
fn test_decoded_payload_as_str() {
    let payload = decode_payload(b"hello");
    assert_eq!(payload.as_str(), Some("hello"));
}

#[test]
fn test_decoded_payload_as_str_binary() {
    let payload = decode_payload(&[0xFF, 0xFE]);
    assert_eq!(payload.as_str(), None);
}

#[test]
fn test_payload_type_display() {
    assert_eq!(PayloadType::CashuV4.display_name(), "Cashu V4 Token");
    assert_eq!(PayloadType::CashuV3.display_name(), "Cashu V3 Token");
    assert_eq!(PayloadType::UrFragment.display_name(), "UR Fragment");
    assert_eq!(PayloadType::Url.display_name(), "URL");
    assert_eq!(PayloadType::PlainText.display_name(), "Plain Text");
    assert_eq!(PayloadType::Binary.display_name(), "Binary Data");
}

#[test]
fn test_parse_ur_fragment_valid() {
    let data = b"ur:bytes/1-3/abc123/payload-data";
    let frag = parse_ur_fragment(data).unwrap();
    assert_eq!(frag.ur_type, "bytes");
    assert_eq!(frag.index, 1);
    assert_eq!(frag.total, 3);
    assert_eq!(frag.hash, "abc123");
    assert_eq!(frag.data, b"payload-data");
}

#[test]
fn test_parse_ur_fragment_no_prefix() {
    let data = b"bytes/1-3/abc123/data";
    assert!(parse_ur_fragment(data).is_none());
}

#[test]
fn test_parse_ur_fragment_too_few_parts() {
    let data = b"ur:bytes/1-3";
    assert!(parse_ur_fragment(data).is_none());
}

#[test]
fn test_parse_ur_fragment_invalid_index() {
    let data = b"ur:bytes/abc-3/hash/data";
    assert!(parse_ur_fragment(data).is_none());
}

#[test]
fn test_parse_ur_fragment_case_insensitive_type() {
    let data = b"ur:BYTES/1-3/hash/data";
    let frag = parse_ur_fragment(data).unwrap();
    assert_eq!(frag.ur_type, "bytes");
}

#[test]
fn test_ur_decoder_single_fragment() {
    let mut decoder = UrDecoder::new();
    let data = b"ur:crypto-psbt/1-1/hash/psbt-data";
    let result = decoder.feed(data);
    assert!(result.is_some());
    assert_eq!(result.unwrap(), b"psbt-data");
    assert!(decoder.is_complete());
}

#[test]
fn test_ur_decoder_multi_fragment() {
    let mut decoder = UrDecoder::new();

    let result = decoder.feed(b"ur:bytes/1-3/hash1/part-a");
    assert!(result.is_none());
    assert!(decoder.is_active());
    assert!(!decoder.is_complete());
    assert_eq!(decoder.progress(), (1, 3));

    let result = decoder.feed(b"ur:bytes/2-3/hash1/part-b");
    assert!(result.is_none());
    assert_eq!(decoder.progress(), (2, 3));

    let result = decoder.feed(b"ur:bytes/3-3/hash1/part-c");
    assert!(result.is_some());
    let assembled = result.unwrap();
    assert_eq!(assembled, b"part-apart-bpart-c");
    assert!(decoder.is_complete());
    assert_eq!(decoder.progress(), (3, 3));
}

#[test]
fn test_ur_decoder_hash_mismatch() {
    let mut decoder = UrDecoder::new();
    decoder.feed(b"ur:bytes/1-2/hash1/part-a");
    let result = decoder.feed(b"ur:bytes/2-2/hash2/part-b");
    assert!(result.is_none());
}

#[test]
fn test_ur_decoder_reset() {
    let mut decoder = UrDecoder::new();
    decoder.feed(b"ur:bytes/1-3/hash1/part-a");
    assert!(decoder.is_active());
    decoder.reset();
    assert!(!decoder.is_active());
    assert_eq!(decoder.progress(), (0, 0));
}

#[test]
fn test_ur_decoder_duplicate_fragment() {
    let mut decoder = UrDecoder::new();
    decoder.feed(b"ur:bytes/1-2/hash1/part-a");
    let result = decoder.feed(b"ur:bytes/1-2/hash1/part-a");
    assert!(result.is_none());
    assert_eq!(decoder.progress(), (1, 2));
}

#[test]
fn test_ur_decoder_index_zero_rejected() {
    let mut decoder = UrDecoder::new();
    let result = decoder.feed(b"ur:bytes/0-3/hash1/part-a");
    assert!(result.is_none());
    assert!(!decoder.is_active());
}

#[test]
fn test_ur_decoder_mismatched_total_ignored() {
    let mut decoder = UrDecoder::new();
    decoder.feed(b"ur:bytes/1-3/hash1/part-a");
    let result = decoder.feed(b"ur:bytes/2-5/hash1/part-b");
    assert!(result.is_none());
    assert_eq!(decoder.progress(), (2, 3));
}
