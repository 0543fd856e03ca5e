use base64::Engine;
use card_reader::{parse_png, CardPayload, ParseError};

fn b64(data: &str) -> String {
    base64::engine::general_purpose::STANDARD.encode(data.as_bytes())
}

fn b64_bytes(data: &[u8]) -> String {
    base64::engine::general_purpose::STANDARD.encode(data)
}

fn chunk(kind: &[u8; 4], payload: &[u8]) -> Vec<u8> {
    let mut out = Vec::new();
    out.extend_from_slice(&(payload.len() as u32).to_be_bytes());
    out.extend_from_slice(kind);
    out.extend_from_slice(payload);
    out.extend_from_slice(&[0, 0, 0, 0]); // CRC, never checked
    out
}

fn text_chunk(keyword: &str, text: &str) -> Vec<u8> {
    let mut payload = Vec::new();
    payload.extend_from_slice(keyword.as_bytes());
    payload.push(0);
    payload.extend_from_slice(text.as_bytes());
    chunk(b"tEXt", &payload)
}

fn png(chunks: &[Vec<u8>]) -> Vec<u8> {
    let mut out = vec![137, 80, 78, 71, 13, 10, 26, 10];
    for c in chunks {
        out.extend_from_slice(c);
    }
    out
}

fn v3_payload(name: &str, first_mes: &str) -> String {
    b64(&format!(
        "{{\"spec\":\"chara_card_v3\",\"spec_version\":\"3.0\",\"data\":{{\"name\":\"{}\",\"first_mes\":\"{}\"}}}}",
        name, first_mes
    ))
}

fn v2_payload(name: &str) -> String {
    b64(&format!("{{\"name\":\"{}\"}}", name))
}

#[test]
fn bad_signature_is_invalid_format() {
    assert_eq!(parse_png(b"GIF89a not a png").unwrap_err(), ParseError::InvalidFormat);
    assert_eq!(parse_png(&[]).unwrap_err(), ParseError::InvalidFormat);
    assert_eq!(parse_png(&[137, 80, 78, 71, 13, 10, 26, 11]).unwrap_err(), ParseError::InvalidFormat);
}

#[test]
fn empty_png_has_no_card() {
    assert_eq!(parse_png(&png(&[])).unwrap_err(), ParseError::NoCardFound);
    let other = chunk(b"IDAT", &[1, 2, 3]);
    assert_eq!(parse_png(&png(&[other])).unwrap_err(), ParseError::NoCardFound);
}

#[test]
fn truncated_text_chunk_is_fatal() {
    // declares 100 payload bytes but the stream ends first
    let mut bytes = png(&[]);
    bytes.extend_from_slice(&100u32.to_be_bytes());
    bytes.extend_from_slice(b"tEXt");
    bytes.extend_from_slice(b"chara\0only a few bytes");
    assert_eq!(parse_png(&bytes).unwrap_err(), ParseError::TruncatedChunk);
}

#[test]
fn truncated_other_chunk_just_ends_the_scan() {
    // a non-tEXt chunk whose declared length overruns the stream is skipped
    let card = text_chunk("chara", &v2_payload("Skip"));
    let mut bytes = png(&[card]);
    bytes.extend_from_slice(&100u32.to_be_bytes());
    bytes.extend_from_slice(b"IDAT");
    bytes.extend_from_slice(&[1, 2, 3]);
    let (c, _) = parse_png(&bytes).unwrap();
    assert_eq!(c.name, "Skip");
}

#[test]
fn v2_only_resolves_from_chara() {
    let bytes = png(&[text_chunk("chara", &v2_payload("Vera"))]);
    let (card, json) = parse_png(&bytes).unwrap();
    assert_eq!(card.name, "Vera");
    assert!(json.contains("\"name\": \"Vera\""));
    // flat card text: no envelope
    assert!(!json.contains("\"spec\""));
}

#[test]
fn v3_wins_over_valid_chara() {
    let bytes = png(&[
        text_chunk("chara", &v2_payload("OldName")),
        text_chunk("ccv3", &v3_payload("NewName", "hi")),
    ]);
    let (card, json) = parse_png(&bytes).unwrap();
    assert_eq!(card.name, "NewName");
    assert_eq!(card.first_mes, "hi");
    assert!(json.contains("\"spec\": \"chara_card_v3\""));
    assert!(!json.contains("OldName"));
}

#[test]
fn v3_wins_even_when_chara_is_garbage() {
    let bytes = png(&[
        text_chunk("chara", "!!!not base64!!!"),
        text_chunk("ccv3", &v3_payload("Solo", "")),
    ]);
    let (card, _) = parse_png(&bytes).unwrap();
    assert_eq!(card.name, "Solo");
}

#[test]
fn later_chunk_of_same_key_wins() {
    let bytes = png(&[
        text_chunk("chara", &v2_payload("First")),
        text_chunk("chara", &v2_payload("Second")),
    ]);
    let (card, _) = parse_png(&bytes).unwrap();
    assert_eq!(card.name, "Second");
}

#[test]
fn keyword_case_is_ignored() {
    let bytes = png(&[text_chunk("Chara", &v2_payload("Cased"))]);
    let (card, _) = parse_png(&bytes).unwrap();
    assert_eq!(card.name, "Cased");
}

#[test]
fn malformed_text_chunk_is_skipped_not_fatal() {
    // no zero separator: skipped; a later good chunk still counts
    let raw = chunk(b"tEXt", b"no separator here");
    let good = text_chunk("chara", &v2_payload("Later"));
    let (card, _) = parse_png(&png(&[raw, good])).unwrap();
    assert_eq!(card.name, "Later");
}

#[test]
fn bad_base64_is_base64_error() {
    let bytes = png(&[text_chunk("chara", "!!!not base64!!!")]);
    assert_eq!(parse_png(&bytes).unwrap_err(), ParseError::Base64Error);
}

#[test]
fn invalid_utf8_is_encoding_error_not_json_error() {
    let bytes = png(&[text_chunk("chara", &b64_bytes(&[0xff, 0xfe, 0x80]))]);
    assert_eq!(parse_png(&bytes).unwrap_err(), ParseError::EncodingError);
}

#[test]
fn invalid_json_is_json_error() {
    let bytes = png(&[text_chunk("chara", &b64("this is not json"))]);
    match parse_png(&bytes).unwrap_err() {
        ParseError::JsonError(m) => assert!(m.contains("not valid JSON")),
        e => panic!("expected JsonError, got {:?}", e),
    }
}

#[test]
fn wrong_shape_is_json_error() {
    // valid JSON, but the card record must be an object
    let bytes = png(&[text_chunk("chara", &b64("[1, 2, 3]"))]);
    match parse_png(&bytes).unwrap_err() {
        ParseError::JsonError(m) => assert!(m.contains("shape")),
        e => panic!("expected JsonError, got {:?}", e),
    }
    // V3 requires the data member
    let bytes = png(&[text_chunk("ccv3", &b64("{\"spec\":\"x\"}"))]);
    match parse_png(&bytes).unwrap_err() {
        ParseError::JsonError(m) => assert!(m.contains("shape")),
        e => panic!("expected JsonError, got {:?}", e),
    }
}

#[test]
fn unicode_escapes_decode() {
    // A is 'A'; a surrogate pair decodes to one character
    let payload = b64("{\"name\":\"\\u0041\\ud83d\\ude00\"}");
    let (card, _) = parse_png(&png(&[text_chunk("chara", &payload)])).unwrap();
    assert_eq!(card.name, "A\u{1f600}");
}

#[test]
fn defaults_fill_missing_fields() {
    let (card, _) = parse_png(&png(&[text_chunk("chara", &b64("{}"))])).unwrap();
    assert_eq!(card.name, "");
    assert_eq!(card.description, "");
    assert!(card.tags.is_empty());
    assert!(card.character_book.is_none());
    assert!(card.extensions.is_none());
}

#[test]
fn wrong_field_type_is_rejected() {
    let bytes = png(&[text_chunk("chara", &b64("{\"name\": 5}"))]);
    assert!(matches!(parse_png(&bytes).unwrap_err(), ParseError::JsonError(_)));
    let bytes = png(&[text_chunk("chara", &b64("{\"tags\": \"oops\"}"))]);
    assert!(matches!(parse_png(&bytes).unwrap_err(), ParseError::JsonError(_)));
}

#[test]
fn canonical_json_of_empty_card_is_exact() {
    let (_, json) = parse_png(&png(&[text_chunk("chara", &b64("{}"))])).unwrap();
    let expected = "{\n  \"name\": \"\",\n  \"description\": \"\",\n  \"personality\": \"\",\n  \"scenario\": \"\",\n  \"first_mes\": \"\",\n  \"mes_example\": \"\",\n  \"creator_notes\": \"\",\n  \"system_prompt\": \"\",\n  \"post_history_instructions\": \"\",\n  \"creator\": \"\",\n  \"character_version\": \"\",\n  \"alternate_greetings\": [],\n  \"tags\": [],\n  \"group_only_greetings\": [],\n  \"character_book\": null,\n  \"extensions\": null\n}";
    assert_eq!(json, expected);
}

#[test]
fn unknown_fields_survive_round_trip() {
    let payload = b64("{\"name\":\"Keep\",\"custom_field\":{\"a\":[1,2.5,true,null]}}");
    let (_, json) = parse_png(&png(&[text_chunk("chara", &payload)])).unwrap();
    assert!(json.contains("\"custom_field\""));
    assert!(json.contains("2.5"));
}

#[test]
fn round_trip_card_through_canonical_json() {
    let payload = b64(
        "{\"name\":\"Loop\",\"description\":\"desc \\\"quoted\\\"\",\"tags\":[\"a\",\"b\"],\
         \"character_book\":{\"name\":\"book\",\"entries\":[{\"id\":7,\"keys\":[\"k\"],\
         \"content\":\"c\",\"insertion_order\":-3,\"enabled\":true}]},\
         \"extensions\":{\"fav\":true,\"depth_prompt\":{\"depth\":4,\"prompt\":\"p\",\"role\":\"system\"}}}",
    );
    let (card, json) = parse_png(&png(&[text_chunk("chara", &payload)])).unwrap();
    // parse the canonical text back: the card must come out equal
    let reparsed = card_reader::json_parse::parse_json(&json).expect("canonical text parses");
    let card2 = card_reader::card_json::data_from_json(&reparsed).expect("canonical text fits the card shape");
    assert_eq!(card, card2);
    // and rendering the canonical text again is identical
    let json2 = card_reader::json_text::json_to_string(&card_reader::card_json::data_to_json(&card2));
    assert_eq!(json, json2);
}

#[test]
fn scan_reports_both_payloads() {
    let bytes = png(&[
        text_chunk("ccv3", "AAA"),
        text_chunk("chara", "BBB"),
    ]);
    match card_reader::scan::scan_png(&bytes).unwrap() {
        CardPayload::Both(v3, v2) => {
            assert_eq!(v3, "AAA");
            assert_eq!(v2, "BBB");
        },
        other => panic!("expected both payloads, got {:?}", other),
    }
}

#[test]
fn duplicated_recognized_key_keeps_the_first() {
    let payload = b64("{\"name\":\"First\",\"name\":\"Second\"}");
    let (card, json) = parse_png(&png(&[text_chunk("chara", &payload)])).unwrap();
    assert_eq!(card.name, "First");
    assert!(!json.contains("Second"));
}

#[test]
fn whitespace_inside_json_is_insignificant() {
    let payload = b64(" \n\t{ \"name\" :\n\"Spaced\" , \"tags\": [ \"a\" , \"b\" ] }\r\n");
    let (card, _) = parse_png(&png(&[text_chunk("chara", &payload)])).unwrap();
    assert_eq!(card.name, "Spaced");
    assert_eq!(card.tags, vec!["a", "b"]);
}
