use base64::Engine;
use card_reader::{format_readable_text, get, parse_command, parse_png, sanitize};

fn b64(data: &str) -> String {
    base64::engine::general_purpose::STANDARD.encode(data.as_bytes())
}

fn card_png(json: &str) -> Vec<u8> {
    let payload = b64(json);
    let mut chunk_payload = Vec::new();
    chunk_payload.extend_from_slice(b"chara");
    chunk_payload.push(0);
    chunk_payload.extend_from_slice(payload.as_bytes());
    let mut out = vec![137, 80, 78, 71, 13, 10, 26, 10];
    out.extend_from_slice(&(chunk_payload.len() as u32).to_be_bytes());
    out.extend_from_slice(b"tEXt");
    out.extend_from_slice(&chunk_payload);
    out.extend_from_slice(&[0, 0, 0, 0]);
    out
}

#[test]
fn minimal_card_report_is_exact() {
    let (card, _) = parse_png(&card_png("{\"name\":\"Mini\",\"description\":\"d\",\"first_mes\":\"f\"}")).unwrap();
    let text = format_readable_text(&card);
    let sep = "\n----------------------------------------\n";
    let expected = format!(
        "【角色名称】: Mini\n{}【角色描述 (Description)】\n\nd\n{}【开场白 (First Message)】\n\nf\n",
        sep, sep
    );
    assert_eq!(text, expected);
}

#[test]
fn rendering_twice_is_identical() {
    let (card, _) = parse_png(&card_png(
        "{\"name\":\"Twice\",\"tags\":[\"x\",\"y\"],\"personality\":\"p\",\
         \"extensions\":{\"regex_scripts\":[{\"scriptName\":\"s\",\"findRegex\":\"f\",\"replaceString\":\"r\"}]}}",
    ))
    .unwrap();
    let a = format_readable_text(&card);
    let b = format_readable_text(&card);
    assert_eq!(a.into_bytes(), b.into_bytes());
}

#[test]
fn conditional_sections_appear_only_when_non_empty() {
    let (empty_card, _) = parse_png(&card_png("{\"name\":\"N\"}")).unwrap();
    let text = format_readable_text(&empty_card);
    assert!(text.contains("【角色名称】"));
    assert!(text.contains("【角色描述 (Description)】"));
    assert!(text.contains("【开场白 (First Message)】"));
    assert!(!text.contains("【性格 (Personality)】"));
    assert!(!text.contains("【标    签】"));
    assert!(!text.contains("【世界书"));
    assert!(!text.contains("【作者注释"));

    let (full_card, _) = parse_png(&card_png(
        "{\"name\":\"N\",\"personality\":\"brave\",\"tags\":[\"t1\",\"t2\"],\"creator_notes\":\"cn\"}",
    ))
    .unwrap();
    let text = format_readable_text(&full_card);
    assert!(text.contains("【性格 (Personality)】"));
    assert!(text.contains("【标    签】: t1, t2"));
    assert!(text.contains("【作者注释 (Creator Notes)】"));
}

#[test]
fn book_entries_sort_stably_by_insertion_order() {
    let (card, _) = parse_png(&card_png(
        "{\"name\":\"N\",\"character_book\":{\"entries\":[\
         {\"content\":\"AAA\",\"insertion_order\":5,\"enabled\":true},\
         {\"content\":\"BBB\",\"insertion_order\":1,\"enabled\":true},\
         {\"content\":\"CCC\",\"insertion_order\":5,\"enabled\":true}]}}",
    ))
    .unwrap();
    let text = format_readable_text(&card);
    let a = text.find("AAA").unwrap();
    let b = text.find("BBB").unwrap();
    let c = text.find("CCC").unwrap();
    // order 1 first, then the two order-5 entries in their source order
    assert!(b < a);
    assert!(a < c);
    assert!(text.contains("共 3 条"));
}

#[test]
fn disabled_entry_and_script_markers() {
    let (card, _) = parse_png(&card_png(
        "{\"name\":\"N\",\"character_book\":{\"entries\":[\
         {\"content\":\"off\",\"insertion_order\":0,\"enabled\":false,\"keys\":[\"k1\",\"k2\"],\"comment\":\"why\"}]},\
         \"extensions\":{\"regex_scripts\":[\
         {\"scriptName\":\"on\",\"findRegex\":\"f1\",\"replaceString\":\"r1\"},\
         {\"scriptName\":\"off\",\"findRegex\":\"f2\",\"replaceString\":\"r2\",\"disabled\":true}]}}",
    ))
    .unwrap();
    let text = format_readable_text(&card);
    assert!(text.contains("[未启用] Key: [k1, k2]"));
    assert!(text.contains("注释: why"));
    assert!(text.contains("## 1 - on (启用)"));
    assert!(text.contains("## 2 - off (禁用)"));
}

#[test]
fn depth_prompt_renders_inline() {
    let (card, _) = parse_png(&card_png(
        "{\"name\":\"N\",\"extensions\":{\"depth_prompt\":{\"depth\":-2,\"prompt\":\"deep\",\"role\":\"system\"}}}",
    ))
    .unwrap();
    let text = format_readable_text(&card);
    assert!(text.contains("Depth: -2 | Role: system"));
    assert!(text.contains("deep"));
}

#[test]
fn alternate_greetings_are_numbered() {
    let (card, _) = parse_png(&card_png(
        "{\"name\":\"N\",\"alternate_greetings\":[\"one\",\"two\"]}",
    ))
    .unwrap();
    let text = format_readable_text(&card);
    let first = text.find("# 备用 1\none").unwrap();
    let second = text.find("# 备用 2\ntwo").unwrap();
    assert!(first < second);
}

#[test]
fn sanitizer_replaces_unsafe_characters() {
    assert_eq!(sanitize("Bad/Name:Test"), "Bad_Name_Test");
    assert_eq!(sanitize("a\\b*c?d\"e<f>g|h"), "a_b_c_d_e_f_g_h");
    assert_eq!(sanitize("plain"), "plain");
}

#[test]
fn sanitizer_falls_back_on_blank_names() {
    assert_eq!(sanitize("   "), "character");
    assert_eq!(sanitize(""), "character");
    assert_eq!(sanitize("\u{3000}\t"), "character");
}

#[test]
fn command_matching_without_prefixes() {
    let commands = vec!["读卡".to_string(), "card".to_string()];
    let prefixes: Vec<String> = vec![];
    assert!(parse_command("读卡", &prefixes, &commands));
    assert!(parse_command("  card  ", &prefixes, &commands));
    assert!(!parse_command("cardx", &prefixes, &commands));
    assert!(!parse_command("/card", &prefixes, &commands));
}

#[test]
fn command_matching_with_prefixes() {
    let commands = vec!["card".to_string()];
    let prefixes = vec!["!".to_string(), "!!".to_string()];
    assert!(parse_command("!card", &prefixes, &commands));
    // longest prefix first: "!!card" strips "!!", not a lone "!"
    assert!(parse_command("!!card", &prefixes, &commands));
    assert!(parse_command("!!  card", &prefixes, &commands));
    // with prefixes configured, an unmatched prefix never triggers
    assert!(!parse_command("card", &prefixes, &commands));
    assert!(!parse_command("?card", &prefixes, &commands));
}

#[test]
fn default_config_values() {
    let cfg = get();
    assert!(cfg.enabled);
    assert!(cfg.text_preview);
    assert!(cfg.prefixes.is_empty());
    assert_eq!(cfg.commands, vec!["读卡", "解析卡", "看卡", "card"]);
}

#[test]
fn error_messages_are_displayable() {
    let bytes = b"not a png";
    let err = parse_png(bytes).unwrap_err();
    assert!(err.message().contains("PNG"));
}

#[test]
fn first_image_url_picks_the_first_image_segment() {
    let segs = vec![
        card_reader::MsgSegment { kind: "text".to_string(), image_url: None },
        card_reader::MsgSegment { kind: "image".to_string(), image_url: Some("http://a/".to_string()) },
        card_reader::MsgSegment { kind: "image".to_string(), image_url: Some("http://b/".to_string()) },
    ];
    assert_eq!(card_reader::util::first_image_url(&segs).as_deref(), Some("http://a/"));
    let none: Vec<card_reader::MsgSegment> = vec![];
    assert_eq!(card_reader::util::first_image_url(&none), None);
}
