use wrath_core::chat::{is_whitespace, parse_gm_command, parse_u32, GmCommand};

#[test]
fn gm_commands_are_read() {
    assert_eq!(parse_gm_command("hello"), None);
    assert_eq!(parse_gm_command(""), None);
    assert_eq!(parse_gm_command("."), Some(GmCommand::Ignored));
    assert_eq!(parse_gm_command(".additem 2589"), Some(GmCommand::AddItem { item_id: 2589 }));
    assert_eq!(parse_gm_command(".  ADDITEM\t+17  extra"), Some(GmCommand::AddItem { item_id: 17 }));
    assert_eq!(parse_gm_command(".additem"), Some(GmCommand::Ignored));
    assert_eq!(parse_gm_command(".additem x1"), Some(GmCommand::Ignored));
    assert_eq!(parse_gm_command(".additem 4294967296"), Some(GmCommand::Ignored));
    assert_eq!(parse_gm_command(".speed 12.5"), Some(GmCommand::Speed { argument: Some("12.5".to_string()) }));
    assert_eq!(parse_gm_command(".Speed"), Some(GmCommand::Speed { argument: None }));
    assert_eq!(parse_gm_command(".teleport home"), Some(GmCommand::Ignored));
}

#[test]
fn unsigned_numbers_are_read_like_from_str() {
    for s in ["0", "+7", "4294967295", "4294967296", "", "+", "-1", "12a", "007"] {
        assert_eq!(parse_u32(s), s.parse::<u32>().ok(), "{}", s);
    }
}

#[test]
fn whitespace_matches_std() {
    for c in ['\t', '\n', '\u{0B}', '\u{0C}', '\r', ' ', '\u{85}', '\u{A0}', '\u{1680}', '\u{2000}', '\u{200A}', '\u{2028}', '\u{2029}', '\u{202F}', '\u{205F}', '\u{3000}', 'a', '\u{200B}', '\u{1F}', '0'] {
        assert_eq!(is_whitespace(c), c.is_whitespace(), "{:?}", c);
    }
}
