use sambil::cell::CellContent;
use sambil::config::{default_leader, parse_leader, Config};
use sambil::cursor::CursorStyle;
use sambil::keys::{encode_char, key_to_bytes, paste_bytes, KeyCode, KeyModifiers};
use sambil::text::{decimal_chars, replace_first_chars, str_chars};

fn ctrl() -> KeyModifiers {
    KeyModifiers::control()
}

fn none() -> KeyModifiers {
    KeyModifiers::empty()
}

#[test]
fn cell_content_accepts_one_grapheme_cluster() {
    assert_eq!(CellContent::try_from("a").unwrap().as_str(), "a");
    assert_eq!(CellContent::try_from("e\u{301}").unwrap().as_str(), "e\u{301}");
    assert_eq!(CellContent::try_from("🇷🇺").unwrap().as_str(), "🇷🇺");
}

#[test]
fn cell_content_rejects_empty_and_several_clusters() {
    assert!(CellContent::try_from("").is_err());
    assert!(CellContent::try_from("ab").is_err());
    assert!(CellContent::try_from("🇷🇺🇸🇹").is_err());
}

#[test]
fn cell_content_from_char_and_default() {
    assert_eq!(CellContent::from('│').as_str(), "│");
    assert_eq!(CellContent::default().as_str(), " ");
}

#[test]
fn decscusr_selects_cursor_shapes() {
    assert_eq!(CursorStyle::from_decscusr(0), CursorStyle::Default);
    assert_eq!(CursorStyle::from_decscusr(1), CursorStyle::BlinkingBlock);
    assert_eq!(CursorStyle::from_decscusr(2), CursorStyle::SteadyBlock);
    assert_eq!(CursorStyle::from_decscusr(3), CursorStyle::BlinkingUnderline);
    assert_eq!(CursorStyle::from_decscusr(4), CursorStyle::SteadyUnderline);
    assert_eq!(CursorStyle::from_decscusr(5), CursorStyle::BlinkingBar);
    assert_eq!(CursorStyle::from_decscusr(6), CursorStyle::SteadyBar);
    assert_eq!(CursorStyle::from_decscusr(7), CursorStyle::Default);
}

#[test]
fn control_letters_send_control_codes() {
    assert_eq!(key_to_bytes(KeyCode::Char('c'), ctrl()), Some(vec![3]));
    assert_eq!(key_to_bytes(KeyCode::Char('A'), ctrl()), Some(vec![1]));
    assert_eq!(key_to_bytes(KeyCode::Char('['), ctrl()), Some(vec![0x1b]));
    assert_eq!(key_to_bytes(KeyCode::Char('1'), ctrl()), None);
}

#[test]
fn characters_send_utf8() {
    assert_eq!(key_to_bytes(KeyCode::Char('x'), none()), Some(b"x".to_vec()));
    assert_eq!(key_to_bytes(KeyCode::Char('é'), none()), Some("é".as_bytes().to_vec()));
    assert_eq!(key_to_bytes(KeyCode::Char('€'), none()), Some("€".as_bytes().to_vec()));
    assert_eq!(key_to_bytes(KeyCode::Char('🦀'), none()), Some("🦀".as_bytes().to_vec()));
    for c in ['a', 'ß', '中', '\u{10FFFF}', '\u{7FF}', '\u{800}'] {
        let mut buf = [0u8; 4];
        assert_eq!(encode_char(c), c.encode_utf8(&mut buf).as_bytes().to_vec());
    }
}

#[test]
fn editing_and_arrow_keys_send_sequences() {
    assert_eq!(key_to_bytes(KeyCode::Enter, none()), Some(vec![b'\r']));
    assert_eq!(key_to_bytes(KeyCode::Backspace, none()), Some(vec![0x7f]));
    assert_eq!(key_to_bytes(KeyCode::Delete, none()), Some(b"\x1b[3~".to_vec()));
    assert_eq!(key_to_bytes(KeyCode::Tab, none()), Some(vec![b'\t']));
    assert_eq!(key_to_bytes(KeyCode::Esc, none()), Some(vec![0x1b]));
    assert_eq!(key_to_bytes(KeyCode::Up, none()), Some(b"\x1b[A".to_vec()));
    assert_eq!(key_to_bytes(KeyCode::Down, none()), Some(b"\x1b[B".to_vec()));
    assert_eq!(key_to_bytes(KeyCode::Right, none()), Some(b"\x1b[C".to_vec()));
    assert_eq!(key_to_bytes(KeyCode::Left, none()), Some(b"\x1b[D".to_vec()));
    assert_eq!(key_to_bytes(KeyCode::PageUp, none()), None);
    assert_eq!(key_to_bytes(KeyCode::F(1), none()), None);
}

#[test]
fn paste_is_bracketed_only_when_asked() {
    assert_eq!(paste_bytes("echo PASTED_TEXT", true), b"\x1b[200~echo PASTED_TEXT\x1b[201~".to_vec());
    assert_eq!(paste_bytes("echo A\necho B", false), b"echo A\necho B".to_vec());
    assert_eq!(paste_bytes("é", false), "é".as_bytes().to_vec());
}

#[test]
fn leader_defaults_to_ctrl_b() {
    assert_eq!(default_leader(), "ctrl+b");
    assert_eq!(Config::default().leader, "ctrl+b");
    assert_eq!(parse_leader("ctrl+b"), (KeyCode::Char('b'), ctrl()));
}

#[test]
fn leader_parsing_accepts_letters_and_space() {
    assert_eq!(parse_leader("ctrl+a"), (KeyCode::Char('a'), ctrl()));
    assert_eq!(parse_leader("  CTRL+A  "), (KeyCode::Char('a'), ctrl()));
    assert_eq!(parse_leader("ctrl+space"), (KeyCode::Char(' '), ctrl()));
    assert_eq!(parse_leader("ctrl+é"), (KeyCode::Char('b'), ctrl()));
    assert_eq!(parse_leader("alt+x"), (KeyCode::Char('b'), ctrl()));
    assert_eq!(parse_leader("ctrl+ab"), (KeyCode::Char('b'), ctrl()));
    assert_eq!(parse_leader(""), (KeyCode::Char('b'), ctrl()));
}

#[test]
fn modifiers_contain_their_parts() {
    let both = KeyModifiers { bits: 2 | 4 };
    assert!(both.contains(ctrl()));
    assert!(!none().contains(ctrl()));
    assert!(ctrl().contains(none()));
}

#[test]
fn decimal_numerals() {
    assert_eq!(decimal_chars(0), vec!['0']);
    assert_eq!(decimal_chars(7), vec!['7']);
    assert_eq!(decimal_chars(10), vec!['1', '0']);
    assert_eq!(decimal_chars(1234), "1234".chars().collect::<Vec<_>>());
}

#[test]
fn replace_first_replaces_only_the_first_match() {
    let s = str_chars("ctrl+b ctrl+b");
    let r = replace_first_chars(&s, &str_chars("ctrl+"), &str_chars("Ctrl-"));
    assert_eq!(r.iter().collect::<String>(), "Ctrl-b ctrl+b");
    let none_found = replace_first_chars(&str_chars("alt+x"), &str_chars("ctrl+"), &str_chars("Ctrl-"));
    assert_eq!(none_found.iter().collect::<String>(), "alt+x");
}
