use agent_engine::number::{i64_text, parse_u32, u64_text, usize_text};
use agent_engine::text::{
    bytes_of_char, cat5, fitting, has_char, has_prefix, has_suffix, join, len_bytes, lines_of,
    repeat_char, replace_char, replace_text, same, split_at_char, stripped, stripped_end, trimmed,
    trimmed_end, trimmed_start, words_of,
};
use agent_engine::theme;
use agent_engine::style::{Color, Modifier, Style};
use agent_engine::width::columns_of;

const SAMPLES: [&str; 12] = [
    "", " ", "a", " a b ", "a\nb", "a\r\nb\r\n", "\n\n", "\r", "日本\u{3000}語", "a\tb\u{85}c",
    "//x//", "x\u{a0}y z",
];

#[test]
fn white_space_is_that_of_unicode() {
    for n in 0..=0x10ffffu32 {
        if let Some(c) = char::from_u32(n) {
            let white = matches!(n,
                0x9..=0xd | 0x20 | 0x85 | 0xa0 | 0x1680 | 0x2000..=0x200a | 0x2028 | 0x2029
                    | 0x202f | 0x205f | 0x3000);
            assert_eq!(c.is_whitespace(), white);
        }
    }
}

#[test]
fn text_is_cut_as_std_cuts_it() {
    for s in SAMPLES {
        assert_eq!(trimmed(s), s.trim());
        assert_eq!(trimmed_start(s), s.trim_start());
        assert_eq!(trimmed_end(s), s.trim_end());
        assert_eq!(lines_of(s), s.lines().collect::<Vec<_>>());
        assert_eq!(words_of(s), s.split_whitespace().collect::<Vec<_>>());
        assert_eq!(split_at_char(s, '/'), s.split('/').collect::<Vec<_>>());
        assert_eq!(stripped(s, '/'), s.trim_matches('/'));
        assert_eq!(stripped_end(s, '/'), s.trim_end_matches('/'));
        assert_eq!(replace_char(s, 'a', "bb"), s.replace('a', "bb"));
        assert_eq!(replace_text(s, "//", "/"), s.replace("//", "/"));
        assert_eq!(len_bytes(s), s.len());
        for p in SAMPLES {
            assert_eq!(same(s, p), s == p);
            assert_eq!(has_prefix(s, p), s.starts_with(p));
            assert_eq!(has_suffix(s, p), s.ends_with(p));
        }
        for c in ['a', '/', '語'] {
            assert_eq!(has_char(s, c), s.contains(c));
        }
    }
}

#[test]
fn text_is_put_together() {
    assert_eq!(cat5("a", "b", "", "d", "e"), "abde");
    assert_eq!(join(&vec!["a".to_string(), "b".to_string()], ", "), "a, b");
    assert_eq!(join(&vec![], ", "), "");
    assert_eq!(repeat_char('─', 3), "───");
}

#[test]
fn text_fits_its_limit() {
    for s in SAMPLES {
        for max in 0..s.len() + 2 {
            let kept = fitting(s, max);
            assert!(s.starts_with(&kept));
            assert!(kept.len() <= max);
            let next = s[kept.len()..].chars().next();
            assert!(next.map_or(true, |c| kept.len() + c.len_utf8() > max));
        }
    }
    for c in ['a', 'é', '日', '🦀'] {
        assert_eq!(bytes_of_char(c), c.len_utf8());
    }
}

#[test]
fn numbers_are_written_and_read() {
    for n in [0, 1, 9, 10, 99, 100, 12345, u64::MAX] {
        assert_eq!(u64_text(n), n.to_string());
    }
    for n in [0, -1, 42, i64::MAX, i64::MIN] {
        assert_eq!(i64_text(n), n.to_string());
    }
    assert_eq!(usize_text(7), "7");
    assert_eq!(parse_u32("007"), Some(7));
    assert_eq!(parse_u32("4294967295"), Some(u32::MAX));
    assert_eq!(parse_u32("4294967296"), None);
    assert_eq!(parse_u32(""), None);
}

#[test]
fn characters_take_columns() {
    assert_eq!(columns_of('a'), 1);
    assert_eq!(columns_of('日'), 2);
    assert_eq!(columns_of('\u{301}'), 0);
    assert_eq!(columns_of('\n'), 0);
    for c in ' '..='~' {
        assert_eq!(columns_of(c), 1);
    }
}

#[test]
fn the_palette_uses_standard_colors() {
    let c = |color: Color| Style::default().fg(color);
    assert_eq!(theme::body(), c(Color::White));
    assert_eq!(theme::dim(), c(Color::DarkGray));
    assert_eq!(theme::muted(), c(Color::DarkGray));
    assert_eq!(theme::user(), c(Color::White));
    assert_eq!(theme::thought(), c(Color::Yellow));
    assert_eq!(theme::tool(), c(Color::Gray));
    assert_eq!(theme::tool_running(), c(Color::Cyan));
    assert_eq!(theme::success(), c(Color::Green));
    assert_eq!(theme::error(), c(Color::Red));
    assert_eq!(theme::inline_code(), c(Color::Green));
    assert_eq!(theme::list_marker(), c(Color::Yellow));
    assert_eq!(theme::code_border(), c(Color::DarkGray));
    assert_eq!(theme::code_body(), c(Color::Gray));
    assert_eq!(theme::status_mode(), c(Color::White).add_modifier(Modifier::Bold));
    assert_eq!(theme::status_meta(), c(Color::DarkGray));
    assert_eq!(theme::status_accent(), c(Color::Cyan));
    assert_eq!(theme::input_text(), c(Color::White));
    assert_eq!(theme::keyword(), c(Color::Cyan));
    assert_eq!(theme::number(), c(Color::Yellow));
    assert_eq!(theme::type_style(), c(Color::Green).add_modifier(Modifier::Bold));
    assert_eq!(theme::heading(2), c(Color::White).add_modifier(Modifier::Bold));
    assert_eq!(theme::heading(3), c(Color::Gray).add_modifier(Modifier::Bold));
}
