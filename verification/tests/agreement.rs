use std::path::{Component, Path};

use lithos::container_config::{is_space, parse_port};
use lithos::identity::is_word;
use lithos::sandbox_config::{Range, SandboxConfig};
use lithos::text::{format_decimal, is_ascii_digit, same_text, split_text};

fn sandbox(levels: u32) -> SandboxConfig {
    SandboxConfig {
        config_file: None,
        image_dir: "/images".to_string(),
        image_dir_levels: levels,
        used_images_list: None,
        log_file: None,
        log_level: None,
        readonly_paths: vec![],
        writable_paths: vec![],
        allow_users: vec![],
        allow_groups: vec![],
        allow_tcp_ports: vec![],
        additional_hosts: vec![],
        uid_map: vec![],
        gid_map: vec![],
        auto_clean: true,
    }
}

fn by_components(path: &str, levels: u32) -> bool {
    let mut num = 0;
    for component in Path::new(path).components() {
        match component {
            Component::Normal(_) => num += 1,
            _ => return false,
        }
    }
    num == levels
}

#[test]
fn check_path_counts_as_the_path_components_do() {
    let pieces = ["", "a", ".", "..", "bc", "a.b", "...", " "];
    let mut paths: Vec<String> = vec![String::new()];
    for _ in 0..4 {
        let mut longer = Vec::new();
        for p in &paths {
            for piece in pieces {
                longer.push(format!("{}/{}", p, piece));
                longer.push(format!("{}{}", p, piece));
            }
        }
        paths.extend(longer);
        paths.sort();
        paths.dedup();
        paths.truncate(4000);
    }
    for path in &paths {
        for levels in 0..4 {
            assert_eq!(
                sandbox(levels).check_path(path),
                by_components(path, levels),
                "{:?} at {}",
                path,
                levels
            );
        }
    }
}

#[test]
fn white_space_is_the_white_space_of_char() {
    for code in 0..=0x10ffffu32 {
        if let Some(c) = char::from_u32(code) {
            assert_eq!(is_space(c), c.is_whitespace(), "{:?}", c);
        }
    }
}

#[test]
fn word_characters_are_ascii_letters_digits_dash_and_underscore() {
    for code in 0..=0x10ffffu32 {
        if let Some(c) = char::from_u32(code) {
            let want = c.is_ascii() && c.is_alphanumeric() || c == '-' || c == '_';
            assert_eq!(is_word(c), want, "{:?}", c);
            assert_eq!(is_ascii_digit(c), c.is_ascii_digit(), "{:?}", c);
        }
    }
}

#[test]
fn ports_are_read_as_u16_is_parsed() {
    for text in [
        "", "0", "00", "7", "+7", "-7", "++7", "+", "65535", "65536", "065535", "99999", " 1",
        "1 ", "1e3", "0x10", "٣", "1_000", "4294967296", "+0", "-0", "18446744073709551616",
    ] {
        assert_eq!(parse_port(text), text.parse::<u16>().ok(), "{:?}", text);
    }
    for n in 0..=65535u32 {
        assert_eq!(parse_port(&n.to_string()), Some(n as u16));
    }
}

#[test]
fn single_numbers_are_ranges_as_u32_is_parsed() {
    for text in ["0", "+12", "4294967295", "4294967296", "", "x", "-3", "007"] {
        let want = text.parse::<u32>().ok().map(|n| Range::new(n, n));
        assert_eq!(Range::parse(text), want, "{:?}", text);
    }
}

#[test]
fn numbers_are_written_as_display_writes_them() {
    for n in [0u64, 1, 9, 10, 11, 99, 100, 101, 999, 1000, 65535, 4294967295, u64::MAX - 1, u64::MAX]
    {
        assert_eq!(format_decimal(n), n.to_string());
    }
    for n in 0..3000u64 {
        assert_eq!(format_decimal(n), n.to_string());
    }
}

#[test]
fn split_is_the_split_of_str() {
    for text in ["", "/", "//", "a", "a/", "/a", "a/b", "a//b", "/a/b/", "é/ü//"] {
        let want: Vec<String> = text.split('/').map(|p| p.to_string()).collect();
        assert_eq!(split_text(text, '/'), want, "{:?}", text);
    }
}

#[test]
fn same_text_is_the_equality_of_str() {
    let texts = ["", "a", "ab", "ba", "é", "e\u{301}", "web.0", "web.0 "];
    for a in texts {
        for b in texts {
            assert_eq!(same_text(a, b), a == b, "{:?} {:?}", a, b);
        }
    }
}
