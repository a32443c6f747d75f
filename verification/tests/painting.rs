use lsc::colors::ColorScheme;
use lsc::{run, Config, DirItem, FileKind, FileMeta, RunError};
use std::path::PathBuf;

#[test]
fn parse_text_paints_when_colors_are_on() {
    colored::control::set_override(true);
    let mut scheme = ColorScheme::new();
    scheme.add_rgb("dir".to_string(), 33, 158, 188);
    let out = scheme.parse_text("dir".to_string(), "src");
    assert_ne!(out, "src");
    assert!(out.starts_with("\x1b["));
    assert!(out.ends_with("src\x1b[0m"));
}

#[test]
fn truecolor_or_nearest_basic_code() {
    colored::control::set_override(true);
    let mut scheme = ColorScheme::new();
    scheme.add_rgb("kb".to_string(), 173, 40, 49);
    let out = scheme.parse_text("kb".to_string(), "KB");
    let truecolor = "\x1b[38;2;173;40;49mKB\x1b[0m";
    assert!(out == truecolor || out == "\x1b[31mKB\x1b[0m");
}

#[test]
fn run_long_listing_with_colors() {
    colored::control::set_override(true);
    let mk = |name: &str, size: i64| {
        let m = FileMeta {
            path: PathBuf::from(name),
            name: name.to_string(),
            kind: FileKind { is_dir: false, is_symlink: false },
            mode: 0o100644,
            uid: 1000,
            gid: 1000,
            size,
        };
        DirItem::Entry { name: name.to_string(), meta: Some(m), listing: None }
    };
    let config = Config { path: PathBuf::from("."), long_list: 1, all_files: false, sort_size: false, number_subfolders: 2 };
    match run(&config, vec![mk("zeta", 300), mk("alpha", 10)], 80) {
        Ok(out) => {
            let lines: Vec<&str> = out.split('\n').collect();
            assert_eq!(lines.len(), 3);
            assert!(lines[0].starts_with("Permissions User"));
            assert!(lines[1].ends_with("alpha\x1b[0m"));
            assert!(lines[2].ends_with("zeta\x1b[0m"));
        }
        Err(e) => {
            assert_eq!(e, RunError::NarrowGroupColumn);
            let mut scheme = ColorScheme::new();
            scheme.add_rgb("group_perm".to_string(), 209, 73, 91);
            assert!(scheme.parse_text("group_perm".to_string(), "1000").len() < 21);
        }
    }
}

fn strip_escapes(s: &str) -> String {
    let mut out = String::new();
    let mut in_sequence = false;
    for c in s.chars() {
        if in_sequence {
            if c == 'm' {
                in_sequence = false;
            }
        } else if c == '\x1b' {
            in_sequence = true;
        } else {
            out.push(c);
        }
    }
    out
}

#[test]
fn painting_strips_back_to_text() {
    colored::control::set_override(true);
    let mut scheme = ColorScheme::new();
    scheme.add_rgb("group_perm".to_string(), 209, 73, 91);
    for text in ["1000", "héllo wörld", ""] {
        let out = scheme.parse_text("group_perm".to_string(), text);
        assert_eq!(strip_escapes(&out), text);
    }
}
