use fung_preng_app::text::{chars_of, file_stem, is_blank, is_whitespace, join_path, lines, trim};

#[test]
fn whitespace_agrees_with_std() {
    for c in ['\t', '\n', '\u{b}', '\u{c}', '\r', ' ', '\u{85}', '\u{a0}', '\u{1680}', '\u{2000}', '\u{200a}',
        '\u{2028}', '\u{2029}', '\u{202f}', '\u{205f}', '\u{3000}', 'a', '0', '\u{200b}', '\u{feff}', '\u{180e}'] {
        assert_eq!(is_whitespace(c), c.is_whitespace(), "char {:?}", c);
    }
}

#[test]
fn trim_like_std() {
    for s in ["", "   ", " a b ", "\u{3000}x\t", "no-space", "\n\r\n"] {
        assert_eq!(trim(s), s.trim());
        assert_eq!(is_blank(s), s.trim().is_empty());
    }
}

#[test]
fn lines_like_std() {
    for s in ["", "a", "a\n", "a\nb", "a\r\nb\r\n", "\n", "\n\n", "a\r", "x\ry\nz", "a\n\nb"] {
        let expected: Vec<String> = s.lines().map(String::from).collect();
        assert_eq!(lines(s), expected, "input {:?}", s);
    }
}

#[test]
fn join_and_stem() {
    assert_eq!(join_path("/tmp", "f.wav"), "/tmp/f.wav");
    assert_eq!(join_path("/tmp/", "f.wav"), "/tmp/f.wav");
    assert_eq!(join_path("", "f.wav"), "f.wav");
    assert_eq!(join_path("/tmp", "/etc/f"), "/etc/f");
    for (base, name) in [("./cache", "abc.wav"), ("./cache/", "abc.wav"), ("", "x"), ("/", "x"), ("a", "/b"),
        ("a//", "b"), ("a", ""), ("", "")] {
        let expected = std::path::Path::new(base).join(name).to_str().unwrap().to_string();
        assert_eq!(join_path(base, name), expected, "join {:?} {:?}", base, name);
    }
    for name in ["automix_1.m4a", "a.tar.gz", ".hidden", "noext", "trail.", "", ".", "..", "...", ".a.b"] {
        let expected = std::path::Path::new(name).file_stem().map(|s| s.to_str().unwrap().to_string());
        assert_eq!(file_stem(name), expected, "name {:?}", name);
    }
    assert_eq!(file_stem("a.tar.gz"), Some("a.tar".to_string()));
    assert_eq!(file_stem(".."), None);
    assert_eq!(chars_of("héllo"), vec!['h', 'é', 'l', 'l', 'o']);
}
