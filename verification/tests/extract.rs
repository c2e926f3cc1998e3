use fung_preng_app::extract::{extract_args, is_output_file, output_template, stem_for, temp_file_stem, watch_url};

#[test]
fn page_address() {
    assert_eq!(watch_url("abc123"), "https://www.youtube.com/watch?v=abc123");
}

#[test]
fn stems_are_unique_uuids() {
    let a = temp_file_stem();
    let b = temp_file_stem();
    assert_ne!(a, b);
    assert_eq!(a.len(), 44);
    assert!(a.starts_with("automix_"));
    let id = &a[8..];
    for (i, c) in id.chars().enumerate() {
        if [8, 13, 18, 23].contains(&i) {
            assert_eq!(c, '-');
        } else {
            assert!(c.is_ascii_hexdigit() && !c.is_ascii_uppercase());
        }
    }
    assert_eq!(id.as_bytes()[14], b'4');
}

#[test]
fn template_and_args() {
    let t = output_template("/tmp", "automix_x");
    assert_eq!(t, "/tmp/automix_x.%(ext)s");
    let args = extract_args(&t, "https://www.youtube.com/watch?v=v");
    assert_eq!(
        args,
        vec!["-f", "bestaudio[ext=m4a]/bestaudio", "-o", "/tmp/automix_x.%(ext)s", "--no-playlist", "--no-warnings",
            "https://www.youtube.com/watch?v=v"]
    );
}

#[test]
fn output_file_recognised() {
    assert!(is_output_file("automix_x.m4a", "automix_x"));
    assert!(is_output_file("automix_x.webm", "automix_x"));
    assert!(!is_output_file("automix_y.m4a", "automix_x"));
    assert!(!is_output_file("automix_x.part.m4a", "automix_x"));
    assert!(!is_output_file("..", "."));
    assert!(!is_output_file("", ""));
}

#[test]
fn stem_from_drawn_id() {
    assert_eq!(stem_for("67e55044-10b1-426f-9247-bb680e5fe0c8"), "automix_67e55044-10b1-426f-9247-bb680e5fe0c8");
    assert_eq!(stem_for(""), "automix_");
}
