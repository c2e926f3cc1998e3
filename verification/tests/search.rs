use fung_preng_app::search::{
    entry_from_json, page_lines, parse_json, search_arg, search_page, suggestion_query, suggestions_from_response,
    thumbnail_url, JsonValue,
};

fn s(x: &str) -> JsonValue {
    JsonValue::Str(x.to_string())
}

#[test]
fn suggestions_take_first_eight_strings() {
    let items: Vec<JsonValue> = (0..12)
        .map(|i| if i == 2 { JsonValue::Number("3".to_string()) } else { s(&format!("q{i}")) })
        .collect();
    let v = JsonValue::Array(vec![s("query"), JsonValue::Array(items)]);
    let got = suggestions_from_response(&v);
    assert_eq!(got, vec!["q0", "q1", "q3", "q4", "q5", "q6", "q7", "q8"]);
}

#[test]
fn suggestions_missing_give_none() {
    assert!(suggestions_from_response(&JsonValue::Null).is_empty());
    assert!(suggestions_from_response(&JsonValue::Array(vec![s("q")])).is_empty());
    assert!(suggestions_from_response(&JsonValue::Array(vec![s("q"), s("not array")])).is_empty());
    let v = JsonValue::Array(vec![s("q"), JsonValue::Array(vec![JsonValue::Bool(true), s("one")])]);
    assert_eq!(suggestions_from_response(&v), vec!["one"]);
}

#[test]
fn suggestion_query_trims() {
    assert_eq!(suggestion_query("  daft punk \n"), Some("daft punk".to_string()));
    assert_eq!(suggestion_query(" \t "), None);
    assert_eq!(suggestion_query(""), None);
}

#[test]
fn search_argument() {
    assert_eq!(search_arg("lofi beats", 0), "ytsearch10:lofi beats");
    assert_eq!(search_arg("x", 20), "ytsearch30:x");
    assert_eq!(search_arg("x", usize::MAX), format!("ytsearch{}:x", usize::MAX));
}

#[test]
fn page_of_lines() {
    let out: String = (0..25).map(|i| format!("{{\"id\":\"{i}\"}}\n")).collect();
    let page = page_lines(&out, 10);
    assert_eq!(page.len(), 10);
    assert_eq!(page[0], "{\"id\":\"10\"}");
    assert_eq!(page_lines(&out, 20).len(), 5);
    assert!(page_lines(&out, 25).is_empty());
    assert!(page_lines(&out, 100).is_empty());
}

#[test]
fn entry_fields_and_defaults() {
    let v = JsonValue::Object(vec![
        ("duration".to_string(), JsonValue::Number("212.0".to_string())),
        ("id".to_string(), s("dQw4w9WgXcQ")),
        ("title".to_string(), s("Song")),
    ]);
    let e = entry_from_json(&v);
    assert_eq!(e.id, "dQw4w9WgXcQ");
    assert_eq!(e.title, "Song");
    assert_eq!(e.channel, "Unknown");
    assert_eq!(e.duration, Some("212.0".to_string()));
    assert_eq!(e.thumbnail_url, "https://i.ytimg.com/vi/dQw4w9WgXcQ/hqdefault.jpg");
    let e = entry_from_json(&JsonValue::Array(vec![]));
    assert_eq!(e.id, "");
    assert_eq!(e.title, "Unknown");
    assert_eq!(e.duration, None);
    assert_eq!(e.thumbnail_url, "https://i.ytimg.com/vi//hqdefault.jpg");
    assert_eq!(thumbnail_url("a"), "https://i.ytimg.com/vi/a/hqdefault.jpg");
}

#[test]
fn json_text_is_parsed() {
    match parse_json("{\"b\": [1, 2.5, \"x\"], \"a\": null, \"c\": true}") {
        Some(JsonValue::Object(entries)) => {
            let keys: Vec<&str> = entries.iter().map(|(k, _)| k.as_str()).collect();
            assert_eq!(keys, vec!["a", "b", "c"]);
            match &entries[1].1 {
                JsonValue::Array(xs) => {
                    assert_eq!(xs.len(), 3);
                    assert!(matches!(&xs[0], JsonValue::Number(t) if t == "1"));
                    assert!(matches!(&xs[1], JsonValue::Number(t) if t == "2.5"));
                    assert!(matches!(&xs[2], JsonValue::Str(t) if t == "x"));
                }
                _ => panic!("array expected"),
            }
            assert!(matches!(entries[0].1, JsonValue::Null));
            assert!(matches!(entries[2].1, JsonValue::Bool(true)));
        }
        _ => panic!("object expected"),
    }
    assert!(parse_json("not json").is_none());
    assert!(parse_json("").is_none());
    assert!(matches!(parse_json(" 7 "), Some(JsonValue::Number(t)) if t == "7"));
}

#[test]
fn page_of_results() {
    let mut out = String::new();
    for i in 0..12 {
        if i == 3 {
            out.push_str("garbage line\n");
        } else {
            out.push_str(&format!("{{\"id\":\"v{i}\",\"title\":\"T{i}\",\"uploader\":\"U\",\"duration\":{i}}}\n"));
        }
    }
    let page = search_page(&out, 0);
    assert_eq!(page.len(), 9);
    assert_eq!(page[0].id, "v0");
    assert_eq!(page[3].id, "v4");
    assert_eq!(page[3].title, "T4");
    assert_eq!(page[3].channel, "U");
    assert_eq!(page[3].duration, Some("4".to_string()));
    assert_eq!(page[3].thumbnail_url, "https://i.ytimg.com/vi/v4/hqdefault.jpg");
    let second = search_page(&out, 10);
    assert_eq!(second.len(), 2);
    assert_eq!(second[1].id, "v11");
    assert!(search_page(&out, 12).is_empty());
    assert!(search_page("", 0).is_empty());
}
