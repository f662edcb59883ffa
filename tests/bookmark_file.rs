use axfm::bookmarks::{
    bookmarks_dir, bookmarks_file_path, bookmarks_from_json, encode_bookmarks,
    extract_json_field, parse_bookmark_object, parse_bookmarks_json, Bookmark,
};

fn bm(n: &str, p: &str) -> Bookmark {
    Bookmark::new(n.to_string(), p.to_string())
}

fn pairs(bs: &[Bookmark]) -> Vec<(String, String)> {
    bs.iter().map(|b| (b.name.clone(), b.path.clone())).collect()
}

#[test]
fn encode_exact_text() {
    let text = encode_bookmarks(&vec![bm("Docs", "/home/u/Docs"), bm("a\"b\\c", "/x")]);
    assert_eq!(
        text,
        "{\"bookmarks\":[{\"name\":\"Docs\",\"path\":\"/home/u/Docs\"},{\"name\":\"a\\\"b\\\\c\",\"path\":\"/x\"}]}"
    );
}

#[test]
fn encode_empty_list() {
    assert_eq!(encode_bookmarks(&vec![]), "{\"bookmarks\":[]}");
}

#[test]
fn round_trip_with_quotes_and_backslashes() {
    let list = vec![
        bm("plain", "/home/u"),
        bm("quote\"d", "C:\\dir\\sub"),
        bm("", ""),
        bm("back\\slash\\", "trash:///"),
        bm("new\nline", "tab\there"),
        bm("plain", "/home/u"),
    ];
    let text = encode_bookmarks(&list);
    let back = parse_bookmarks_json(&text).expect("written text reads back");
    assert_eq!(pairs(&back), pairs(&list));
}

#[test]
fn round_trip_empty() {
    let back = parse_bookmarks_json(&encode_bookmarks(&vec![])).unwrap();
    assert!(back.is_empty());
}

#[test]
fn reader_understands_escapes() {
    let text = "{\"bookmarks\":[{\"name\":\"a\\nb\\tc\\rd\",\"path\":\"x\\qy\"}]}";
    let back = parse_bookmarks_json(text).unwrap();
    assert_eq!(pairs(&back), vec![("a\nb\tc\rd".to_string(), "x\\qy".to_string())]);
}

#[test]
fn reader_allows_whitespace_and_skips_bad_objects() {
    let text = "{ \"bookmarks\" : [ {\"name\": \"A\", \"path\":  \"/a\"} , {\"name\":\"only\"}, {\"path\":\"/p\",\"name\":\"B\"} ] }";
    let back = parse_bookmarks_json(text).unwrap();
    assert_eq!(
        pairs(&back),
        vec![("A".to_string(), "/a".to_string()), ("B".to_string(), "/p".to_string())]
    );
}

#[test]
fn reader_rejects_text_without_array() {
    assert!(parse_bookmarks_json("").is_none());
    assert!(parse_bookmarks_json("{\"bookmarks\":{}}").is_none());
    assert!(parse_bookmarks_json("] [").is_none());
    assert!(bookmarks_from_json("not json").is_empty());
}

#[test]
fn reader_on_empty_array() {
    assert!(parse_bookmarks_json("{\"bookmarks\":[]}").unwrap().is_empty());
    assert!(parse_bookmarks_json("[   ]").unwrap().is_empty());
}

#[test]
fn field_needs_a_quoted_value() {
    let obj: Vec<char> = "{\"name\": 5, \"path\":\"/p\"}".chars().collect();
    assert_eq!(extract_json_field(&obj, "name"), None);
    assert_eq!(extract_json_field(&obj, "path"), Some("/p".to_string()));
    assert_eq!(extract_json_field(&obj, "other"), None);
    assert!(parse_bookmark_object(&obj).is_none());
    let open: Vec<char> = "{\"name\":\"unterminated".chars().collect();
    assert_eq!(extract_json_field(&open, "name"), Some("unterminated".to_string()));
}

#[test]
fn bookmark_from_location() {
    let b = Bookmark::from_file(Some("Music".to_string()), Some("/home/u/Music".to_string()), "file:///home/u/Music".to_string());
    assert_eq!((b.name.as_str(), b.path.as_str()), ("Music", "/home/u/Music"));
    let t = Bookmark::from_file(None, None, "trash:///".to_string());
    assert_eq!((t.name.as_str(), t.path.as_str()), ("Bookmark", "trash:///"));
}

#[test]
fn bookmarks_file_location() {
    assert_eq!(
        bookmarks_file_path(Some("/cfg".to_string()), Some("/home/u".to_string())),
        "/cfg/axfm/bookmarks.json"
    );
    assert_eq!(
        bookmarks_file_path(None, Some("/home/u".to_string())),
        "/home/u/.config/axfm/bookmarks.json"
    );
    assert_eq!(bookmarks_file_path(None, None), "./.config/axfm/bookmarks.json");
    assert_eq!(
        bookmarks_file_path(Some(String::new()), Some("/h".to_string())),
        "/h/.config/axfm/bookmarks.json"
    );
    assert_eq!(bookmarks_dir(Some(String::new()), None), "./.config/axfm");
    assert_eq!(bookmarks_dir(None, Some("/home/u".to_string())), "/home/u/.config/axfm");
}
