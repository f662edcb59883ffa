use axfm::file_item::{count_visible, is_visible, visible_entries, FileItem};
use axfm::settings::SortColumn;
use axfm::sorters::{compare_items, compare_with_folders_first, sort_items};
use std::cmp::Ordering;

fn item(name: &str, size: u64, modified: i64, mime: &str, dir: bool) -> FileItem {
    FileItem::new(format!("/d/{}", name), name.to_string(), size, modified, mime.to_string(), dir)
}

fn names(v: &[FileItem]) -> Vec<String> {
    v.iter().map(|f| f.display_name.clone()).collect()
}

fn sample() -> Vec<FileItem> {
    vec![
        item("beta.txt", 300, 20, "Text", false),
        item("Alpha", 0, 50, "Folder", true),
        item("alpha.txt", 100, 10, "Text", false),
        item("zeta", 0, 5, "Folder", true),
        item("Gamma.png", 200, 30, "Image", false),
    ]
}

#[test]
fn name_sort_folders_first() {
    let sorted = sort_items(sample(), SortColumn::Name, true);
    assert_eq!(names(&sorted), vec!["Alpha", "zeta", "alpha.txt", "beta.txt", "Gamma.png"]);
}

#[test]
fn name_sort_without_folders_first() {
    let sorted = sort_items(sample(), SortColumn::Name, false);
    assert_eq!(names(&sorted), vec!["Alpha", "alpha.txt", "beta.txt", "Gamma.png", "zeta"]);
}

#[test]
fn size_date_and_type_sorts() {
    let by_size = sort_items(sample(), SortColumn::Size, false);
    assert_eq!(names(&by_size), vec!["Alpha", "zeta", "alpha.txt", "Gamma.png", "beta.txt"]);
    let by_date = sort_items(sample(), SortColumn::ModifiedDate, true);
    assert_eq!(names(&by_date), vec!["zeta", "Alpha", "alpha.txt", "beta.txt", "Gamma.png"]);
    let by_type = sort_items(sample(), SortColumn::Type, false);
    assert_eq!(names(&by_type), vec!["Alpha", "zeta", "Gamma.png", "beta.txt", "alpha.txt"]);
}

#[test]
fn folders_first_for_every_key() {
    for col in [SortColumn::Name, SortColumn::Size, SortColumn::ModifiedDate, SortColumn::Type] {
        let sorted = sort_items(sample(), col, true);
        let first_file = sorted.iter().position(|f| !f.is_directory).unwrap();
        assert!(sorted[first_file..].iter().all(|f| !f.is_directory));
    }
}

#[test]
fn sorting_twice_changes_nothing() {
    for col in [SortColumn::Name, SortColumn::Size, SortColumn::ModifiedDate, SortColumn::Type] {
        for ff in [true, false] {
            let once = sort_items(sample(), col, ff);
            let once_names = names(&once);
            let twice = sort_items(once, col, ff);
            assert_eq!(names(&twice), once_names);
        }
    }
}

#[test]
fn equal_keys_keep_their_order() {
    let v = vec![
        item("b", 5, 0, "T", false),
        item("a", 5, 0, "T", false),
        item("c", 1, 0, "T", false),
        item("d", 5, 0, "T", false),
    ];
    let sorted = sort_items(v, SortColumn::Size, true);
    assert_eq!(names(&sorted), vec!["c", "b", "a", "d"]);
}

#[test]
fn sort_empty_list() {
    assert!(sort_items(vec![], SortColumn::Name, true).is_empty());
}

#[test]
fn comparators() {
    let dir = item("zz", 0, 0, "Folder", true);
    let file = item("AA", 9, 0, "Text", false);
    assert_eq!(compare_items(&dir, &file, SortColumn::Name, true), Ordering::Less);
    assert_eq!(compare_items(&file, &dir, SortColumn::Name, true), Ordering::Greater);
    assert_eq!(compare_items(&dir, &file, SortColumn::Name, false), Ordering::Greater);
    let upper = item("README", 0, 0, "", false);
    let lower = item("readme", 0, 0, "", false);
    assert_eq!(compare_items(&upper, &lower, SortColumn::Name, false), Ordering::Equal);
    assert_eq!(compare_items(&dir, &file, SortColumn::Size, false), Ordering::Less);
    assert_eq!(compare_with_folders_first(&file, &dir, true, Ordering::Less), Ordering::Greater);
    assert_eq!(compare_with_folders_first(&file, &dir, false, Ordering::Less), Ordering::Less);
    assert_eq!(compare_with_folders_first(&file, &file, true, Ordering::Equal), Ordering::Equal);
}

#[test]
fn hidden_entries_filtered() {
    let v = vec![
        item(".hidden", 1, 0, "T", false),
        item("shown", 1, 0, "T", false),
        item(".config", 0, 0, "Folder", true),
        item("a.b", 1, 0, "T", false),
    ];
    let visible = visible_entries(v, false);
    assert_eq!(names(&visible), vec!["shown", "a.b"]);
    let v2 = vec![
        item(".hidden", 1, 0, "T", false),
        item("shown", 1, 0, "T", false),
        item(".config", 0, 0, "Folder", true),
        item("a.b", 1, 0, "T", false),
    ];
    let all = visible_entries(v2, true);
    assert_eq!(names(&all), vec![".hidden", "shown", ".config", "a.b"]);
    assert!(names(&visible).iter().all(|n| names(&all).contains(n)));
}

#[test]
fn counting_visible_names() {
    let v: Vec<String> = vec![".a".into(), "b".into(), "c".into(), "..".into()];
    assert_eq!(count_visible(&v, false), 2);
    assert_eq!(count_visible(&v, true), 4);
    assert_eq!(count_visible(&vec![], false), 0);
    assert!(is_visible(&"x".to_string(), false));
    assert!(!is_visible(&".x".to_string(), false));
    assert!(is_visible(&".x".to_string(), true));
    assert!(is_visible(&String::new(), false));
}

#[test]
fn file_item_from_query() {
    let hidden = FileItem::from_file("/d/.x".into(), ".x".into(), 3, Some(7), None, false, false);
    assert!(hidden.is_none());
    let f = FileItem::from_file("/d/.x".into(), ".x".into(), 3, None, None, false, true).unwrap();
    assert_eq!(f.modified, 0);
    assert_eq!(f.mime_type, "Unknown");
    assert_eq!(f.size, 3);
    let g = FileItem::from_file("/d/y".into(), "y".into(), 4, Some(9), Some("PNG image".into()), true, false).unwrap();
    assert_eq!((g.modified, g.mime_type.as_str(), g.is_directory, g.path.as_str()), (9, "PNG image", true, "/d/y"));
}

#[test]
fn ties_keep_input_order_for_every_key() {
    let v = || vec![
        item("x", 7, 3, "Text", false),
        item("X", 7, 3, "Text", false),
        item("d", 0, 3, "Folder", true),
        item("x", 7, 3, "Text", false),
    ];
    let sorted = sort_items(v(), SortColumn::Name, true);
    let paths: Vec<String> = sorted.iter().map(|f| f.display_name.clone()).collect();
    assert_eq!(paths, vec!["d", "x", "X", "x"]);
    let by_date = sort_items(v(), SortColumn::ModifiedDate, false);
    assert_eq!(names(&by_date), vec!["x", "X", "d", "x"]);
    let again = sort_items(v(), SortColumn::ModifiedDate, false);
    assert_eq!(names(&again), names(&by_date));
}
