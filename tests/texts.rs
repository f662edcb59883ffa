use axfm::footer_bar::{
    default_app_text, describe_content_type, describe_guessed_mime, get_disk_space,
    get_file_type_description, item_count_text, main_type_description, main_type_of,
    pick_disk_space, selection_info_text, DiskSpace,
};
use axfm::headerbar::window_title;
use axfm::popup_menu::{get_empty_right_click, get_file_right_click, MenuAction};
use axfm::sidebar::{
    bookmark_tooltip, is_sidebar_heading, place_icon_name, place_names, sidebar_labels,
    sidebar_row_target, SidebarTarget,
};
use axfm::bookmarks::Bookmark;
use axfm::text::{chars_of, compare_strs, str_eq};
use std::cmp::Ordering;

#[test]
fn item_counts() {
    assert_eq!(item_count_text(1), "1 item");
    assert_eq!(item_count_text(0), "0 items");
    assert_eq!(item_count_text(42), "42 items");
    assert_eq!(item_count_text(1000), "1000 items");
    assert_eq!(item_count_text(usize::MAX), format!("{} items", usize::MAX));
}

#[test]
fn selection_and_app_texts() {
    assert_eq!(selection_info_text(true, "x", "y"), "Directory");
    assert_eq!(selection_info_text(false, "PNG Image", "1.00 KB"), "PNG Image - 1.00 KB");
    assert_eq!(default_app_text(true, Some("Viewer".into())), "Opens with: Viewer");
    assert_eq!(default_app_text(false, Some("Viewer".into())), "");
    assert_eq!(default_app_text(true, None), "");
}

#[test]
fn content_type_descriptions() {
    assert_eq!(describe_content_type("application/pdf"), "PDF Document");
    assert_eq!(describe_content_type("image/jpg"), "JPEG Image");
    assert_eq!(describe_content_type("image/jpeg"), "JPEG Image");
    assert_eq!(describe_content_type("application/gzip"), "GZIP Archive");
    assert_eq!(describe_content_type("application/x-foo"), "APPLICATION file");
    assert_eq!(describe_content_type("inode/directory"), "INODE file");
    assert_eq!(describe_content_type("weird"), "WEIRD file");
    assert_eq!(describe_content_type(""), " file");
    assert_eq!(main_type_of("text/x-c/extra"), "text");
    assert_eq!(main_type_of("plain"), "plain");
    assert_eq!(main_type_description("IMAGE"), "IMAGE file");
}

#[test]
fn guessed_types() {
    assert_eq!(describe_guessed_mime("application/pdf"), "PDF Document");
    assert_eq!(describe_guessed_mime("text/plain"), "Text File");
    assert_eq!(describe_guessed_mime("image/png"), "image/png");
    assert_eq!(get_file_type_description(None, Some("/tmp/report.pdf".into())), "PDF Document");
    assert_eq!(get_file_type_description(None, Some("/tmp/notes.txt".into())), "Text File");
    assert_eq!(get_file_type_description(None, Some("/tmp/pic.PNG".into())), "image/png");
    assert_eq!(get_file_type_description(None, Some("/tmp/noext".into())), "Unknown type");
    assert_eq!(get_file_type_description(None, None), "Unknown type");
    assert_eq!(
        get_file_type_description(Some("video/mp4".into()), Some("/tmp/x.pdf".into())),
        "MP4 Video"
    );
}

#[test]
fn disk_lookup_takes_first_holder() {
    let disks = vec![
        DiskSpace { mount_point: "/boot".into(), available: 1, total: 2 },
        DiskSpace { mount_point: "/home".into(), available: 30, total: 40 },
        DiskSpace { mount_point: "/".into(), available: 5, total: 10 },
    ];
    assert_eq!(get_disk_space("/home/u/docs", &disks), Some((30, 40)));
    assert_eq!(get_disk_space("/homework", &disks), Some((5, 10)));
    assert_eq!(get_disk_space("/etc", &disks), Some((5, 10)));
    assert_eq!(get_disk_space("relative", &disks), None);
    assert_eq!(pick_disk_space(&disks, &vec![false, true, true]), Some((30, 40)));
    assert_eq!(pick_disk_space(&disks, &vec![false, false, false]), None);
}

#[test]
fn sidebar_rows() {
    let places = place_names();
    assert_eq!(places, vec!["Home", "Documents", "Downloads", "Music", "Pictures", "Videos", "Trash"]);
    let bms = vec![
        Bookmark::new("proj".into(), "/p".into()),
        Bookmark::new("proj".into(), "/q".into()),
        Bookmark::new("web".into(), "https://x".into()),
    ];
    let labels = sidebar_labels(&places, &bms);
    assert_eq!(labels.len(), 12);
    assert_eq!(labels[0], "Places");
    assert_eq!(labels[1], "Home");
    assert_eq!(labels[8], "Bookmarks");
    assert_eq!(&labels[9..], &["proj", "proj", "web"]);
    assert!(is_sidebar_heading("Places"));
    assert!(is_sidebar_heading("Bookmarks"));
    assert!(!is_sidebar_heading("Home"));
    assert_eq!(place_icon_name("Home"), "user-home");
    assert_eq!(place_icon_name("Downloads"), "folder-download");
    assert_eq!(place_icon_name("Trash"), "user-trash");
    assert_eq!(place_icon_name("proj"), "folder");
    assert_eq!(bookmark_tooltip(&bms, "proj"), Some("/p".to_string()));
    assert_eq!(bookmark_tooltip(&bms, "web"), Some("https://x".to_string()));
    assert_eq!(bookmark_tooltip(&bms, "none"), None);
}

#[test]
fn context_menus() {
    assert_eq!(get_empty_right_click(), vec![MenuAction::NewFolder, MenuAction::OpenTerminalHere]);
    let file_menu: Vec<&str> = get_file_right_click(true, false).iter().map(|a| a.label()).collect();
    assert_eq!(file_menu, vec!["Open File", "Cut", "Copy", "Paste", "Move to Trash", "Rename..."]);
    let dir_menu: Vec<&str> = get_file_right_click(false, true).iter().map(|a| a.label()).collect();
    assert_eq!(dir_menu, vec!["Cut", "Copy", "Paste", "Move to Trash", "Rename...", "Open in Terminal"]);
    assert!(get_file_right_click(false, false).is_empty());
    assert_eq!(MenuAction::from_label("Rename..."), Some(MenuAction::Rename));
    assert_eq!(MenuAction::from_label("Open Terminal Here"), Some(MenuAction::OpenTerminalHere));
    assert_eq!(MenuAction::from_label("Delete"), None);
    assert_eq!(MenuAction::MoveToTrash.icon_name(), "user-trash-symbolic");
}

#[test]
fn titles_and_strings() {
    assert_eq!(window_title(Some("Music".into())), "Music");
    assert_eq!(window_title(None), "Ax File Manager");
    assert_eq!(chars_of("héllo"), vec!['h', 'é', 'l', 'l', 'o']);
    assert_eq!(compare_strs("abc", "abd"), Ordering::Less);
    assert_eq!(compare_strs("ab", "a"), Ordering::Greater);
    assert_eq!(compare_strs("é", "z"), "é".cmp("z"));
    assert!(str_eq("x", "x"));
    assert!(!str_eq("x", "X"));
}

#[test]
fn sidebar_row_targets() {
    let places = place_names();
    let bms = vec![
        Bookmark::new("proj".into(), "/p".into()),
        Bookmark::new("Music".into(), "/elsewhere".into()),
        Bookmark::new("proj".into(), "/q".into()),
    ];
    assert!(sidebar_row_target("Places", &places, &bms).is_none());
    assert!(sidebar_row_target("Bookmarks", &places, &bms).is_none());
    assert!(matches!(sidebar_row_target("Music", &places, &bms), Some(SidebarTarget::Place(3))));
    assert!(matches!(sidebar_row_target("Trash", &places, &bms), Some(SidebarTarget::Place(6))));
    match sidebar_row_target("proj", &places, &bms) {
        Some(SidebarTarget::Bookmark(p)) => assert_eq!(p, "/p"),
        _ => panic!("a bookmark row leads to its path"),
    }
    assert!(sidebar_row_target("nothing", &places, &bms).is_none());
}
