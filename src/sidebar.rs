use vstd::prelude::*;

use crate::bookmarks::Bookmark;
use crate::text::str_eq;

verus! {

/// The quick-access places, in the order the sidebar lists them.
pub open spec fn place_names_spec() -> Seq<Seq<char>> {
    seq!["Home"@, "Documents"@, "Downloads"@, "Music"@, "Pictures"@, "Videos"@, "Trash"@]
}

/// The names of the quick-access places, in sidebar order.
pub fn place_names() -> (r: Vec<String>)
    ensures
        r@.map_values(|s: String| s@) == place_names_spec(),
{
    let mut r: Vec<String> = Vec::new();
    r.push(String::from_str("Home"));
    r.push(String::from_str("Documents"));
    r.push(String::from_str("Downloads"));
    r.push(String::from_str("Music"));
    r.push(String::from_str("Pictures"));
    r.push(String::from_str("Videos"));
    r.push(String::from_str("Trash"));
    assert(r@.map_values(|s: String| s@) =~= place_names_spec());
    r
}

/// The sidebar rows: the "Places" heading, the places, the "Bookmarks"
/// heading, then each bookmark's name.
pub fn sidebar_labels(places: &Vec<String>, bookmarks: &Vec<Bookmark>) -> (r: Vec<String>)
    requires
        places@.len() + bookmarks@.len() + 2 <= usize::MAX,
    ensures
        r@.len() == places@.len() + bookmarks@.len() + 2,
        r@[0]@ == "Places"@,
        forall|k: int| 0 <= k < places@.len() ==> #[trigger] r@[k + 1] == places@[k],
        r@[places@.len() as int + 1]@ == "Bookmarks"@,
        forall|k: int|
            0 <= k < bookmarks@.len() ==> #[trigger] r@[places@.len() as int + 2 + k]
                == bookmarks@[k].name,
{
    let mut r: Vec<String> = Vec::new();
    r.push(String::from_str("Places"));
    let mut i: usize = 0;
    while i < places.len()
        invariant
            i <= places@.len(),
            r@.len() == i + 1,
            r@[0]@ == "Places"@,
            forall|k: int| 0 <= k < i ==> #[trigger] r@[k + 1] == places@[k],
        decreases places@.len() - i,
    {
        r.push(places[i].clone());
        i = i + 1;
    }
    r.push(String::from_str("Bookmarks"));
    let base = places.len() + 2;
    let mut j: usize = 0;
    while j < bookmarks.len()
        invariant
            base == places@.len() + 2,
            j <= bookmarks@.len(),
            r@.len() == base + j,
            r@[0]@ == "Places"@,
            forall|k: int| 0 <= k < places@.len() ==> #[trigger] r@[k + 1] == places@[k],
            r@[places@.len() as int + 1]@ == "Bookmarks"@,
            forall|k: int| 0 <= k < j ==> #[trigger] r@[base + k] == bookmarks@[k].name,
        decreases bookmarks@.len() - j,
    {
        r.push(bookmarks[j].name.clone());
        j = j + 1;
    }
    r
}

/// A sidebar row that heads a section rather than naming a location.
pub fn is_sidebar_heading(label: &str) -> (r: bool)
    ensures
        r == (label@ == "Places"@ || label@ == "Bookmarks"@),
{
    str_eq(label, "Places") || str_eq(label, "Bookmarks")
}

/// The icon shown beside a place of the sidebar.
pub open spec fn place_icon_spec(name: Seq<char>) -> Seq<char> {
    if name == "Home"@ {
        "user-home"@
    } else if name == "Documents"@ {
        "folder-documents"@
    } else if name == "Downloads"@ {
        "folder-download"@
    } else if name == "Music"@ {
        "folder-music"@
    } else if name == "Pictures"@ {
        "folder-pictures"@
    } else if name == "Videos"@ {
        "folder-videos"@
    } else if name == "Trash"@ {
        "user-trash"@
    } else {
        "folder"@
    }
}

/// The icon name for a place of the sidebar.
pub fn place_icon_name(name: &str) -> (r: &'static str)
    ensures
        r@ == place_icon_spec(name@),
{
    if str_eq(name, "Home") {
        "user-home"
    } else if str_eq(name, "Documents") {
        "folder-documents"
    } else if str_eq(name, "Downloads") {
        "folder-download"
    } else if str_eq(name, "Music") {
        "folder-music"
    } else if str_eq(name, "Pictures") {
        "folder-pictures"
    } else if str_eq(name, "Videos") {
        "folder-videos"
    } else if str_eq(name, "Trash") {
        "user-trash"
    } else {
        "folder"
    }
}

/// Index of the first bookmark at or after `i` named `name`.
pub open spec fn first_named(bookmarks: Seq<Bookmark>, name: Seq<char>, i: int) -> Option<int>
    decreases bookmarks.len() - i,
{
    if i < 0 || i >= bookmarks.len() {
        None
    } else if bookmarks[i].name@ == name {
        Some(i)
    } else {
        first_named(bookmarks, name, i + 1)
    }
}

/// The path of the first bookmark named `label`, for its tooltip.
pub fn bookmark_tooltip(bookmarks: &Vec<Bookmark>, label: &str) -> (r: Option<String>)
    ensures
        first_named(bookmarks@, label@, 0) matches Some(k) ==> r == Some(bookmarks@[k].path),
        first_named(bookmarks@, label@, 0) is None ==> r is None,
{
    let mut i: usize = 0;
    while i < bookmarks.len()
        invariant
            i <= bookmarks@.len(),
            first_named(bookmarks@, label@, 0) == first_named(bookmarks@, label@, i as int),
        decreases bookmarks@.len() - i,
    {
        if str_eq(bookmarks[i].name.as_str(), label) {
            return Some(bookmarks[i].path.clone());
        }
        i = i + 1;
    }
    None
}

/// Where a sidebar row leads.
pub enum SidebarTarget {
    /// The place at this index of the places list.
    Place(usize),
    /// A bookmark, by its path.
    Bookmark(String),
}

/// Index of the first place at or after `i` named `name`.
pub open spec fn first_place(places: Seq<String>, name: Seq<char>, i: int) -> Option<int>
    decreases places.len() - i,
{
    if i < 0 || i >= places.len() {
        None
    } else if places[i]@ == name {
        Some(i)
    } else {
        first_place(places, name, i + 1)
    }
}

/// Where the row `label` leads: nowhere for a heading; else the first place
/// of that name; else the path of the first bookmark of that name; else
/// nowhere.
pub fn sidebar_row_target(label: &str, places: &Vec<String>, bookmarks: &Vec<Bookmark>) -> (r:
    Option<SidebarTarget>)
    ensures
        (label@ == "Places"@ || label@ == "Bookmarks"@) ==> r is None,
        !(label@ == "Places"@ || label@ == "Bookmarks"@) ==> match first_place(
            places@,
            label@,
            0,
        ) {
            Some(k) => r matches Some(SidebarTarget::Place(i)) && i == k,
            None => match first_named(bookmarks@, label@, 0) {
                Some(k) => r matches Some(SidebarTarget::Bookmark(p)) && p == bookmarks@[k].path,
                None => r is None,
            },
        },
{
    if is_sidebar_heading(label) {
        return None;
    }
    let mut i: usize = 0;
    while i < places.len()
        invariant
            !(label@ == "Places"@ || label@ == "Bookmarks"@),
            i <= places@.len(),
            first_place(places@, label@, 0) == first_place(places@, label@, i as int),
        decreases places@.len() - i,
    {
        if str_eq(places[i].as_str(), label) {
            return Some(SidebarTarget::Place(i));
        }
        i = i + 1;
    }
    match bookmark_tooltip(bookmarks, label) {
        Some(p) => Some(SidebarTarget::Bookmark(p)),
        None => None,
    }
}

} // verus!
