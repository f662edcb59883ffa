use vstd::prelude::*;

use crate::text::{starts_with_char, str_starts_with_char};

verus! {

/// One directory entry as the file panel shows it. `modified` is seconds
/// since the Unix epoch, 0 where unknown; `mime_type` is the description of
/// the content type.
pub struct FileItem {
    pub path: String,
    pub display_name: String,
    pub size: u64,
    pub modified: i64,
    pub mime_type: String,
    pub is_directory: bool,
}

/// A name that marks a hidden entry: it starts with a dot.
pub open spec fn is_hidden_name(name: Seq<char>) -> bool {
    starts_with_char(name, '.')
}

/// An entry with this name is listed under this setting.
pub open spec fn is_listed(name: Seq<char>, show_hidden: bool) -> bool {
    show_hidden || !is_hidden_name(name)
}

impl FileItem {
    pub fn new(
        path: String,
        display_name: String,
        size: u64,
        modified: i64,
        mime_type: String,
        is_directory: bool,
    ) -> (f: Self)
        ensures
            f.path == path,
            f.display_name == display_name,
            f.size == size,
            f.modified == modified,
            f.mime_type == mime_type,
            f.is_directory == is_directory,
    {
        FileItem { path, display_name, size, modified, mime_type, is_directory }
    }

    /// The entry for what a metadata query returned, or `None` where it is
    /// hidden and hidden entries are not shown. A missing modification time
    /// becomes 0 and a missing type description "Unknown".
    pub fn from_file(
        path: String,
        display_name: String,
        size: u64,
        modified: Option<i64>,
        type_description: Option<String>,
        is_directory: bool,
        show_hidden: bool,
    ) -> (r: Option<Self>)
        ensures
            !is_listed(display_name@, show_hidden) ==> r is None,
            is_listed(display_name@, show_hidden) ==> (r matches Some(f) && {
                &&& f.path == path
                &&& f.display_name == display_name
                &&& f.size == size
                &&& f.modified == (match modified {
                    Some(m) => m,
                    None => 0,
                })
                &&& type_description is Some ==> f.mime_type == type_description->0
                &&& type_description is None ==> f.mime_type@ == "Unknown"@
                &&& f.is_directory == is_directory
            }),
    {
        if !is_visible(&display_name, show_hidden) {
            return None;
        }
        let modified = match modified {
            Some(m) => m,
            None => 0,
        };
        let mime_type = match type_description {
            Some(t) => t,
            None => String::from_str("Unknown"),
        };
        Some(FileItem { path, display_name, size, modified, mime_type, is_directory })
    }
}

/// Whether an entry named `name` is listed under the hidden-entry setting.
pub fn is_visible(name: &String, show_hidden: bool) -> (r: bool)
    ensures
        r == is_listed(name@, show_hidden),
{
    show_hidden || !str_starts_with_char(name.as_str(), '.')
}

/// The entries of `s` that are listed under the setting, in order.
pub open spec fn listed_entries(s: Seq<FileItem>, show_hidden: bool) -> Seq<FileItem>
    decreases s.len(),
{
    if s.len() == 0 {
        Seq::empty()
    } else {
        let rest = listed_entries(s.drop_last(), show_hidden);
        if is_listed(s.last().display_name@, show_hidden) {
            rest.push(s.last())
        } else {
            rest
        }
    }
}

/// The names of `s` that are listed under the setting, in order.
pub open spec fn listed_names(s: Seq<String>, show_hidden: bool) -> Seq<String>
    decreases s.len(),
{
    if s.len() == 0 {
        Seq::empty()
    } else {
        let rest = listed_names(s.drop_last(), show_hidden);
        if is_listed(s.last()@, show_hidden) {
            rest.push(s.last())
        } else {
            rest
        }
    }
}

/// Keeps the entries that are listed under the hidden-entry setting, in
/// their order.
pub fn visible_entries(entries: Vec<FileItem>, show_hidden: bool) -> (r: Vec<FileItem>)
    ensures
        r@ == listed_entries(entries@, show_hidden),
{
    let ghost orig = entries@;
    let mut rest = entries;
    let mut out: Vec<FileItem> = Vec::new();
    let mut i: usize = 0;
    let n = rest.len();
    while rest.len() > 0
        invariant
            n == orig.len(),
            i + rest@.len() == n,
            rest@ == orig.subrange(i as int, n as int),
            out@ == listed_entries(orig.subrange(0, i as int), show_hidden),
        decreases rest@.len(),
    {
        let e = rest.remove(0);
        proof {
            let pre = orig.subrange(0, i + 1);
            assert(pre.drop_last() =~= orig.subrange(0, i as int));
            assert(pre.last() == e);
            assert(rest@ =~= orig.subrange(i + 1, n as int));
        }
        if is_visible(&e.display_name, show_hidden) {
            out.push(e);
        }
        i = i + 1;
    }
    assert(orig.subrange(0, n as int) =~= orig);
    out
}

/// How many of the names are listed under the hidden-entry setting.
pub fn count_visible(names: &Vec<String>, show_hidden: bool) -> (r: usize)
    ensures
        r == listed_names(names@, show_hidden).len(),
{
    let mut count: usize = 0;
    let mut i: usize = 0;
    while i < names.len()
        invariant
            i <= names@.len(),
            count == listed_names(names@.subrange(0, i as int), show_hidden).len(),
            count <= i,
        decreases names@.len() - i,
    {
        proof {
            let pre = names@.subrange(0, i + 1);
            assert(pre.drop_last() =~= names@.subrange(0, i as int));
        }
        if is_visible(&names[i], show_hidden) {
            count = count + 1;
        }
        i = i + 1;
    }
    assert(names@.subrange(0, i as int) =~= names@);
    count
}

proof fn lemma_listed_entries_members(s: Seq<FileItem>, show_hidden: bool)
    ensures
        forall|e: FileItem| #[trigger]
            listed_entries(s, show_hidden).contains(e) <==> (s.contains(e) && is_listed(
                e.display_name@,
                show_hidden,
            )),
    decreases s.len(),
{
    if s.len() > 0 {
        lemma_listed_entries_members(s.drop_last(), show_hidden);
        let rest = listed_entries(s.drop_last(), show_hidden);
        assert forall|e: FileItem| #[trigger]
            listed_entries(s, show_hidden).contains(e) <==> (s.contains(e) && is_listed(
                e.display_name@,
                show_hidden,
            )) by {
            assert(s =~= s.drop_last().push(s.last()));
            if s.contains(e) {
                let k = choose|k: int| 0 <= k < s.len() && s[k] == e;
                if k < s.len() - 1 {
                    assert(s.drop_last()[k] == e);
                }
            }
            if s.drop_last().contains(e) {
                let k = choose|k: int| 0 <= k < s.drop_last().len() && s.drop_last()[k] == e;
                assert(s[k] == e);
            }
            if is_listed(s.last().display_name@, show_hidden) {
                assert(rest.push(s.last())[rest.len() as int] == s.last());
                if rest.contains(e) {
                    let k = choose|k: int| 0 <= k < rest.len() && rest[k] == e;
                    assert(rest.push(s.last())[k] == e);
                }
                if rest.push(s.last()).contains(e) {
                    let k = choose|k: int| 0 <= k < rest.len() + 1 && rest.push(s.last())[k] == e;
                    if k < rest.len() {
                        assert(rest[k] == e);
                    }
                }
            }
        }
    } else {
        assert(listed_entries(s, show_hidden) =~= Seq::empty());
    }
}

/// With hidden entries off, a listing holds exactly the entries whose name
/// does not start with a dot; with them on it holds every entry, so it
/// holds everything the first listing held.
pub proof fn lemma_listing_hidden(entries: Seq<FileItem>)
    ensures
        forall|e: FileItem| #[trigger]
            listed_entries(entries, false).contains(e) <==> (entries.contains(e)
                && !is_hidden_name(e.display_name@)),
        listed_entries(entries, true) == entries,
        forall|e: FileItem|
            listed_entries(entries, false).contains(e) ==> #[trigger] listed_entries(
                entries,
                true,
            ).contains(e),
    decreases entries.len(),
{
    lemma_listed_entries_members(entries, false);
    lemma_listed_entries_members(entries, true);
    lemma_listed_all(entries);
}

proof fn lemma_listed_all(s: Seq<FileItem>)
    ensures
        listed_entries(s, true) == s,
    decreases s.len(),
{
    if s.len() > 0 {
        lemma_listed_all(s.drop_last());
        assert(s.drop_last().push(s.last()) =~= s);
    } else {
        assert(listed_entries(s, true) =~= s);
    }
}

} // verus!
