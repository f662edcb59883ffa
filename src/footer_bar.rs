use vstd::prelude::*;

use crate::bookmarks::first_index_from;
use crate::text::{
    chars_of, decimal, push_decimal, push_str_chars, str_eq, string_from_chars, upper_of,
    uppercase,
};

verus! {

/// What `mime_guess::from_path(path).first()` gives, as the essence string
/// (`type/subtype`) of the guessed type.
pub uninterp spec fn guessed_mime(path: Seq<char>) -> Option<Seq<char>>;

/// What `Path::starts_with` answers: `base` is a whole-component prefix of
/// `path`.
pub uninterp spec fn path_has_prefix(path: Seq<char>, base: Seq<char>) -> bool;

/// Relies on `mime_guess::from_path` and `MimeGuess::first`: a guess from
/// the path's extension alone, through a fixed table; no disk access.
#[verifier::external_body]
fn guess_mime(path: &str) -> (r: Option<String>)
    ensures
        r matches Some(m) ==> guessed_mime(path@) == Some(m@),
        r is None ==> guessed_mime(path@) is None,
{
    match mime_guess::from_path(path).first() {
        Some(m) => Some(m.essence_str().to_string()),
        None => None,
    }
}

/// Relies on `std::path::Path::starts_with`, on the two strings as paths.
#[verifier::external_body]
fn path_starts_with(path: &str, base: &str) -> (r: bool)
    ensures
        r == path_has_prefix(path@, base@),
{
    std::path::Path::new(path).starts_with(base)
}

/// The footer's count of listed items.
pub open spec fn item_count_spec(count: nat) -> Seq<char> {
    if count == 1 {
        "1 item"@
    } else {
        decimal(count) + " items"@
    }
}

/// "1 item", or the count followed by " items".
pub fn item_count_text(count: usize) -> (r: String)
    ensures
        r@ == item_count_spec(count as nat),
{
    if count == 1 {
        String::from_str("1 item")
    } else {
        let mut out: Vec<char> = Vec::new();
        push_decimal(&mut out, count);
        push_str_chars(&mut out, " items");
        string_from_chars(&out)
    }
}

/// The footer's text for a selected entry: "Directory", or the type
/// description and the size text joined by " - ".
pub fn selection_info_text(is_directory: bool, type_description: &str, size_text: &str) -> (r:
    String)
    ensures
        is_directory ==> r@ == "Directory"@,
        !is_directory ==> r@ == type_description@ + " - "@ + size_text@,
{
    if is_directory {
        String::from_str("Directory")
    } else {
        let mut out = chars_of(type_description);
        push_str_chars(&mut out, " - ");
        push_str_chars(&mut out, size_text);
        string_from_chars(&out)
    }
}

/// The footer's application text: only a regular file with a default
/// application shows "Opens with: " and the application's name.
pub fn default_app_text(is_regular: bool, app_name: Option<String>) -> (r: String)
    ensures
        is_regular && app_name is Some ==> r@ == "Opens with: "@ + app_name->0@,
        !(is_regular && app_name is Some) ==> r@.len() == 0,
{
    match app_name {
        Some(name) => {
            if is_regular {
                let mut out = chars_of("Opens with: ");
                push_str_chars(&mut out, name.as_str());
                string_from_chars(&out)
            } else {
                String::new()
            }
        },
        None => String::new(),
    }
}

/// The part of a content type before its first `/`, or all of it.
pub open spec fn main_type(ct: Seq<char>) -> Seq<char> {
    match first_index_from(ct, '/', 0) {
        Some(k) => ct.subrange(0, k),
        None => ct,
    }
}

/// The friendly name of a content type that the footer knows by name.
pub open spec fn known_content_type(ct: Seq<char>) -> Option<Seq<char>> {
    if ct == "application/pdf"@ {
        Some("PDF Document"@)
    } else if ct == "text/plain"@ {
        Some("Text File"@)
    } else if ct == "text/html"@ {
        Some("HTML Document"@)
    } else if ct == "image/jpeg"@ || ct == "image/jpg"@ {
        Some("JPEG Image"@)
    } else if ct == "image/png"@ {
        Some("PNG Image"@)
    } else if ct == "image/gif"@ {
        Some("GIF Image"@)
    } else if ct == "image/svg+xml"@ {
        Some("SVG Image"@)
    } else if ct == "video/mp4"@ {
        Some("MP4 Video"@)
    } else if ct == "video/x-matroska"@ {
        Some("MKV Video"@)
    } else if ct == "audio/mpeg"@ {
        Some("MP3 Audio"@)
    } else if ct == "audio/ogg"@ {
        Some("OGG Audio"@)
    } else if ct == "application/zip"@ {
        Some("ZIP Archive"@)
    } else if ct == "application/x-tar"@ {
        Some("TAR Archive"@)
    } else if ct == "application/gzip"@ {
        Some("GZIP Archive"@)
    } else {
        None
    }
}

/// The description of a content type: its friendly name where known, else
/// its main type in upper case followed by " file".
pub open spec fn content_type_description(ct: Seq<char>) -> Seq<char> {
    match known_content_type(ct) {
        Some(d) => d,
        None => upper_of(main_type(ct)) + " file"@,
    }
}

/// The friendly name of a guessed type: PDF and plain text by name, any
/// other as its essence string.
pub open spec fn guessed_description(mime: Seq<char>) -> Seq<char> {
    if mime == "application/pdf"@ {
        "PDF Document"@
    } else if mime == "text/plain"@ {
        "Text File"@
    } else {
        mime
    }
}

/// The friendly name of `ct` where the footer knows it.
pub fn known_content_type_name(ct: &str) -> (r: Option<String>)
    ensures
        r matches Some(d) ==> known_content_type(ct@) == Some(d@),
        r is None ==> known_content_type(ct@) is None,
{
    if str_eq(ct, "application/pdf") {
        Some(String::from_str("PDF Document"))
    } else if str_eq(ct, "text/plain") {
        Some(String::from_str("Text File"))
    } else if str_eq(ct, "text/html") {
        Some(String::from_str("HTML Document"))
    } else if str_eq(ct, "image/jpeg") || str_eq(ct, "image/jpg") {
        Some(String::from_str("JPEG Image"))
    } else if str_eq(ct, "image/png") {
        Some(String::from_str("PNG Image"))
    } else if str_eq(ct, "image/gif") {
        Some(String::from_str("GIF Image"))
    } else if str_eq(ct, "image/svg+xml") {
        Some(String::from_str("SVG Image"))
    } else if str_eq(ct, "video/mp4") {
        Some(String::from_str("MP4 Video"))
    } else if str_eq(ct, "video/x-matroska") {
        Some(String::from_str("MKV Video"))
    } else if str_eq(ct, "audio/mpeg") {
        Some(String::from_str("MP3 Audio"))
    } else if str_eq(ct, "audio/ogg") {
        Some(String::from_str("OGG Audio"))
    } else if str_eq(ct, "application/zip") {
        Some(String::from_str("ZIP Archive"))
    } else if str_eq(ct, "application/x-tar") {
        Some(String::from_str("TAR Archive"))
    } else if str_eq(ct, "application/gzip") {
        Some(String::from_str("GZIP Archive"))
    } else {
        None
    }
}

/// The part of `ct` before its first `/`, or all of it.
pub fn main_type_of(ct: &str) -> (r: String)
    ensures
        r@ == main_type(ct@),
{
    let cs = chars_of(ct);
    let mut i: usize = 0;
    while i < cs.len()
        invariant
            cs@ == ct@,
            i <= cs@.len(),
            first_index_from(ct@, '/', 0) == first_index_from(ct@, '/', i as int),
        decreases cs@.len() - i,
    {
        if cs[i] == '/' {
            let mut head = cs;
            head.truncate(i);
            assert(head@ =~= ct@.subrange(0, i as int));
            return string_from_chars(&head);
        }
        i = i + 1;
    }
    String::from_str(ct)
}

/// The description for an unknown content type, from its main type in
/// upper case: that text followed by " file".
pub fn main_type_description(upper_main: &str) -> (r: String)
    ensures
        r@ == upper_main@ + " file"@,
{
    let mut out = chars_of(upper_main);
    push_str_chars(&mut out, " file");
    string_from_chars(&out)
}

/// Describes a content type for the footer and the properties dialog.
pub fn describe_content_type(ct: &str) -> (r: String)
    ensures
        r@ == content_type_description(ct@),
{
    match known_content_type_name(ct) {
        Some(d) => d,
        None => {
            let main = main_type_of(ct);
            let upper = uppercase(main.as_str());
            main_type_description(upper.as_str())
        },
    }
}

/// Describes a type that was guessed from a file name.
pub fn describe_guessed_mime(mime: &str) -> (r: String)
    ensures
        r@ == guessed_description(mime@),
{
    if str_eq(mime, "application/pdf") {
        String::from_str("PDF Document")
    } else if str_eq(mime, "text/plain") {
        String::from_str("Text File")
    } else {
        String::from_str(mime)
    }
}

/// The type description of a file: from its content type where the file
/// system gave one, else from a guess on its local path, else
/// "Unknown type".
pub fn get_file_type_description(content_type: Option<String>, local_path: Option<String>) -> (r:
    String)
    ensures
        content_type matches Some(ct) ==> r@ == content_type_description(ct@),
        content_type is None ==> (match local_path {
            Some(p) => match guessed_mime(p@) {
                Some(m) => r@ == guessed_description(m),
                None => r@ == "Unknown type"@,
            },
            None => r@ == "Unknown type"@,
        }),
{
    match content_type {
        Some(ct) => describe_content_type(ct.as_str()),
        None => match local_path {
            Some(p) => match guess_mime(p.as_str()) {
                Some(m) => describe_guessed_mime(m.as_str()),
                None => String::from_str("Unknown type"),
            },
            None => String::from_str("Unknown type"),
        },
    }
}

/// A mounted disk: where it is mounted, and its free and total bytes.
pub struct DiskSpace {
    pub mount_point: String,
    pub available: u64,
    pub total: u64,
}

/// Index of the first of `disks` whose mount point holds `path`.
pub open spec fn first_disk_for(path: Seq<char>, disks: Seq<DiskSpace>, i: int) -> Option<int>
    decreases disks.len() - i,
{
    if i < 0 || i >= disks.len() {
        None
    } else if path_has_prefix(path, disks[i].mount_point@) {
        Some(i)
    } else {
        first_disk_for(path, disks, i + 1)
    }
}

/// Index of the first `k` at or after `i` with `holds[k]`.
pub open spec fn first_true(holds: Seq<bool>, i: int) -> Option<int>
    decreases holds.len() - i,
{
    if i < 0 || i >= holds.len() {
        None
    } else if holds[i] {
        Some(i)
    } else {
        first_true(holds, i + 1)
    }
}

/// Free and total bytes of the first disk whose entry in `holds` is true.
pub fn pick_disk_space(disks: &Vec<DiskSpace>, holds: &Vec<bool>) -> (r: Option<(u64, u64)>)
    requires
        holds@.len() == disks@.len(),
    ensures
        first_true(holds@, 0) matches Some(k) ==> r == Some(
            (disks@[k].available, disks@[k].total),
        ),
        first_true(holds@, 0) is None ==> r is None,
{
    let mut i: usize = 0;
    while i < holds.len()
        invariant
            holds@.len() == disks@.len(),
            i <= holds@.len(),
            first_true(holds@, 0) == first_true(holds@, i as int),
        decreases holds@.len() - i,
    {
        if holds[i] {
            return Some((disks[i].available, disks[i].total));
        }
        i = i + 1;
    }
    None
}

proof fn lemma_first_true_disk(path: Seq<char>, disks: Seq<DiskSpace>, holds: Seq<bool>, i: int)
    requires
        0 <= i <= disks.len(),
        holds.len() == disks.len(),
        forall|k: int| 0 <= k < disks.len() ==> holds[k] == path_has_prefix(path, #[trigger] disks[k].mount_point@),
    ensures
        first_true(holds, i) == first_disk_for(path, disks, i),
    decreases disks.len() - i,
{
    if i < disks.len() {
        lemma_first_true_disk(path, disks, holds, i + 1);
    }
}

/// Free and total bytes of the first disk, in the order given, whose mount
/// point is a prefix of `path`; `None` where no disk holds it.
pub fn get_disk_space(path: &str, disks: &Vec<DiskSpace>) -> (r: Option<(u64, u64)>)
    ensures
        first_disk_for(path@, disks@, 0) matches Some(k) ==> r == Some(
            (disks@[k].available, disks@[k].total),
        ),
        first_disk_for(path@, disks@, 0) is None ==> r is None,
{
    let mut holds: Vec<bool> = Vec::new();
    let mut i: usize = 0;
    while i < disks.len()
        invariant
            i <= disks@.len(),
            holds@.len() == i,
            forall|k: int| 0 <= k < i ==> holds@[k] == path_has_prefix(path@, #[trigger] disks@[k].mount_point@),
        decreases disks@.len() - i,
    {
        let h = path_starts_with(path, disks[i].mount_point.as_str());
        holds.push(h);
        i = i + 1;
    }
    proof {
        lemma_first_true_disk(path@, disks@, holds@, 0);
    }
    pick_disk_space(disks, &holds)
}

} // verus!
