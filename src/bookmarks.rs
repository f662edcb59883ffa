use vstd::prelude::*;

use crate::text::{chars_of, push_str_chars, string_from_chars};

verus! {

/// A named shortcut to a location: `path` is an absolute path or a URI.
#[derive(Debug, Clone)]
pub struct Bookmark {
    pub name: String,
    pub path: String,
}

/// A bookmark as plain text: (name, path).
pub type BookmarkText = (Seq<char>, Seq<char>);

impl View for Bookmark {
    type V = BookmarkText;

    open spec fn view(&self) -> BookmarkText {
        (self.name@, self.path@)
    }
}

/// The plain text of each bookmark, in order.
pub open spec fn texts(bs: Seq<Bookmark>) -> Seq<BookmarkText> {
    bs.map_values(|b: Bookmark| b@)
}

impl Bookmark {
    pub fn new(name: String, path: String) -> (b: Self)
        ensures
            b.name == name,
            b.path == path,
    {
        Bookmark { name, path }
    }

    /// A bookmark for a location: named after its base name, or
    /// "Bookmark" where it has none; its path is the local path where there
    /// is one, else the URI.
    pub fn from_file(basename: Option<String>, local_path: Option<String>, uri: String) -> (b:
        Self)
        ensures
            basename is Some ==> b.name == basename->0,
            basename is None ==> b.name@ == "Bookmark"@,
            local_path is Some ==> b.path == local_path->0,
            local_path is None ==> b.path == uri,
    {
        let name = match basename {
            Some(n) => n,
            None => String::from_str("Bookmark"),
        };
        let path = match local_path {
            Some(p) => p,
            None => uri,
        };
        Bookmark { name, path }
    }
}

/// The per-user configuration directory: `$XDG_CONFIG_HOME` where it is
/// set and not empty, else `$HOME/.config`, else `./.config`.
pub open spec fn config_dir_of(xdg_config_home: Option<String>, home: Option<String>) -> Seq<char> {
    match xdg_config_home {
        Some(x) if x@.len() > 0 => x@,
        _ => match home {
            Some(h) => h@ + "/.config"@,
            None => "./.config"@,
        },
    }
}

fn config_dir(xdg_config_home: Option<String>, home: Option<String>) -> (r: Vec<char>)
    ensures
        r@ == config_dir_of(xdg_config_home, home),
{
    let xdg = match xdg_config_home {
        Some(x) => if x.as_str().unicode_len() > 0 {
            Some(x)
        } else {
            None
        },
        None => None,
    };
    match xdg {
        Some(x) => chars_of(x.as_str()),
        None => match home {
            Some(h) => {
                let mut out = chars_of(h.as_str());
                push_str_chars(&mut out, "/.config");
                out
            },
            None => chars_of("./.config"),
        },
    }
}

/// The directory that holds the bookmarks file, from the values of
/// `XDG_CONFIG_HOME` and `HOME`.
pub fn bookmarks_dir(xdg_config_home: Option<String>, home: Option<String>) -> (r: String)
    ensures
        r@ == config_dir_of(xdg_config_home, home) + "/axfm"@,
{
    let mut out = config_dir(xdg_config_home, home);
    push_str_chars(&mut out, "/axfm");
    string_from_chars(&out)
}

/// The bookmarks file, from the values of `XDG_CONFIG_HOME` and `HOME`.
pub fn bookmarks_file_path(xdg_config_home: Option<String>, home: Option<String>) -> (r: String)
    ensures
        r@ == config_dir_of(xdg_config_home, home) + "/axfm/bookmarks.json"@,
{
    let mut out = config_dir(xdg_config_home, home);
    push_str_chars(&mut out, "/axfm/bookmarks.json");
    string_from_chars(&out)
}

// ---------------------------------------------------------------------
// The file format: {"bookmarks":[{"name":"...","path":"..."},...]}
// ---------------------------------------------------------------------

/// How one character of a value is written: backslash and double quote
/// get a backslash in front, everything else stands as it is.
pub open spec fn escape_char(c: char) -> Seq<char> {
    if c == '\\' || c == '"' {
        seq!['\\', c]
    } else {
        seq![c]
    }
}

/// A value as written in the file, without its quotes.
pub open spec fn escape(s: Seq<char>) -> Seq<char>
    decreases s.len(),
{
    if s.len() == 0 {
        Seq::empty()
    } else {
        escape(s.drop_last()) + escape_char(s.last())
    }
}

pub open spec fn object_open() -> Seq<char> {
    seq!['{', '"', 'n', 'a', 'm', 'e', '"', ':', '"']
}

pub open spec fn object_middle() -> Seq<char> {
    seq!['"', ',', '"', 'p', 'a', 't', 'h', '"', ':', '"']
}

pub open spec fn object_close() -> Seq<char> {
    seq!['"', '}']
}

pub open spec fn list_open() -> Seq<char> {
    seq!['{', '"', 'b', 'o', 'o', 'k', 'm', 'a', 'r', 'k', 's', '"', ':', '[']
}

pub open spec fn list_close() -> Seq<char> {
    seq![']', '}']
}

/// One bookmark as written in the file.
pub open spec fn encode_object(b: BookmarkText) -> Seq<char> {
    object_open() + escape(b.0) + object_middle() + escape(b.1) + object_close()
}

/// The bookmarks written one after the other, separated by commas.
pub open spec fn encode_items(bs: Seq<BookmarkText>) -> Seq<char>
    decreases bs.len(),
{
    if bs.len() == 0 {
        Seq::empty()
    } else if bs.len() == 1 {
        encode_object(bs[0])
    } else {
        encode_items(bs.drop_last()) + seq![','] + encode_object(bs.last())
    }
}

/// The whole file for a list of bookmarks.
pub open spec fn encode_list(bs: Seq<BookmarkText>) -> Seq<char> {
    list_open() + encode_items(bs) + list_close()
}

fn push_escaped(out: &mut Vec<char>, s: &String)
    ensures
        final(out)@ == old(out)@ + escape(s@),
{
    let cs = chars_of(s.as_str());
    let mut i: usize = 0;
    while i < cs.len()
        invariant
            cs@ == s@,
            i <= cs@.len(),
            out@ == old(out)@ + escape(s@.subrange(0, i as int)),
        decreases cs@.len() - i,
    {
        let c = cs[i];
        if c == '\\' || c == '"' {
            out.push('\\');
        }
        out.push(c);
        proof {
            let pre = s@.subrange(0, i + 1);
            assert(pre.drop_last() =~= s@.subrange(0, i as int));
            assert(pre.last() == c);
        }
        i = i + 1;
        assert(out@ =~= old(out)@ + escape(s@.subrange(0, i as int)));
    }
    assert(s@.subrange(0, i as int) =~= s@);
}

fn push_object(out: &mut Vec<char>, b: &Bookmark)
    ensures
        final(out)@ == old(out)@ + encode_object(b@),
{
    out.push('{');
    out.push('"');
    out.push('n');
    out.push('a');
    out.push('m');
    out.push('e');
    out.push('"');
    out.push(':');
    out.push('"');
    assert(out@ =~= old(out)@ + object_open());
    push_escaped(out, &b.name);
    out.push('"');
    out.push(',');
    out.push('"');
    out.push('p');
    out.push('a');
    out.push('t');
    out.push('h');
    out.push('"');
    out.push(':');
    out.push('"');
    assert(out@ =~= old(out)@ + object_open() + escape(b.name@) + object_middle());
    push_escaped(out, &b.path);
    out.push('"');
    out.push('}');
    assert(out@ =~= old(out)@ + encode_object(b@));
}

/// The file contents for `bookmarks`: each name and path in double
/// quotes, with backslash and double quote escaped by a backslash.
pub fn encode_bookmarks(bookmarks: &Vec<Bookmark>) -> (r: String)
    ensures
        r@ == encode_list(texts(bookmarks@)),
{
    let mut out: Vec<char> = Vec::new();
    out.push('{');
    out.push('"');
    out.push('b');
    out.push('o');
    out.push('o');
    out.push('k');
    out.push('m');
    out.push('a');
    out.push('r');
    out.push('k');
    out.push('s');
    out.push('"');
    out.push(':');
    out.push('[');
    assert(out@ =~= list_open());
    let mut i: usize = 0;
    while i < bookmarks.len()
        invariant
            i <= bookmarks@.len(),
            out@ == list_open() + encode_items(texts(bookmarks@.subrange(0, i as int))),
        decreases bookmarks@.len() - i,
    {
        if i > 0 {
            out.push(',');
        }
        push_object(&mut out, &bookmarks[i]);
        proof {
            let pre = texts(bookmarks@.subrange(0, i + 1));
            assert(pre.drop_last() =~= texts(bookmarks@.subrange(0, i as int)));
            assert(pre.last() == bookmarks@[i as int]@);
            if i == 0 {
                assert(texts(bookmarks@.subrange(0, 0)) =~= Seq::empty());
                assert(encode_items(texts(bookmarks@.subrange(0, 0))) =~= Seq::empty());
            }
        }
        i = i + 1;
        assert(out@ =~= list_open() + encode_items(texts(bookmarks@.subrange(0, i as int))));
    }
    out.push(']');
    out.push('}');
    assert(bookmarks@.subrange(0, i as int) =~= bookmarks@);
    assert(out@ =~= encode_list(texts(bookmarks@)));
    string_from_chars(&out)
}

// ---------------------------------------------------------------------
// Reading the file back
// ---------------------------------------------------------------------

/// Index of the first `c` in `s` at or after `i`.
pub open spec fn first_index_from(s: Seq<char>, c: char, i: int) -> Option<int>
    decreases s.len() - i,
{
    if i < 0 || i >= s.len() {
        None
    } else if s[i] == c {
        Some(i)
    } else {
        first_index_from(s, c, i + 1)
    }
}

/// Index of the last `c` in `s` before `i`.
pub open spec fn last_index_before(s: Seq<char>, c: char, i: int) -> Option<int>
    decreases i,
{
    if i <= 0 || i > s.len() {
        None
    } else if s[i - 1] == c {
        Some(i - 1)
    } else {
        last_index_before(s, c, i - 1)
    }
}

/// Where the reader stands while it cuts the array into objects: the
/// brace depth, the object read so far, the objects completed.
pub type ScanState = (int, Seq<char>, Seq<Seq<char>>);

pub open spec fn scan_start() -> ScanState {
    (0, Seq::empty(), Seq::empty())
}

/// One character of the array: braces change the depth, characters inside
/// braces are kept, and a closing brace back at depth zero completes an
/// object.
pub open spec fn scan_step(st: ScanState, c: char) -> ScanState {
    if c == '{' {
        (st.0 + 1, st.1.push(c), st.2)
    } else if c == '}' {
        if st.0 - 1 == 0 {
            (0, Seq::empty(), st.2.push(st.1.push(c)))
        } else {
            (st.0 - 1, st.1.push(c), st.2)
        }
    } else if st.0 > 0 {
        (st.0, st.1.push(c), st.2)
    } else {
        st
    }
}

pub open spec fn scan_run(st: ScanState, s: Seq<char>) -> ScanState
    decreases s.len(),
{
    if s.len() == 0 {
        st
    } else {
        scan_run(scan_step(st, s[0]), s.drop_first())
    }
}

/// `s` holds `p` at index `i`.
pub open spec fn matches_at(s: Seq<char>, p: Seq<char>, i: int) -> bool {
    0 <= i && i + p.len() <= s.len() && s.subrange(i, i + p.len()) == p
}

/// Index of the first occurrence of `p` in `s` at or after `i`.
pub open spec fn find_from(s: Seq<char>, p: Seq<char>, i: int) -> Option<int>
    decreases s.len() + 1 - i,
{
    if i < 0 || i + p.len() > s.len() {
        None
    } else if matches_at(s, p, i) {
        Some(i)
    } else {
        find_from(s, p, i + 1)
    }
}

/// The characters that `char::is_whitespace` accepts (Unicode White_Space).
pub open spec fn is_ws(c: char) -> bool {
    let u = c as u32;
    ||| 0x09 <= u <= 0x0D
    ||| u == 0x20
    ||| u == 0x85
    ||| u == 0xA0
    ||| u == 0x1680
    ||| 0x2000 <= u <= 0x200A
    ||| u == 0x2028
    ||| u == 0x2029
    ||| u == 0x202F
    ||| u == 0x205F
    ||| u == 0x3000
}

/// Index of the first character at or after `i` that is not white space.
pub open spec fn skip_ws(s: Seq<char>, i: int) -> int
    decreases s.len() - i,
{
    if i < 0 || i >= s.len() {
        i
    } else if is_ws(s[i]) {
        skip_ws(s, i + 1)
    } else {
        i
    }
}

/// What an escape sequence `\c` stands for: `\n`, `\t`, `\r`, `\\` and
/// `\"` are read, any other is kept as the two characters.
pub open spec fn unescape_char(c: char) -> Seq<char> {
    if c == 'n' {
        seq!['\n']
    } else if c == 't' {
        seq!['\t']
    } else if c == 'r' {
        seq!['\r']
    } else if c == '\\' || c == '"' {
        seq![c]
    } else {
        seq!['\\', c]
    }
}

/// A quoted value read from just after its opening quote, up to the first
/// double quote that no backslash escapes, or to the end.
pub open spec fn unescape(s: Seq<char>) -> Seq<char>
    decreases s.len(),
{
    if s.len() == 0 || s[0] == '"' {
        Seq::empty()
    } else if s[0] == '\\' {
        if s.len() == 1 {
            Seq::empty()
        } else {
            unescape_char(s[1]) + unescape(s.subrange(2, s.len() as int))
        }
    } else {
        seq![s[0]] + unescape(s.drop_first())
    }
}

/// The text `"field":` that introduces a field.
pub open spec fn field_pattern(field: Seq<char>) -> Seq<char> {
    seq!['"'] + field + seq!['"', ':']
}

/// The value of `field` in an object: found after the first occurrence of
/// its pattern and any white space, where it must open with a quote.
pub open spec fn field_value(obj: Seq<char>, field: Seq<char>) -> Option<Seq<char>> {
    match find_from(obj, field_pattern(field), 0) {
        None => None,
        Some(k) => {
            let v = skip_ws(obj, k + field_pattern(field).len());
            if 0 <= v < obj.len() && obj[v] == '"' {
                Some(unescape(obj.subrange(v + 1, obj.len() as int)))
            } else {
                None
            }
        },
    }
}

pub open spec fn name_field() -> Seq<char> {
    seq!['n', 'a', 'm', 'e']
}

pub open spec fn path_field() -> Seq<char> {
    seq!['p', 'a', 't', 'h']
}

/// The bookmark an object holds, where it has both fields.
pub open spec fn object_bookmark(obj: Seq<char>) -> Option<BookmarkText> {
    match (field_value(obj, name_field()), field_value(obj, path_field())) {
        (Some(n), Some(p)) => Some((n, p)),
        _ => None,
    }
}

/// The bookmarks of a run of objects; objects without both fields are
/// skipped.
pub open spec fn objects_bookmarks(objs: Seq<Seq<char>>) -> Seq<BookmarkText>
    decreases objs.len(),
{
    if objs.len() == 0 {
        Seq::empty()
    } else {
        let rest = objects_bookmarks(objs.drop_last());
        match object_bookmark(objs.last()) {
            Some(b) => rest.push(b),
            None => rest,
        }
    }
}

/// What the reader makes of a file: the objects between the first `[` and
/// the last `]`; `None` where either is missing or they are out of order.
pub open spec fn decode_list(json: Seq<char>) -> Option<Seq<BookmarkText>> {
    match (first_index_from(json, '[', 0), last_index_before(json, ']', json.len() as int)) {
        (Some(a), Some(b)) => if a < b {
            Some(objects_bookmarks(scan_run(scan_start(), json.subrange(a + 1, b)).2))
        } else {
            None
        },
        _ => None,
    }
}

fn find_char(s: &Vec<char>, c: char) -> (r: Option<usize>)
    ensures
        r matches Some(i) ==> first_index_from(s@, c, 0) == Some(i as int),
        r is None ==> first_index_from(s@, c, 0) is None,
{
    let mut i: usize = 0;
    while i < s.len()
        invariant
            i <= s@.len(),
            first_index_from(s@, c, 0) == first_index_from(s@, c, i as int),
        decreases s@.len() - i,
    {
        if s[i] == c {
            return Some(i);
        }
        i = i + 1;
    }
    None
}

fn rfind_char(s: &Vec<char>, c: char) -> (r: Option<usize>)
    ensures
        r matches Some(i) ==> last_index_before(s@, c, s@.len() as int) == Some(i as int),
        r is None ==> last_index_before(s@, c, s@.len() as int) is None,
{
    let mut i: usize = s.len();
    while i > 0
        invariant
            i <= s@.len(),
            last_index_before(s@, c, s@.len() as int) == last_index_before(s@, c, i as int),
        decreases i,
    {
        if s[i - 1] == c {
            return Some(i - 1);
        }
        i = i - 1;
    }
    None
}

proof fn lemma_scan_run_push(st: ScanState, s: Seq<char>, c: char)
    ensures
        scan_run(st, s.push(c)) == scan_step(scan_run(st, s), c),
    decreases s.len(),
{
    if s.len() > 0 {
        assert(s.push(c)[0] == s[0]);
        assert(s.push(c).drop_first() =~= s.drop_first().push(c));
        lemma_scan_run_push(scan_step(st, s[0]), s.drop_first(), c);
    } else {
        assert(s.push(c)[0] == c);
        assert(s.push(c).drop_first() =~= Seq::<char>::empty());
        assert(scan_run(scan_step(st, c), Seq::<char>::empty()) == scan_step(st, c));
    }
}

proof fn lemma_find_from_found(s: Seq<char>, p: Seq<char>, i: int)
    requires
        find_from(s, p, i) is Some,
    ensures
        i <= find_from(s, p, i)->0,
        matches_at(s, p, find_from(s, p, i)->0),
    decreases s.len() + 1 - i,
{
    if !matches_at(s, p, i) {
        lemma_find_from_found(s, p, i + 1);
    }
}

proof fn lemma_last_index_found(s: Seq<char>, c: char, i: int)
    requires
        last_index_before(s, c, i) is Some,
    ensures
        0 <= last_index_before(s, c, i)->0 < i <= s.len(),
    decreases i,
{
    if s[i - 1] != c {
        lemma_last_index_found(s, c, i - 1);
    }
}

/// Cuts `s[lo..hi]` into the objects that brace depth delimits.
fn split_objects(s: &Vec<char>, lo: usize, hi: usize) -> (r: Vec<Vec<char>>)
    requires
        lo <= hi <= s@.len(),
    ensures
        r@.map_values(|o: Vec<char>| o@) == scan_run(scan_start(), s@.subrange(lo as int, hi as int)).2,
{
    let mut objs: Vec<Vec<char>> = Vec::new();
    let mut cur: Vec<char> = Vec::new();
    // The depth is `up - down`; at most one of the two is nonzero.
    let mut up: usize = 0;
    let mut down: usize = 0;
    let mut i: usize = lo;
    while i < hi
        invariant
            lo <= i <= hi <= s@.len(),
            up == 0 || down == 0,
            up + down <= i - lo,
            scan_run(scan_start(), s@.subrange(lo as int, i as int)) == (
                up as int - down as int,
                cur@,
                objs@.map_values(|o: Vec<char>| o@),
            ),
        decreases hi - i,
    {
        let c = s[i];
        let ghost st = (up as int - down as int, cur@, objs@.map_values(|o: Vec<char>| o@));
        if c == '{' {
            if down > 0 {
                down = down - 1;
            } else {
                up = up + 1;
            }
            cur.push(c);
        } else if c == '}' {
            cur.push(c);
            if up == 1 {
                up = 0;
                let done = cur;
                objs.push(done);
                cur = Vec::new();
            } else if up > 1 {
                up = up - 1;
            } else {
                down = down + 1;
            }
        } else if up > 0 {
            cur.push(c);
        }
        proof {
            assert(s@.subrange(lo as int, i + 1) =~= s@.subrange(lo as int, i as int).push(c));
            lemma_scan_run_push(scan_start(), s@.subrange(lo as int, i as int), c);
            assert(objs@.map_values(|o: Vec<char>| o@) =~= scan_step(st, c).2);
            assert(cur@ =~= scan_step(st, c).1);
        }
        i = i + 1;
    }
    objs
}

/// First occurrence of `p` in `s`.
fn find_pattern(s: &Vec<char>, p: &Vec<char>) -> (r: Option<usize>)
    ensures
        r matches Some(i) ==> find_from(s@, p@, 0) == Some(i as int),
        r is None ==> find_from(s@, p@, 0) is None,
{
    if p.len() > s.len() {
        return None;
    }
    let n = s.len();
    let last = n - p.len();
    let mut i: usize = 0;
    loop
        invariant
            n == s@.len(),
            p@.len() <= s@.len(),
            last == s@.len() - p@.len(),
            i <= last,
            find_from(s@, p@, 0) == find_from(s@, p@, i as int),
        decreases last - i,
    {
        let mut j: usize = 0;
        let mut same = true;
        while j < p.len() && same
            invariant
                i <= last,
                n == s@.len(),
                p@.len() <= s@.len(),
                last == s@.len() - p@.len(),
                j <= p@.len(),
                same ==> forall|t: int| 0 <= t < j ==> s@[i + t] == p@[t],
                !same ==> !matches_at(s@, p@, i as int),
            decreases p@.len() - j,
        {
            if s[i + j] != p[j] {
                same = false;
                proof {
                    assert(s@.subrange(i as int, i + p@.len())[j as int] == s@[i + j]);
                }
            }
            j = j + 1;
        }
        if same {
            assert(s@.subrange(i as int, i + p@.len()) =~= p@);
            return Some(i);
        }
        if i == last {
            assert(find_from(s@, p@, i + 1) is None);
            return None;
        }
        i = i + 1;
    }
}

fn is_whitespace(c: char) -> (r: bool)
    ensures
        r == is_ws(c),
{
    let u = c as u32;
    (0x09 <= u && u <= 0x0D) || u == 0x20 || u == 0x85 || u == 0xA0 || u == 0x1680 || (0x2000 <= u
        && u <= 0x200A) || u == 0x2028 || u == 0x2029 || u == 0x202F || u == 0x205F || u == 0x3000
}

fn skip_whitespace(s: &Vec<char>, start: usize) -> (r: usize)
    requires
        start <= s@.len(),
    ensures
        r == skip_ws(s@, start as int),
        start <= r <= s@.len(),
{
    let mut i = start;
    while i < s.len() && is_whitespace(s[i])
        invariant
            start <= i <= s@.len(),
            skip_ws(s@, start as int) == skip_ws(s@, i as int),
        decreases s@.len() - i,
    {
        i = i + 1;
    }
    i
}

fn unescape_from(s: &Vec<char>, start: usize) -> (r: Vec<char>)
    requires
        start <= s@.len(),
    ensures
        r@ == unescape(s@.subrange(start as int, s@.len() as int)),
{
    let n = s.len();
    let mut out: Vec<char> = Vec::new();
    let mut i = start;
    while i < n
        invariant
            n == s@.len(),
            start <= i <= n,
            out@ + unescape(s@.subrange(i as int, n as int)) == unescape(
                s@.subrange(start as int, n as int),
            ),
        decreases n - i,
    {
        let c = s[i];
        let ghost rest = s@.subrange(i as int, n as int);
        if c == '"' {
            assert(unescape(rest) =~= Seq::<char>::empty());
            assert(out@ + unescape(rest) =~= out@);
            return out;
        } else if c == '\\' {
            if i + 1 >= n {
                assert(unescape(rest) =~= Seq::<char>::empty());
                assert(out@ + unescape(rest) =~= out@);
                return out;
            }
            let e = s[i + 1];
            if e == 'n' {
                out.push('\n');
            } else if e == 't' {
                out.push('\t');
            } else if e == 'r' {
                out.push('\r');
            } else if e == '\\' || e == '"' {
                out.push(e);
            } else {
                out.push('\\');
                out.push(e);
            }
            proof {
                assert(rest.subrange(2, rest.len() as int) =~= s@.subrange(i + 2, n as int));
                assert(rest[1] == e);
            }
            i = i + 2;
        } else {
            out.push(c);
            proof {
                assert(rest.drop_first() =~= s@.subrange(i + 1, n as int));
            }
            i = i + 1;
        }
    }
    assert(s@.subrange(n as int, n as int) =~= Seq::<char>::empty());
    assert(out@ + unescape(s@.subrange(n as int, n as int)) =~= out@);
    out
}

/// The value of `field` in the object `obj`, where it holds one.
pub fn extract_json_field(obj: &Vec<char>, field: &str) -> (r: Option<String>)
    ensures
        r matches Some(v) ==> field_value(obj@, field@) == Some(v@),
        r is None ==> field_value(obj@, field@) is None,
{
    let mut pattern: Vec<char> = Vec::new();
    pattern.push('"');
    crate::text::push_str_chars(&mut pattern, field);
    pattern.push('"');
    pattern.push(':');
    assert(pattern@ =~= field_pattern(field@));
    match find_pattern(obj, &pattern) {
        None => None,
        Some(k) => {
            let olen = obj.len();
            proof {
                lemma_find_from_found(obj@, pattern@, 0);
            }
            let v = skip_whitespace(obj, k + pattern.len());
            if v < obj.len() && obj[v] == '"' {
                let value = unescape_from(obj, v + 1);
                Some(string_from_chars(&value))
            } else {
                None
            }
        },
    }
}

/// The bookmark that `obj` holds, where it has both a name and a path.
pub fn parse_bookmark_object(obj: &Vec<char>) -> (r: Option<Bookmark>)
    ensures
        r matches Some(b) ==> object_bookmark(obj@) == Some(b@),
        r is None ==> object_bookmark(obj@) is None,
{
    proof {
        reveal_strlit("name");
        reveal_strlit("path");
    }
    let name = extract_json_field(obj, "name");
    assert("name"@ =~= name_field());
    let path = extract_json_field(obj, "path");
    assert("path"@ =~= path_field());
    match (name, path) {
        (Some(n), Some(p)) => Some(Bookmark::new(n, p)),
        _ => None,
    }
}

/// Reads the bookmarks file format; `None` where the text has no `[ ... ]`
/// to read.
pub fn parse_bookmarks_json(json: &str) -> (r: Option<Vec<Bookmark>>)
    ensures
        r matches Some(bs) ==> decode_list(json@) == Some(texts(bs@)),
        r is None ==> decode_list(json@) is None,
{
    let s = chars_of(json);
    let start = find_char(&s, '[');
    let end = rfind_char(&s, ']');
    match (start, end) {
        (Some(a), Some(b)) => {
            if a >= b {
                return None;
            }
            proof {
                lemma_last_index_found(s@, ']', s@.len() as int);
            }
            let objs = split_objects(&s, a + 1, b);
            let ghost ov = objs@.map_values(|o: Vec<char>| o@);
            let mut out: Vec<Bookmark> = Vec::new();
            let mut i: usize = 0;
            while i < objs.len()
                invariant
                    i <= objs@.len(),
                    ov == objs@.map_values(|o: Vec<char>| o@),
                    texts(out@) == objects_bookmarks(ov.subrange(0, i as int)),
                decreases objs@.len() - i,
            {
                let parsed = parse_bookmark_object(&objs[i]);
                proof {
                    let pre = ov.subrange(0, i + 1);
                    assert(pre.drop_last() =~= ov.subrange(0, i as int));
                    assert(pre.last() == objs@[i as int]@);
                }
                match parsed {
                    Some(b) => {
                        out.push(b);
                    },
                    None => {},
                }
                assert(texts(out@) =~= objects_bookmarks(ov.subrange(0, i + 1)));
                i = i + 1;
            }
            assert(ov.subrange(0, i as int) =~= ov);
            Some(out)
        },
        _ => None,
    }
}

/// The bookmarks in a file's text; none where the text cannot be read.
pub fn bookmarks_from_json(json: &str) -> (r: Vec<Bookmark>)
    ensures
        decode_list(json@) matches Some(bs) ==> texts(r@) == bs,
        decode_list(json@) is None ==> r@.len() == 0,
{
    match parse_bookmarks_json(json) {
        Some(bs) => bs,
        None => Vec::new(),
    }
}

// ---------------------------------------------------------------------
// Writing and reading back
// ---------------------------------------------------------------------

/// `s` holds no curly brace.
pub open spec fn brace_free(s: Seq<char>) -> bool {
    forall|i: int| 0 <= i < s.len() ==> #[trigger] s[i] != '{' && s[i] != '}'
}

proof fn lemma_escape_concat(a: Seq<char>, b: Seq<char>)
    ensures
        escape(a + b) == escape(a) + escape(b),
    decreases b.len(),
{
    if b.len() == 0 {
        assert(a + b =~= a);
        assert(escape(a) + escape(b) =~= escape(a));
    } else {
        assert((a + b).drop_last() =~= a + b.drop_last());
        assert((a + b).last() == b.last());
        lemma_escape_concat(a, b.drop_last());
        assert(escape(a + b) =~= escape(a) + escape(b));
    }
}

proof fn lemma_escape_facts(s: Seq<char>)
    ensures
        brace_free(s) ==> brace_free(escape(s)),
        forall|i: int|
            0 <= i < escape(s).len() && #[trigger] escape(s)[i] == '"' ==> i > 0 && escape(s)[i
                - 1] == '\\',
    decreases s.len(),
{
    if s.len() > 0 {
        let p = s.drop_last();
        lemma_escape_facts(p);
        let ep = escape(p);
        let ec = escape_char(s.last());
        let e = escape(s);
        assert(e == ep + ec);
        if brace_free(s) {
            assert(brace_free(p)) by {
                assert forall|i: int| 0 <= i < p.len() implies #[trigger] p[i] != '{' && p[i]
                    != '}' by {
                    assert(s[i] == p[i]);
                }
            }
            assert(s[s.len() - 1] != '{' && s[s.len() - 1] != '}');
            assert forall|i: int| 0 <= i < e.len() implies #[trigger] e[i] != '{' && e[i]
                != '}' by {
                if i < ep.len() {
                    assert(e[i] == ep[i]);
                } else {
                    assert(e[i] == ec[i - ep.len()]);
                }
            }
        }
        assert forall|i: int| 0 <= i < e.len() && #[trigger] e[i] == '"' implies i > 0 && e[i
            - 1] == '\\' by {
            if i < ep.len() {
                assert(e[i] == ep[i]);
                assert(e[i - 1] == ep[i - 1]);
            } else {
                assert(e[i] == ec[i - ep.len()]);
                if i - ep.len() == 1 {
                    assert(e[i - 1] == ec[0]);
                }
            }
        }
    }
}

proof fn lemma_unescape_escape(s: Seq<char>, t: Seq<char>)
    ensures
        unescape(escape(s) + seq!['"'] + t) == s,
    decreases s.len(),
{
    if s.len() == 0 {
        assert(escape(s) + seq!['"'] + t =~= seq!['"'] + t);
        assert((seq!['"'] + t)[0] == '"');
    } else {
        let c = s[0];
        let r = s.drop_first();
        assert(s =~= seq![c] + r);
        lemma_escape_concat(seq![c], r);
        assert(seq![c].drop_last() =~= Seq::<char>::empty());
        assert(seq![c].last() == c);
        assert(escape(Seq::<char>::empty()) == Seq::<char>::empty());
        assert(Seq::<char>::empty() + escape_char(c) =~= escape_char(c));
        assert(escape(seq![c]) =~= escape_char(c));
        lemma_unescape_escape(r, t);
        let rest = escape(r) + seq!['"'] + t;
        let whole = escape(s) + seq!['"'] + t;
        assert(whole =~= escape_char(c) + rest);
        if c == '\\' || c == '"' {
            assert(whole[0] == '\\');
            assert(whole[1] == c);
            assert(whole.subrange(2, whole.len() as int) =~= rest);
            assert(unescape_char(c) =~= seq![c]);
        } else {
            assert(whole[0] == c);
            assert(whole.drop_first() =~= rest);
        }
        assert(unescape(whole) =~= seq![c] + r);
    }
}

proof fn lemma_scan_run_concat(st: ScanState, a: Seq<char>, b: Seq<char>)
    ensures
        scan_run(st, a + b) == scan_run(scan_run(st, a), b),
    decreases a.len(),
{
    if a.len() == 0 {
        assert(a + b =~= b);
    } else {
        assert((a + b)[0] == a[0]);
        assert((a + b).drop_first() =~= a.drop_first() + b);
        lemma_scan_run_concat(scan_step(st, a[0]), a.drop_first(), b);
    }
}

proof fn lemma_scan_one(st: ScanState, c: char)
    ensures
        scan_run(st, seq![c]) == scan_step(st, c),
{
    assert(seq![c].drop_first() =~= Seq::<char>::empty());
    assert(seq![c][0] == c);
    assert(scan_run(scan_step(st, c), Seq::<char>::empty()) == scan_step(st, c));
}

proof fn lemma_scan_inside(d: int, cur: Seq<char>, objs: Seq<Seq<char>>, m: Seq<char>)
    requires
        d > 0,
        brace_free(m),
    ensures
        scan_run((d, cur, objs), m) == (d, cur + m, objs),
    decreases m.len(),
{
    if m.len() == 0 {
        assert(cur + m =~= cur);
    } else {
        assert(m[0] != '{' && m[0] != '}');
        let r = m.drop_first();
        assert(brace_free(r)) by {
            assert forall|i: int| 0 <= i < r.len() implies #[trigger] r[i] != '{' && r[i]
                != '}' by {
                assert(r[i] == m[i + 1]);
            }
        }
        lemma_scan_inside(d, cur.push(m[0]), objs, r);
        assert(cur.push(m[0]) + r =~= cur + m);
    }
}

proof fn lemma_brace_free_concat(a: Seq<char>, b: Seq<char>)
    requires
        brace_free(a),
        brace_free(b),
    ensures
        brace_free(a + b),
{
    assert forall|i: int| 0 <= i < (a + b).len() implies #[trigger] (a + b)[i] != '{' && (a
        + b)[i] != '}' by {
        if i < a.len() {
            assert((a + b)[i] == a[i]);
        } else {
            assert((a + b)[i] == b[i - a.len()]);
        }
    }
}

proof fn lemma_scan_object(objs: Seq<Seq<char>>, b: BookmarkText)
    requires
        brace_free(b.0),
        brace_free(b.1),
    ensures
        scan_run((0, Seq::empty(), objs), encode_object(b)) == (
            0int,
            Seq::<char>::empty(),
            objs.push(encode_object(b)),
        ),
{
    lemma_escape_facts(b.0);
    lemma_escape_facts(b.1);
    let head = seq!['"', 'n', 'a', 'm', 'e', '"', ':', '"'];
    let m = head + escape(b.0) + object_middle() + escape(b.1) + seq!['"'];
    assert(brace_free(head)) by {
        assert forall|i: int| 0 <= i < head.len() implies #[trigger] head[i] != '{' && head[i]
            != '}' by {}
    }
    assert(brace_free(object_middle())) by {
        assert forall|i: int| 0 <= i < object_middle().len() implies #[trigger] object_middle()[i]
            != '{' && object_middle()[i] != '}' by {}
    }
    assert(brace_free(seq!['"'])) by {
        assert forall|i: int| 0 <= i < seq!['"'].len() implies #[trigger] seq!['"'][i] != '{'
            && seq!['"'][i] != '}' by {}
    }
    lemma_brace_free_concat(head, escape(b.0));
    lemma_brace_free_concat(head + escape(b.0), object_middle());
    lemma_brace_free_concat(head + escape(b.0) + object_middle(), escape(b.1));
    lemma_brace_free_concat(head + escape(b.0) + object_middle() + escape(b.1), seq!['"']);
    let o = encode_object(b);
    assert(o =~= seq!['{'] + m + seq!['}']);
    lemma_scan_run_concat((0, Seq::empty(), objs), seq!['{'], m + seq!['}']);
    lemma_scan_run_concat((0, Seq::empty(), objs), seq!['{'] + m, seq!['}']);
    assert(seq!['{'] + m + seq!['}'] =~= seq!['{'] + (m + seq!['}']));
    let st1 = scan_run((0int, Seq::<char>::empty(), objs), seq!['{']);
    lemma_scan_one((0int, Seq::<char>::empty(), objs), '{');
    assert(seq!['{'].drop_first() =~= Seq::<char>::empty());
    assert(seq!['{'][0] == '{');
    assert(Seq::<char>::empty().push('{') =~= seq!['{']);
    assert(st1 == (1int, seq!['{'], objs));
    lemma_scan_inside(1, seq!['{'], objs, m);
    lemma_scan_run_concat(st1, m, seq!['}']);
    lemma_scan_one((1int, seq!['{'] + m, objs), '}');
    assert(seq!['}'].drop_first() =~= Seq::<char>::empty());
    assert(seq!['}'][0] == '}');
    assert(seq!['{'] + m + seq!['}'] =~= (seq!['{'] + m).push('}'));
}

proof fn lemma_scan_items(bs: Seq<BookmarkText>)
    requires
        forall|k: int| 0 <= k < bs.len() ==> brace_free(#[trigger] bs[k].0) && brace_free(bs[k].1),
    ensures
        scan_run(scan_start(), encode_items(bs)) == (
            0int,
            Seq::<char>::empty(),
            bs.map_values(|b: BookmarkText| encode_object(b)),
        ),
    decreases bs.len(),
{
    let objs = bs.map_values(|b: BookmarkText| encode_object(b));
    if bs.len() == 0 {
        assert(objs =~= Seq::<Seq<char>>::empty());
    } else {
        let p = bs.drop_last();
        let l = bs.last();
        assert(brace_free(l.0) && brace_free(l.1)) by {
            assert(bs[bs.len() - 1] == l);
            assert(brace_free(bs[bs.len() - 1].0));
        }
        assert forall|k: int| 0 <= k < p.len() implies brace_free(#[trigger] p[k].0) && brace_free(
            p[k].1,
        ) by {
            assert(p[k] == bs[k]);
        }
        assert(p.map_values(|b: BookmarkText| encode_object(b)).push(encode_object(l)) =~= objs);
        if bs.len() == 1 {
            assert(encode_items(bs) == encode_object(bs[0]));
            lemma_scan_object(Seq::empty(), l);
            assert(objs =~= Seq::<Seq<char>>::empty().push(encode_object(l)));
        } else {
            lemma_scan_items(p);
            let pre = encode_items(p);
            lemma_scan_run_concat(scan_start(), pre + seq![','], encode_object(l));
            lemma_scan_run_concat(scan_start(), pre, seq![',']);
            lemma_scan_one(scan_run(scan_start(), pre), ',');
            assert(seq![','].drop_first() =~= Seq::<char>::empty());
            lemma_scan_object(p.map_values(|b: BookmarkText| encode_object(b)), l);
        }
    }
}

proof fn lemma_find_first(s: Seq<char>, p: Seq<char>, i: int, k: int)
    requires
        0 <= i <= k,
        matches_at(s, p, k),
        forall|j: int| i <= j < k ==> !#[trigger] matches_at(s, p, j),
    ensures
        find_from(s, p, i) == Some(k),
    decreases k - i,
{
    if i < k {
        lemma_find_first(s, p, i + 1, k);
    }
}

proof fn lemma_first_index(s: Seq<char>, c: char, i: int, k: int)
    requires
        0 <= i <= k < s.len(),
        s[k] == c,
        forall|j: int| i <= j < k ==> #[trigger] s[j] != c,
    ensures
        first_index_from(s, c, i) == Some(k),
    decreases k - i,
{
    if i < k {
        lemma_first_index(s, c, i + 1, k);
    }
}

proof fn lemma_object_fields(b: BookmarkText)
    ensures
        object_bookmark(encode_object(b)) == Some(b),
{
    let o = encode_object(b);
    let e = escape(b.0);
    let ne = e.len() as int;
    let f = escape(b.1);
    lemma_escape_facts(b.0);
    let np = field_pattern(name_field());
    let pp = field_pattern(path_field());
    assert(np =~= seq!['"', 'n', 'a', 'm', 'e', '"', ':']);
    assert(pp =~= seq!['"', 'p', 'a', 't', 'h', '"', ':']);
    assert(o.len() == 21 + ne + f.len());
    assert forall|k: int| 0 <= k < 9 implies #[trigger] o[k] == object_open()[k] by {}
    assert forall|k: int| 9 <= k < 9 + ne implies #[trigger] o[k] == e[k - 9] by {}
    assert forall|k: int| 9 + ne <= k < 19 + ne implies #[trigger] o[k] == object_middle()[k - 9
        - ne] by {}
    assert forall|k: int| 19 + ne <= k < 19 + ne + f.len() implies #[trigger] o[k] == f[k - 19
        - ne] by {}
    // the name
    assert(!matches_at(o, np, 0)) by {
        if matches_at(o, np, 0) {
            assert(o.subrange(0, 7)[0] == o[0]);
        }
    }
    assert(o.subrange(1, 8) =~= np);
    lemma_find_first(o, np, 0, 1);
    assert(skip_ws(o, 8) == 8);
    assert(o.subrange(9, o.len() as int) =~= e + seq!['"'] + (seq![',', '"', 'p', 'a', 't', 'h',
        '"', ':', '"'] + f + object_close()));
    lemma_unescape_escape(b.0, seq![',', '"', 'p', 'a', 't', 'h', '"', ':', '"'] + f
        + object_close());
    // the path
    assert forall|j: int| 0 <= j < 11 + ne implies !#[trigger] matches_at(o, pp, j) by {
        if matches_at(o, pp, j) {
            let w = o.subrange(j, j + 7);
            assert(w == pp);
            assert(w[1] == o[j + 1] && w[0] == o[j] && w[4] == o[j + 4] && w[5] == o[j + 5] && w[6]
                == o[j + 6]);
            assert(w[2] == o[j + 2] && w[3] == o[j + 3]);
            if j <= 7 {
                assert(o[j + 1] != 'p');
            } else if j < 9 + ne {
                if j + 5 < 9 + ne {
                    assert(e[j + 5 - 9] == '"');
                    assert(e[j + 4 - 9] == '\\');
                } else if j + 5 == 9 + ne {
                    assert(o[j + 6] == ',');
                } else {
                    assert(o[9 + ne] == '"');
                }
            } else if j == 9 + ne {
                assert(o[j + 1] == ',');
            } else {
                assert(o[j] == ',');
            }
        }
    }
    assert(o.subrange(11 + ne, 18 + ne) =~= pp);
    lemma_find_first(o, pp, 0, 11 + ne);
    assert(skip_ws(o, 18 + ne) == 18 + ne);
    assert(o.subrange(19 + ne, o.len() as int) =~= f + seq!['"'] + seq!['}']);
    lemma_unescape_escape(b.1, seq!['}']);
}

proof fn lemma_objects_bookmarks(bs: Seq<BookmarkText>)
    ensures
        objects_bookmarks(bs.map_values(|b: BookmarkText| encode_object(b))) == bs,
    decreases bs.len(),
{
    let objs = bs.map_values(|b: BookmarkText| encode_object(b));
    if bs.len() == 0 {
        assert(objs =~= Seq::<Seq<char>>::empty());
    } else {
        let p = bs.drop_last();
        assert(objs.drop_last() =~= p.map_values(|b: BookmarkText| encode_object(b)));
        assert(objs.last() == encode_object(bs.last()));
        lemma_objects_bookmarks(p);
        lemma_object_fields(bs.last());
        assert(p.push(bs.last()) =~= bs);
    }
}

/// Writing bookmarks and reading the text back gives the same names and
/// paths in the same order, quotes and backslashes included, as long as no
/// name or path holds a curly brace (the reader cuts objects at braces).
pub proof fn lemma_bookmarks_round_trip(bs: Seq<BookmarkText>)
    requires
        forall|k: int| 0 <= k < bs.len() ==> brace_free(#[trigger] bs[k].0) && brace_free(bs[k].1),
    ensures
        decode_list(encode_list(bs)) == Some(bs),
{
    let items = encode_items(bs);
    let json = encode_list(bs);
    let n = json.len() as int;
    assert(n == 16 + items.len());
    assert forall|k: int| 0 <= k < 14 implies #[trigger] json[k] == list_open()[k] by {}
    lemma_first_index(json, '[', 0, 13);
    assert(json[n - 1] == '}');
    assert(json[n - 2] == ']');
    assert(last_index_before(json, ']', n - 1) == Some(n - 2));
    assert(last_index_before(json, ']', n) == Some(n - 2));
    assert(json.subrange(14, n - 2) =~= items);
    lemma_scan_items(bs);
    lemma_objects_bookmarks(bs);
}

} // verus!
