use vstd::prelude::*;

use core::cmp::Ordering;

use crate::file_item::FileItem;
use crate::settings::SortColumn;
use crate::text::{compare_strs, lemma_lex_cmp_swap, lemma_lex_cmp_trans, lex_cmp, lower_of, lowercase};

verus! {

/// Numeric order.
pub open spec fn int_cmp(a: int, b: int) -> Ordering {
    if a < b {
        Ordering::Less
    } else if a > b {
        Ordering::Greater
    } else {
        Ordering::Equal
    }
}

/// Order by the selected key alone: names case-insensitively, sizes and
/// times numerically, type descriptions lexicographically.
pub open spec fn key_cmp(a: FileItem, b: FileItem, column: SortColumn) -> Ordering {
    match column {
        SortColumn::Name => lex_cmp(lower_of(a.display_name@), lower_of(b.display_name@)),
        SortColumn::Size => int_cmp(a.size as int, b.size as int),
        SortColumn::ModifiedDate => int_cmp(a.modified as int, b.modified as int),
        SortColumn::Type => lex_cmp(a.mime_type@, b.mime_type@),
    }
}

/// With `folders_first`, a directory comes before a non-directory whatever
/// the key says; otherwise the key decides.
pub open spec fn folders_first_cmp(
    a_dir: bool,
    b_dir: bool,
    folders_first: bool,
    key_order: Ordering,
) -> Ordering {
    if folders_first && a_dir && !b_dir {
        Ordering::Less
    } else if folders_first && !a_dir && b_dir {
        Ordering::Greater
    } else {
        key_order
    }
}

/// The display order of two entries.
pub open spec fn item_cmp(a: FileItem, b: FileItem, column: SortColumn, folders_first: bool) -> Ordering {
    folders_first_cmp(a.is_directory, b.is_directory, folders_first, key_cmp(a, b, column))
}

/// Places the directory rule in front of an order that the key gave.
pub fn compare_with_folders_first(
    item1: &FileItem,
    item2: &FileItem,
    folders_first: bool,
    key_order: Ordering,
) -> (r: Ordering)
    ensures
        r == folders_first_cmp(item1.is_directory, item2.is_directory, folders_first, key_order),
{
    if folders_first {
        let is_dir1 = item1.is_directory;
        let is_dir2 = item2.is_directory;
        if is_dir1 && !is_dir2 {
            return Ordering::Less;
        } else if !is_dir1 && is_dir2 {
            return Ordering::Greater;
        }
    }
    key_order
}

fn compare_u64(a: u64, b: u64) -> (r: Ordering)
    ensures
        r == int_cmp(a as int, b as int),
{
    if a < b {
        Ordering::Less
    } else if a > b {
        Ordering::Greater
    } else {
        Ordering::Equal
    }
}

fn compare_i64(a: i64, b: i64) -> (r: Ordering)
    ensures
        r == int_cmp(a as int, b as int),
{
    if a < b {
        Ordering::Less
    } else if a > b {
        Ordering::Greater
    } else {
        Ordering::Equal
    }
}

/// Compares two entries for display under `column` and `folders_first`.
pub fn compare_items(
    item1: &FileItem,
    item2: &FileItem,
    column: SortColumn,
    folders_first: bool,
) -> (r: Ordering)
    ensures
        r == item_cmp(*item1, *item2, column, folders_first),
{
    let key_order = match column {
        SortColumn::Name => {
            let n1 = lowercase(item1.display_name.as_str());
            let n2 = lowercase(item2.display_name.as_str());
            compare_strs(n1.as_str(), n2.as_str())
        },
        SortColumn::Size => compare_u64(item1.size, item2.size),
        SortColumn::ModifiedDate => compare_i64(item1.modified, item2.modified),
        SortColumn::Type => compare_strs(item1.mime_type.as_str(), item2.mime_type.as_str()),
    };
    compare_with_folders_first(item1, item2, folders_first, key_order)
}

/// `x` inserted into `s` after the last entry that does not come after it.
pub open spec fn insert_sorted(
    s: Seq<FileItem>,
    x: FileItem,
    column: SortColumn,
    folders_first: bool,
) -> Seq<FileItem>
    decreases s.len(),
{
    if s.len() == 0 {
        seq![x]
    } else if item_cmp(s.last(), x, column, folders_first) == Ordering::Greater {
        insert_sorted(s.drop_last(), x, column, folders_first).push(s.last())
    } else {
        s.push(x)
    }
}

/// The stable sort of `s`: each entry in turn inserted after the ones that
/// do not come after it.
pub open spec fn sorted_by(s: Seq<FileItem>, column: SortColumn, folders_first: bool) -> Seq<
    FileItem,
>
    decreases s.len(),
{
    if s.len() == 0 {
        s
    } else {
        insert_sorted(sorted_by(s.drop_last(), column, folders_first), s.last(), column, folders_first)
    }
}

/// No entry of `s` comes after a later one.
pub open spec fn is_sorted(s: Seq<FileItem>, column: SortColumn, folders_first: bool) -> bool {
    forall|i: int, j: int|
        0 <= i < j < s.len() ==> #[trigger] item_cmp(s[i], s[j], column, folders_first)
            != Ordering::Greater
}

proof fn lemma_item_cmp_swap(a: FileItem, b: FileItem, column: SortColumn, folders_first: bool)
    ensures
        item_cmp(a, b, column, folders_first) == Ordering::Greater ==> item_cmp(
            b,
            a,
            column,
            folders_first,
        ) != Ordering::Greater,
        item_cmp(a, b, column, folders_first) == Ordering::Equal ==> item_cmp(
            b,
            a,
            column,
            folders_first,
        ) == Ordering::Equal,
{
    lemma_lex_cmp_swap(lower_of(a.display_name@), lower_of(b.display_name@));
    lemma_lex_cmp_swap(lower_of(b.display_name@), lower_of(a.display_name@));
    lemma_lex_cmp_swap(a.mime_type@, b.mime_type@);
    lemma_lex_cmp_swap(b.mime_type@, a.mime_type@);
}

/// The entries of `s` that tie with `e` in the display order, in order.
pub open spec fn ties_of(
    s: Seq<FileItem>,
    e: FileItem,
    column: SortColumn,
    folders_first: bool,
) -> Seq<FileItem>
    decreases s.len(),
{
    if s.len() == 0 {
        Seq::empty()
    } else {
        let rest = ties_of(s.drop_last(), e, column, folders_first);
        if item_cmp(s.last(), e, column, folders_first) == Ordering::Equal {
            rest.push(s.last())
        } else {
            rest
        }
    }
}

proof fn lemma_insert_sorted_ties(
    t: Seq<FileItem>,
    x: FileItem,
    e: FileItem,
    column: SortColumn,
    folders_first: bool,
)
    ensures
        ties_of(insert_sorted(t, x, column, folders_first), e, column, folders_first) == if item_cmp(
            x,
            e,
            column,
            folders_first,
        ) == Ordering::Equal {
            ties_of(t, e, column, folders_first).push(x)
        } else {
            ties_of(t, e, column, folders_first)
        },
    decreases t.len(),
{
    if t.len() == 0 {
        assert(seq![x].drop_last() =~= Seq::<FileItem>::empty());
        assert(seq![x].last() == x);
        assert(ties_of(t, e, column, folders_first) =~= Seq::<FileItem>::empty());
        assert(ties_of(Seq::<FileItem>::empty(), e, column, folders_first) =~= Seq::<FileItem>::empty());
        assert(insert_sorted(t, x, column, folders_first) == seq![x]);
    } else {
        let p = t.drop_last();
        let l = t.last();
        if item_cmp(l, x, column, folders_first) == Ordering::Greater {
            lemma_insert_sorted_ties(p, x, e, column, folders_first);
            let q = insert_sorted(p, x, column, folders_first);
            assert(q.push(l).drop_last() =~= q);
            assert(q.push(l).last() == l);
            if item_cmp(x, e, column, folders_first) == Ordering::Equal && item_cmp(
                l,
                e,
                column,
                folders_first,
            ) == Ordering::Equal {
                // l and x both tie with e, so l does not come after x.
                lemma_item_cmp_swap(x, e, column, folders_first);
                lemma_item_cmp_trans(l, e, x, column, folders_first);
            }
        } else {
            assert(t.push(x).drop_last() =~= t);
            assert(t.push(x).last() == x);
        }
    }
}

/// Sorting is stable: for every entry `e`, the entries that tie with it
/// come out in the order they went in.
pub proof fn lemma_sort_stable(s: Seq<FileItem>, e: FileItem, column: SortColumn, folders_first: bool)
    ensures
        ties_of(sorted_by(s, column, folders_first), e, column, folders_first) == ties_of(
            s,
            e,
            column,
            folders_first,
        ),
    decreases s.len(),
{
    if s.len() > 0 {
        let p = s.drop_last();
        lemma_sort_stable(p, e, column, folders_first);
        lemma_insert_sorted_ties(sorted_by(p, column, folders_first), s.last(), e, column, folders_first);
    }
}

proof fn lemma_item_cmp_trans(
    a: FileItem,
    b: FileItem,
    c: FileItem,
    column: SortColumn,
    folders_first: bool,
)
    requires
        item_cmp(a, b, column, folders_first) != Ordering::Greater,
        item_cmp(b, c, column, folders_first) != Ordering::Greater,
    ensures
        item_cmp(a, c, column, folders_first) != Ordering::Greater,
{
    let (la, lb, lc) = (lower_of(a.display_name@), lower_of(b.display_name@), lower_of(c.display_name@));
    lemma_lex_cmp_swap(la, lb);
    lemma_lex_cmp_swap(lb, lc);
    lemma_lex_cmp_swap(a.mime_type@, b.mime_type@);
    lemma_lex_cmp_swap(b.mime_type@, c.mime_type@);
    if column == SortColumn::Name && key_cmp(a, b, column) != Ordering::Greater && key_cmp(b, c, column)
        != Ordering::Greater {
        lemma_lex_cmp_trans(la, lb, lc);
    }
    if column == SortColumn::Type && key_cmp(a, b, column) != Ordering::Greater && key_cmp(b, c, column)
        != Ordering::Greater {
        lemma_lex_cmp_trans(a.mime_type@, b.mime_type@, c.mime_type@);
    }
    if folders_first && a.is_directory == c.is_directory && a.is_directory != b.is_directory {
        // a and c agree on being a directory while b does not: then b would
        // have to come both after a and before c, or the other way round.
        assert(false);
    }
}

proof fn lemma_insert_bounded(
    s: Seq<FileItem>,
    x: FileItem,
    y: FileItem,
    column: SortColumn,
    folders_first: bool,
)
    requires
        forall|k: int|
            0 <= k < s.len() ==> item_cmp(#[trigger] s[k], y, column, folders_first)
                != Ordering::Greater,
        item_cmp(x, y, column, folders_first) != Ordering::Greater,
    ensures
        insert_sorted(s, x, column, folders_first).len() == s.len() + 1,
        forall|k: int|
            0 <= k < s.len() + 1 ==> item_cmp(
                #[trigger] insert_sorted(s, x, column, folders_first)[k],
                y,
                column,
                folders_first,
            ) != Ordering::Greater,
    decreases s.len(),
{
    if s.len() > 0 {
        let p = s.drop_last();
        assert forall|k: int| 0 <= k < p.len() implies item_cmp(
            #[trigger] p[k],
            y,
            column,
            folders_first,
        ) != Ordering::Greater by {
            assert(p[k] == s[k]);
        }
        lemma_insert_bounded(p, x, y, column, folders_first);
        let r = insert_sorted(s, x, column, folders_first);
        if item_cmp(s.last(), x, column, folders_first) != Ordering::Greater {
            assert forall|k: int| 0 <= k < s.len() + 1 implies item_cmp(
                #[trigger] r[k],
                y,
                column,
                folders_first,
            ) != Ordering::Greater by {
                if k < s.len() {
                    assert(r[k] == s[k]);
                }
            }
        }
    }
}

proof fn lemma_insert_sorted(s: Seq<FileItem>, x: FileItem, column: SortColumn, folders_first: bool)
    requires
        is_sorted(s, column, folders_first),
    ensures
        is_sorted(insert_sorted(s, x, column, folders_first), column, folders_first),
        insert_sorted(s, x, column, folders_first).len() == s.len() + 1,
    decreases s.len(),
{
    if s.len() > 0 {
        let l = s.last();
        let p = s.drop_last();
        let r = insert_sorted(s, x, column, folders_first);
        assert(is_sorted(p, column, folders_first)) by {
            assert forall|i: int, j: int| 0 <= i < j < p.len() implies #[trigger] item_cmp(
                p[i],
                p[j],
                column,
                folders_first,
            ) != Ordering::Greater by {
                assert(item_cmp(s[i], s[j], column, folders_first) != Ordering::Greater);
            }
        }
        if item_cmp(l, x, column, folders_first) == Ordering::Greater {
            lemma_insert_sorted(p, x, column, folders_first);
            lemma_item_cmp_swap(l, x, column, folders_first);
            assert forall|k: int| 0 <= k < p.len() implies item_cmp(
                #[trigger] p[k],
                l,
                column,
                folders_first,
            ) != Ordering::Greater by {
                assert(item_cmp(s[k], s[s.len() - 1], column, folders_first) != Ordering::Greater);
            }
            lemma_insert_bounded(p, x, l, column, folders_first);
            let q = insert_sorted(p, x, column, folders_first);
            assert forall|i: int, j: int| 0 <= i < j < r.len() implies #[trigger] item_cmp(
                r[i],
                r[j],
                column,
                folders_first,
            ) != Ordering::Greater by {
                assert(r[i] == q[i]);
                if j < q.len() {
                    assert(r[j] == q[j]);
                    assert(item_cmp(q[i], q[j], column, folders_first) != Ordering::Greater);
                } else {
                    assert(r[j] == l);
                    assert(item_cmp(q[i], l, column, folders_first) != Ordering::Greater);
                }
            }
        } else {
            assert forall|i: int, j: int| 0 <= i < j < r.len() implies #[trigger] item_cmp(
                r[i],
                r[j],
                column,
                folders_first,
            ) != Ordering::Greater by {
                assert(r[i] == s[i]);
                if j < s.len() {
                    assert(r[j] == s[j]);
                } else {
                    assert(r[j] == x);
                    if i < s.len() - 1 {
                        assert(item_cmp(s[i], s[s.len() - 1], column, folders_first)
                            != Ordering::Greater);
                        lemma_item_cmp_trans(s[i], l, x, column, folders_first);
                    }
                }
            }
        }
    }
}

proof fn lemma_sorted_by_sorted(s: Seq<FileItem>, column: SortColumn, folders_first: bool)
    ensures
        is_sorted(sorted_by(s, column, folders_first), column, folders_first),
        sorted_by(s, column, folders_first).len() == s.len(),
    decreases s.len(),
{
    if s.len() > 0 {
        lemma_sorted_by_sorted(s.drop_last(), column, folders_first);
        lemma_insert_sorted(sorted_by(s.drop_last(), column, folders_first), s.last(), column, folders_first);
    }
}

proof fn lemma_sorted_fixed(s: Seq<FileItem>, column: SortColumn, folders_first: bool)
    requires
        is_sorted(s, column, folders_first),
    ensures
        sorted_by(s, column, folders_first) == s,
    decreases s.len(),
{
    if s.len() > 0 {
        let p = s.drop_last();
        assert(is_sorted(p, column, folders_first)) by {
            assert forall|i: int, j: int| 0 <= i < j < p.len() implies #[trigger] item_cmp(
                p[i],
                p[j],
                column,
                folders_first,
            ) != Ordering::Greater by {
                assert(item_cmp(s[i], s[j], column, folders_first) != Ordering::Greater);
            }
        }
        lemma_sorted_fixed(p, column, folders_first);
        if p.len() > 0 {
            assert(item_cmp(s[p.len() - 1], s[p.len() as int], column, folders_first)
                != Ordering::Greater);
        }
        assert(p.push(s.last()) =~= s);
    }
}

proof fn lemma_insert_sorted_multiset(
    s: Seq<FileItem>,
    x: FileItem,
    column: SortColumn,
    folders_first: bool,
)
    ensures
        insert_sorted(s, x, column, folders_first).to_multiset() == s.to_multiset().insert(x),
    decreases s.len(),
{
    broadcast use vstd::seq_lib::group_to_multiset_ensures;

    if s.len() == 0 {
        assert(seq![x] =~= Seq::<FileItem>::empty().push(x));
    } else {
        let p = s.drop_last();
        assert(p.push(s.last()) =~= s);
        if item_cmp(s.last(), x, column, folders_first) == Ordering::Greater {
            lemma_insert_sorted_multiset(p, x, column, folders_first);
            assert(p.to_multiset().insert(x).insert(s.last()) =~= p.to_multiset().insert(
                s.last(),
            ).insert(x));
        }
    }
}

/// Sorting keeps every entry, as often as it occurs, and adds none.
pub proof fn lemma_sort_permutes(s: Seq<FileItem>, column: SortColumn, folders_first: bool)
    ensures
        sorted_by(s, column, folders_first).to_multiset() == s.to_multiset(),
    decreases s.len(),
{
    broadcast use vstd::seq_lib::group_to_multiset_ensures;

    if s.len() == 0 {
        assert(sorted_by(s, column, folders_first) =~= s);
    } else {
        let p = s.drop_last();
        lemma_sort_permutes(p, column, folders_first);
        lemma_insert_sorted_multiset(sorted_by(p, column, folders_first), s.last(), column, folders_first);
        assert(p.push(s.last()) =~= s);
    }
}

/// The sorted sequence never puts a later entry first; with folders first,
/// no file comes before a directory, whatever the key; and sorting it again
/// changes nothing.
pub proof fn lemma_sort_laws(s: Seq<FileItem>, column: SortColumn, folders_first: bool)
    ensures
        is_sorted(sorted_by(s, column, folders_first), column, folders_first),
        folders_first ==> forall|i: int, j: int|
            0 <= i < j < s.len() ==> !(!(#[trigger] sorted_by(s, column, folders_first)[i]).is_directory
                && (#[trigger] sorted_by(s, column, folders_first)[j]).is_directory),
        sorted_by(sorted_by(s, column, folders_first), column, folders_first) == sorted_by(
            s,
            column,
            folders_first,
        ),
{
    lemma_sorted_by_sorted(s, column, folders_first);
    let t = sorted_by(s, column, folders_first);
    lemma_sorted_fixed(t, column, folders_first);
    if folders_first {
        assert forall|i: int, j: int| 0 <= i < j < s.len() implies !(!(#[trigger] t[i]).is_directory
            && (#[trigger] t[j]).is_directory) by {
            assert(item_cmp(t[i], t[j], column, folders_first) != Ordering::Greater);
        }
    }
}

fn comes_after(o: Ordering) -> (r: bool)
    ensures
        r == (o == Ordering::Greater),
{
    match o {
        Ordering::Greater => true,
        _ => false,
    }
}

/// Sorts entries for display, stably: entries that compare equal keep
/// their order.
pub fn sort_items(items: Vec<FileItem>, column: SortColumn, folders_first: bool) -> (r: Vec<
    FileItem,
>)
    ensures
        r@ == sorted_by(items@, column, folders_first),
        is_sorted(r@, column, folders_first),
        r@.to_multiset() == items@.to_multiset(),
        forall|e: FileItem| #[trigger] ties_of(r@, e, column, folders_first) == ties_of(
            items@,
            e,
            column,
            folders_first,
        ),
{
    proof {
        lemma_sort_permutes(items@, column, folders_first);
        assert forall|e: FileItem| #[trigger] ties_of(
            sorted_by(items@, column, folders_first),
            e,
            column,
            folders_first,
        ) == ties_of(items@, e, column, folders_first) by {
            lemma_sort_stable(items@, e, column, folders_first);
        }
    }
    let ghost orig = items@;
    let mut rest = items;
    let mut out: Vec<FileItem> = Vec::new();
    let n = rest.len();
    let mut i: usize = 0;
    while rest.len() > 0
        invariant
            n == orig.len(),
            i + rest@.len() == n,
            rest@ == orig.subrange(i as int, n as int),
            out@ == sorted_by(orig.subrange(0, i as int), column, folders_first),
            is_sorted(out@, column, folders_first),
        decreases rest@.len(),
    {
        let x = rest.remove(0);
        let ghost before = out@;
        let mut j = out.len();
        assert(out@.subrange(0, j as int) =~= out@);
        assert(out@ + out@.subrange(j as int, j as int) =~= out@);
        while j > 0 && comes_after(compare_items(&out[j - 1], &x, column, folders_first))
            invariant
                out@ == before,
                j <= out@.len(),
                insert_sorted(out@, x, column, folders_first) == insert_sorted(
                    out@.subrange(0, j as int),
                    x,
                    column,
                    folders_first,
                ) + out@.subrange(j as int, out@.len() as int),
            decreases j,
        {
            proof {
                let pre = out@.subrange(0, j as int);
                assert(pre.drop_last() =~= out@.subrange(0, j - 1));
                assert(pre.last() == out@[j - 1]);
                assert(out@.subrange(j - 1, out@.len() as int) =~= seq![out@[j - 1]]
                    + out@.subrange(j as int, out@.len() as int));
                assert(insert_sorted(out@.subrange(0, j - 1), x, column, folders_first).push(
                    out@[j - 1],
                ) + out@.subrange(j as int, out@.len() as int) =~= insert_sorted(
                    out@.subrange(0, j - 1),
                    x,
                    column,
                    folders_first,
                ) + out@.subrange(j - 1, out@.len() as int));
            }
            j = j - 1;
        }
        proof {
            let pre = out@.subrange(0, j as int);
            if j > 0 {
                assert(pre.last() == out@[j - 1]);
            }
            assert(insert_sorted(pre, x, column, folders_first) =~= pre.push(x));
            assert(pre.push(x) + out@.subrange(j as int, out@.len() as int) =~= out@.insert(
                j as int,
                x,
            ));
            lemma_insert_sorted(out@, x, column, folders_first);
            let opre = orig.subrange(0, i + 1);
            assert(opre.drop_last() =~= orig.subrange(0, i as int));
            assert(opre.last() == x);
            assert(rest@ =~= orig.subrange(i + 1, n as int));
        }
        out.insert(j, x);
        i = i + 1;
    }
    assert(orig.subrange(0, n as int) =~= orig);
    out
}

} // verus!
