//! Which rows of the entity tree a search keeps.
//!
//! A row stays when its label contains the query, ignoring case, or when any
//! of its children stays: dropping the parent of a match would collapse the
//! tree out from under it. The tree's order puts every parent before its
//! children, so one backward sweep settles every row.

use vstd::prelude::*;

verus! {

/// `s` in lower case, as `str::to_lowercase` maps it.
pub uninterp spec fn lowercased(s: Seq<char>) -> Seq<char>;

/// std's `str::to_lowercase`: the string in lower case by Unicode's tables,
/// where a character may map to several and a capital sigma maps by its
/// place in the word. Its result is named, not described.
#[verifier::external_body]
fn to_lowercase(s: &str) -> (r: String)
    ensures
        r@ == lowercased(s@),
{
    s.to_lowercase()
}

/// `c` has Unicode's White_Space property, which is what `char::is_whitespace`
/// and so `str::trim` test: the 25 code points below.
pub open spec fn is_white_space(c: char) -> bool {
    let u = c as u32;
    ||| 0x9 <= u <= 0xD
    ||| u == 0x20
    ||| u == 0x85
    ||| u == 0xA0
    ||| u == 0x1680
    ||| 0x2000 <= u <= 0x200A
    ||| u == 0x2028
    ||| u == 0x2029
    ||| u == 0x202F
    ||| u == 0x205F
    ||| u == 0x3000
}

/// The first position at or after `i` that is not whitespace, or the end.
pub open spec fn trim_start(s: Seq<char>, i: int) -> int
    decreases s.len() - i,
{
    if i >= s.len() || !is_white_space(s[i]) {
        i
    } else {
        trim_start(s, i + 1)
    }
}

/// The end of `s` up to `j` once trailing whitespace above `lo` is cut.
pub open spec fn trim_end(s: Seq<char>, lo: int, j: int) -> int
    decreases j - lo,
{
    if j <= lo || !is_white_space(s[j - 1]) {
        j
    } else {
        trim_end(s, lo, j - 1)
    }
}

/// `s` without leading and trailing whitespace, as `str::trim` cuts it.
pub open spec fn trimmed(s: Seq<char>) -> Seq<char> {
    let a = trim_start(s, 0);
    s.subrange(a, trim_end(s, a, s.len() as int))
}

fn white_space(c: char) -> (r: bool)
    ensures
        r == is_white_space(c),
{
    let u = c as u32;
    (0x9 <= u && u <= 0xD) || u == 0x20 || u == 0x85 || u == 0xA0 || u == 0x1680 || (0x2000 <= u && u <= 0x200A)
        || u == 0x2028 || u == 0x2029 || u == 0x202F || u == 0x205F || u == 0x3000
}

/// `s` without leading and trailing whitespace.
fn trim(s: &str) -> (r: &str)
    ensures
        r@ == trimmed(s@),
{
    let n = s.unicode_len();
    let mut a: usize = 0;
    while a < n && white_space(s.get_char(a))
        invariant
            n == s@.len(),
            a <= n,
            trim_start(s@, 0) == trim_start(s@, a as int),
        decreases n - a,
    {
        a += 1;
    }
    let mut b: usize = n;
    while b > a && white_space(s.get_char(b - 1))
        invariant
            n == s@.len(),
            a <= b <= n,
            a == trim_start(s@, 0),
            trim_end(s@, a as int, n as int) == trim_end(s@, a as int, b as int),
        decreases b,
    {
        b -= 1;
    }
    s.substring_char(a, b)
}

/// `needle` occurs in `hay` starting at `at`.
pub open spec fn occurs_at(hay: Seq<char>, needle: Seq<char>, at: int) -> bool {
    0 <= at && at + needle.len() <= hay.len() && hay.subrange(at, at + needle.len()) == needle
}

pub open spec fn occurs_in(hay: Seq<char>, needle: Seq<char>) -> bool {
    exists|at: int| #[trigger] occurs_at(hay, needle, at)
}

/// Whether `needle` occurs in `hay`, character for character.
pub fn contains(hay: &str, needle: &str) -> (r: bool)
    ensures
        r == occurs_in(hay@, needle@),
{
    let h = hay.unicode_len();
    let n = needle.unicode_len();
    if n > h {
        proof {
            assert forall|at: int| !occurs_at(hay@, needle@, at) by {}
        }
        return false;
    }
    let mut at: usize = 0;
    while at <= h - n
        invariant
            h == hay@.len(),
            n == needle@.len(),
            n <= h,
            at <= h - n + 1,
            forall|p: int| 0 <= p < at ==> !#[trigger] occurs_at(hay@, needle@, p),
        decreases h - n + 1 - at,
    {
        let mut k: usize = 0;
        while k < n && hay.get_char(at + k) == needle.get_char(k)
            invariant
                h == hay@.len(),
                n == needle@.len(),
                at + n <= h,
                k <= n,
                forall|j: int| 0 <= j < k ==> hay@[at + j] == needle@[j],
            decreases n - k,
        {
            k += 1;
        }
        if k == n {
            assert(hay@.subrange(at as int, at + n) =~= needle@);
            assert(occurs_at(hay@, needle@, at as int));
            return true;
        }
        assert(!occurs_at(hay@, needle@, at as int)) by {
            if hay@.subrange(at as int, at + n) == needle@ {
                assert(hay@.subrange(at as int, at + n)[k as int] == hay@[at + k]);
            }
        }
        at += 1;
    }
    proof {
        assert forall|p: int| !occurs_at(hay@, needle@, p) by {
            if 0 <= p < at {
            }
        }
    }
    false
}

/// Row `i` is shown: its label matched, or one of its children is shown.
pub open spec fn shown(matched: Seq<bool>, children: Seq<Seq<usize>>, i: int) -> bool
    decreases matched.len() - i, 1int, 0int,
{
    if 0 <= i < matched.len() && i < children.len() {
        matched[i] || child_shown(matched, children, i, children[i].len() as int)
    } else {
        false
    }
}

/// One of the first `k` children of row `i` is shown.
pub open spec fn child_shown(matched: Seq<bool>, children: Seq<Seq<usize>>, i: int, k: int) -> bool
    decreases matched.len() - i, 0int, k,
{
    if k <= 0 || i < 0 || i >= children.len() || k > children[i].len() {
        false
    } else {
        let c = children[i][k - 1] as int;
        child_shown(matched, children, i, k - 1) || (i < c < matched.len() && shown(matched, children, c))
    }
}

pub open spec fn child_lists(children: Seq<Vec<usize>>) -> Seq<Seq<usize>> {
    children.map_values(|v: Vec<usize>| v@)
}

/// The normalised query: trimmed, then lower-cased.
pub open spec fn search_of(query: Seq<char>) -> Seq<char> {
    lowercased(trimmed(query))
}

/// Which labels contain the query, ignoring case.
pub open spec fn label_hits(labels: Seq<String>, query: Seq<char>) -> Seq<bool> {
    labels.map_values(|l: String| occurs_in(lowercased(l@), search_of(query)))
}

/// Which rows stay, given which labels matched: each row that matched, and
/// every ancestor of one. `children` lists each row's children, each after
/// its parent in the order.
pub fn resolve_visible(matched: Vec<bool>, children: &[Vec<usize>]) -> (r: Vec<bool>)
    requires
        children@.len() == matched@.len(),
        forall|i: int, k: int|
            0 <= i < children@.len() && 0 <= k < children@[i]@.len() ==> i < #[trigger] children@[i]@[k] < matched@.len(),
    ensures
        r@.len() == matched@.len(),
        forall|i: int| 0 <= i < r@.len() ==> #[trigger] r@[i] == shown(matched@, child_lists(children@), i),
{
    let n = matched.len();
    let ghost hits = matched@;
    let ghost lists = child_lists(children@);
    assert(lists.len() == n);
    let mut visible = matched;
    // Parents come before children, so walking backwards settles each row's
    // children before the row itself.
    let mut index: usize = n;
    while index > 0
        invariant
            n == hits.len(),
            n == children@.len(),
            lists == child_lists(children@),
            lists.len() == n,
            forall|i: int, k: int|
                0 <= i < children@.len() && 0 <= k < children@[i]@.len() ==> i < #[trigger] children@[i]@[k] < n,
            index <= n,
            visible@.len() == n,
            forall|j: int| 0 <= j < index ==> #[trigger] visible@[j] == hits[j],
            forall|j: int| index <= j < n ==> #[trigger] visible@[j] == shown(hits, lists, j),
        decreases index,
    {
        index -= 1;
        let row_children = &children[index];
        assert(row_children@ == lists[index as int]);
        let mut any = false;
        let mut k: usize = 0;
        while k < row_children.len()
            invariant
                n == hits.len(),
                index < n,
                lists.len() == n,
                row_children@ == lists[index as int],
                forall|k2: int| 0 <= k2 < row_children@.len() ==> index < #[trigger] row_children@[k2] < n,
                k <= row_children@.len(),
                visible@.len() == n,
                forall|j: int| index < j < n ==> #[trigger] visible@[j] == shown(hits, lists, j),
                any == child_shown(hits, lists, index as int, k as int),
            decreases row_children@.len() - k,
        {
            let child = row_children[k];
            any = any || visible[child];
            k += 1;
        }
        if !visible[index] {
            visible.set(index, any);
        }
        assert(visible@[index as int] == shown(hits, lists, index as int));
    }
    visible
}

/// Which rows of the tree the search `query` keeps: every row for an empty
/// query; otherwise each row whose label contains it, ignoring case, and
/// every ancestor of such a row. `children` lists each row's children, each
/// after its parent in the order.
pub fn visible_rows(labels: &[String], children: &[Vec<usize>], query: &str) -> (r: Vec<bool>)
    requires
        children@.len() == labels@.len(),
        forall|i: int, k: int|
            0 <= i < children@.len() && 0 <= k < children@[i]@.len() ==> i < #[trigger] children@[i]@[k] < labels@.len(),
    ensures
        r@.len() == labels@.len(),
        forall|i: int|
            0 <= i < r@.len() ==> #[trigger] r@[i] == if search_of(query@).len() == 0 {
                true
            } else {
                shown(label_hits(labels@, query@), child_lists(children@), i)
            },
{
    let n = labels.len();
    let trimmed_query = trim(query);
    let search = to_lowercase(trimmed_query);
    let mut matched: Vec<bool> = Vec::new();
    let empty = search.as_str().unicode_len() == 0;
    let mut i: usize = 0;
    while i < n
        invariant
            n == labels@.len(),
            search@ == search_of(query@),
            empty == (search@.len() == 0),
            i <= n,
            matched@.len() == i,
            forall|j: int|
                0 <= j < i ==> #[trigger] matched@[j] == (empty || label_hits(labels@, query@)[j]),
        decreases n - i,
    {
        let label = to_lowercase(labels[i].as_str());
        let hit = empty || contains(label.as_str(), search.as_str());
        matched.push(hit);
        i += 1;
    }
    if empty {
        return matched;
    }
    assert(matched@ =~= label_hits(labels@, query@));
    resolve_visible(matched, children)
}

} // verus!
