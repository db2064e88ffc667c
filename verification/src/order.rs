//! The order of siblings: directories first, then by name without regard to
//! case, and among equals the order in which the listing gave them.

use crate::entry::{entry_views, DirEntryInfo, EntryView};
use crate::text::{
    chars_of, lemma_lex_asymmetric, lemma_lex_connected, lemma_lex_transitive, lex_lt, lowercase,
    text_less, to_lowercase,
};
use vstd::prelude::*;

verus! {

/// What an entry is ordered by.
#[derive(Debug)]
pub struct SortKey {
    /// Whether the entry is ordered among the directories.
    pub dir_first: bool,
    /// The entry's name in lower case.
    pub folded: Vec<char>,
}

/// The mathematical value of a `SortKey`.
pub ghost struct KeyView {
    pub dir_first: bool,
    pub folded: Seq<char>,
}

impl View for SortKey {
    type V = KeyView;

    open spec fn view(&self) -> KeyView {
        KeyView { dir_first: self.dir_first, folded: self.folded@ }
    }
}

/// The values of a sequence of keys.
pub open spec fn key_views(v: Seq<SortKey>) -> Seq<KeyView> {
    v.map_values(|k: SortKey| k@)
}

/// Whether key `a` sorts strictly before key `b`: a directory before what is
/// none, and within either group the smaller folded name first.
pub open spec fn key_lt(a: KeyView, b: KeyView) -> bool {
    if a.dir_first != b.dir_first {
        a.dir_first
    } else {
        lex_lt(a.folded, b.folded)
    }
}

/// Whether the item at position `i` of a listing has its place before the
/// item at position `j`: by its key, and between equal keys by position.
pub open spec fn comes_before(keys: Seq<KeyView>, i: int, j: int) -> bool {
    key_lt(keys[i], keys[j]) || (!key_lt(keys[j], keys[i]) && i < j)
}

/// Whether `order` lists the positions of `keys` in sorted order, equal keys
/// in the order of their positions. Every two places of `order` hold
/// different positions, so `order` names each position exactly once.
pub open spec fn is_stable_order(keys: Seq<KeyView>, order: Seq<int>) -> bool {
    &&& order.len() == keys.len()
    &&& forall|a: int| 0 <= a < order.len() ==> 0 <= #[trigger] order[a] < keys.len()
    &&& forall|a: int, b: int|
        0 <= a < b < order.len() ==> comes_before(keys, #[trigger] order[a], #[trigger] order[b])
}

/// `key_lt` never holds both ways.
pub proof fn lemma_key_asymmetric(a: KeyView, b: KeyView)
    requires
        key_lt(a, b),
    ensures
        !key_lt(b, a),
{
    if a.dir_first == b.dir_first {
        lemma_lex_asymmetric(a.folded, b.folded);
    }
}

/// Where `a` sorts before `c`, any `b` sorts after `a` or before `c`.
pub proof fn lemma_key_between(a: KeyView, b: KeyView, c: KeyView)
    requires
        key_lt(a, c),
    ensures
        key_lt(a, b) || key_lt(b, c),
{
    if a.dir_first == c.dir_first && b.dir_first == a.dir_first {
        lemma_lex_connected(a.folded, b.folded);
        if lex_lt(b.folded, a.folded) {
            lemma_lex_transitive(b.folded, a.folded, c.folded);
        }
    }
}

/// Of two different positions exactly one has its place before the other.
pub proof fn lemma_comes_before_asymmetric(keys: Seq<KeyView>, i: int, j: int)
    requires
        comes_before(keys, i, j),
    ensures
        !comes_before(keys, j, i),
        i != j,
{
    if key_lt(keys[i], keys[j]) {
        lemma_key_asymmetric(keys[i], keys[j]);
    }
}

/// A stable order names every position of the listing, and none twice.
pub proof fn lemma_stable_order_covers(keys: Seq<KeyView>, order: Seq<int>, v: int)
    requires
        is_stable_order(keys, order),
        0 <= v < keys.len(),
    ensures
        order.contains(v),
        order.no_duplicates(),
{
    assert forall|a: int, b: int| 0 <= a < order.len() && 0 <= b < order.len() && a != b implies order[a]
        != order[b] by {
        if a < b {
            lemma_comes_before_asymmetric(keys, order[a], order[b]);
        } else {
            lemma_comes_before_asymmetric(keys, order[b], order[a]);
        }
    }
    assert(order.no_duplicates());
    order.unique_seq_to_set();
    let range = vstd::set_lib::set_int_range(0, keys.len() as int);
    vstd::set_lib::lemma_int_range(0, keys.len() as int);
    assert forall|x: int| order.to_set().contains(x) implies range.contains(x) by {
        let a = choose|a: int| 0 <= a < order.len() && order[a] == x;
        assert(0 <= order[a] < keys.len());
    }
    assert(order.to_set().subset_of(range));
    vstd::set_lib::lemma_len_subset(order.to_set(), range);
    vstd::set_lib::lemma_subset_equality(order.to_set(), range);
    assert(range.contains(v));
    assert(order.to_set().contains(v));
}

/// Two stable orders of one listing agree on their first `n` places.
proof fn lemma_stable_orders_agree(keys: Seq<KeyView>, o1: Seq<int>, o2: Seq<int>, n: int)
    requires
        is_stable_order(keys, o1),
        is_stable_order(keys, o2),
        0 <= n <= keys.len(),
    ensures
        forall|k: int| 0 <= k < n ==> o1[k] == o2[k],
    decreases n,
{
    if n > 0 {
        lemma_stable_orders_agree(keys, o1, o2, n - 1);
        let a = n - 1;
        let v = o1[a];
        let w = o2[a];
        if v != w {
            lemma_stable_order_covers(keys, o2, v);
            lemma_stable_order_covers(keys, o1, w);
            let p = choose|p: int| 0 <= p < o2.len() && o2[p] == v;
            let q = choose|q: int| 0 <= q < o1.len() && o1[q] == w;
            if p < a {
                assert(o1[p] == v);
                lemma_comes_before_asymmetric(keys, o1[p], o1[a]);
            }
            if q < a {
                assert(o2[q] == w);
                lemma_comes_before_asymmetric(keys, o2[q], o2[a]);
            }
            assert(comes_before(keys, o2[a], o2[p]));
            assert(comes_before(keys, o1[a], o1[q]));
            lemma_comes_before_asymmetric(keys, v, w);
        }
    }
}

/// A listing has one stable order only.
pub proof fn lemma_stable_order_unique(keys: Seq<KeyView>, o1: Seq<int>, o2: Seq<int>)
    requires
        is_stable_order(keys, o1),
        is_stable_order(keys, o2),
    ensures
        o1 == o2,
{
    lemma_stable_orders_agree(keys, o1, o2, keys.len() as int);
    assert(o1 =~= o2);
}

/// The first place of `order`, from `from` on, whose key sorts behind the key
/// at position `n`; the length of `order` where there is none.
proof fn find_place(keys: Seq<KeyView>, order: Seq<int>, n: int, from: int) -> (p: int)
    requires
        0 <= from <= order.len(),
        forall|a: int| 0 <= a < from ==> !key_lt(keys[n], keys[#[trigger] order[a]]),
    ensures
        from <= p <= order.len(),
        forall|a: int| 0 <= a < p ==> !key_lt(keys[n], keys[#[trigger] order[a]]),
        p < order.len() ==> key_lt(keys[n], keys[order[p]]),
    decreases order.len() - from,
{
    if from < order.len() && !key_lt(keys[n], keys[order[from]]) {
        find_place(keys, order, n, from + 1)
    } else {
        from
    }
}

/// Every listing has a stable order.
pub proof fn lemma_stable_order_exists(keys: Seq<KeyView>)
    ensures
        exists|order: Seq<int>| is_stable_order(keys, order),
    decreases keys.len(),
{
    if keys.len() == 0 {
        assert(is_stable_order(keys, Seq::<int>::empty()));
    } else {
        let init = keys.drop_last();
        let n = keys.len() - 1;
        lemma_stable_order_exists(init);
        let o = choose|o: Seq<int>| is_stable_order(init, o);
        assert forall|a: int| 0 <= a < o.len() implies 0 <= #[trigger] o[a] < n && keys[o[a]]
            == init[o[a]] by {}
        let p = find_place(keys, o, n, 0);
        let order = o.insert(p, n);
        assert forall|a: int, b: int| 0 <= a < b < order.len() implies comes_before(
            keys,
            #[trigger] order[a],
            #[trigger] order[b],
        ) by {
            if b < p {
                assert(order[a] == o[a] && order[b] == o[b]);
                assert(comes_before(init, o[a], o[b]));
            } else if b == p {
                assert(order[a] == o[a] && order[b] == n);
            } else if a < p {
                assert(order[a] == o[a] && order[b] == o[b - 1]);
                assert(comes_before(init, o[a], o[b - 1]));
            } else if a == p {
                assert(order[a] == n && order[b] == o[b - 1]);
                lemma_key_between(keys[n], keys[o[b - 1]], keys[o[p]]);
                if b - 1 > p {
                    assert(comes_before(init, o[p], o[b - 1]));
                    if key_lt(keys[o[p]], keys[o[b - 1]]) {
                        lemma_key_asymmetric(keys[o[p]], keys[o[b - 1]]);
                    }
                }
            } else {
                assert(order[a] == o[a - 1] && order[b] == o[b - 1]);
                assert(comes_before(init, o[a - 1], o[b - 1]));
            }
        }
        assert forall|a: int| 0 <= a < order.len() implies 0 <= #[trigger] order[a]
            < keys.len() by {
            if a < p {
                assert(order[a] == o[a]);
            } else if a > p {
                assert(order[a] == o[a - 1]);
            }
        }
        assert(is_stable_order(keys, order));
    }
}

/// Whether `x` sorts strictly before `y`.
pub fn key_less(x: &SortKey, y: &SortKey) -> (r: bool)
    ensures
        r == key_lt(x@, y@),
{
    if x.dir_first != y.dir_first {
        x.dir_first
    } else {
        text_less(&x.folded, &y.folded)
    }
}

/// Whether `run` holds the positions `lo..hi` of `keys` in sorted order,
/// equal keys in the order of their positions.
spec fn is_sorted_run(keys: Seq<KeyView>, run: Seq<usize>, lo: int, hi: int) -> bool {
    &&& run.len() == hi - lo
    &&& forall|a: int| 0 <= a < run.len() ==> lo <= #[trigger] run[a] < hi
    &&& forall|a: int, b: int|
        0 <= a < b < run.len() ==> comes_before(
            keys,
            #[trigger] run[a] as int,
            #[trigger] run[b] as int,
        )
}

/// Merges two sorted runs of neighbouring ranges of positions into one.
fn merge_runs(
    keys: &Vec<SortKey>,
    left: &Vec<usize>,
    right: &Vec<usize>,
    Ghost(lo): Ghost<int>,
    Ghost(mid): Ghost<int>,
    Ghost(hi): Ghost<int>,
) -> (run: Vec<usize>)
    requires
        0 <= lo <= mid <= hi <= keys.len(),
        is_sorted_run(key_views(keys@), left@, lo, mid),
        is_sorted_run(key_views(keys@), right@, mid, hi),
    ensures
        is_sorted_run(key_views(keys@), run@, lo, hi),
{
    let ghost kv = key_views(keys@);
    let mut out: Vec<usize> = Vec::new();
    let mut i: usize = 0;
    let mut j: usize = 0;
    while i < left.len() || j < right.len()
        invariant
            0 <= lo <= mid <= hi <= keys.len(),
            kv == key_views(keys@),
            is_sorted_run(kv, left@, lo, mid),
            is_sorted_run(kv, right@, mid, hi),
            i <= left.len(),
            j <= right.len(),
            out.len() == i + j,
            forall|a: int| 0 <= a < out.len() ==> lo <= #[trigger] out[a] < hi,
            forall|a: int, b: int|
                0 <= a < b < out.len() ==> comes_before(
                    kv,
                    #[trigger] out[a] as int,
                    #[trigger] out[b] as int,
                ),
            forall|a: int, k: int|
                0 <= a < out.len() && i <= k < left.len() ==> comes_before(
                    kv,
                    #[trigger] out[a] as int,
                    #[trigger] left[k] as int,
                ),
            forall|a: int, k: int|
                0 <= a < out.len() && j <= k < right.len() ==> comes_before(
                    kv,
                    #[trigger] out[a] as int,
                    #[trigger] right[k] as int,
                ),
        decreases left.len() - i + right.len() - j,
    {
        let take_left = if i >= left.len() {
            false
        } else if j >= right.len() {
            true
        } else {
            !key_less(&keys[right[j]], &keys[left[i]])
        };
        let ghost prev = out@;
        if take_left {
            let x = left[i];
            proof {
                assert forall|k: int| j <= k < right.len() implies comes_before(
                    kv,
                    x as int,
                    #[trigger] right[k] as int,
                ) by {
                    let y = right[k] as int;
                    let z = right[j as int] as int;
                    if key_lt(kv[y], kv[x as int]) {
                        lemma_key_between(kv[y], kv[z], kv[x as int]);
                        if k > j {
                            assert(comes_before(kv, z, y));
                            if key_lt(kv[z], kv[y]) {
                                lemma_key_asymmetric(kv[z], kv[y]);
                            }
                        }
                    }
                }
            }
            out.push(x);
            i += 1;
        } else {
            let x = right[j];
            proof {
                assert forall|k: int| i <= k < left.len() implies comes_before(
                    kv,
                    x as int,
                    #[trigger] left[k] as int,
                ) by {
                    let y = left[k] as int;
                    let z = left[i as int] as int;
                    assert(key_lt(kv[x as int], kv[z]));
                    lemma_key_between(kv[x as int], kv[y], kv[z]);
                    if k > i {
                        assert(comes_before(kv, z, y));
                        if key_lt(kv[z], kv[y]) {
                            lemma_key_asymmetric(kv[z], kv[y]);
                        }
                    }
                }
            }
            out.push(x);
            j += 1;
        }
        proof {
            assert(out@ == prev.push(out@[out.len() - 1]));
        }
    }
    out
}

/// Sorts the positions `lo..hi` of `keys`.
fn sort_range(keys: &Vec<SortKey>, lo: usize, hi: usize) -> (run: Vec<usize>)
    requires
        lo <= hi <= keys.len(),
    ensures
        is_sorted_run(key_views(keys@), run@, lo as int, hi as int),
    decreases hi - lo,
{
    let mut run: Vec<usize> = Vec::new();
    if hi - lo == 1 {
        run.push(lo);
    } else if hi - lo > 1 {
        let mid: usize = lo + (hi - lo) / 2;
        let left = sort_range(keys, lo, mid);
        let right = sort_range(keys, mid, hi);
        run = merge_runs(keys, &left, &right, Ghost(lo as int), Ghost(mid as int), Ghost(hi as int));
    }
    run
}

/// The positions held by a vector of positions, as integers.
pub open spec fn positions(order: Seq<usize>) -> Seq<int> {
    order.map_values(|i: usize| i as int)
}

/// The positions of `keys` in sorted order: directories first, then by
/// folded name, and equal keys in the order in which they stand in `keys`.
pub fn stable_order(keys: &Vec<SortKey>) -> (order: Vec<usize>)
    ensures
        is_stable_order(key_views(keys@), positions(order@)),
{
    sort_range(keys, 0, keys.len())
}

/// The key by which an entry is ordered.
pub open spec fn entry_key(e: EntryView) -> KeyView {
    KeyView { dir_first: e.kind.sorts_as_directory(), folded: lowercase(e.name) }
}

/// The keys of a listing.
pub open spec fn entry_keys(s: Seq<EntryView>) -> Seq<KeyView> {
    s.map_values(|e: EntryView| entry_key(e))
}

/// Whether `out` is the listing `inp` in sorted order: directories and
/// links to directories first, within either group by name without regard to
/// case, and entries whose keys are equal in the order they have in `inp`.
pub open spec fn is_sorted_listing(inp: Seq<EntryView>, out: Seq<EntryView>) -> bool {
    exists|order: Seq<int>|
        #[trigger] is_stable_order(entry_keys(inp), order) && out == order.map_values(
            |i: int| inp[i],
        )
}

/// A listing has one sorted order only.
pub proof fn lemma_sorted_listing_unique(
    inp: Seq<EntryView>,
    out1: Seq<EntryView>,
    out2: Seq<EntryView>,
)
    requires
        is_sorted_listing(inp, out1),
        is_sorted_listing(inp, out2),
    ensures
        out1 == out2,
{
    let o1 = choose|order: Seq<int>|
        #[trigger] is_stable_order(entry_keys(inp), order) && out1 == order.map_values(
            |i: int| inp[i],
        );
    let o2 = choose|order: Seq<int>|
        #[trigger] is_stable_order(entry_keys(inp), order) && out2 == order.map_values(
            |i: int| inp[i],
        );
    lemma_stable_order_unique(entry_keys(inp), o1, o2);
}

/// The listing `inp` in sorted order.
pub open spec fn sorted_listing(inp: Seq<EntryView>) -> Seq<EntryView> {
    choose|out: Seq<EntryView>| is_sorted_listing(inp, out)
}

/// Every listing has a sorted order, and `sorted_listing` is it.
pub proof fn lemma_sorted_listing_exists(inp: Seq<EntryView>)
    ensures
        is_sorted_listing(inp, sorted_listing(inp)),
{
    lemma_stable_order_exists(entry_keys(inp));
    let order = choose|order: Seq<int>| is_stable_order(entry_keys(inp), order);
    assert(is_sorted_listing(inp, order.map_values(|i: int| inp[i])));
}

/// Every entry of a sorted listing is an entry of the listing that was
/// sorted.
pub proof fn lemma_sorted_listing_members(inp: Seq<EntryView>, out: Seq<EntryView>, a: int)
    requires
        is_sorted_listing(inp, out),
        0 <= a < out.len(),
    ensures
        out.len() == inp.len(),
        inp.contains(out[a]),
{
    let order = choose|order: Seq<int>|
        #[trigger] is_stable_order(entry_keys(inp), order) && out == order.map_values(
            |i: int| inp[i],
        );
    assert(0 <= order[a] < inp.len());
    assert(inp[order[a]] == out[a]);
}

/// Every entry of a listing is an entry of its sorted order.
pub proof fn lemma_sorted_listing_keeps(inp: Seq<EntryView>, out: Seq<EntryView>, i: int)
    requires
        is_sorted_listing(inp, out),
        0 <= i < inp.len(),
    ensures
        out.contains(inp[i]),
{
    let order = choose|order: Seq<int>|
        #[trigger] is_stable_order(entry_keys(inp), order) && out == order.map_values(
            |i: int| inp[i],
        );
    lemma_stable_order_covers(entry_keys(inp), order, i);
    let a = choose|a: int| 0 <= a < order.len() && order[a] == i;
    assert(out[a] == inp[i]);
}

/// In a sorted listing no entry sorts before one that stands earlier: every
/// directory and link to a directory stands before everything else, and
/// within either group the names ascend without regard to case.
pub proof fn lemma_sorted_listing_ascends(inp: Seq<EntryView>, out: Seq<EntryView>, a: int, b: int)
    requires
        is_sorted_listing(inp, out),
        0 <= a < b < out.len(),
    ensures
        out[b].kind.sorts_as_directory() ==> out[a].kind.sorts_as_directory(),
        out[a].kind.sorts_as_directory() == out[b].kind.sorts_as_directory() ==> !lex_lt(
            lowercase(out[b].name),
            lowercase(out[a].name),
        ),
{
    let order = choose|order: Seq<int>|
        #[trigger] is_stable_order(entry_keys(inp), order) && out == order.map_values(
            |i: int| inp[i],
        );
    let keys = entry_keys(inp);
    assert(comes_before(keys, order[a], order[b]));
    if key_lt(keys[order[a]], keys[order[b]]) {
        lemma_key_asymmetric(keys[order[a]], keys[order[b]]);
    }
    assert(!key_lt(entry_key(out[b]), entry_key(out[a])));
}

/// Sorts the entries of one directory for display.
pub fn sort_entries(entries: Vec<DirEntryInfo>) -> (out: Vec<DirEntryInfo>)
    ensures
        is_sorted_listing(entry_views(entries@), entry_views(out@)),
        entry_views(out@) == sorted_listing(entry_views(entries@)),
        out.len() == entries.len(),
        forall|a: int, b: int|
            0 <= a < b < out.len() ==> {
                &&& (#[trigger] out[b]).kind.sorts_as_directory() ==> (
                #[trigger] out[a]).kind.sorts_as_directory()
                &&& out[a].kind.sorts_as_directory() == out[b].kind.sorts_as_directory()
                    ==> !lex_lt(lowercase(out[b].name@), lowercase(out[a].name@))
            },
{
    let ghost inp = entry_views(entries@);
    let mut keys: Vec<SortKey> = Vec::new();
    let mut i: usize = 0;
    while i < entries.len()
        invariant
            i <= entries.len(),
            inp == entry_views(entries@),
            key_views(keys@) == entry_keys(inp.take(i as int)),
        decreases entries.len() - i,
    {
        let folded = to_lowercase(entries[i].name.as_str());
        let key = SortKey {
            dir_first: entries[i].kind.sorts_as_directory(),
            folded: chars_of(folded.as_str()),
        };
        proof {
            assert(key@ == entry_key(inp[i as int]));
            assert(inp.take(i + 1) == inp.take(i as int).push(inp[i as int]));
            assert(key_views(keys@.push(key)) == key_views(keys@).push(key@));
            assert(entry_keys(inp.take(i as int).push(inp[i as int])) == entry_keys(
                inp.take(i as int),
            ).push(entry_key(inp[i as int])));
        }
        keys.push(key);
        i += 1;
    }
    assert(inp.take(entries.len() as int) == inp);
    let order = stable_order(&keys);
    let ghost pos = positions(order@);
    let mut out: Vec<DirEntryInfo> = Vec::new();
    let mut a: usize = 0;
    while a < order.len()
        invariant
            a <= order.len(),
            order.len() == entries.len(),
            inp == entry_views(entries@),
            pos == positions(order@),
            is_stable_order(entry_keys(inp), pos),
            entry_views(out@) == pos.take(a as int).map_values(|i: int| inp[i]),
        decreases order.len() - a,
    {
        assert(0 <= pos[a as int] < entries.len());
        let entry = entries[order[a]].duplicate();
        proof {
            assert(entry@ == inp[pos[a as int]]);
            assert(pos.take(a + 1) == pos.take(a as int).push(pos[a as int]));
            assert(entry_views(out@.push(entry)) == entry_views(out@).push(entry@));
            assert(pos.take(a as int).push(pos[a as int]).map_values(|i: int| inp[i])
                == pos.take(a as int).map_values(|i: int| inp[i]).push(inp[pos[a as int]]));
        }
        out.push(entry);
        a += 1;
    }
    proof {
        assert(pos.take(order.len() as int) == pos);
        assert(is_sorted_listing(inp, entry_views(out@)));
        lemma_sorted_listing_unique(inp, entry_views(out@), sorted_listing(inp));
        assert forall|a: int, b: int| 0 <= a < b < out.len() implies {
            &&& (#[trigger] out[b]).kind.sorts_as_directory() ==> (
            #[trigger] out[a]).kind.sorts_as_directory()
            &&& out[a].kind.sorts_as_directory() == out[b].kind.sorts_as_directory() ==> !lex_lt(
                lowercase(out[b].name@),
                lowercase(out[a].name@),
            )
        } by {
            lemma_sorted_listing_ascends(inp, entry_views(out@), a, b);
            assert(entry_views(out@)[a] == out[a]@);
            assert(entry_views(out@)[b] == out[b]@);
        }
    }
    out
}

} // verus!
