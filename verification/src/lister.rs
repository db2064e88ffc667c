//! The listing of one directory: which children are kept, and as what.

use crate::entry::{
    classify, entry_views, kind_of, raw_views, DirEntryInfo, EntryView, RawEntry, RawEntryView,
};
use crate::text::{opt_view, text_eq};
use vstd::prelude::*;

verus! {

/// The names that no listing shows: the directories of version control, of
/// installed dependencies and of build output. The match is exact and
/// distinguishes case.
pub open spec fn is_excluded_name(name: Seq<char>) -> bool {
    name == "node_modules"@ || name == ".git"@ || name == "target"@
}

/// Whether `name` is one of the names that no listing shows.
pub fn is_excluded(name: &str) -> (r: bool)
    ensures
        r == is_excluded_name(name@),
{
    text_eq(name, "node_modules") || text_eq(name, ".git") || text_eq(name, "target")
}

/// Whether a raw entry is kept in the listing: its link-level metadata was
/// read, its name is not excluded, and its path is not `self_path`.
pub open spec fn is_listed(raw: RawEntryView, self_path: Option<Seq<char>>) -> bool {
    &&& raw.link_type is Some
    &&& !is_excluded_name(raw.name)
    &&& self_path != Some(raw.path)
}

/// The entry that a kept raw entry becomes.
pub open spec fn entry_of(raw: RawEntryView) -> EntryView {
    EntryView {
        path: raw.path,
        name: raw.name,
        kind: kind_of(raw.link_type->0, raw.target_type),
    }
}

/// The listing made of raw entries: those that are kept, in the order in
/// which they came, each classified.
pub open spec fn listing_of(raws: Seq<RawEntryView>, self_path: Option<Seq<char>>) -> Seq<
    EntryView,
> {
    raws.filter(|r: RawEntryView| is_listed(r, self_path)).map_values(
        |r: RawEntryView| entry_of(r),
    )
}

/// Filtering a sequence that ends in `x` filters what stands before `x` and
/// then decides on `x`.
pub proof fn lemma_filter_push<A>(s: Seq<A>, x: A, pred: spec_fn(A) -> bool)
    ensures
        s.push(x).filter(pred) == if pred(x) {
            s.filter(pred).push(x)
        } else {
            s.filter(pred)
        },
{
    reveal(Seq::filter);
    assert(s.push(x).drop_last() == s);
}

/// No entry of a listing has an excluded name, and none is the file at
/// `self_path`.
pub proof fn lemma_listing_leaves_out(
    raws: Seq<RawEntryView>,
    self_path: Option<Seq<char>>,
    i: int,
)
    requires
        0 <= i < listing_of(raws, self_path).len(),
    ensures
        !is_excluded_name(listing_of(raws, self_path)[i].name),
        self_path != Some(listing_of(raws, self_path)[i].path),
{
    let pred = |r: RawEntryView| is_listed(r, self_path);
    raws.lemma_filter_pred(pred, i);
}

/// Every raw entry that is kept has its entry in the listing. Where no
/// `self_path` is given, a raw entry is kept whatever its path.
pub proof fn lemma_listing_keeps(raws: Seq<RawEntryView>, self_path: Option<Seq<char>>, i: int)
    requires
        0 <= i < raws.len(),
        is_listed(raws[i], self_path),
    ensures
        listing_of(raws, self_path).contains(entry_of(raws[i])),
        self_path is None ==> is_listed(raws[i], self_path) == (raws[i].link_type is Some
            && !is_excluded_name(raws[i].name)),
{
    let pred = |r: RawEntryView| is_listed(r, self_path);
    raws.lemma_filter_contains(pred, i);
    let kept = raws.filter(pred);
    let j = choose|j: int| 0 <= j < kept.len() && kept[j] == raws[i];
    assert(listing_of(raws, self_path)[j] == entry_of(raws[i]));
}

/// Filters and classifies the children that a directory listing found.
///
/// `self_path` is the path of the file that the tree is written to, where
/// there is one: that file is left out of its own listing.
pub fn list_entries(raws: Vec<RawEntry>, self_path: &Option<String>) -> (out: Vec<DirEntryInfo>)
    ensures
        entry_views(out@) == listing_of(raw_views(raws@), opt_view(*self_path)),
{
    let mut out: Vec<DirEntryInfo> = Vec::new();
    let ghost all = raw_views(raws@);
    let ghost sp = opt_view(*self_path);
    let ghost pred = |r: RawEntryView| is_listed(r, sp);
    proof {
        reveal(Seq::filter);
        assert(all.take(0).filter(pred) == Seq::<RawEntryView>::empty());
        assert(entry_views(out@) == listing_of(all.take(0), sp));
    }
    for raw in it: raws
        invariant
            it.seq() == raws@,
            all == raw_views(raws@),
            sp == opt_view(*self_path),
            pred == (|r: RawEntryView| is_listed(r, sp)),
            entry_views(out@) == listing_of(all.take(it.index() as int), sp),
    {
        let ghost i = it.index() as int;
        let ghost before = entry_views(out@);
        proof {
            assert(all.take(i + 1) == all.take(i).push(raw@));
            lemma_filter_push(all.take(i), raw@, pred);
        }
        let is_self = match self_path {
            Some(p) => raw.path == *p,
            None => false,
        };
        match raw.link_type {
            Some(link_type) => {
                if !is_excluded(raw.name.as_str()) && !is_self {
                    let kind = classify(link_type, raw.target_type);
                    let entry = DirEntryInfo { path: raw.path, name: raw.name, kind };
                    proof {
                        assert(is_listed(raw@, sp));
                        assert(entry@ == entry_of(raw@));
                        assert(entry_views(out@.push(entry)) == before.push(entry@));
                        assert(all.take(i).filter(pred).push(raw@).map_values(
                            |r: RawEntryView| entry_of(r),
                        ) == all.take(i).filter(pred).map_values(
                            |r: RawEntryView| entry_of(r),
                        ).push(entry_of(raw@)));
                    }
                    out.push(entry);
                }
            },
            None => {},
        }
    }
    assert(all.take(raws@.len() as int) == all);
    out
}

} // verus!
