//! One directory of the shard tree at a time: which of its files a search
//! reports, and into which of its subdirectories the search goes on.

use vstd::prelude::*;

use crate::crates::{metas, CrateMeta, CrateMetaView};
use crate::names::{
    expand, is_match, lemma_starts_with_variant, lemma_variants, prefix_matches, same_shape,
    separator_count, starts_with_any, starts_with_variant, variants,
};
use crate::text::{chars_of, push_segment, rows, slice_of, string_of, texts};

verus! {

/// What a directory entry is, as far as a search cares.
#[derive(Clone, Copy, Debug, PartialEq, Eq)]
pub enum EntryKind {
    File,
    Dir,
    Other,
}

/// One entry of a directory listing.
#[derive(Debug, Clone, PartialEq, Eq)]
pub struct DirEntry {
    pub name: String,
    pub kind: EntryKind,
}

/// A `DirEntry` as characters.
pub struct DirEntryView {
    pub name: Seq<char>,
    pub kind: EntryKind,
}

impl View for DirEntry {
    type V = DirEntryView;

    open spec fn view(&self) -> DirEntryView {
        DirEntryView { name: self.name@, kind: self.kind }
    }
}

/// The views of the entries of a listing, in the listing's order.
pub open spec fn listing_view(listing: Seq<DirEntry>) -> Seq<DirEntryView> {
    Seq::new(listing.len(), |i: int| listing[i]@)
}

/// The names of the entries of a listing, in the listing's order.
pub open spec fn listing_names(listing: Seq<DirEntryView>) -> Seq<Seq<char>> {
    Seq::new(listing.len(), |i: int| listing[i].name)
}

/// Whether `names[i]` is `name` and no earlier one is.
pub open spec fn is_first_named(names: Seq<Seq<char>>, name: Seq<char>, i: int) -> bool {
    &&& 0 <= i < names.len()
    &&& names[i] == name
    &&& forall|j: int| 0 <= j < i ==> names[j] != name
}

/// The position of the first of `names` that is `name`.
pub open spec fn first_named(names: Seq<Seq<char>>, name: Seq<char>) -> Option<int> {
    if exists|i: int| is_first_named(names, name, i) {
        Some(choose|i: int| is_first_named(names, name, i))
    } else {
        None
    }
}

/// A position that is first is the first position.
pub proof fn lemma_first_named(names: Seq<Seq<char>>, name: Seq<char>, i: int)
    requires
        is_first_named(names, name, i),
    ensures
        first_named(names, name) == Some(i),
{
    let c = choose|c: int| is_first_named(names, name, c);
    if c < i {
        assert(names[c] != name);
    }
    if i < c {
        assert(names[i] != name);
    }
}

/// Where no position holds the name, there is no first.
pub proof fn lemma_none_named(names: Seq<Seq<char>>, name: Seq<char>)
    requires
        forall|j: int| 0 <= j < names.len() ==> names[j] != name,
    ensures
        first_named(names, name) is None,
{
}

/// A step down from a directory: the subdirectory to enter, and what is left
/// of the typed prefix once it is entered.
#[derive(Debug, Clone, PartialEq, Eq)]
pub struct Branch {
    pub segment: String,
    pub remaining: Vec<char>,
}

/// A `Branch` as characters.
pub struct BranchView {
    pub segment: Seq<char>,
    pub remaining: Seq<char>,
}

impl View for Branch {
    type V = BranchView;

    open spec fn view(&self) -> BranchView {
        BranchView { segment: self.segment@, remaining: self.remaining@ }
    }
}

/// The views of a sequence of branches.
pub open spec fn branch_views(v: Seq<Branch>) -> Seq<BranchView> {
    Seq::new(v.len(), |i: int| v[i]@)
}

/// The files of `listing` whose names match `query` as a prefix, in the
/// listing's order, each located below `path`.
pub open spec fn found_files(
    listing: Seq<DirEntryView>,
    path: Seq<Seq<char>>,
    query: Seq<char>,
) -> Seq<CrateMetaView>
    decreases listing.len(),
{
    if listing.len() == 0 {
        Seq::empty()
    } else {
        let before = found_files(listing.drop_last(), path, query);
        let e = listing.last();
        if e.kind == EntryKind::File && prefix_matches(query, e.name) {
            before.push(CrateMetaView { name: e.name, path: path.push(e.name) })
        } else {
            before
        }
    }
}

/// The subdirectories of `listing` whose names begin with a variant of
/// `remaining`, in the listing's order. Nothing of the prefix is left once
/// one of them is entered.
pub open spec fn subdir_branches(listing: Seq<DirEntryView>, remaining: Seq<char>) -> Seq<
    BranchView,
>
    decreases listing.len(),
{
    if listing.len() == 0 {
        Seq::empty()
    } else {
        let before = subdir_branches(listing.drop_last(), remaining);
        let e = listing.last();
        if e.kind == EntryKind::Dir && starts_with_variant(remaining, e.name) {
            before.push(BranchView { segment: e.name, remaining: Seq::empty() })
        } else {
            before
        }
    }
}

/// One branch for each variant of `head`, each leaving `tail`.
pub open spec fn variant_branches(head: Seq<char>, tail: Seq<char>) -> Seq<BranchView> {
    Seq::new(
        variants(head).len(),
        |k: int| BranchView { segment: variants(head)[k], remaining: tail },
    )
}

/// Where a prefix search goes on from a directory with this listing. With
/// fewer than two characters left it enters the subdirectories that begin
/// with what is left. With two or more it cannot know how long the next
/// segment is, and tries both: the variants of the first character, then the
/// variants of the first two.
pub open spec fn branches(listing: Seq<DirEntryView>, remaining: Seq<char>) -> Seq<BranchView> {
    if remaining.len() < 2 {
        subdir_branches(listing, remaining)
    } else {
        variant_branches(remaining.subrange(0, 1), remaining.subrange(1, remaining.len() as int))
            + variant_branches(
            remaining.subrange(0, 2),
            remaining.subrange(2, remaining.len() as int),
        )
    }
}

/// Every branch taken from a listing is a subdirectory of the listing whose
/// name begins with what is left of the prefix, and leaves nothing of it.
pub proof fn lemma_subdir_branches(listing: Seq<DirEntryView>, remaining: Seq<char>)
    ensures
        subdir_branches(listing, remaining).len() <= listing.len(),
        forall|k: int|
            0 <= k < subdir_branches(listing, remaining).len() ==> {
                let b = #[trigger] subdir_branches(listing, remaining)[k];
                &&& b.remaining.len() == 0
                &&& prefix_matches(remaining, b.segment)
                &&& exists|i: int|
                    0 <= i < listing.len() && (#[trigger] listing[i]).kind == EntryKind::Dir
                        && listing[i].name == b.segment
            },
    decreases listing.len(),
{
    if listing.len() > 0 {
        let shorter = listing.drop_last();
        lemma_subdir_branches(shorter, remaining);
        let before = subdir_branches(shorter, remaining);
        let all = subdir_branches(listing, remaining);
        let e = listing.last();
        lemma_starts_with_variant(remaining, e.name);
        assert forall|k: int| 0 <= k < all.len() implies {
            let b = #[trigger] all[k];
            &&& b.remaining.len() == 0
            &&& prefix_matches(remaining, b.segment)
            &&& exists|i: int|
                0 <= i < listing.len() && (#[trigger] listing[i]).kind == EntryKind::Dir
                    && listing[i].name == b.segment
        } by {
            if k < before.len() {
                assert(all[k] == before[k]);
                let i = choose|i: int|
                    0 <= i < shorter.len() && (#[trigger] shorter[i]).kind == EntryKind::Dir
                        && shorter[i].name == before[k].segment;
                assert(listing[i] == shorter[i]);
            } else {
                assert(listing[listing.len() - 1] == e);
            }
        }
    }
}

/// A prefix search never leaves the typed prefix. With fewer than two
/// characters left, every branch is a subdirectory of the listing whose name
/// begins with what is left. With two or more, there are at most six
/// branches; each is named by the first or the first two characters left, up
/// to the choice of separators, and leaves the characters after them.
pub proof fn lemma_branches_follow_prefix(listing: Seq<DirEntryView>, remaining: Seq<char>)
    ensures
        remaining.len() < 2 ==> branches(listing, remaining).len() <= listing.len(),
        remaining.len() >= 2 ==> branches(listing, remaining).len() <= 6,
        forall|k: int|
            0 <= k < branches(listing, remaining).len() ==> {
                let b = #[trigger] branches(listing, remaining)[k];
                if remaining.len() < 2 {
                    &&& b.remaining.len() == 0
                    &&& prefix_matches(remaining, b.segment)
                    &&& exists|i: int|
                        0 <= i < listing.len() && (#[trigger] listing[i]).kind == EntryKind::Dir
                            && listing[i].name == b.segment
                } else {
                    &&& 1 <= b.segment.len() <= 2
                    &&& same_shape(remaining.subrange(0, b.segment.len() as int), b.segment)
                    &&& b.remaining == remaining.subrange(
                        b.segment.len() as int,
                        remaining.len() as int,
                    )
                }
            },
{
    if remaining.len() < 2 {
        lemma_subdir_branches(listing, remaining);
    } else {
        let head1 = remaining.subrange(0, 1);
        let head2 = remaining.subrange(0, 2);
        let first = variant_branches(head1, remaining.subrange(1, remaining.len() as int));
        let second = variant_branches(head2, remaining.subrange(2, remaining.len() as int));
        let all = branches(listing, remaining);
        lemma_variants(head1);
        lemma_variants(head2);
        assert(separator_count(head1) <= 1 && separator_count(head2) <= 2) by {
            reveal_with_fuel(separator_count, 3);
            assert(head1.drop_first().len() == 0);
            assert(head2.drop_first().len() == 1);
            assert(head2.drop_first().drop_first().len() == 0);
        }
        assert(first.len() <= 2 && second.len() <= 4) by {
            vstd::arithmetic::power2::lemma2_to64();
        }
        assert forall|k: int| 0 <= k < all.len() implies {
            let b = #[trigger] all[k];
            &&& 1 <= b.segment.len() <= 2
            &&& same_shape(remaining.subrange(0, b.segment.len() as int), b.segment)
            &&& b.remaining == remaining.subrange(b.segment.len() as int, remaining.len() as int)
        } by {
            if k < first.len() {
                assert(all[k] == first[k]);
                assert(same_shape(head1, variants(head1)[k]));
            } else {
                assert(all[k] == second[k - first.len()]);
                assert(same_shape(head2, variants(head2)[k - first.len()]));
            }
        }
    }
}

/// The files of `listing` that a search for `query` reports.
pub fn matching_files(listing: &Vec<DirEntry>, path: &Vec<String>, query: &Vec<char>) -> (out:
    Vec<CrateMeta>)
    ensures
        metas(out@) == found_files(listing_view(listing@), texts(path@), query@),
{
    let mut out: Vec<CrateMeta> = Vec::new();
    let mut i: usize = 0;
    let ghost all = listing_view(listing@);
    assert(all.take(0) =~= Seq::<DirEntryView>::empty());
    assert(metas(out@) =~= Seq::<CrateMetaView>::empty());
    while i < listing.len()
        invariant
            0 <= i <= listing.len(),
            all == listing_view(listing@),
            metas(out@) == found_files(all.take(i as int), texts(path@), query@),
        decreases listing.len() - i,
    {
        let e = &listing[i];
        proof {
            assert(all.take(i + 1).drop_last() =~= all.take(i as int));
            assert(all.take(i + 1).last() == e@);
        }
        let ghost before = out@;
        match e.kind {
            EntryKind::File => {
                let name = chars_of(e.name.as_str());
                if is_match(query, &name) {
                    let meta = CrateMeta { name: e.name.clone(), path: push_segment(path, &e.name) };
                    out.push(meta);
                    assert(metas(out@) =~= metas(before).push(meta@));
                }
            },
            _ => {},
        }
        i += 1;
    }
    assert(all.take(listing.len() as int) =~= all);
    out
}

/// One branch for each variant of `head`, each leaving `tail`.
fn branches_by_variant(head: &Vec<char>, tail: &Vec<char>) -> (out: Vec<Branch>)
    ensures
        branch_views(out@) == variant_branches(head@, tail@),
{
    let parts = expand(head);
    let mut out: Vec<Branch> = Vec::new();
    let mut k: usize = 0;
    while k < parts.len()
        invariant
            0 <= k <= parts.len(),
            out.len() == k,
            rows(parts@) == variants(head@),
            forall|j: int| 0 <= j < k ==> (#[trigger] out[j])@ == (BranchView {
                segment: parts[j]@,
                remaining: tail@,
            }),
        decreases parts.len() - k,
    {
        out.push(Branch { segment: string_of(&parts[k]), remaining: slice_of(tail, 0, tail.len()) });
        assert(tail@.subrange(0, tail.len() as int) =~= tail@);
        k += 1;
    }
    proof {
        assert forall|j: int| 0 <= j < out.len() implies branch_views(out@)[j] == variant_branches(
            head@,
            tail@,
        )[j] by {
            assert(rows(parts@)[j] == parts[j]@);
        }
        assert(branch_views(out@) =~= variant_branches(head@, tail@));
    }
    out
}

/// The subdirectories of `listing` that begin with a variant of `remaining`.
fn branches_by_listing(listing: &Vec<DirEntry>, remaining: &Vec<char>) -> (out: Vec<Branch>)
    ensures
        branch_views(out@) == subdir_branches(listing_view(listing@), remaining@),
{
    let parts = expand(remaining);
    let mut out: Vec<Branch> = Vec::new();
    let mut i: usize = 0;
    let ghost all = listing_view(listing@);
    assert(all.take(0) =~= Seq::<DirEntryView>::empty());
    assert(branch_views(out@) =~= Seq::<BranchView>::empty());
    while i < listing.len()
        invariant
            0 <= i <= listing.len(),
            all == listing_view(listing@),
            rows(parts@) == variants(remaining@),
            branch_views(out@) == subdir_branches(all.take(i as int), remaining@),
        decreases listing.len() - i,
    {
        let e = &listing[i];
        proof {
            assert(all.take(i + 1).drop_last() =~= all.take(i as int));
            assert(all.take(i + 1).last() == e@);
        }
        let ghost before = out@;
        match e.kind {
            EntryKind::Dir => {
                let name = chars_of(e.name.as_str());
                let enter = starts_with_any(&name, &parts);
                proof {
                    if enter {
                        let k = choose|k: int|
                            0 <= k < parts.len() && (#[trigger] parts[k]@).is_prefix_of(name@);
                        assert(rows(parts@)[k] == parts[k]@);
                        assert(variants(remaining@)[k].is_prefix_of(e.name@));
                    }
                    if starts_with_variant(remaining@, e.name@) {
                        let k = choose|k: int|
                            0 <= k < variants(remaining@).len() && (#[trigger] variants(
                                remaining@,
                            )[k]).is_prefix_of(e.name@);
                        assert(rows(parts@)[k] == parts[k]@);
                        assert(parts[k]@.is_prefix_of(name@));
                    }
                }
                if enter {
                    let branch = Branch { segment: e.name.clone(), remaining: Vec::new() };
                    out.push(branch);
                    assert(branch_views(out@) =~= branch_views(before).push(branch@));
                }
            },
            _ => {},
        }
        i += 1;
    }
    assert(all.take(listing.len() as int) =~= all);
    out
}

/// Where a prefix search goes on from a directory with this listing.
pub fn branches_of(listing: &Vec<DirEntry>, remaining: &Vec<char>) -> (out: Vec<Branch>)
    ensures
        branch_views(out@) == branches(listing_view(listing@), remaining@),
{
    if remaining.len() < 2 {
        branches_by_listing(listing, remaining)
    } else {
        let head1 = slice_of(remaining, 0, 1);
        let tail1 = slice_of(remaining, 1, remaining.len());
        let head2 = slice_of(remaining, 0, 2);
        let tail2 = slice_of(remaining, 2, remaining.len());
        let mut out = branches_by_variant(&head1, &tail1);
        let mut more = branches_by_variant(&head2, &tail2);
        let ghost first = out@;
        let ghost second = more@;
        out.append(&mut more);
        assert(branch_views(first + second) =~= branch_views(first) + branch_views(second));
        out
    }
}

/// The view of a location that may be absent.
pub open spec fn meta_view(meta: Option<CrateMeta>) -> Option<CrateMetaView> {
    match meta {
        Some(m) => Some(m@),
        None => None,
    }
}

/// Whether `listing` holds a regular file named `name`.
pub open spec fn has_file_named(listing: Seq<DirEntryView>, name: Seq<char>) -> bool {
    exists|i: int|
        0 <= i < listing.len() && (#[trigger] listing[i]).kind == EntryKind::File && listing[i].name
            == name
}

/// The package `name` as found in a directory at `path` with this listing:
/// there if the listing holds a regular file of that name. A directory, or
/// anything else that is no file, is passed over whatever its name.
pub open spec fn exact_found(
    listing: Seq<DirEntryView>,
    path: Seq<Seq<char>>,
    name: Seq<char>,
) -> Option<CrateMetaView> {
    if has_file_named(listing, name) {
        Some(CrateMetaView { name: name, path: path.push(name) })
    } else {
        None
    }
}

/// Where a lookup goes on from a directory that does not hold the package.
/// It cannot know how long the next segment is, and tries the subdirectory
/// named by the first character that is left of the name, then the one named
/// by the first two. With one character left there is only the first of
/// these, and with none left it has nowhere to go.
pub open spec fn exact_branches(remaining: Seq<char>) -> Seq<BranchView> {
    if remaining.len() == 0 {
        Seq::empty()
    } else if remaining.len() == 1 {
        seq![BranchView { segment: remaining.subrange(0, 1), remaining: Seq::empty() }]
    } else {
        seq![
            BranchView {
                segment: remaining.subrange(0, 1),
                remaining: remaining.subrange(1, remaining.len() as int),
            },
            BranchView {
                segment: remaining.subrange(0, 2),
                remaining: remaining.subrange(2, remaining.len() as int),
            },
        ]
    }
}

/// The package `name`, if the directory at `path` with this listing holds a
/// regular file of that name.
pub fn find_exact(listing: &Vec<DirEntry>, path: &Vec<String>, name: &String) -> (r: Option<
    CrateMeta,
>)
    ensures
        meta_view(r) == exact_found(listing_view(listing@), texts(path@), name@),
{
    let ghost all = listing_view(listing@);
    let mut i: usize = 0;
    while i < listing.len()
        invariant
            0 <= i <= listing.len(),
            all == listing_view(listing@),
            forall|j: int|
                0 <= j < i ==> !((#[trigger] all[j]).kind == EntryKind::File && all[j].name
                    == name@),
        decreases listing.len() - i,
    {
        assert(all[i as int] == listing[i as int]@);
        let is_file = match listing[i].kind {
            EntryKind::File => true,
            _ => false,
        };
        if is_file && listing[i].name == *name {
            return Some(CrateMeta { name: listing[i].name.clone(), path: push_segment(path, name) });
        }
        i += 1;
    }
    None
}

/// Where a lookup goes on from a directory that does not hold the package.
pub fn exact_branches_of(remaining: &Vec<char>) -> (out: Vec<Branch>)
    ensures
        branch_views(out@) == exact_branches(remaining@),
{
    let mut out: Vec<Branch> = Vec::new();
    if remaining.len() >= 1 {
        let head1 = slice_of(remaining, 0, 1);
        out.push(
            Branch {
                segment: string_of(&head1),
                remaining: slice_of(remaining, 1, remaining.len()),
            },
        );
    }
    if remaining.len() >= 2 {
        let head2 = slice_of(remaining, 0, 2);
        out.push(
            Branch {
                segment: string_of(&head2),
                remaining: slice_of(remaining, 2, remaining.len()),
            },
        );
    }
    proof {
        if remaining.len() == 1 {
            assert(remaining@.subrange(1, 1) =~= Seq::<char>::empty());
        }
    }
    assert(branch_views(out@) =~= exact_branches(remaining@));
    out
}

} // verus!
