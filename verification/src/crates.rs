//! The index of a registry, and the packages and releases found in it.

use vstd::prelude::*;

use crate::shard::{
    branch_views, branches, branches_of, exact_branches, exact_branches_of, exact_found,
    find_exact, first_named, has_file_named, found_files, lemma_first_named, lemma_none_named, listing_names,
    listing_view, matching_files, meta_view, BranchView, DirEntry, DirEntryView, EntryKind,
};
use crate::error::Error;
use crate::names::prefix_matches;
use crate::text::{chars_of, push_segment, texts};

verus! {

/// Where the metadata of one package is kept: the package's name, and the
/// path of its file, one segment after the other.
#[derive(Debug, Clone, Hash, Eq, PartialEq)]
pub struct CrateMeta {
    pub name: String,
    pub path: Vec<String>,
}

/// A `CrateMeta` as characters.
pub struct CrateMetaView {
    pub name: Seq<char>,
    pub path: Seq<Seq<char>>,
}

impl View for CrateMeta {
    type V = CrateMetaView;

    open spec fn view(&self) -> CrateMetaView {
        CrateMetaView { name: self.name@, path: texts(self.path@) }
    }
}

/// The views of a sequence of locations.
pub open spec fn metas(v: Seq<CrateMeta>) -> Seq<CrateMetaView> {
    Seq::new(v.len(), |i: int| v[i]@)
}

/// One release of a package: its version, the optional features it declares,
/// each with what it turns on, and whether it was withdrawn. The features are
/// kept in the order in which they were read.
#[derive(Debug, Clone, PartialEq, Eq)]
pub struct Crate {
    pub name: String,
    pub version: String,
    pub features: Vec<(String, Vec<String>)>,
    pub yanked: bool,
}

/// What stands at a place of an index held in memory: a metadata file with
/// its releases in the order of the file (`None` where the file does not
/// decode), a directory with its entries in listing order, or anything else.
#[derive(Debug, PartialEq, Eq)]
pub enum Node {
    File(Option<Vec<Crate>>),
    Dir(Vec<Entry>),
    Other,
}

/// A named place in a directory.
#[derive(Debug, PartialEq, Eq)]
pub struct Entry {
    pub name: String,
    pub node: Node,
}

/// The kind under which a directory lists `node`.
pub open spec fn kind_of(node: Node) -> EntryKind {
    match node {
        Node::File(_) => EntryKind::File,
        Node::Dir(_) => EntryKind::Dir,
        Node::Other => EntryKind::Other,
    }
}

/// The listing of a directory that holds `entries`.
pub open spec fn entry_listing(entries: Seq<Entry>) -> Seq<DirEntryView> {
    Seq::new(
        entries.len(),
        |i: int| DirEntryView { name: entries[i].name@, kind: kind_of(entries[i].node) },
    )
}

/// The names of `entries`, in order.
pub open spec fn entry_names(entries: Seq<Entry>) -> Seq<Seq<char>> {
    listing_names(entry_listing(entries))
}

/// What a prefix search reports from `node`, which stands at `path`, with
/// `remaining` of the typed prefix `query` not yet used for the way down: the
/// matching files of the directory itself, then what each branch reports, in
/// the order of the branches. A branch leads to the first entry of its name.
pub open spec fn prefix_hits(
    node: Node,
    path: Seq<Seq<char>>,
    query: Seq<char>,
    remaining: Seq<char>,
) -> Seq<CrateMetaView>
    decreases node, 0nat,
{
    match node {
        Node::Dir(entries) => {
            let listing = entry_listing(entries@);
            let next = branches(listing, remaining);
            found_files(listing, path, query) + branch_hits(
                entries@,
                path,
                query,
                next,
                next.len(),
            )
        },
        _ => Seq::empty(),
    }
}

/// What the first `upto` of the branches `next` report, one after the other.
pub open spec fn branch_hits(
    entries: Seq<Entry>,
    path: Seq<Seq<char>>,
    query: Seq<char>,
    next: Seq<BranchView>,
    upto: nat,
) -> Seq<CrateMetaView>
    decreases entries, upto,
{
    if upto == 0 || upto > next.len() {
        Seq::empty()
    } else {
        let b = next[upto - 1];
        branch_hits(entries, path, query, next, (upto - 1) as nat) + (match first_named(
            entry_names(entries),
            b.segment,
        ) {
            Some(i) => if 0 <= i < entries.len() {
                prefix_hits(entries[i].node, path.push(b.segment), query, b.remaining)
            } else {
                Seq::empty()
            },
            None => Seq::empty(),
        })
    }
}

/// Every file that a listing yields for a query has a name that begins with
/// the query, `-` and `_` standing for each other.
pub proof fn lemma_found_files_match(
    listing: Seq<DirEntryView>,
    path: Seq<Seq<char>>,
    query: Seq<char>,
)
    ensures
        forall|i: int|
            0 <= i < found_files(listing, path, query).len() ==> prefix_matches(
                query,
                (#[trigger] found_files(listing, path, query)[i]).name,
            ),
    decreases listing.len(),
{
    if listing.len() > 0 {
        lemma_found_files_match(listing.drop_last(), path, query);
        let before = found_files(listing.drop_last(), path, query);
        let all = found_files(listing, path, query);
        assert forall|i: int| 0 <= i < all.len() implies prefix_matches(
            query,
            (#[trigger] all[i]).name,
        ) by {
            if i < before.len() {
                assert(all[i] == before[i]);
            }
        }
    }
}

/// Every package that a prefix search reports has a name that begins with
/// the typed prefix, `-` and `_` standing for each other: the search reports
/// nothing that was not asked for.
pub proof fn lemma_hits_match(
    node: Node,
    path: Seq<Seq<char>>,
    query: Seq<char>,
    remaining: Seq<char>,
)
    ensures
        forall|i: int|
            0 <= i < prefix_hits(node, path, query, remaining).len() ==> prefix_matches(
                query,
                (#[trigger] prefix_hits(node, path, query, remaining)[i]).name,
            ),
    decreases node, 0nat,
{
    match node {
        Node::Dir(entries) => {
            let listing = entry_listing(entries@);
            let next = branches(listing, remaining);
            lemma_found_files_match(listing, path, query);
            lemma_branch_hits_match(entries@, path, query, next, next.len());
            let files = found_files(listing, path, query);
            let below = branch_hits(entries@, path, query, next, next.len());
            let all = prefix_hits(node, path, query, remaining);
            assert(all == files + below);
            assert forall|i: int| 0 <= i < all.len() implies prefix_matches(
                query,
                (#[trigger] all[i]).name,
            ) by {
                if i < files.len() {
                    assert(all[i] == files[i]);
                } else {
                    assert(all[i] == below[i - files.len()]);
                }
            }
        },
        _ => {},
    }
}

/// Every package reported below the branches of a directory has a name that
/// begins with the typed prefix.
pub proof fn lemma_branch_hits_match(
    entries: Seq<Entry>,
    path: Seq<Seq<char>>,
    query: Seq<char>,
    next: Seq<BranchView>,
    upto: nat,
)
    ensures
        forall|i: int|
            0 <= i < branch_hits(entries, path, query, next, upto).len() ==> prefix_matches(
                query,
                (#[trigger] branch_hits(entries, path, query, next, upto)[i]).name,
            ),
    decreases entries, upto,
{
    if !(upto == 0 || upto > next.len()) {
        let b = next[upto - 1];
        lemma_branch_hits_match(entries, path, query, next, (upto - 1) as nat);
        let before = branch_hits(entries, path, query, next, (upto - 1) as nat);
        let last = match first_named(entry_names(entries), b.segment) {
            Some(i) => if 0 <= i < entries.len() {
                prefix_hits(entries[i].node, path.push(b.segment), query, b.remaining)
            } else {
                Seq::empty()
            },
            None => Seq::empty(),
        };
        match first_named(entry_names(entries), b.segment) {
            Some(i) => {
                if 0 <= i < entries.len() {
                    lemma_hits_match(entries[i].node, path.push(b.segment), query, b.remaining);
                }
            },
            None => {},
        }
        let all = branch_hits(entries, path, query, next, upto);
        assert(all == before + last);
        assert forall|i: int| 0 <= i < all.len() implies prefix_matches(
            query,
            (#[trigger] all[i]).name,
        ) by {
            if i < before.len() {
                assert(all[i] == before[i]);
            } else {
                assert(all[i] == last[i - before.len()]);
            }
        }
    }
}

/// The package that a lookup finds has the name that was looked up.
pub proof fn lemma_exact_hit_name(
    node: Node,
    path: Seq<Seq<char>>,
    name: Seq<char>,
    remaining: Seq<char>,
)
    ensures
        exact_hit(node, path, name, remaining) matches Some(m) ==> m.name == name,
    decreases node, 0nat,
{
    match node {
        Node::Dir(entries) => {
            lemma_first_hit_name(entries@, path, name, exact_branches(remaining), 0);
        },
        _ => {},
    }
}

/// The package found below the branches of a directory has the name that
/// was looked up.
pub proof fn lemma_first_hit_name(
    entries: Seq<Entry>,
    path: Seq<Seq<char>>,
    name: Seq<char>,
    next: Seq<BranchView>,
    from: nat,
)
    ensures
        first_hit(entries, path, name, next, from) matches Some(m) ==> m.name == name,
    decreases entries, next.len() - from,
{
    if from < next.len() {
        let b = next[from as int];
        match first_named(entry_names(entries), b.segment) {
            Some(i) => {
                if 0 <= i < entries.len() {
                    lemma_exact_hit_name(entries[i].node, path.push(b.segment), name, b.remaining);
                }
            },
            None => {},
        }
        lemma_first_hit_name(entries, path, name, next, from + 1);
    }
}

/// The listing of a directory that holds `entries`.
pub fn listing_of(entries: &Vec<Entry>) -> (out: Vec<DirEntry>)
    ensures
        listing_view(out@) == entry_listing(entries@),
{
    let mut out: Vec<DirEntry> = Vec::new();
    let mut i: usize = 0;
    while i < entries.len()
        invariant
            0 <= i <= entries.len(),
            out.len() == i,
            forall|j: int| 0 <= j < i ==> (#[trigger] out[j])@ == entry_listing(entries@)[j],
        decreases entries.len() - i,
    {
        let kind = match &entries[i].node {
            Node::File(_) => EntryKind::File,
            Node::Dir(_) => EntryKind::Dir,
            Node::Other => EntryKind::Other,
        };
        out.push(DirEntry { name: entries[i].name.clone(), kind });
        i += 1;
    }
    assert(listing_view(out@) =~= entry_listing(entries@));
    out
}

/// The position of the first of `entries` that is named `segment`.
pub fn find_entry(entries: &Vec<Entry>, segment: &String) -> (r: Option<usize>)
    ensures
        match r {
            Some(i) => first_named(entry_names(entries@), segment@) == Some(i as int) && i
                < entries.len(),
            None => first_named(entry_names(entries@), segment@) is None,
        },
{
    let mut i: usize = 0;
    while i < entries.len()
        invariant
            0 <= i <= entries.len(),
            forall|j: int| 0 <= j < i ==> entry_names(entries@)[j] != segment@,
        decreases entries.len() - i,
    {
        if entries[i].name == *segment {
            proof {
                assert(entry_names(entries@)[i as int] == segment@);
                lemma_first_named(entry_names(entries@), segment@, i as int);
            }
            return Some(i);
        }
        assert(entry_names(entries@)[i as int] == entries[i as int].name@);
        i += 1;
    }
    proof {
        lemma_none_named(entry_names(entries@), segment@);
    }
    None
}

/// The packages below `node` whose names begin with `query`, `-` and `_`
/// standing for each other. `node` stands at `path`, and `remaining` is the
/// part of `query` that the way down to it has not used.
pub fn _crates_with_prefix(
    node: &Node,
    path: &Vec<String>,
    query: &Vec<char>,
    remaining: &Vec<char>,
) -> (out: Vec<CrateMeta>)
    ensures
        metas(out@) == prefix_hits(*node, texts(path@), query@, remaining@),
    decreases node,
{
    match node {
        Node::Dir(entries) => {
            let listing = listing_of(entries);
            let mut out = matching_files(&listing, path, query);
            let next = branches_of(&listing, remaining);
            let ghost files = metas(out@);
            assert(metas(out@) =~= files + Seq::<CrateMetaView>::empty());
            let mut k: usize = 0;
            while k < next.len()
                invariant
                    0 <= k <= next.len(),
                    *node == Node::Dir(*entries),
                    metas(out@) == files + branch_hits(
                        entries@,
                        texts(path@),
                        query@,
                        branch_views(next@),
                        k as nat,
                    ),
                decreases next.len() - k,
            {
                let b = &next[k];
                let ghost before = out@;
                assert(branch_views(next@)[k as int] == b@);
                match find_entry(entries, &b.segment) {
                    Some(i) => {
                        let below = push_segment(path, &b.segment);
                        proof {
                            assert(*entries == node->Dir_0);
                            assert(decreases_to!(*node => node->Dir_0));
                            assert(decreases_to!(*entries => entries[i as int]));
                            assert(decreases_to!(entries[i as int] => entries[i as int].node));
                        }
                        let mut more = _crates_with_prefix(
                            &entries[i].node,
                            &below,
                            query,
                            &b.remaining,
                        );
                        let ghost added = more@;
                        out.append(&mut more);
                        assert(metas(out@) =~= metas(before) + metas(added));
                    },
                    None => {
                        assert(metas(out@) =~= metas(before) + Seq::<CrateMetaView>::empty());
                    },
                }
                k += 1;
            }
            out
        },
        _ => {
            let out: Vec<CrateMeta> = Vec::new();
            assert(metas(out@) =~= Seq::<CrateMetaView>::empty());
            out
        },
    }
}

/// Where a lookup of the package `name` finds it from `node`, which stands
/// at `path`, with `remaining` of the name not yet used for the way down: in
/// the directory itself if it holds a regular file of that name, else below
/// the first branch that leads to it. A branch leads to the first entry of
/// its name.
pub open spec fn exact_hit(
    node: Node,
    path: Seq<Seq<char>>,
    name: Seq<char>,
    remaining: Seq<char>,
) -> Option<CrateMetaView>
    decreases node, 0nat,
{
    match node {
        Node::Dir(entries) => match exact_found(entry_listing(entries@), path, name) {
            Some(m) => Some(m),
            None => first_hit(entries@, path, name, exact_branches(remaining), 0),
        },
        _ => None,
    }
}

/// What the branches `next` find, from position `from` on: the find of the
/// first branch that has one.
pub open spec fn first_hit(
    entries: Seq<Entry>,
    path: Seq<Seq<char>>,
    name: Seq<char>,
    next: Seq<BranchView>,
    from: nat,
) -> Option<CrateMetaView>
    decreases entries, next.len() - from,
{
    if from >= next.len() {
        None
    } else {
        let b = next[from as int];
        let hit = match first_named(entry_names(entries), b.segment) {
            Some(i) => if 0 <= i < entries.len() {
                exact_hit(entries[i].node, path.push(b.segment), name, b.remaining)
            } else {
                None
            },
            None => None,
        };
        if hit is Some {
            hit
        } else {
            first_hit(entries, path, name, next, from + 1)
        }
    }
}

/// Whether neither `node` nor any directory below it lists a name twice.
pub open spec fn distinct_names(node: Node) -> bool
    decreases node,
{
    match node {
        Node::Dir(entries) => {
            &&& entry_names(entries@).no_duplicates()
            &&& forall|i: int|
                0 <= i < entries@.len() ==> distinct_names((#[trigger] entries@[i]).node)
        },
        _ => true,
    }
}

/// Where no directory lists a name twice, the path of the package that a
/// lookup finds leads, from the place where the lookup began, to a regular
/// file.
pub proof fn lemma_exact_hit_is_file(
    node: Node,
    path: Seq<Seq<char>>,
    name: Seq<char>,
    remaining: Seq<char>,
)
    requires
        distinct_names(node),
    ensures
        exact_hit(node, path, name, remaining) matches Some(m) ==> path.is_prefix_of(m.path)
            && node_at(node, m.path.skip(path.len() as int)) matches Some(Node::File(_)),
    decreases node, 0nat,
{
    match node {
        Node::Dir(entries) => {
            let listing = entry_listing(entries@);
            let names = entry_names(entries@);
            match exact_found(listing, path, name) {
                Some(m) => {
                    let j = choose|j: int|
                        0 <= j < listing.len() && (#[trigger] listing[j]).kind == EntryKind::File
                            && listing[j].name == name;
                    assert(names[j] == name);
                    assert forall|k: int| 0 <= k < j implies names[k] != name by {}
                    lemma_first_named(names, name, j);
                    let way = m.path.skip(path.len() as int);
                    assert(m.path.subrange(0, path.len() as int) =~= path);
                    assert(way =~= seq![name]);
                    assert(way.drop_first() =~= Seq::<Seq<char>>::empty());
                    assert(node_at(entries@[j].node, way.drop_first()) == Some(entries@[j].node));
                },
                None => {
                    lemma_first_hit_is_file(entries@, path, name, exact_branches(remaining), 0);
                    match first_hit(entries@, path, name, exact_branches(remaining), 0) {
                        Some(m) => {
                            let n = path.len() as int;
                            assert(m.path.skip(n)[0] == m.path[n]);
                            assert(m.path.skip(n).drop_first() =~= m.path.skip(n + 1));
                        },
                        None => {},
                    }
                },
            }
        },
        _ => {},
    }
}

/// Where no directory lists a name twice, the path of the package found
/// below the branches of a directory goes on into one of its entries and
/// leads from there to a regular file.
pub proof fn lemma_first_hit_is_file(
    entries: Seq<Entry>,
    path: Seq<Seq<char>>,
    name: Seq<char>,
    next: Seq<BranchView>,
    from: nat,
)
    requires
        forall|i: int| 0 <= i < entries.len() ==> distinct_names((#[trigger] entries[i]).node),
    ensures
        first_hit(entries, path, name, next, from) matches Some(m) ==> {
            &&& path.len() < m.path.len()
            &&& path.is_prefix_of(m.path)
            &&& first_named(entry_names(entries), m.path[path.len() as int]) matches Some(i)
            &&& 0 <= first_named(entry_names(entries), m.path[path.len() as int])->Some_0
                < entries.len()
            &&& node_at(
                entries[first_named(entry_names(entries), m.path[path.len() as int])->Some_0].node,
                m.path.skip(path.len() as int + 1),
            ) matches Some(Node::File(_))
        },
    decreases entries, next.len() - from,
{
    if from < next.len() {
        let b = next[from as int];
        let below = path.push(b.segment);
        let hit = match first_named(entry_names(entries), b.segment) {
            Some(i) => if 0 <= i < entries.len() {
                exact_hit(entries[i].node, below, name, b.remaining)
            } else {
                None
            },
            None => None,
        };
        match hit {
            Some(m) => {
                let i = first_named(entry_names(entries), b.segment)->Some_0;
                lemma_exact_hit_is_file(entries[i].node, below, name, b.remaining);
                let n = path.len() as int;
                assert(below.is_prefix_of(m.path));
                assert(m.path.subrange(0, n + 1)[n] == below[n]);
                assert(m.path[n] == b.segment);
                assert(m.path.subrange(0, n) =~= m.path.subrange(0, n + 1).subrange(0, n));
                assert(below.subrange(0, n) =~= path);
                assert(m.path.skip(below.len() as int) =~= m.path.skip(n + 1));
            },
            None => {
                lemma_first_hit_is_file(entries, path, name, next, from + 1);
            },
        }
    }
}

/// What a lookup finds below one branch of a directory: what it finds from
/// the first entry named like the branch, and nothing where there is none.
pub open spec fn branch_find(
    entries: Seq<Entry>,
    path: Seq<Seq<char>>,
    name: Seq<char>,
    b: BranchView,
) -> Option<CrateMetaView> {
    match first_named(entry_names(entries), b.segment) {
        Some(i) => if 0 <= i < entries.len() {
            exact_hit(entries[i].node, path.push(b.segment), name, b.remaining)
        } else {
            None
        },
        None => None,
    }
}

/// A package kept in the directory named by the first character of its name
/// is found there, unless the directory where the lookup begins holds a file
/// of that name itself. This is where names of one, two and three characters
/// are kept.
pub proof fn lemma_found_below_first_character(
    node: Node,
    path: Seq<Seq<char>>,
    name: Seq<char>,
    bucket: int,
)
    requires
        name.len() >= 1,
        node is Dir,
        !has_file_named(entry_listing(node->Dir_0@), name),
        first_named(entry_names(node->Dir_0@), name.subrange(0, 1)) == Some(bucket),
        0 <= bucket < node->Dir_0@.len(),
        node->Dir_0@[bucket].node is Dir,
        has_file_named(entry_listing(node->Dir_0@[bucket].node->Dir_0@), name),
    ensures
        exact_hit(node, path, name, name) == Some(
            CrateMetaView { name: name, path: path.push(name.subrange(0, 1)).push(name) },
        ),
{
    let entries = node->Dir_0@;
    let next = exact_branches(name);
    assert(next[0].segment == name.subrange(0, 1));
    assert(first_hit(entries, path, name, next, 0) == branch_find(entries, path, name, next[0]));
}

/// A package kept two directories down, the first named by the first two
/// characters of its name and the second by the next two, is found there,
/// unless the lookup finds a file of that name on its way before: in one of
/// the directories it passes, or below the branch of a single character
/// that it tries first in each. This is where names of four and more
/// characters are kept.
pub proof fn lemma_found_below_two_characters(
    node: Node,
    path: Seq<Seq<char>>,
    name: Seq<char>,
    first: int,
    second: int,
)
    requires
        name.len() >= 4,
        node is Dir,
        !has_file_named(entry_listing(node->Dir_0@), name),
        branch_find(
            node->Dir_0@,
            path,
            name,
            BranchView {
                segment: name.subrange(0, 1),
                remaining: name.subrange(1, name.len() as int),
            },
        ) is None,
        first_named(entry_names(node->Dir_0@), name.subrange(0, 2)) == Some(first),
        0 <= first < node->Dir_0@.len(),
        node->Dir_0@[first].node is Dir,
        !has_file_named(entry_listing(node->Dir_0@[first].node->Dir_0@), name),
        branch_find(
            node->Dir_0@[first].node->Dir_0@,
            path.push(name.subrange(0, 2)),
            name,
            BranchView {
                segment: name.subrange(2, 3),
                remaining: name.subrange(3, name.len() as int),
            },
        ) is None,
        first_named(entry_names(node->Dir_0@[first].node->Dir_0@), name.subrange(2, 4)) == Some(
            second,
        ),
        0 <= second < node->Dir_0@[first].node->Dir_0@.len(),
        node->Dir_0@[first].node->Dir_0@[second].node is Dir,
        has_file_named(
            entry_listing(node->Dir_0@[first].node->Dir_0@[second].node->Dir_0@),
            name,
        ),
    ensures
        exact_hit(node, path, name, name) == Some(
            CrateMetaView {
                name: name,
                path: path.push(name.subrange(0, 2)).push(name.subrange(2, 4)).push(name),
            },
        ),
{
    let entries = node->Dir_0@;
    let next = exact_branches(name);
    let middle = entries[first].node;
    let below = path.push(name.subrange(0, 2));
    let rest = name.subrange(2, name.len() as int);
    let after = exact_branches(rest);
    assert(rest.subrange(0, 1) =~= name.subrange(2, 3));
    assert(rest.subrange(1, rest.len() as int) =~= name.subrange(3, name.len() as int));
    assert(rest.subrange(0, 2) =~= name.subrange(2, 4));
    assert(first_hit(middle->Dir_0@, below, name, after, 2) is None);
    assert(first_hit(middle->Dir_0@, below, name, after, 1) == branch_find(
        middle->Dir_0@,
        below,
        name,
        after[1],
    ));
    assert(first_hit(middle->Dir_0@, below, name, after, 0) == first_hit(
        middle->Dir_0@,
        below,
        name,
        after,
        1,
    ));
    assert(first_hit(entries, path, name, next, 2) is None);
    assert(first_hit(entries, path, name, next, 1) == branch_find(entries, path, name, next[1]));
    assert(first_hit(entries, path, name, next, 0) == first_hit(entries, path, name, next, 1));
}

/// The package named `name` below `node`, if the way down that the name
/// spells leads to a regular file of that name. `node` stands at `path`, and `remaining` is the part
/// of `name` that the way down to it has not used.
pub fn _crate_exact(node: &Node, path: &Vec<String>, name: &String, remaining: &Vec<char>) -> (r:
    Option<CrateMeta>)
    ensures
        meta_view(r) == exact_hit(*node, texts(path@), name@, remaining@),
    decreases node,
{
    match node {
        Node::Dir(entries) => {
            let listing = listing_of(entries);
            match find_exact(&listing, path, name) {
                Some(meta) => Some(meta),
                None => {
                    let next = exact_branches_of(remaining);
                    let mut k: usize = 0;
                    while k < next.len()
                        invariant
                            0 <= k <= next.len(),
                            *node == Node::Dir(*entries),
                            exact_hit(*node, texts(path@), name@, remaining@) == first_hit(
                                entries@,
                                texts(path@),
                                name@,
                                branch_views(next@),
                                k as nat,
                            ),
                        decreases next.len() - k,
                    {
                        let b = &next[k];
                        assert(branch_views(next@)[k as int] == b@);
                        match find_entry(entries, &b.segment) {
                            Some(i) => {
                                let below = push_segment(path, &b.segment);
                                proof {
                                    assert(*entries == node->Dir_0);
                                    assert(decreases_to!(*node => node->Dir_0));
                                    assert(decreases_to!(*entries => entries[i as int]));
                                    assert(decreases_to!(entries[i as int] => entries[i as int].node));
                                }
                                let hit = _crate_exact(
                                    &entries[i].node,
                                    &below,
                                    name,
                                    &b.remaining,
                                );
                                if hit.is_some() {
                                    return hit;
                                }
                            },
                            None => {},
                        }
                        k += 1;
                    }
                    None
                },
            }
        },
        _ => None,
    }
}

/// What stands below `node` at the end of the way that `segments` spell,
/// each segment leading to the first entry of its name.
pub open spec fn node_at(node: Node, segments: Seq<Seq<char>>) -> Option<Node>
    decreases segments.len(),
{
    if segments.len() == 0 {
        Some(node)
    } else {
        match node {
            Node::Dir(entries) => match first_named(entry_names(entries@), segments[0]) {
                Some(i) => if 0 <= i < entries.len() {
                    node_at(entries[i].node, segments.drop_first())
                } else {
                    None
                },
                None => None,
            },
            _ => None,
        }
    }
}

/// An index held in memory: the path at which its root directory stands, and
/// the root with all that is below it.
#[derive(Debug, PartialEq, Eq)]
pub struct CratesIndex {
    pub path: Vec<String>,
    pub root: Node,
}

/// What stands at `path` in the index; nothing where the path does not lead
/// into the index.
pub open spec fn place(index: CratesIndex, path: Seq<Seq<char>>) -> Option<Node> {
    if texts(index.path@).is_prefix_of(path) {
        node_at(index.root, path.skip(index.path.len() as int))
    } else {
        None
    }
}

/// The releases read from the file at `path`: those of the file that stands
/// there. It is a failure to read where the path does not lead into the
/// index or to a file, and a failure to decode where the file holds a line
/// that is no release.
pub open spec fn records_at(index: CratesIndex, path: Seq<Seq<char>>) -> Result<Vec<Crate>, Error> {
    match place(index, path) {
        Some(Node::File(Some(records))) => Ok(records),
        Some(Node::File(None)) => Err(Error::DecodeFailure),
        _ => Err(Error::IoFailure),
    }
}

impl CratesIndex {
    /// The index whose root directory `root` stands at `path`.
    pub fn new(path: Vec<String>, root: Node) -> (index: Self)
        ensures
            index.path == path,
            index.root == root,
    {
        CratesIndex { path, root }
    }

    /// The packages of the index whose names begin with `prefix`, `-` and
    /// `_` standing for each other, in the order in which a walk through the
    /// listings meets them.
    pub fn crates_with_prefix(&self, prefix: &str) -> (out: Vec<CrateMeta>)
        ensures
            metas(out@) == prefix_hits(self.root, texts(self.path@), prefix@, prefix@),
            forall|i: int| 0 <= i < out.len() ==> prefix_matches(prefix@, (#[trigger] out[i]).name@),
    {
        let query = chars_of(prefix);
        let out = _crates_with_prefix(&self.root, &self.path, &query, &query);
        proof {
            lemma_hits_match(self.root, texts(self.path@), prefix@, prefix@);
            assert forall|i: int| 0 <= i < out.len() implies prefix_matches(
                prefix@,
                (#[trigger] out[i]).name@,
            ) by {
                assert(metas(out@)[i] == out[i]@);
            }
        }
        out
    }

    /// The package named `name`, if the index holds its metadata file where
    /// its name leads. Where no directory of the index lists a name twice,
    /// what stands at the path that is returned is that file.
    pub fn crate_(&self, name: &str) -> (r: Option<CrateMeta>)
        ensures
            meta_view(r) == exact_hit(self.root, texts(self.path@), name@, name@),
            r matches Some(meta) ==> meta.name@ == name@,
            distinct_names(self.root) ==> (r matches Some(meta) ==> place(
                *self,
                texts(meta.path@),
            ) matches Some(Node::File(_))),
    {
        let full = name.to_owned();
        let remaining = chars_of(name);
        proof {
            lemma_exact_hit_name(self.root, texts(self.path@), name@, name@);
            if distinct_names(self.root) {
                lemma_exact_hit_is_file(self.root, texts(self.path@), name@, name@);
            }
        }
        _crate_exact(&self.root, &self.path, &full, &remaining)
    }
}

impl CrateMeta {
    /// The releases of the package, in the order of its metadata file.
    pub fn detail<'a>(&self, index: &'a CratesIndex) -> (r: Result<&'a Vec<Crate>, Error>)
        ensures
            match r {
                Ok(records) => records_at(*index, texts(self.path@)) == Ok::<Vec<Crate>, Error>(
                    *records,
                ),
                Err(e) => records_at(*index, texts(self.path@)) == Err::<Vec<Crate>, Error>(e),
            },
    {
        let base = index.path.len();
        let ghost whole = texts(self.path@);
        let ghost root_path = texts(index.path@);
        if self.path.len() < base {
            return Err(Error::IoFailure);
        }
        let mut i: usize = 0;
        while i < base
            invariant
                0 <= i <= base,
                base == index.path.len(),
                base <= self.path.len(),
                whole == texts(self.path@),
                root_path == texts(index.path@),
                forall|j: int| 0 <= j < i ==> index.path[j]@ == self.path[j]@,
            decreases base - i,
        {
            if index.path[i] != self.path[i] {
                assert(root_path[i as int] == index.path[i as int]@);
                assert(whole.subrange(0, base as int)[i as int] == self.path[i as int]@);
                return Err(Error::IoFailure);
            }
            i += 1;
        }
        assert(root_path =~= whole.subrange(0, base as int));
        let ghost rel = whole.skip(base as int);
        let mut node: &Node = &index.root;
        let mut k: usize = base;
        assert(rel.skip(0) =~= rel);
        while k < self.path.len()
            invariant
                base <= k <= self.path.len(),
                whole == texts(self.path@),
                rel == whole.skip(base as int),
                base == index.path.len(),
                texts(index.path@).is_prefix_of(whole),
                node_at(index.root, rel) == node_at(*node, rel.skip(k - base)),
            decreases self.path.len() - k,
        {
            assert(rel.skip(k - base)[0] == self.path[k as int]@);
            assert(rel.skip(k - base).drop_first() =~= rel.skip(k - base + 1));
            match node {
                Node::Dir(entries) => match find_entry(entries, &self.path[k]) {
                    Some(at) => {
                        node = &entries[at].node;
                    },
                    None => {
                        return Err(Error::IoFailure);
                    },
                },
                _ => {
                    return Err(Error::IoFailure);
                },
            }
            k += 1;
        }
        assert(rel.skip(self.path.len() - base).len() == 0);
        match node {
            Node::File(Some(records)) => Ok(records),
            Node::File(None) => Err(Error::DecodeFailure),
            _ => Err(Error::IoFailure),
        }
    }
}

} // verus!
