//! Searches that are fed one directory listing at a time. A search names the
//! directory it wants to see next; whoever holds the tree lists that
//! directory and hands the listing over. Nothing here reads a directory.

use vstd::prelude::*;

use crate::crates::{metas, CrateMeta, CrateMetaView};
use crate::shard::{
    branch_views, branches, branches_of, exact_branches, exact_branches_of, exact_found,
    find_exact, found_files, listing_view, matching_files, meta_view, Branch, BranchView,
    DirEntry, DirEntryView,
};
use crate::text::{chars_of, push_segment, slice_of, texts};

verus! {

/// A directory that a search has yet to see, and what is left of the typed
/// text once the search is there.
#[derive(Debug, Clone, PartialEq, Eq)]
pub struct Visit {
    pub path: Vec<String>,
    pub remaining: Vec<char>,
}

/// A `Visit` as characters.
pub struct VisitView {
    pub path: Seq<Seq<char>>,
    pub remaining: Seq<char>,
}

impl View for Visit {
    type V = VisitView;

    open spec fn view(&self) -> VisitView {
        VisitView { path: texts(self.path@), remaining: self.remaining@ }
    }
}

/// The views of a sequence of visits.
pub open spec fn visit_views(v: Seq<Visit>) -> Seq<VisitView> {
    Seq::new(v.len(), |i: int| v[i]@)
}

/// The visits to which the branches `next` lead from the directory at `path`.
pub open spec fn visits_below(path: Seq<Seq<char>>, next: Seq<BranchView>) -> Seq<VisitView> {
    Seq::new(
        next.len(),
        |i: int| VisitView { path: path.push(next[i].segment), remaining: next[i].remaining },
    )
}

/// The view of a listing that may be absent.
pub open spec fn listing_option_view(listing: Option<Vec<DirEntry>>) -> Option<Seq<DirEntryView>> {
    match listing {
        Some(l) => Some(listing_view(l@)),
        None => None,
    }
}

/// Puts the visits to which `next` leads on top of `pending`, the first
/// branch topmost.
fn push_visits(pending: &mut Vec<Visit>, path: &Vec<String>, next: &Vec<Branch>)
    ensures
        visit_views(final(pending)@) == visit_views(old(pending)@) + visits_below(
            texts(path@),
            branch_views(next@),
        ).reverse(),
{
    let ghost before = visit_views(pending@);
    let ghost added = visits_below(texts(path@), branch_views(next@)).reverse();
    let n = next.len();
    let mut j: usize = 0;
    assert(visit_views(pending@) =~= before + added.take(0));
    while j < n
        invariant
            0 <= j <= n,
            n == next.len(),
            added == visits_below(texts(path@), branch_views(next@)).reverse(),
            visit_views(pending@) == before + added.take(j as int),
        decreases n - j,
    {
        let b = &next[n - 1 - j];
        let ghost earlier = pending@;
        let visit = Visit {
            path: push_segment(path, &b.segment),
            remaining: slice_of(&b.remaining, 0, b.remaining.len()),
        };
        assert(b.remaining@.subrange(0, b.remaining.len() as int) =~= b.remaining@);
        assert(branch_views(next@)[n - 1 - j] == b@);
        assert(visit@ == added[j as int]);
        pending.push(visit);
        assert(visit_views(pending@) =~= visit_views(earlier).push(visit@));
        assert(added.take(j + 1) =~= added.take(j as int).push(added[j as int]));
        j += 1;
    }
    assert(added.take(n as int) =~= added);
}

/// A search for the packages whose names begin with a typed prefix: the
/// prefix, the directories still to see (the next one last), and the
/// packages found so far.
#[derive(Debug, Clone, PartialEq, Eq)]
pub struct PrefixSearch {
    pub query: Vec<char>,
    pub pending: Vec<Visit>,
    pub found: Vec<CrateMeta>,
}

/// A `PrefixSearch` as characters.
pub struct PrefixSearchView {
    pub query: Seq<char>,
    pub pending: Seq<VisitView>,
    pub found: Seq<CrateMetaView>,
}

impl View for PrefixSearch {
    type V = PrefixSearchView;

    open spec fn view(&self) -> PrefixSearchView {
        PrefixSearchView {
            query: self.query@,
            pending: visit_views(self.pending@),
            found: metas(self.found@),
        }
    }
}

/// The search for `prefix` before it has seen anything: the root is to see,
/// with the whole prefix left.
pub open spec fn prefix_start(root: Seq<Seq<char>>, prefix: Seq<char>) -> PrefixSearchView {
    PrefixSearchView {
        query: prefix,
        pending: seq![VisitView { path: root, remaining: prefix }],
        found: Seq::empty(),
    }
}

/// The search after it was shown the listing of the directory it asked for
/// (`None`: there is no such directory). The directory's matching files are
/// found, and its branches are to see next, before anything that was pending.
/// A search with nothing to see stays as it is.
pub open spec fn prefix_advance(
    s: PrefixSearchView,
    listing: Option<Seq<DirEntryView>>,
) -> PrefixSearchView {
    if s.pending.len() == 0 {
        s
    } else {
        let visit = s.pending.last();
        let rest = s.pending.drop_last();
        match listing {
            None => PrefixSearchView { query: s.query, pending: rest, found: s.found },
            Some(l) => PrefixSearchView {
                query: s.query,
                pending: rest + visits_below(visit.path, branches(l, visit.remaining)).reverse(),
                found: s.found + found_files(l, visit.path, s.query),
            },
        }
    }
}

impl PrefixSearch {
    /// A search for the packages below `root` whose names begin with `prefix`.
    pub fn new(root: Vec<String>, prefix: &str) -> (s: Self)
        ensures
            s@ == prefix_start(texts(root@), prefix@),
    {
        let mut pending: Vec<Visit> = Vec::new();
        pending.push(Visit { path: root, remaining: chars_of(prefix) });
        let s = PrefixSearch { query: chars_of(prefix), pending, found: Vec::new() };
        assert(s@.pending =~= prefix_start(texts(root@), prefix@).pending);
        assert(s@.found =~= prefix_start(texts(root@), prefix@).found);
        s
    }

    /// The directory that the search wants to see next; `None` once it has
    /// seen all it needs.
    pub fn next_visit(&self) -> (r: Option<&Visit>)
        ensures
            match r {
                Some(v) => self.pending.len() > 0 && *v == self.pending@.last(),
                None => self.pending.len() == 0,
            },
    {
        if self.pending.len() == 0 {
            None
        } else {
            Some(&self.pending[self.pending.len() - 1])
        }
    }

    /// Shows the search the listing of the directory it asked for; `None`
    /// where that is no directory.
    pub fn supply(&mut self, listing: Option<Vec<DirEntry>>)
        ensures
            final(self)@ == prefix_advance(old(self)@, listing_option_view(listing)),
    {
        let ghost before = self@;
        match self.pending.pop() {
            None => {
                assert(self@.pending =~= before.pending);
            },
            Some(visit) => {
                assert(visit@ == before.pending.last());
                assert(visit_views(self.pending@) =~= before.pending.drop_last());
                match listing {
                    None => {},
                    Some(l) => {
                        let mut files = matching_files(&l, &visit.path, &self.query);
                        let ghost added = files@;
                        let ghost earlier = self.found@;
                        self.found.append(&mut files);
                        assert(metas(self.found@) =~= metas(earlier) + metas(added));
                        let next = branches_of(&l, &visit.remaining);
                        push_visits(&mut self.pending, &visit.path, &next);
                    },
                }
            },
        }
    }

    /// The packages found so far, in the order in which they were found.
    pub fn into_found(self) -> (out: Vec<CrateMeta>)
        ensures
            out == self.found,
    {
        self.found
    }
}

/// A lookup of one package by its full name: the name, the directories still
/// to see (the next one last), and the package once it is found.
#[derive(Debug, Clone, PartialEq, Eq)]
pub struct ExactSearch {
    pub name: String,
    pub pending: Vec<Visit>,
    pub found: Option<CrateMeta>,
}

/// An `ExactSearch` as characters.
pub struct ExactSearchView {
    pub name: Seq<char>,
    pub pending: Seq<VisitView>,
    pub found: Option<CrateMetaView>,
}

impl View for ExactSearch {
    type V = ExactSearchView;

    open spec fn view(&self) -> ExactSearchView {
        ExactSearchView {
            name: self.name@,
            pending: visit_views(self.pending@),
            found: meta_view(self.found),
        }
    }
}

/// The lookup of `name` before it has seen anything.
pub open spec fn exact_start(root: Seq<Seq<char>>, name: Seq<char>) -> ExactSearchView {
    ExactSearchView {
        name: name,
        pending: seq![VisitView { path: root, remaining: name }],
        found: None,
    }
}

/// The lookup after it was shown the listing of the directory it asked for
/// (`None`: there is no such directory). Where the listing holds a regular
/// file of the name the package is found and nothing is left to see; where
/// not, the directory's branches are to see next, before anything that was
/// pending. A lookup with nothing to see stays as it is.
pub open spec fn exact_advance(
    s: ExactSearchView,
    listing: Option<Seq<DirEntryView>>,
) -> ExactSearchView {
    if s.pending.len() == 0 {
        s
    } else {
        let visit = s.pending.last();
        let rest = s.pending.drop_last();
        match listing {
            None => ExactSearchView { name: s.name, pending: rest, found: s.found },
            Some(l) => match exact_found(l, visit.path, s.name) {
                Some(m) => ExactSearchView {
                    name: s.name,
                    pending: Seq::empty(),
                    found: Some(m),
                },
                None => ExactSearchView {
                    name: s.name,
                    pending: rest + visits_below(
                        visit.path,
                        exact_branches(visit.remaining),
                    ).reverse(),
                    found: s.found,
                },
            },
        }
    }
}

impl ExactSearch {
    /// A lookup of the package `name` below `root`.
    pub fn new(root: Vec<String>, name: &str) -> (s: Self)
        ensures
            s@ == exact_start(texts(root@), name@),
    {
        let mut pending: Vec<Visit> = Vec::new();
        pending.push(Visit { path: root, remaining: chars_of(name) });
        let s = ExactSearch { name: name.to_owned(), pending, found: None };
        assert(s@.pending =~= exact_start(texts(root@), name@).pending);
        s
    }

    /// The directory that the lookup wants to see next; `None` once the
    /// package is found or there is nowhere left to look.
    pub fn next_visit(&self) -> (r: Option<&Visit>)
        ensures
            match r {
                Some(v) => self.pending.len() > 0 && *v == self.pending@.last(),
                None => self.pending.len() == 0,
            },
    {
        if self.pending.len() == 0 {
            None
        } else {
            Some(&self.pending[self.pending.len() - 1])
        }
    }

    /// Shows the lookup the listing of the directory it asked for; `None`
    /// where that is no directory.
    pub fn supply(&mut self, listing: Option<Vec<DirEntry>>)
        ensures
            final(self)@ == exact_advance(old(self)@, listing_option_view(listing)),
    {
        let ghost before = self@;
        match self.pending.pop() {
            None => {
                assert(self@.pending =~= before.pending);
            },
            Some(visit) => {
                assert(visit@ == before.pending.last());
                assert(visit_views(self.pending@) =~= before.pending.drop_last());
                match listing {
                    None => {},
                    Some(l) => {
                        match find_exact(&l, &visit.path, &self.name) {
                            Some(meta) => {
                                self.found = Some(meta);
                                self.pending = Vec::new();
                                assert(visit_views(self.pending@) =~= Seq::<VisitView>::empty());
                            },
                            None => {
                                let next = exact_branches_of(&visit.remaining);
                                push_visits(&mut self.pending, &visit.path, &next);
                            },
                        }
                    },
                }
            },
        }
    }

    /// The package, if the lookup has found it.
    pub fn into_found(self) -> (out: Option<CrateMeta>)
        ensures
            out == self.found,
    {
        self.found
    }
}

} // verus!
