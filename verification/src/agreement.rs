//! A search by steps agrees with the walk: fed the listings of an index held
//! in memory, one directory at a time, it comes to an end and has found what
//! the walk through that index finds, in the same order.

use vstd::prelude::*;

use crate::crates::{
    branch_hits, entry_listing, entry_names, exact_hit, first_hit, metas, node_at, place,
    prefix_hits, CrateMeta, CrateMetaView, CratesIndex, Entry, Node,
};
use crate::search::{
    exact_advance, exact_start, prefix_advance, prefix_start, visits_below, ExactSearchView,
    PrefixSearchView, VisitView,
};
use crate::shard::{
    branches, exact_branches, exact_found, first_named, BranchView, DirEntryView,
};
use crate::text::texts;

verus! {

/// The listing that the index shows for `path`; none where no directory
/// stands there.
pub open spec fn listing_at(index: CratesIndex, path: Seq<Seq<char>>) -> Option<
    Seq<DirEntryView>,
> {
    match place(index, path) {
        Some(Node::Dir(entries)) => Some(entry_listing(entries@)),
        _ => None,
    }
}

/// The search after `steps` steps, each of which shows it the listing of the
/// directory it asks for. A search with nothing to see stays as it is.
pub open spec fn prefix_run(index: CratesIndex, s: PrefixSearchView, steps: nat) -> PrefixSearchView
    decreases steps,
{
    if steps == 0 || s.pending.len() == 0 {
        s
    } else {
        prefix_run(
            index,
            prefix_advance(s, listing_at(index, s.pending.last().path)),
            (steps - 1) as nat,
        )
    }
}

/// What the walk finds from the place of a visit.
pub open spec fn visit_hits(index: CratesIndex, visit: VisitView, query: Seq<char>) -> Seq<
    CrateMetaView,
> {
    match place(index, visit.path) {
        Some(node) => prefix_hits(node, visit.path, query, visit.remaining),
        None => Seq::empty(),
    }
}

/// What the walk finds from the places of the pending visits, the last
/// visit first.
pub open spec fn pending_hits(
    index: CratesIndex,
    pending: Seq<VisitView>,
    query: Seq<char>,
) -> Seq<CrateMetaView>
    decreases pending.len(),
{
    if pending.len() == 0 {
        Seq::empty()
    } else {
        visit_hits(index, pending.last(), query) + pending_hits(index, pending.drop_last(), query)
    }
}

/// The number of directories that the walk asks for from `node` on.
pub open spec fn walk_cost(node: Node, remaining: Seq<char>) -> nat
    decreases node, 0nat,
{
    match node {
        Node::Dir(entries) => {
            let next = branches(entry_listing(entries@), remaining);
            1 + branch_cost(entries@, next, next.len())
        },
        _ => 1,
    }
}

/// The number of directories that the walk asks for below the first `upto`
/// of the branches `next`.
pub open spec fn branch_cost(entries: Seq<Entry>, next: Seq<BranchView>, upto: nat) -> nat
    decreases entries, upto,
{
    if upto == 0 || upto > next.len() {
        0
    } else {
        let b = next[upto - 1];
        branch_cost(entries, next, (upto - 1) as nat) + (match first_named(
            entry_names(entries),
            b.segment,
        ) {
            Some(i) => if 0 <= i < entries.len() {
                walk_cost(entries[i].node, b.remaining)
            } else {
                1
            },
            None => 1,
        })
    }
}

/// The number of steps that a visit takes.
pub open spec fn visit_cost(index: CratesIndex, visit: VisitView) -> nat {
    match place(index, visit.path) {
        Some(node) => walk_cost(node, visit.remaining),
        None => 1,
    }
}

/// The number of steps that the pending visits take.
pub open spec fn pending_cost(index: CratesIndex, pending: Seq<VisitView>) -> nat
    decreases pending.len(),
{
    if pending.len() == 0 {
        0
    } else {
        visit_cost(index, pending.last()) + pending_cost(index, pending.drop_last())
    }
}

/// The first `upto` of `visits`, the last of them first.
pub open spec fn turned(visits: Seq<VisitView>, upto: nat) -> Seq<VisitView> {
    Seq::new(upto, |i: int| visits[upto - 1 - i])
}

/// One segment more leads to the entry of that name in the directory that
/// the way so far leads to.
pub proof fn lemma_node_at_push(node: Node, way: Seq<Seq<char>>, segment: Seq<char>)
    ensures
        node_at(node, way.push(segment)) == match node_at(node, way) {
            Some(Node::Dir(entries)) => match first_named(entry_names(entries@), segment) {
                Some(i) => if 0 <= i < entries.len() {
                    Some(entries[i].node)
                } else {
                    None
                },
                None => None,
            },
            _ => None,
        },
    decreases way.len(),
{
    let longer = way.push(segment);
    if way.len() == 0 {
        assert(longer[0] == segment);
        assert(longer.drop_first() =~= Seq::<Seq<char>>::empty());
        match node {
            Node::Dir(entries) => {
                match first_named(entry_names(entries@), segment) {
                    Some(i) => {
                        if 0 <= i < entries.len() {
                            assert(node_at(entries[i].node, longer.drop_first()) == Some(
                                entries[i].node,
                            ));
                        }
                    },
                    None => {},
                }
            },
            _ => {},
        }
    } else {
        assert(longer[0] == way[0]);
        assert(longer.drop_first() =~= way.drop_first().push(segment));
        match node {
            Node::Dir(entries) => {
                match first_named(entry_names(entries@), way[0]) {
                    Some(i) => {
                        if 0 <= i < entries.len() {
                            lemma_node_at_push(entries[i].node, way.drop_first(), segment);
                        }
                    },
                    None => {},
                }
            },
            _ => {},
        }
    }
}

/// What stands one segment below a directory of the index.
pub proof fn lemma_place_push(index: CratesIndex, path: Seq<Seq<char>>, segment: Seq<char>)
    requires
        place(index, path) is Some,
    ensures
        place(index, path.push(segment)) == match place(index, path) {
            Some(Node::Dir(entries)) => match first_named(entry_names(entries@), segment) {
                Some(i) => if 0 <= i < entries.len() {
                    Some(entries[i].node)
                } else {
                    None
                },
                None => None,
            },
            _ => None,
        },
{
    let n = index.path.len() as int;
    let root_path = texts(index.path@);
    assert(root_path.is_prefix_of(path));
    assert(path.push(segment).subrange(0, n) =~= path.subrange(0, n));
    assert(path.push(segment).skip(n) =~= path.skip(n).push(segment));
    lemma_node_at_push(index.root, path.skip(n), segment);
}

/// The finds of two runs of pending visits, one on top of the other.
pub proof fn lemma_pending_hits_concat(
    index: CratesIndex,
    below: Seq<VisitView>,
    above: Seq<VisitView>,
    query: Seq<char>,
)
    ensures
        pending_hits(index, below + above, query) == pending_hits(index, above, query)
            + pending_hits(index, below, query),
    decreases above.len(),
{
    if above.len() == 0 {
        assert(below + above =~= below);
        assert(pending_hits(index, above, query) + pending_hits(index, below, query)
            =~= pending_hits(index, below, query));
    } else {
        assert((below + above).last() == above.last());
        assert((below + above).drop_last() =~= below + above.drop_last());
        lemma_pending_hits_concat(index, below, above.drop_last(), query);
        assert(pending_hits(index, below + above, query) =~= pending_hits(index, above, query)
            + pending_hits(index, below, query));
    }
}

/// The steps of two runs of pending visits, one on top of the other.
pub proof fn lemma_pending_cost_concat(
    index: CratesIndex,
    below: Seq<VisitView>,
    above: Seq<VisitView>,
)
    ensures
        pending_cost(index, below + above) == pending_cost(index, above) + pending_cost(
            index,
            below,
        ),
    decreases above.len(),
{
    if above.len() == 0 {
        assert(below + above =~= below);
    } else {
        assert((below + above).last() == above.last());
        assert((below + above).drop_last() =~= below + above.drop_last());
        lemma_pending_cost_concat(index, below, above.drop_last());
    }
}

/// The visits below a directory, taken in the order of its branches, find
/// what the walk finds below the branches, and take as many steps.
pub proof fn lemma_branch_visits(
    index: CratesIndex,
    path: Seq<Seq<char>>,
    query: Seq<char>,
    next: Seq<BranchView>,
    upto: nat,
)
    requires
        place(index, path) is Some,
        place(index, path)->Some_0 is Dir,
        upto <= next.len(),
    ensures
        pending_hits(index, turned(visits_below(path, next), upto), query) == branch_hits(
            place(index, path)->Some_0->Dir_0@,
            path,
            query,
            next,
            upto,
        ),
        pending_cost(index, turned(visits_below(path, next), upto)) == branch_cost(
            place(index, path)->Some_0->Dir_0@,
            next,
            upto,
        ),
    decreases upto,
{
    let entries = place(index, path)->Some_0->Dir_0@;
    let visits = visits_below(path, next);
    if upto == 0 {
        assert(turned(visits, upto) =~= Seq::<VisitView>::empty());
    } else {
        let b = next[upto - 1];
        let visit = visits[upto - 1];
        let top = seq![visit];
        let rest = turned(visits, (upto - 1) as nat);
        assert(turned(visits, upto) =~= top + rest);
        lemma_branch_visits(index, path, query, next, (upto - 1) as nat);
        lemma_pending_hits_concat(index, top, rest, query);
        lemma_pending_cost_concat(index, top, rest);
        lemma_place_push(index, path, b.segment);
        assert(top.last() == visit);
        assert(top.drop_last() =~= Seq::<VisitView>::empty());
        assert(pending_hits(index, top.drop_last(), query) =~= Seq::<CrateMetaView>::empty());
        assert(pending_cost(index, top.drop_last()) == 0);
        assert(pending_hits(index, top, query) =~= visit_hits(index, visit, query));
        assert(pending_cost(index, top) == visit_cost(index, visit));
    }
}

/// What stands at the path of the index is its root.
pub proof fn lemma_place_root(index: CratesIndex)
    ensures
        place(index, texts(index.path@)) == Some(index.root),
{
    let root_path = texts(index.path@);
    assert(root_path.skip(index.path.len() as int) =~= Seq::<Seq<char>>::empty());
    assert(root_path.subrange(0, root_path.len() as int) =~= root_path);
}

/// A search that has seen nothing has found nothing, and has to come what
/// the walk finds from the root.
pub proof fn lemma_prefix_start(index: CratesIndex, prefix: Seq<char>)
    ensures
        prefix_start(texts(index.path@), prefix).found + pending_hits(
            index,
            prefix_start(texts(index.path@), prefix).pending,
            prefix,
        ) == prefix_hits(index.root, texts(index.path@), prefix, prefix),
{
    let root_path = texts(index.path@);
    let start = prefix_start(root_path, prefix);
    let visit = VisitView { path: root_path, remaining: prefix };
    lemma_place_root(index);
    assert(start.pending.last() == visit);
    assert(start.pending.drop_last() =~= Seq::<VisitView>::empty());
    assert(pending_hits(index, start.pending.drop_last(), prefix) =~= Seq::<
        CrateMetaView,
    >::empty());
    assert(start.found + pending_hits(index, start.pending, prefix) =~= prefix_hits(
        index.root,
        root_path,
        prefix,
        prefix,
    ));
}

/// A lookup that has seen nothing has to come what the walk finds from the
/// root.
pub proof fn lemma_exact_start(index: CratesIndex, name: Seq<char>)
    ensures
        pending_find(index, exact_start(texts(index.path@), name).pending, name) == exact_hit(
            index.root,
            texts(index.path@),
            name,
            name,
        ),
{
    let root_path = texts(index.path@);
    let start = exact_start(root_path, name);
    let visit = VisitView { path: root_path, remaining: name };
    lemma_place_root(index);
    assert(start.pending.last() == visit);
    assert(start.pending.drop_last() =~= Seq::<VisitView>::empty());
    assert(pending_find(index, start.pending.drop_last(), name) is None);
}

/// One step leaves the finds to come as they were, and takes one step off
/// the steps to come.
pub proof fn lemma_prefix_step(index: CratesIndex, s: PrefixSearchView)
    requires
        s.pending.len() > 0,
    ensures
        ({
            let t = prefix_advance(s, listing_at(index, s.pending.last().path));
            &&& t.query == s.query
            &&& t.found + pending_hits(index, t.pending, t.query) == s.found + pending_hits(
                index,
                s.pending,
                s.query,
            )
            &&& pending_cost(index, t.pending) + 1 == pending_cost(index, s.pending)
        }),
{
    let visit = s.pending.last();
    let rest = s.pending.drop_last();
    let t = prefix_advance(s, listing_at(index, visit.path));
    match listing_at(index, visit.path) {
        None => {
            assert(visit_hits(index, visit, s.query) =~= Seq::<CrateMetaView>::empty());
            assert(t.found + pending_hits(index, t.pending, t.query) =~= s.found + pending_hits(
                index,
                s.pending,
                s.query,
            ));
        },
        Some(listing) => {
            let entries = place(index, visit.path)->Some_0->Dir_0@;
            let next = branches(listing, visit.remaining);
            let below = visits_below(visit.path, next);
            assert(below.reverse() =~= turned(below, next.len()));
            lemma_branch_visits(index, visit.path, s.query, next, next.len());
            lemma_pending_hits_concat(index, rest, below.reverse(), s.query);
            lemma_pending_cost_concat(index, rest, below.reverse());
            assert(t.found + pending_hits(index, t.pending, t.query) =~= s.found + pending_hits(
                index,
                s.pending,
                s.query,
            ));
        },
    }
}

/// The number of steps after which a search has nothing left to see. By
/// then it has added to its finds what the walk finds from its pending
/// visits.
pub proof fn lemma_prefix_run(index: CratesIndex, s: PrefixSearchView) -> (steps: nat)
    ensures
        prefix_run(index, s, steps).pending.len() == 0,
        prefix_run(index, s, steps).query == s.query,
        prefix_run(index, s, steps).found == s.found + pending_hits(index, s.pending, s.query),
    decreases pending_cost(index, s.pending),
{
    if s.pending.len() == 0 {
        assert(s.found + pending_hits(index, s.pending, s.query) =~= s.found);
        0
    } else {
        lemma_prefix_step(index, s);
        let t = prefix_advance(s, listing_at(index, s.pending.last().path));
        let steps = lemma_prefix_run(index, t);
        (steps + 1) as nat
    }
}

/// A search for `prefix` that is shown the listings of an index, one
/// directory at a time, has after some number of steps nothing left to see,
/// and has then found what `prefix_hits` says of the index, in that order.
pub proof fn lemma_steps_agree_with_walk(index: CratesIndex, prefix: Seq<char>) -> (steps: nat)
    ensures
        prefix_run(index, prefix_start(texts(index.path@), prefix), steps).pending.len() == 0,
        prefix_run(index, prefix_start(texts(index.path@), prefix), steps).found == prefix_hits(
            index.root,
            texts(index.path@),
            prefix,
            prefix,
        ),
{
    let start = prefix_start(texts(index.path@), prefix);
    let steps = lemma_prefix_run(index, start);
    lemma_prefix_start(index, prefix);
    steps
}

/// The lookup after `steps` steps, each of which shows it the listing of the
/// directory it asks for. A lookup with nothing to see stays as it is.
pub open spec fn exact_run(index: CratesIndex, s: ExactSearchView, steps: nat) -> ExactSearchView
    decreases steps,
{
    if steps == 0 || s.pending.len() == 0 {
        s
    } else {
        exact_run(
            index,
            exact_advance(s, listing_at(index, s.pending.last().path)),
            (steps - 1) as nat,
        )
    }
}

/// What the walk finds of the package from the place of a visit.
pub open spec fn visit_find(index: CratesIndex, visit: VisitView, name: Seq<char>) -> Option<
    CrateMetaView,
> {
    match place(index, visit.path) {
        Some(node) => exact_hit(node, visit.path, name, visit.remaining),
        None => None,
    }
}

/// What the walk finds of the package from the places of the pending
/// visits: the find of the last visit that has one.
pub open spec fn pending_find(
    index: CratesIndex,
    pending: Seq<VisitView>,
    name: Seq<char>,
) -> Option<CrateMetaView>
    decreases pending.len(),
{
    if pending.len() == 0 {
        None
    } else {
        match visit_find(index, pending.last(), name) {
            Some(m) => Some(m),
            None => pending_find(index, pending.drop_last(), name),
        }
    }
}

/// The number of directories that a lookup asks for from `node` on if it
/// finds nothing.
pub open spec fn lookup_cost(node: Node, remaining: Seq<char>) -> nat
    decreases node, 0nat,
{
    match node {
        Node::Dir(entries) => 1 + lookup_branch_cost(entries@, exact_branches(remaining), 0),
        _ => 1,
    }
}

/// The number of directories that a lookup asks for below the branches
/// `next`, from position `from` on, if it finds nothing.
pub open spec fn lookup_branch_cost(entries: Seq<Entry>, next: Seq<BranchView>, from: nat) -> nat
    decreases entries, next.len() - from,
{
    if from >= next.len() {
        0
    } else {
        let b = next[from as int];
        (match first_named(entry_names(entries), b.segment) {
            Some(i) => if 0 <= i < entries.len() {
                lookup_cost(entries[i].node, b.remaining)
            } else {
                1
            },
            None => 1,
        }) + lookup_branch_cost(entries, next, from + 1)
    }
}

/// An upper bound of the number of steps that a visit of a lookup takes.
pub open spec fn lookup_visit_cost(index: CratesIndex, visit: VisitView) -> nat {
    match place(index, visit.path) {
        Some(node) => lookup_cost(node, visit.remaining),
        None => 1,
    }
}

/// An upper bound of the number of steps that the pending visits of a
/// lookup take.
pub open spec fn lookup_pending_cost(index: CratesIndex, pending: Seq<VisitView>) -> nat
    decreases pending.len(),
{
    if pending.len() == 0 {
        0
    } else {
        lookup_visit_cost(index, pending.last()) + lookup_pending_cost(
            index,
            pending.drop_last(),
        )
    }
}

/// The visits from position `from` on, the last of them first.
pub open spec fn turned_from(visits: Seq<VisitView>, from: nat) -> Seq<VisitView> {
    Seq::new((visits.len() - from) as nat, |i: int| visits[visits.len() - 1 - i])
}

/// The find of two runs of pending visits, one on top of the other, and the
/// bound of their steps.
pub proof fn lemma_pending_find_concat(
    index: CratesIndex,
    below: Seq<VisitView>,
    above: Seq<VisitView>,
    name: Seq<char>,
)
    ensures
        pending_find(index, below + above, name) == match pending_find(index, above, name) {
            Some(m) => Some(m),
            None => pending_find(index, below, name),
        },
        lookup_pending_cost(index, below + above) == lookup_pending_cost(index, above)
            + lookup_pending_cost(index, below),
    decreases above.len(),
{
    if above.len() == 0 {
        assert(below + above =~= below);
    } else {
        assert((below + above).last() == above.last());
        assert((below + above).drop_last() =~= below + above.drop_last());
        lemma_pending_find_concat(index, below, above.drop_last(), name);
    }
}

/// The visits below a directory, taken in the order of its branches, find
/// what the walk finds below the branches.
pub proof fn lemma_branch_lookups(
    index: CratesIndex,
    path: Seq<Seq<char>>,
    name: Seq<char>,
    next: Seq<BranchView>,
    from: nat,
)
    requires
        place(index, path) is Some,
        place(index, path)->Some_0 is Dir,
        from <= next.len(),
    ensures
        pending_find(index, turned_from(visits_below(path, next), from), name) == first_hit(
            place(index, path)->Some_0->Dir_0@,
            path,
            name,
            next,
            from,
        ),
        lookup_pending_cost(index, turned_from(visits_below(path, next), from))
            == lookup_branch_cost(place(index, path)->Some_0->Dir_0@, next, from),
    decreases next.len() - from,
{
    let visits = visits_below(path, next);
    let stack = turned_from(visits, from);
    if from >= next.len() {
        assert(stack =~= Seq::<VisitView>::empty());
    } else {
        let b = next[from as int];
        assert(stack.last() == visits[from as int]);
        assert(stack.drop_last() =~= turned_from(visits, from + 1));
        lemma_branch_lookups(index, path, name, next, from + 1);
        lemma_place_push(index, path, b.segment);
    }
}

/// One step of a lookup that has found nothing leaves the find to come as
/// it was, and brings the end nearer.
pub proof fn lemma_exact_step(index: CratesIndex, s: ExactSearchView)
    requires
        s.pending.len() > 0,
        s.found is None,
    ensures
        ({
            let t = exact_advance(s, listing_at(index, s.pending.last().path));
            &&& t.name == s.name
            &&& lookup_pending_cost(index, t.pending) < lookup_pending_cost(index, s.pending)
            &&& match t.found {
                Some(m) => t.pending.len() == 0 && pending_find(index, s.pending, s.name) == Some(
                    m,
                ),
                None => pending_find(index, t.pending, t.name) == pending_find(
                    index,
                    s.pending,
                    s.name,
                ),
            }
        }),
{
    let visit = s.pending.last();
    let rest = s.pending.drop_last();
    let t = exact_advance(s, listing_at(index, visit.path));
    match listing_at(index, visit.path) {
        None => {},
        Some(listing) => {
            match exact_found(listing, visit.path, s.name) {
                Some(m) => {
                    assert(lookup_pending_cost(index, t.pending) == 0);
                },
                None => {
                    let next = exact_branches(visit.remaining);
                    let below = visits_below(visit.path, next);
                    assert(below.reverse() =~= turned_from(below, 0));
                    lemma_branch_lookups(index, visit.path, s.name, next, 0);
                    lemma_pending_find_concat(index, rest, below.reverse(), s.name);
                },
            }
        },
    }
}

/// The number of steps after which a lookup that has found nothing has
/// nothing left to see. By then it has found what the walk finds from its
/// pending visits.
pub proof fn lemma_exact_run(index: CratesIndex, s: ExactSearchView) -> (steps: nat)
    requires
        s.found is None,
    ensures
        exact_run(index, s, steps).pending.len() == 0,
        exact_run(index, s, steps).found == pending_find(index, s.pending, s.name),
    decreases lookup_pending_cost(index, s.pending),
{
    if s.pending.len() == 0 {
        0
    } else {
        lemma_exact_step(index, s);
        let t = exact_advance(s, listing_at(index, s.pending.last().path));
        if t.found is Some {
            assert(exact_run(index, t, 0) == t);
            1
        } else {
            let steps = lemma_exact_run(index, t);
            (steps + 1) as nat
        }
    }
}

/// A lookup of `name` that is shown the listings of an index, one directory
/// at a time, has after some number of steps nothing left to see, and has
/// then found what `exact_hit` says of the index.
pub proof fn lemma_lookup_agrees_with_walk(index: CratesIndex, name: Seq<char>) -> (steps: nat)
    ensures
        exact_run(index, exact_start(texts(index.path@), name), steps).pending.len() == 0,
        exact_run(index, exact_start(texts(index.path@), name), steps).found == exact_hit(
            index.root,
            texts(index.path@),
            name,
            name,
        ),
{
    let start = exact_start(texts(index.path@), name);
    let steps = lemma_exact_run(index, start);
    lemma_exact_start(index, name);
    steps
}

/// Through a run of any length, what a search has found and what the walk
/// finds from its pending visits make up the same whole.
pub proof fn lemma_prefix_run_keeps(index: CratesIndex, s: PrefixSearchView, steps: nat)
    ensures
        prefix_run(index, s, steps).query == s.query,
        prefix_run(index, s, steps).found + pending_hits(
            index,
            prefix_run(index, s, steps).pending,
            s.query,
        ) == s.found + pending_hits(index, s.pending, s.query),
    decreases steps,
{
    if steps > 0 && s.pending.len() > 0 {
        lemma_prefix_step(index, s);
        let t = prefix_advance(s, listing_at(index, s.pending.last().path));
        lemma_prefix_run_keeps(index, t, (steps - 1) as nat);
    }
}

/// A search by steps that has nothing left to see has found what
/// `prefix_hits` says of the index, however many steps it was given.
pub proof fn lemma_finished_search(index: CratesIndex, prefix: Seq<char>, steps: nat)
    requires
        prefix_run(index, prefix_start(texts(index.path@), prefix), steps).pending.len() == 0,
    ensures
        prefix_run(index, prefix_start(texts(index.path@), prefix), steps).found == prefix_hits(
            index.root,
            texts(index.path@),
            prefix,
            prefix,
        ),
{
    let start = prefix_start(texts(index.path@), prefix);
    let end = prefix_run(index, start, steps);
    lemma_prefix_run_keeps(index, start, steps);
    lemma_prefix_start(index, prefix);
    assert(end.found + pending_hits(index, end.pending, prefix) =~= end.found);
}

/// Searching an index twice for the same prefix reports the same packages,
/// each as often, whether the index is walked or searched by steps, and
/// however many steps a finished search was given.
pub proof fn lemma_search_repeatable(
    index: CratesIndex,
    prefix: Seq<char>,
    walked: Seq<CrateMeta>,
    steps: nat,
    more_steps: nat,
)
    requires
        metas(walked) == prefix_hits(index.root, texts(index.path@), prefix, prefix),
        prefix_run(index, prefix_start(texts(index.path@), prefix), steps).pending.len() == 0,
        prefix_run(index, prefix_start(texts(index.path@), prefix), more_steps).pending.len()
            == 0,
    ensures
        prefix_run(index, prefix_start(texts(index.path@), prefix), steps).found
            == prefix_run(index, prefix_start(texts(index.path@), prefix), more_steps).found,
        prefix_run(index, prefix_start(texts(index.path@), prefix), steps).found.to_multiset()
            == metas(walked).to_multiset(),
{
    lemma_finished_search(index, prefix, steps);
    lemma_finished_search(index, prefix, more_steps);
}

/// Through a run of any length, a lookup that began with nothing found
/// either holds the find that the walk makes from the visits it began with,
/// or has that find still to come from its pending visits.
pub proof fn lemma_exact_run_keeps(index: CratesIndex, s: ExactSearchView, steps: nat)
    requires
        s.found is None,
    ensures
        match exact_run(index, s, steps).found {
            Some(m) => pending_find(index, s.pending, s.name) == Some(m) && exact_run(
                index,
                s,
                steps,
            ).pending.len() == 0,
            None => pending_find(index, exact_run(index, s, steps).pending, s.name)
                == pending_find(index, s.pending, s.name),
        },
    decreases steps,
{
    if steps > 0 && s.pending.len() > 0 {
        lemma_exact_step(index, s);
        let t = exact_advance(s, listing_at(index, s.pending.last().path));
        if t.found is Some {
            assert(exact_run(index, t, (steps - 1) as nat) == t);
        } else {
            lemma_exact_run_keeps(index, t, (steps - 1) as nat);
        }
    }
}

/// A lookup by steps that has nothing left to see has found what
/// `exact_hit` says of the index, however many steps it was given.
pub proof fn lemma_finished_lookup(index: CratesIndex, name: Seq<char>, steps: nat)
    requires
        exact_run(index, exact_start(texts(index.path@), name), steps).pending.len() == 0,
    ensures
        exact_run(index, exact_start(texts(index.path@), name), steps).found == exact_hit(
            index.root,
            texts(index.path@),
            name,
            name,
        ),
{
    let start = exact_start(texts(index.path@), name);
    lemma_exact_run_keeps(index, start, steps);
    lemma_exact_start(index, name);
}

} // verus!
