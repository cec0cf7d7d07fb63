//! A completion answered step by step. It says what it needs next, the
//! listing of a directory or the releases of a metadata file; whoever holds
//! the index hands that over; and so on until the answer is there. Nothing
//! here reads a directory or a file.

use vstd::prelude::*;

use crate::agreement::{
    lemma_exact_start, lemma_exact_step, lemma_prefix_start, lemma_prefix_step, listing_at,
    lookup_pending_cost, pending_cost, pending_find, pending_hits,
};
use crate::crates::{records_at, Crate, CrateMeta, CrateMetaView, CratesIndex};
use crate::error::Error;
use crate::features::{list_features, listed_features};
use crate::search::{
    exact_advance, exact_start, listing_option_view, prefix_advance, prefix_start, ExactSearch,
    ExactSearchView, PrefixSearch, PrefixSearchView,
};
use crate::shard::{DirEntry, DirEntryView};
use crate::text::{clone_strings, texts};
use crate::versions::{complete_version, text_result, version_completions};
use crate::{
    command_parts, crate_completions, crate_names, extend_command, feature_completions, names_of,
    split_command, with_prefix,
};

verus! {

/// What is to be made of the releases of a package once they are read:
/// completions of the requirement being typed in a command, or the feature
/// names at a version prefix.
#[derive(Debug, Clone, PartialEq, Eq)]
pub enum Task {
    Versions { command: String, requirement: String },
    Features { version: String },
}

/// A `Task` as characters.
pub enum TaskView {
    Versions { command: Seq<char>, requirement: Seq<char> },
    Features { version: Seq<char> },
}

impl View for Task {
    type V = TaskView;

    open spec fn view(&self) -> TaskView {
        match *self {
            Task::Versions { command, requirement } => TaskView::Versions {
                command: command@,
                requirement: requirement@,
            },
            Task::Features { version } => TaskView::Features { version: version@ },
        }
    }
}

/// How far a completion has come: searching for package names, looking up
/// the metadata file of one package, waiting for the releases of the file
/// that the lookup found, or done.
#[derive(Debug, PartialEq, Eq)]
pub enum Completion {
    Names { search: PrefixSearch },
    Locate { lookup: ExactSearch, task: Task },
    Load { meta: CrateMeta, task: Task },
    Done { answer: Result<Vec<String>, Error> },
}

/// A `Completion` as characters.
pub enum CompletionView {
    Names { search: PrefixSearchView },
    Locate { lookup: ExactSearchView, task: TaskView },
    Load { meta: CrateMetaView, task: TaskView },
    Done { answer: Result<Seq<Seq<char>>, Error> },
}

impl View for Completion {
    type V = CompletionView;

    open spec fn view(&self) -> CompletionView {
        match *self {
            Completion::Names { search } => CompletionView::Names { search: search@ },
            Completion::Locate { lookup, task } => CompletionView::Locate {
                lookup: lookup@,
                task: task@,
            },
            Completion::Load { meta, task } => CompletionView::Load { meta: meta@, task: task@ },
            Completion::Done { answer } => CompletionView::Done { answer: text_result(answer) },
        }
    }
}

/// What a completion needs next: the listing of the directory at a path, the
/// releases of the metadata file at a path, or nothing.
#[derive(Debug, Clone, PartialEq, Eq)]
pub enum Request {
    List(Vec<String>),
    Read(Vec<String>),
    Nothing,
}

/// A `Request` as characters.
pub enum RequestView {
    List(Seq<Seq<char>>),
    Read(Seq<Seq<char>>),
    Nothing,
}

impl View for Request {
    type V = RequestView;

    open spec fn view(&self) -> RequestView {
        match *self {
            Request::List(path) => RequestView::List(texts(path@)),
            Request::Read(path) => RequestView::Read(texts(path@)),
            Request::Nothing => RequestView::Nothing,
        }
    }
}

/// The completion of a typed command before anything was read. A command
/// with an `@` first looks up the package named before it; a command without
/// one searches for package names.
pub open spec fn crate_start(root: Seq<Seq<char>>, command: Seq<char>) -> CompletionView {
    match command_parts(command) {
        Some((name, requirement)) => CompletionView::Locate {
            lookup: exact_start(root, name),
            task: TaskView::Versions { command: command, requirement: requirement },
        },
        None => CompletionView::Names { search: prefix_start(root, command) },
    }
}

/// The completion of the features of a package before anything was read.
pub open spec fn feature_start(
    root: Seq<Seq<char>>,
    name: Seq<char>,
    version: Seq<char>,
) -> CompletionView {
    CompletionView::Locate {
        lookup: exact_start(root, name),
        task: TaskView::Features { version: version },
    }
}

/// What a completion needs next.
pub open spec fn wanted(s: CompletionView) -> RequestView {
    match s {
        CompletionView::Names { search } => if search.pending.len() > 0 {
            RequestView::List(search.pending.last().path)
        } else {
            RequestView::Nothing
        },
        CompletionView::Locate { lookup, task } => if lookup.pending.len() > 0 {
            RequestView::List(lookup.pending.last().path)
        } else {
            RequestView::Nothing
        },
        CompletionView::Load { meta, task } => RequestView::Read(meta.path),
        CompletionView::Done { answer } => RequestView::Nothing,
    }
}

/// A search for names goes on while it has something to see; after that the
/// names it found are the answer.
pub open spec fn settled_names(search: PrefixSearchView) -> CompletionView {
    if search.pending.len() == 0 {
        CompletionView::Done { answer: Ok(names_of(search.found)) }
    } else {
        CompletionView::Names { search: search }
    }
}

/// A lookup goes on while it has something to see; after that the file it
/// found is to be read, and a package that it did not find is not found.
pub open spec fn settled_lookup(lookup: ExactSearchView, task: TaskView) -> CompletionView {
    if lookup.pending.len() == 0 {
        match lookup.found {
            Some(meta) => CompletionView::Load { meta: meta, task: task },
            None => CompletionView::Done { answer: Err(Error::NotFound) },
        }
    } else {
        CompletionView::Locate { lookup: lookup, task: task }
    }
}

/// The completion after it was shown the listing of the directory it asked
/// for (`None`: there is no such directory). A completion that waits for no
/// listing stays as it is.
pub open spec fn after_listing(
    s: CompletionView,
    listing: Option<Seq<DirEntryView>>,
) -> CompletionView {
    match s {
        CompletionView::Names { search } => settled_names(prefix_advance(search, listing)),
        CompletionView::Locate { lookup, task } => settled_lookup(
            exact_advance(lookup, listing),
            task,
        ),
        _ => s,
    }
}

/// What a task makes of the releases of the package.
pub open spec fn task_answer(task: TaskView, records: Seq<Crate>) -> Result<
    Seq<Seq<char>>,
    Error,
> {
    match task {
        TaskView::Versions { command, requirement } => match version_completions(
            records,
            requirement,
        ) {
            Ok(parts) => Ok(with_prefix(command, parts)),
            Err(e) => Err(e),
        },
        TaskView::Features { version } => listed_features(records, version),
    }
}

/// The completion after it was given the releases of the file it asked for,
/// or the failure to have them. A completion that waits for no releases
/// stays as it is.
pub open spec fn after_records(
    s: CompletionView,
    records: Result<Vec<Crate>, Error>,
) -> CompletionView {
    match s {
        CompletionView::Load { meta, task } => CompletionView::Done {
            answer: match records {
                Ok(r) => task_answer(task, r@),
                Err(e) => Err(e),
            },
        },
        _ => s,
    }
}

impl Completion {
    /// The completion of a typed command in the index whose root stands at
    /// `root`.
    pub fn for_crate(root: Vec<String>, partial_command: &str) -> (s: Self)
        ensures
            s@ == crate_start(texts(root@), partial_command@),
    {
        match split_command(partial_command) {
            Some((name, requirement)) => Completion::Locate {
                lookup: ExactSearch::new(root, name.as_str()),
                task: Task::Versions { command: partial_command.to_owned(), requirement },
            },
            None => Completion::Names { search: PrefixSearch::new(root, partial_command) },
        }
    }

    /// The completion of the features that the package `crate_name` offers
    /// at the version prefix `version`.
    pub fn for_feature(root: Vec<String>, crate_name: &str, version: &str) -> (s: Self)
        ensures
            s@ == feature_start(texts(root@), crate_name@, version@),
    {
        Completion::Locate {
            lookup: ExactSearch::new(root, crate_name),
            task: Task::Features { version: version.to_owned() },
        }
    }

    /// What the completion needs next.
    pub fn request(&self) -> (r: Request)
        ensures
            r@ == wanted(self@),
    {
        match self {
            Completion::Names { search } => match search.next_visit() {
                Some(visit) => Request::List(clone_strings(&visit.path)),
                None => Request::Nothing,
            },
            Completion::Locate { lookup, task } => match lookup.next_visit() {
                Some(visit) => Request::List(clone_strings(&visit.path)),
                None => Request::Nothing,
            },
            Completion::Load { meta, task } => Request::Read(clone_strings(&meta.path)),
            Completion::Done { answer } => Request::Nothing,
        }
    }

    /// Shows the completion the listing of the directory it asked for;
    /// `None` where that is no directory.
    pub fn listing(self, listing: Option<Vec<DirEntry>>) -> (s: Self)
        ensures
            s@ == after_listing(self@, listing_option_view(listing)),
    {
        match self {
            Completion::Names { search } => {
                let mut search = search;
                search.supply(listing);
                if search.pending.len() == 0 {
                    let found = search.into_found();
                    Completion::Done { answer: Ok(crate_names(&found)) }
                } else {
                    Completion::Names { search }
                }
            },
            Completion::Locate { lookup, task } => {
                let mut lookup = lookup;
                lookup.supply(listing);
                if lookup.pending.len() == 0 {
                    match lookup.into_found() {
                        Some(meta) => Completion::Load { meta, task },
                        None => Completion::Done { answer: Err(Error::NotFound) },
                    }
                } else {
                    Completion::Locate { lookup, task }
                }
            },
            other => other,
        }
    }

    /// Gives the completion the releases of the file it asked for, in the
    /// order of the file, or the failure to have them.
    pub fn records(self, records: Result<Vec<Crate>, Error>) -> (s: Self)
        ensures
            s@ == after_records(self@, records),
    {
        match self {
            Completion::Load { meta, task } => {
                let answer = match records {
                    Ok(r) => match task {
                        Task::Versions { command, requirement } => match complete_version(
                            &r,
                            requirement.as_str(),
                        ) {
                            Ok(parts) => Ok(extend_command(command.as_str(), &parts)),
                            Err(e) => Err(e),
                        },
                        Task::Features { version } => list_features(&r, version.as_str()),
                    },
                    Err(e) => Err(e),
                };
                Completion::Done { answer }
            },
            other => other,
        }
    }

    /// The answer, once the completion is done.
    pub fn answer(self) -> (r: Option<Result<Vec<String>, Error>>)
        ensures
            match r {
                Some(answer) => self == (Completion::Done { answer }),
                None => !(self is Done),
            },
    {
        match self {
            Completion::Done { answer } => Some(answer),
            _ => None,
        }
    }
}

/// One step of a completion that is answered from an index held in memory:
/// it is shown the listing, or given the releases, that the index holds at
/// the path it asks for. A completion that is done stays as it is.
pub open spec fn session_step(index: CratesIndex, s: CompletionView) -> CompletionView {
    match s {
        CompletionView::Names { search } => after_listing(
            s,
            listing_at(index, search.pending.last().path),
        ),
        CompletionView::Locate { lookup, task } => after_listing(
            s,
            listing_at(index, lookup.pending.last().path),
        ),
        CompletionView::Load { meta, task } => after_records(s, records_at(index, meta.path)),
        CompletionView::Done { answer } => s,
    }
}

/// The completion after `steps` steps.
pub open spec fn session_run(index: CratesIndex, s: CompletionView, steps: nat) -> CompletionView
    decreases steps,
{
    if steps == 0 {
        s
    } else {
        session_run(index, session_step(index, s), (steps - 1) as nat)
    }
}

/// The number of steps after which a search for names is done. Its answer
/// is then the names of what it had found and of what the walk finds from
/// its pending visits.
pub proof fn lemma_names_phase(index: CratesIndex, search: PrefixSearchView) -> (steps: nat)
    requires
        search.pending.len() > 0,
    ensures
        session_run(index, CompletionView::Names { search: search }, steps) == (
        CompletionView::Done {
            answer: Ok(
                names_of(search.found + pending_hits(index, search.pending, search.query)),
            ),
        }),
    decreases pending_cost(index, search.pending),
{
    let s = CompletionView::Names { search: search };
    lemma_prefix_step(index, search);
    let t = prefix_advance(search, listing_at(index, search.pending.last().path));
    if t.pending.len() == 0 {
        assert(t.found + pending_hits(index, t.pending, t.query) =~= t.found);
        assert(session_run(index, session_step(index, s), 0) == session_step(index, s));
        1
    } else {
        let steps = lemma_names_phase(index, t);
        (steps + 1) as nat
    }
}

/// The answer that a lookup leads to: what the task makes of the releases of
/// the file that was found.
pub open spec fn located_answer(
    index: CratesIndex,
    found: Option<CrateMetaView>,
    task: TaskView,
) -> Result<Seq<Seq<char>>, Error> {
    match found {
        Some(meta) => match records_at(index, meta.path) {
            Ok(r) => task_answer(task, r@),
            Err(e) => Err(e),
        },
        None => Err(Error::NotFound),
    }
}

/// The number of steps after which a completion that looks up a package is
/// done. Its answer is then what the task makes of the releases of the file
/// that the walk finds from the lookup's pending visits.
pub proof fn lemma_locate_phase(
    index: CratesIndex,
    lookup: ExactSearchView,
    task: TaskView,
) -> (steps: nat)
    requires
        lookup.pending.len() > 0,
        lookup.found is None,
    ensures
        session_run(index, CompletionView::Locate { lookup: lookup, task: task }, steps) == (
        CompletionView::Done {
            answer: located_answer(
                index,
                pending_find(index, lookup.pending, lookup.name),
                task,
            ),
        }),
    decreases lookup_pending_cost(index, lookup.pending),
{
    let s = CompletionView::Locate { lookup: lookup, task: task };
    lemma_exact_step(index, lookup);
    let t = exact_advance(lookup, listing_at(index, lookup.pending.last().path));
    let next = session_step(index, s);
    if t.pending.len() == 0 {
        match t.found {
            Some(meta) => {
                let last = session_step(index, next);
                assert(session_run(index, last, 0) == last);
                assert(session_run(index, next, 1) == last);
                2
            },
            None => {
                assert(session_run(index, next, 0) == next);
                1
            },
        }
    } else {
        let steps = lemma_locate_phase(index, t, task);
        (steps + 1) as nat
    }
}

/// A completion of a typed command that is answered step by step from an
/// index held in memory is done after some number of steps, and its answer
/// is then what `crate_completions` says of the index.
pub proof fn lemma_session_completes_crate(index: CratesIndex, command: Seq<char>) -> (steps: nat)
    ensures
        session_run(index, crate_start(texts(index.path@), command), steps) == (
        CompletionView::Done { answer: crate_completions(index, command) }),
{
    let root = texts(index.path@);
    match command_parts(command) {
        Some((name, requirement)) => {
            lemma_exact_start(index, name);
            lemma_locate_phase(
                index,
                exact_start(root, name),
                TaskView::Versions { command: command, requirement: requirement },
            )
        },
        None => {
            lemma_prefix_start(index, command);
            lemma_names_phase(index, prefix_start(root, command))
        },
    }
}

/// A completion of the features of a package that is answered step by step
/// from an index held in memory is done after some number of steps, and its
/// answer is then what `feature_completions` says of the index.
pub proof fn lemma_session_completes_feature(
    index: CratesIndex,
    name: Seq<char>,
    version: Seq<char>,
) -> (steps: nat)
    ensures
        session_run(index, feature_start(texts(index.path@), name, version), steps) == (
        CompletionView::Done { answer: feature_completions(index, name, version) }),
{
    lemma_exact_start(index, name);
    lemma_locate_phase(
        index,
        exact_start(texts(index.path@), name),
        TaskView::Features { version: version },
    )
}

} // verus!
