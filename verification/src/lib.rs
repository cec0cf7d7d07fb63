//! Completion candidates for package names, versions and features, computed
//! from a sharded registry index.

pub mod agreement;
pub mod crates;
pub mod error;
pub mod features;
pub mod names;
pub mod records;
pub mod search;
pub mod session;
pub mod shard;
pub mod text;
pub mod versions;

use vstd::prelude::*;

use crate::crates::{
    distinct_names, exact_hit, prefix_hits, records_at, Crate, CrateMeta, CrateMetaView,
    CratesIndex,
};
use crate::error::Error;
use crate::features::{list_features, listed_features};
use crate::text::{
    after_last, chars_of, find_first, first_position, slice_of, string_of, tail_after_last, texts,
};
use crate::versions::{complete_version, text_result, version_completions};

verus! {

/// The names of the packages at `found`.
pub open spec fn names_of(found: Seq<CrateMetaView>) -> Seq<Seq<char>> {
    Seq::new(found.len(), |i: int| found[i].name)
}

/// The names of the packages at `found`, in their order.
pub fn crate_names(found: &Vec<CrateMeta>) -> (out: Vec<String>)
    ensures
        texts(out@) == names_of(crate::crates::metas(found@)),
{
    let mut out: Vec<String> = Vec::new();
    let mut i: usize = 0;
    while i < found.len()
        invariant
            0 <= i <= found.len(),
            out.len() == i,
            forall|j: int| 0 <= j < i ==> out[j]@ == found[j].name@,
        decreases found.len() - i,
    {
        out.push(found[i].name.clone());
        i += 1;
    }
    assert(texts(out@) =~= names_of(crate::crates::metas(found@)));
    out
}

/// The names of the packages of the index that begin with `partial_name`,
/// `-` and `_` standing for each other.
pub fn complete_crate_name(index: &CratesIndex, partial_name: &str) -> (out: Vec<String>)
    ensures
        texts(out@) == names_of(
            prefix_hits(index.root, texts(index.path@), partial_name@, partial_name@),
        ),
{
    let found = index.crates_with_prefix(partial_name);
    crate_names(&found)
}

/// A typed command that asks for a version: the package name before the
/// first `@`, and of what follows it the part after the last comma, which is
/// the requirement being typed. `None` where the command holds no `@`.
pub open spec fn command_parts(command: Seq<char>) -> Option<(Seq<char>, Seq<char>)> {
    match first_position(command, '@') {
        Some(i) => Some(
            (
                command.subrange(0, i),
                after_last(command.subrange(i + 1, command.len() as int), ','),
            ),
        ),
        None => None,
    }
}

/// The package name and the requirement being typed in a command that asks
/// for a version.
pub fn split_command(partial_command: &str) -> (r: Option<(String, String)>)
    ensures
        match r {
            Some((name, last_ver)) => command_parts(partial_command@) == Some(
                (name@, last_ver@),
            ),
            None => command_parts(partial_command@) is None,
        },
{
    let v = chars_of(partial_command);
    assert(v@.subrange(0, v.len() as int) =~= v@);
    match find_first(&v, 0, '@') {
        Some(i) => {
            let name = string_of(&slice_of(&v, 0, i));
            let last_ver = string_of(&tail_after_last(&v, i + 1, ','));
            Some((name, last_ver))
        },
        None => None,
    }
}

/// Each of `parts` with `prefix` put before it.
pub open spec fn with_prefix(prefix: Seq<char>, parts: Seq<Seq<char>>) -> Seq<Seq<char>> {
    Seq::new(parts.len(), |i: int| prefix + parts[i])
}

/// Each of `parts` put behind the command as it was typed.
pub fn extend_command(partial_command: &str, parts: &Vec<String>) -> (out: Vec<String>)
    ensures
        texts(out@) == with_prefix(partial_command@, texts(parts@)),
{
    let typed = chars_of(partial_command);
    let mut out: Vec<String> = Vec::new();
    let mut i: usize = 0;
    while i < parts.len()
        invariant
            0 <= i <= parts.len(),
            typed@ == partial_command@,
            out.len() == i,
            forall|j: int| 0 <= j < i ==> out[j]@ == partial_command@ + parts[j]@,
        decreases parts.len() - i,
    {
        let mut whole = slice_of(&typed, 0, typed.len());
        assert(typed@.subrange(0, typed.len() as int) =~= typed@);
        let part = chars_of(parts[i].as_str());
        let mut k: usize = 0;
        while k < part.len()
            invariant
                0 <= k <= part.len(),
                whole@ =~= typed@ + part@.take(k as int),
            decreases part.len() - k,
        {
            whole.push(part[k]);
            k += 1;
        }
        assert(part@.take(part.len() as int) =~= part@);
        out.push(string_of(&whole));
        i += 1;
    }
    assert(texts(out@) =~= with_prefix(partial_command@, texts(parts@)));
    out
}

/// The releases of the package `name`, in the order of its metadata file.
/// Not found where the index does not hold the package where its name leads.
pub open spec fn releases_of(index: CratesIndex, name: Seq<char>) -> Result<Vec<Crate>, Error> {
    match exact_hit(index.root, texts(index.path@), name, name) {
        Some(meta) => records_at(index, meta.path),
        None => Err(Error::NotFound),
    }
}

/// The releases of the package `name`, in the order of its metadata file.
/// A package that the index does not hold is not found; where no directory
/// of the index lists a name twice, that is no failure to read.
pub fn releases<'a>(index: &'a CratesIndex, name: &str) -> (r: Result<&'a Vec<Crate>, Error>)
    ensures
        match r {
            Ok(records) => releases_of(*index, name@) == Ok::<Vec<Crate>, Error>(*records),
            Err(e) => releases_of(*index, name@) == Err::<Vec<Crate>, Error>(e),
        },
        distinct_names(index.root) ==> !(r matches Err(e) && e == Error::IoFailure),
{
    match index.crate_(name) {
        Some(meta) => meta.detail(index),
        None => Err(Error::NotFound),
    }
}

/// The answers to a typed command. A command with an `@` asks for versions
/// of the package named before it: each answer is the command as typed,
/// followed by what is left to type of a version. A command without one asks
/// for package names.
pub open spec fn crate_completions(index: CratesIndex, command: Seq<char>) -> Result<
    Seq<Seq<char>>,
    Error,
> {
    match command_parts(command) {
        Some((name, last_ver)) => match releases_of(index, name) {
            Ok(records) => match version_completions(records@, last_ver) {
                Ok(parts) => Ok(with_prefix(command, parts)),
                Err(e) => Err(e),
            },
            Err(e) => Err(e),
        },
        None => Ok(names_of(prefix_hits(index.root, texts(index.path@), command, command))),
    }
}

/// The completions of a typed command: package names for a partial name,
/// and for `name@requirement` the command completed with each version of the
/// package that the last requirement being typed can still become.
pub fn complete_crate(index: &CratesIndex, partial_command: &str) -> (r: Result<Vec<String>, Error>)
    ensures
        text_result(r) == crate_completions(*index, partial_command@),
{
    match split_command(partial_command) {
        Some((name, last_ver)) => {
            match releases(index, name.as_str()) {
                Ok(records) => match complete_version(records, last_ver.as_str()) {
                    Ok(parts) => Ok(extend_command(partial_command, &parts)),
                    Err(e) => Err(e),
                },
                Err(e) => Err(e),
            }
        },
        None => Ok(complete_crate_name(index, partial_command)),
    }
}

/// The feature names that a package offers at a version prefix: those of the
/// last release of its file whose version text begins with the prefix.
pub open spec fn feature_completions(
    index: CratesIndex,
    name: Seq<char>,
    version: Seq<char>,
) -> Result<Seq<Seq<char>>, Error> {
    match releases_of(index, name) {
        Ok(records) => listed_features(records@, version),
        Err(e) => Err(e),
    }
}

/// The names of the features declared by the release of `crate_name` that a
/// version prefix picks: the last release of the package's file whose version
/// text begins with `version`.
pub fn complete_feature(index: &CratesIndex, crate_name: &str, version: &str) -> (r: Result<
    Vec<String>,
    Error,
>)
    ensures
        text_result(r) == feature_completions(*index, crate_name@, version@),
{
    match releases(index, crate_name) {
        Ok(records) => list_features(records, version),
        Err(e) => Err(e),
    }
}

} // verus!
