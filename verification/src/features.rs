//! The optional features that a release declares.

use vstd::prelude::*;

use crate::crates::Crate;
use crate::error::Error;
use crate::text::{chars_of, starts_with, texts};

verus! {

/// The names of the features that `record` declares, in the order in which
/// the record holds them.
pub open spec fn feature_names(record: Crate) -> Seq<Seq<char>> {
    Seq::new(record.features@.len(), |i: int| record.features@[i].0@)
}

/// Whether no feature name occurs twice in `record`, as in the mapping that a
/// release declares.
pub open spec fn distinct_features(record: Crate) -> bool {
    feature_names(record).no_duplicates()
}

/// The position of the last of `records` whose version text begins with
/// `prefix`, withdrawn or not.
pub open spec fn last_matching(records: Seq<Crate>, prefix: Seq<char>) -> Option<int>
    decreases records.len(),
{
    if records.len() == 0 {
        None
    } else if prefix.is_prefix_of(records.last().version@) {
        Some(records.len() - 1)
    } else {
        last_matching(records.drop_last(), prefix)
    }
}

/// The feature names of the last release of the file whose version text
/// begins with `prefix`; not found where no release does.
pub open spec fn listed_features(records: Seq<Crate>, prefix: Seq<char>) -> Result<
    Seq<Seq<char>>,
    Error,
> {
    match last_matching(records, prefix) {
        Some(i) => Ok(feature_names(records[i])),
        None => Err(Error::NotFound),
    }
}

/// The last match is a match, and nothing after it is one.
pub proof fn lemma_last_matching(records: Seq<Crate>, prefix: Seq<char>)
    ensures
        match last_matching(records, prefix) {
            Some(i) => {
                &&& 0 <= i < records.len()
                &&& prefix.is_prefix_of(records[i].version@)
                &&& forall|j: int|
                    i < j < records.len() ==> !prefix.is_prefix_of(#[trigger] records[j].version@)
            },
            None => forall|j: int|
                0 <= j < records.len() ==> !prefix.is_prefix_of(#[trigger] records[j].version@),
        },
    decreases records.len(),
{
    if records.len() > 0 && !prefix.is_prefix_of(records.last().version@) {
        lemma_last_matching(records.drop_last(), prefix);
        assert forall|j: int| 0 <= j < records.len() - 1 implies records[j]
            == records.drop_last()[j] by {}
    }
}

/// The names of the features declared by the last release of the file whose
/// version text begins with `version_prefix`. The file's order decides, not
/// the versions' order, and a withdrawn release counts. Where no release
/// names a feature twice, no name is listed twice.
pub fn list_features(records: &Vec<Crate>, version_prefix: &str) -> (r: Result<Vec<String>, Error>)
    ensures
        crate::versions::text_result(r) == listed_features(records@, version_prefix@),
        (forall|i: int| 0 <= i < records.len() ==> distinct_features(#[trigger] records[i])) ==> (r
            matches Ok(out) ==> texts(out@).no_duplicates()),
{
    let prefix = chars_of(version_prefix);
    let mut i: usize = records.len();
    assert(records@.take(records.len() as int) =~= records@);
    while i > 0
        invariant
            0 <= i <= records.len(),
            prefix@ == version_prefix@,
            last_matching(records@, version_prefix@) == last_matching(
                records@.take(i as int),
                version_prefix@,
            ),
        decreases i,
    {
        let record = &records[i - 1];
        assert(records@.take(i as int).drop_last() =~= records@.take(i - 1));
        assert(records@.take(i as int).last() == *record);
        let version = chars_of(record.version.as_str());
        if starts_with(&version, &prefix) {
            let mut out: Vec<String> = Vec::new();
            let mut k: usize = 0;
            while k < record.features.len()
                invariant
                    0 <= k <= record.features.len(),
                    out.len() == k,
                    forall|j: int| 0 <= j < k ==> out[j]@ == record.features@[j].0@,
                decreases record.features.len() - k,
            {
                out.push(record.features[k].0.clone());
                k += 1;
            }
            assert(texts(out@) =~= feature_names(*record));
            return Ok(out);
        }
        i -= 1;
    }
    Err(Error::NotFound)
}

} // verus!
