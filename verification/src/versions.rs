//! Release versions: which releases of a package answer a typed version
//! prefix, and what is left to type of each.

use vstd::prelude::*;

use crate::crates::Crate;
use crate::error::Error;
use crate::text::{chars_of, slice_of, starts_with, string_of, texts, trim, trimmed};

verus! {

/// A semantic version: three numbers, the pre-release text and the build
/// text, each of the two empty where the version has none.
#[derive(Debug, Clone, PartialEq, Eq)]
pub struct Version {
    pub major: u64,
    pub minor: u64,
    pub patch: u64,
    pub pre: String,
    pub build: String,
}

/// A `Version` as characters.
pub struct VersionView {
    pub major: u64,
    pub minor: u64,
    pub patch: u64,
    pub pre: Seq<char>,
    pub build: Seq<char>,
}

impl View for Version {
    type V = VersionView;

    open spec fn view(&self) -> VersionView {
        VersionView {
            major: self.major,
            minor: self.minor,
            patch: self.patch,
            pre: self.pre@,
            build: self.build@,
        }
    }
}

/// The views of a sequence of versions.
pub open spec fn version_views(v: Seq<Version>) -> Seq<VersionView> {
    Seq::new(v.len(), |i: int| v[i]@)
}

/// The view of a version that may be absent.
pub open spec fn version_option_view(v: Option<Version>) -> Option<VersionView> {
    match v {
        Some(v) => Some(v@),
        None => None,
    }
}

/// The decimal digit for `d`.
pub open spec fn digit(d: nat) -> char {
    if d == 0 {
        '0'
    } else if d == 1 {
        '1'
    } else if d == 2 {
        '2'
    } else if d == 3 {
        '3'
    } else if d == 4 {
        '4'
    } else if d == 5 {
        '5'
    } else if d == 6 {
        '6'
    } else if d == 7 {
        '7'
    } else if d == 8 {
        '8'
    } else {
        '9'
    }
}

/// `n` in decimal, without leading zeros.
pub open spec fn decimal(n: nat) -> Seq<char>
    decreases n,
{
    if n < 10 {
        seq![digit(n)]
    } else {
        decimal(n / 10).push(digit(n % 10))
    }
}

/// A version as text: the three numbers with dots between them, then `-`
/// and the pre-release text where there is one, then `+` and the build text
/// where there is one.
pub open spec fn version_text(v: VersionView) -> Seq<char> {
    decimal(v.major as nat) + seq!['.'] + decimal(v.minor as nat) + seq!['.'] + decimal(
        v.patch as nat,
    ) + (if v.pre.len() > 0 {
        seq!['-'] + v.pre
    } else {
        Seq::empty()
    }) + (if v.build.len() > 0 {
        seq!['+'] + v.build
    } else {
        Seq::empty()
    })
}

/// The texts of a sequence of versions.
pub open spec fn version_texts(v: Seq<VersionView>) -> Seq<Seq<char>> {
    Seq::new(v.len(), |i: int| version_text(v[i]))
}

/// The version that `semver::Version::parse` reads from `text`; `None` where
/// it rejects the text.
pub uninterp spec fn semver_parse(text: Seq<char>) -> Option<VersionView>;

/// `semver::Version::parse`. What it returns depends on the text alone. It
/// accepts a text only if the whole of it is a version: numbers without
/// leading zeros, a `-` only before a pre-release text that is not empty, a
/// `+` only before a build text that is not empty. So the version it returns,
/// written out again, is the text it was given.
#[verifier::external_body]
fn parse_version(text: &str) -> (r: Option<Version>)
    ensures
        version_option_view(r) == semver_parse(text@),
        r matches Some(v) ==> version_text(v@) == text@,
{
    match semver::Version::parse(text) {
        Ok(v) => Some(
            Version {
                major: v.major,
                minor: v.minor,
                patch: v.patch,
                pre: v.pre.as_str().to_owned(),
                build: v.build.as_str().to_owned(),
            },
        ),
        Err(_) => None,
    }
}

/// Adds the characters of `more` at the end of `out`.
fn push_all(out: &mut Vec<char>, more: &Vec<char>)
    ensures
        final(out)@ == old(out)@ + more@,
{
    let ghost before = out@;
    let mut i: usize = 0;
    while i < more.len()
        invariant
            0 <= i <= more.len(),
            out@ =~= before + more@.take(i as int),
        decreases more.len() - i,
    {
        out.push(more[i]);
        i += 1;
    }
    assert(more@.take(more.len() as int) =~= more@);
}

/// `n` in decimal, without leading zeros.
pub fn decimal_of(n: u64) -> (out: Vec<char>)
    ensures
        out@ == decimal(n as nat),
    decreases n,
{
    let last = n % 10;
    let c = if last == 0 {
        '0'
    } else if last == 1 {
        '1'
    } else if last == 2 {
        '2'
    } else if last == 3 {
        '3'
    } else if last == 4 {
        '4'
    } else if last == 5 {
        '5'
    } else if last == 6 {
        '6'
    } else if last == 7 {
        '7'
    } else if last == 8 {
        '8'
    } else {
        '9'
    };
    if n < 10 {
        let out = vec![c];
        assert(out@ =~= seq![digit(n as nat)]);
        out
    } else {
        let mut out = decimal_of(n / 10);
        out.push(c);
        out
    }
}

impl Version {
    /// The version as text.
    pub fn to_text(&self) -> (out: String)
        ensures
            out@ == version_text(self@),
    {
        let mut out = decimal_of(self.major);
        out.push('.');
        push_all(&mut out, &decimal_of(self.minor));
        out.push('.');
        push_all(&mut out, &decimal_of(self.patch));
        let pre = chars_of(self.pre.as_str());
        if pre.len() > 0 {
            out.push('-');
            push_all(&mut out, &pre);
        }
        let build = chars_of(self.build.as_str());
        if build.len() > 0 {
            out.push('+');
            push_all(&mut out, &build);
        }
        assert(out@ =~= version_text(self@));
        string_of(&out)
    }
}

/// Whether a release answers the version prefix `prefix`: its version text
/// begins with the prefix, and it was not withdrawn.
pub open spec fn is_kept(record: Crate, prefix: Seq<char>) -> bool {
    prefix.is_prefix_of(record.version@) && !record.yanked
}

/// The version texts of the releases that answer `prefix`, the last release
/// of the file first.
pub open spec fn kept_versions(records: Seq<Crate>, prefix: Seq<char>) -> Seq<Seq<char>>
    decreases records.len(),
{
    if records.len() == 0 {
        Seq::empty()
    } else {
        let earlier = kept_versions(records.drop_last(), prefix);
        if is_kept(records.last(), prefix) {
            seq![records.last().version@] + earlier
        } else {
            earlier
        }
    }
}

/// Whether each of `versions` is a version text.
pub open spec fn all_parse(versions: Seq<Seq<char>>) -> bool {
    forall|i: int| 0 <= i < versions.len() ==> (#[trigger] semver_parse(versions[i])) is Some
}

/// The versions that the texts `versions` stand for.
pub open spec fn parsed(versions: Seq<Seq<char>>) -> Seq<VersionView> {
    Seq::new(versions.len(), |i: int| semver_parse(versions[i]).unwrap())
}

/// The version texts of the releases that answer `req`, the last release of
/// the file first.
pub fn kept_version_texts(records: &Vec<Crate>, req: &str) -> (out: Vec<String>)
    ensures
        texts(out@) == kept_versions(records@, req@),
{
    let prefix = chars_of(req);
    let mut out: Vec<String> = Vec::new();
    let mut i: usize = records.len();
    assert(records@.take(records.len() as int) =~= records@);
    assert(texts(out@) =~= Seq::<Seq<char>>::empty());
    while i > 0
        invariant
            0 <= i <= records.len(),
            prefix@ == req@,
            kept_versions(records@, req@) == texts(out@) + kept_versions(
                records@.take(i as int),
                req@,
            ),
        decreases i,
    {
        let record = &records[i - 1];
        assert(records@.take(i as int).drop_last() =~= records@.take(i - 1));
        assert(records@.take(i as int).last() == *record);
        let ghost before = out@;
        let version = chars_of(record.version.as_str());
        if starts_with(&version, &prefix) && !record.yanked {
            out.push(record.version.clone());
            assert(texts(out@) =~= texts(before) + seq![record.version@]);
        }
        i -= 1;
    }
    assert(kept_versions(records@.take(0), req@) =~= Seq::<Seq<char>>::empty());
    out
}

/// The versions that the texts `versions` stand for, in their order; a
/// failure where one of them is no version text.
pub fn parse_versions(versions: &Vec<String>) -> (r: Result<Vec<Version>, Error>)
    ensures
        match r {
            Ok(out) => {
                &&& all_parse(texts(versions@))
                &&& version_views(out@) == parsed(texts(versions@))
                &&& version_texts(version_views(out@)) == texts(versions@)
            },
            Err(e) => e == Error::DecodeFailure && !all_parse(texts(versions@)),
        },
{
    let mut out: Vec<Version> = Vec::new();
    let mut i: usize = 0;
    while i < versions.len()
        invariant
            0 <= i <= versions.len(),
            out.len() == i,
            forall|j: int|
                0 <= j < i ==> semver_parse(#[trigger] versions[j]@) == Some(out[j]@)
                    && version_text(out[j]@) == versions[j]@,
        decreases versions.len() - i,
    {
        match parse_version(versions[i].as_str()) {
            Some(v) => {
                out.push(v);
            },
            None => {
                assert(texts(versions@)[i as int] == versions[i as int]@);
                return Err(Error::DecodeFailure);
            },
        }
        i += 1;
    }
    proof {
        assert forall|j: int| 0 <= j < versions.len() implies (#[trigger] semver_parse(
            texts(versions@)[j],
        )) is Some by {
            assert(semver_parse(versions[j]@) == Some(out[j]@));
        }
        assert forall|j: int| 0 <= j < versions.len() implies version_views(out@)[j] == parsed(
            texts(versions@),
        )[j] by {
            assert(semver_parse(versions[j]@) == Some(out[j]@));
        }
        assert(version_views(out@) =~= parsed(texts(versions@)));
        assert(version_texts(version_views(out@)) =~= texts(versions@));
    }
    Ok(out)
}

/// The versions of the releases that answer the version prefix `req`: those
/// whose version text begins with `req` and that were not withdrawn, the
/// last release of the file first. Fails where one of these texts is no
/// version.
pub fn satisfied_versions(records: &Vec<Crate>, req: &str) -> (r: Result<Vec<Version>, Error>)
    ensures
        match r {
            Ok(out) => {
                &&& all_parse(kept_versions(records@, req@))
                &&& version_views(out@) == parsed(kept_versions(records@, req@))
                &&& version_texts(version_views(out@)) == kept_versions(records@, req@)
            },
            Err(e) => e == Error::DecodeFailure && !all_parse(kept_versions(records@, req@)),
        },
{
    let kept = kept_version_texts(records, req);
    parse_versions(&kept)
}

/// The characters that may stand before a version in a requirement.
pub open spec fn is_operator(c: char) -> bool {
    c == '>' || c == '<' || c == '=' || c == '~' || c == '^'
}

/// `s` without the operators at its start.
pub open spec fn without_operators(s: Seq<char>) -> Seq<char>
    decreases s.len(),
{
    if s.len() > 0 && is_operator(s[0]) {
        without_operators(s.drop_first())
    } else {
        s
    }
}

/// The version prefix in what was typed: the typed text without the white
/// space around it and without the operators before it.
pub open spec fn bare_prefix(typed: Seq<char>) -> Seq<char> {
    without_operators(trimmed(typed))
}

/// The version prefix in what was typed.
pub fn bare_prefix_of(typed: &str) -> (out: String)
    ensures
        out@ == bare_prefix(typed@),
{
    let v = trim(&chars_of(typed));
    let mut from: usize = 0;
    assert(v@.subrange(0, v.len() as int) =~= v@);
    while from < v.len() && (v[from] == '>' || v[from] == '<' || v[from] == '=' || v[from] == '~'
        || v[from] == '^')
        invariant
            0 <= from <= v.len(),
            without_operators(v@) == without_operators(v@.subrange(from as int, v.len() as int)),
        decreases v.len() - from,
    {
        assert(v@.subrange(from as int, v.len() as int).drop_first() =~= v@.subrange(
            from + 1,
            v.len() as int,
        ));
        from += 1;
    }
    string_of(&slice_of(&v, from, v.len()))
}

/// What is left of each of `versions` that begins with `typed`, once `typed`
/// is taken off; the others are left out.
pub open spec fn suffixes(versions: Seq<Seq<char>>, typed: Seq<char>) -> Seq<Seq<char>>
    decreases versions.len(),
{
    if versions.len() == 0 {
        Seq::empty()
    } else {
        let before = suffixes(versions.drop_last(), typed);
        let v = versions.last();
        if typed.is_prefix_of(v) {
            before.push(v.skip(typed.len() as int))
        } else {
            before
        }
    }
}

/// For each of `versions` whose text begins with `typed`, what is left to
/// type of it.
pub fn completion_suffixes(versions: &Vec<Version>, typed: &str) -> (out: Vec<String>)
    ensures
        texts(out@) == suffixes(version_texts(version_views(versions@)), typed@),
{
    let typed_chars = chars_of(typed);
    let ghost all = version_texts(version_views(versions@));
    let mut out: Vec<String> = Vec::new();
    let mut i: usize = 0;
    assert(all.take(0) =~= Seq::<Seq<char>>::empty());
    assert(texts(out@) =~= Seq::<Seq<char>>::empty());
    while i < versions.len()
        invariant
            0 <= i <= versions.len(),
            typed_chars@ == typed@,
            all == version_texts(version_views(versions@)),
            texts(out@) == suffixes(all.take(i as int), typed@),
        decreases versions.len() - i,
    {
        let text = chars_of(versions[i].to_text().as_str());
        assert(all.take(i + 1).drop_last() =~= all.take(i as int));
        assert(all.take(i + 1).last() == text@);
        let ghost before = out@;
        if starts_with(&text, &typed_chars) {
            let rest = string_of(&slice_of(&text, typed_chars.len(), text.len()));
            out.push(rest);
            assert(text@.skip(typed@.len() as int) =~= text@.subrange(
                typed@.len() as int,
                text@.len() as int,
            ));
            assert(texts(out@) =~= texts(before).push(rest@));
        }
        i += 1;
    }
    assert(all.take(versions.len() as int) =~= all);
    out
}

/// The texts of a result that holds strings.
pub open spec fn text_result(r: Result<Vec<String>, Error>) -> Result<Seq<Seq<char>>, Error> {
    match r {
        Ok(out) => Ok(texts(out@)),
        Err(e) => Err(e),
    }
}

/// What is left to type of each release version that begins with `typed`,
/// the last release of the file first. The releases looked at are those that
/// answer the version prefix in `typed`; it is a failure where the version
/// text of one of them is no version.
pub open spec fn version_completions(records: Seq<Crate>, typed: Seq<char>) -> Result<
    Seq<Seq<char>>,
    Error,
> {
    let kept = kept_versions(records, bare_prefix(typed));
    if all_parse(kept) {
        Ok(suffixes(kept, typed))
    } else {
        Err(Error::DecodeFailure)
    }
}

/// What is left to type of each release version that begins with
/// `partial_ver`, the last release of the file first. The releases looked at
/// are those that answer the version prefix in `partial_ver`; a version that
/// does not begin with `partial_ver` as it was typed, operators and all, has
/// no part in the answer. Each answer, put behind `partial_ver`, is the
/// version text of a release that was not withdrawn. Fails where the version
/// text of a release looked at is no version.
pub fn complete_version(records: &Vec<Crate>, partial_ver: &str) -> (r: Result<Vec<String>, Error>)
    ensures
        text_result(r) == version_completions(records@, partial_ver@),
{
    let query_prefix = bare_prefix_of(partial_ver);
    match satisfied_versions(records, query_prefix.as_str()) {
        Ok(versions) => Ok(completion_suffixes(&versions, partial_ver)),
        Err(e) => Err(e),
    }
}

/// Every completion of a version, put behind what was typed, is the version
/// text of a release of the file that was not withdrawn and that begins with
/// the version prefix in what was typed.
pub proof fn lemma_completions_are_versions(records: Seq<Crate>, typed: Seq<char>, i: int)
    requires
        version_completions(records, typed) is Ok,
        0 <= i < version_completions(records, typed)->Ok_0.len(),
    ensures
        exists|k: int|
            0 <= k < records.len() && !records[k].yanked && bare_prefix(typed).is_prefix_of(
                records[k].version@,
            ) && #[trigger] records[k].version@ == typed + version_completions(
                records,
                typed,
            )->Ok_0[i],
{
    let kept = kept_versions(records, bare_prefix(typed));
    lemma_suffix_source(kept, typed, i);
    let j = choose|j: int|
        0 <= j < kept.len() && typed.is_prefix_of(kept[j]) && kept[j] == typed + suffixes(
            kept,
            typed,
        )[i];
    lemma_kept_source(records, bare_prefix(typed), j);
}

/// Each suffix comes from one of the versions, which begins with what was
/// typed.
pub proof fn lemma_suffix_source(versions: Seq<Seq<char>>, typed: Seq<char>, i: int)
    requires
        0 <= i < suffixes(versions, typed).len(),
    ensures
        exists|j: int|
            0 <= j < versions.len() && typed.is_prefix_of(#[trigger] versions[j]) && versions[j]
                == typed + suffixes(versions, typed)[i],
    decreases versions.len(),
{
    if versions.len() > 0 {
        let before = suffixes(versions.drop_last(), typed);
        let v = versions.last();
        if i < before.len() {
            lemma_suffix_source(versions.drop_last(), typed, i);
            let j = choose|j: int|
                0 <= j < versions.drop_last().len() && typed.is_prefix_of(
                    #[trigger] versions.drop_last()[j],
                ) && versions.drop_last()[j] == typed + before[i];
            assert(versions[j] == versions.drop_last()[j]);
        } else {
            assert(typed.is_prefix_of(v));
            assert(v =~= typed + v.skip(typed.len() as int));
            assert(versions[versions.len() - 1] == v);
        }
    }
}

/// Each kept version text is that of a release that answers the prefix.
pub proof fn lemma_kept_source(records: Seq<Crate>, prefix: Seq<char>, j: int)
    requires
        0 <= j < kept_versions(records, prefix).len(),
    ensures
        exists|k: int|
            0 <= k < records.len() && is_kept(records[k], prefix) && #[trigger] records[k].version@
                == kept_versions(records, prefix)[j],
    decreases records.len(),
{
    if records.len() > 0 {
        let earlier = kept_versions(records.drop_last(), prefix);
        if is_kept(records.last(), prefix) && j == 0 {
            assert(records[records.len() - 1].version@ == kept_versions(records, prefix)[j]);
        } else {
            let jj = if is_kept(records.last(), prefix) {
                j - 1
            } else {
                j
            };
            lemma_kept_source(records.drop_last(), prefix, jj);
            let k = choose|k: int|
                0 <= k < records.drop_last().len() && is_kept(records.drop_last()[k], prefix)
                    && #[trigger] records.drop_last()[k].version@ == earlier[jj];
            assert(records[k] == records.drop_last()[k]);
        }
    }
}

/// The fields of a version that a typed prefix can stop before.
#[derive(Debug, Copy, Clone, PartialEq, Eq, Structural)]
pub enum FieldType {
    Major,
    Minor,
    Patch,
    Pre,
}

/// The value of one field of a version: a number, or the pre-release text.
#[derive(Debug, Clone, PartialEq, Eq)]
pub enum Field {
    Number(u64),
    Pre(String),
}

/// A version of which only the first fields are given: the major number,
/// then perhaps the minor number, the patch number and a pre-release text
/// (empty where none is given).
#[derive(Debug, Clone, PartialEq, Eq)]
pub struct VersionPrefix {
    pub major: u64,
    pub minor: Option<u64>,
    pub patch: Option<u64>,
    pub pre: String,
}

/// The text of a structured prefix: the numbers that are given, with dots
/// between them, then `-` and the pre-release text where there is one.
pub open spec fn prefix_text(
    major: u64,
    minor: Option<u64>,
    patch: Option<u64>,
    pre: Seq<char>,
) -> Seq<char> {
    decimal(major as nat) + (match minor {
        Some(n) => seq!['.'] + decimal(n as nat),
        None => Seq::empty(),
    }) + (match patch {
        Some(n) => seq!['.'] + decimal(n as nat),
        None => Seq::empty(),
    }) + (if pre.len() > 0 {
        seq!['-'] + pre
    } else {
        Seq::empty()
    })
}

/// The first field that a typed prefix leaves open: the major number where
/// nothing is typed, else the first of minor number, patch number and
/// pre-release text that is not given; none where all are given.
pub fn first_unfilled_field(req: Option<&VersionPrefix>) -> (r: Option<FieldType>)
    ensures
        r == match req {
            None => Some(FieldType::Major),
            Some(p) => if p.minor is None {
                Some(FieldType::Minor)
            } else if p.patch is None {
                Some(FieldType::Patch)
            } else if p.pre@.len() == 0 {
                Some(FieldType::Pre)
            } else {
                None
            },
        },
{
    match req {
        Some(req) => {
            if req.minor.is_none() {
                return Some(FieldType::Minor);
            }
            if req.patch.is_none() {
                return Some(FieldType::Patch);
            }
            if req.pre.as_str().is_empty() {
                return Some(FieldType::Pre);
            }
            None
        },
        None => Some(FieldType::Major),
    }
}

/// The value that `version` has in the field `field`.
pub fn extract_field(version: &Version, field: FieldType) -> (r: Field)
    ensures
        match field {
            FieldType::Major => r == Field::Number(version.major),
            FieldType::Minor => r == Field::Number(version.minor),
            FieldType::Patch => r == Field::Number(version.patch),
            FieldType::Pre => r matches Field::Pre(text) && text@ == version.pre@,
        },
{
    match field {
        FieldType::Major => Field::Number(version.major),
        FieldType::Minor => Field::Number(version.minor),
        FieldType::Patch => Field::Number(version.patch),
        FieldType::Pre => Field::Pre(version.pre.clone()),
    }
}

/// A structured prefix written out as the text that was typed for it.
pub fn query_prefix(req: &VersionPrefix) -> (out: String)
    ensures
        out@ == prefix_text(req.major, req.minor, req.patch, req.pre@),
{
    let mut output = decimal_of(req.major);
    match req.minor {
        Some(minor) => {
            output.push('.');
            push_all(&mut output, &decimal_of(minor));
        },
        None => {},
    }
    match req.patch {
        Some(patch) => {
            output.push('.');
            push_all(&mut output, &decimal_of(patch));
        },
        None => {},
    }
    let pre = chars_of(req.pre.as_str());
    if pre.len() > 0 {
        output.push('-');
        push_all(&mut output, &pre);
    }
    assert(output@ =~= prefix_text(req.major, req.minor, req.patch, req.pre@));
    string_of(&output)
}

} // verus!
