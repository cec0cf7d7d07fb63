//! Package names in which `-` and `_` stand for each other: the variants of a
//! name fragment, and the test of a name against a typed prefix.

use itertools::Itertools;
use vstd::arithmetic::power2::{lemma_pow2_unfold, pow2};
use vstd::prelude::*;

use crate::text::{chars_of, rows, starts_with, string_of, texts};

verus! {

/// The two characters that a package name may use for each other.
pub open spec fn is_separator(c: char) -> bool {
    c == '-' || c == '_'
}

/// Whether `c` may stand in a name where the query has `q`.
pub open spec fn char_matches(q: char, c: char) -> bool {
    if is_separator(q) {
        is_separator(c)
    } else {
        q == c
    }
}

/// Whether `candidate` is `query` up to the choice of separator at each
/// position where `query` has one.
pub open spec fn same_shape(query: Seq<char>, candidate: Seq<char>) -> bool {
    &&& query.len() == candidate.len()
    &&& forall|i: int| 0 <= i < query.len() ==> char_matches(#[trigger] query[i], candidate[i])
}

/// Whether `candidate` begins with `query`, up to the choice of separators.
/// No character of the query may be left out.
pub open spec fn prefix_matches(query: Seq<char>, candidate: Seq<char>) -> bool {
    &&& query.len() <= candidate.len()
    &&& forall|i: int| 0 <= i < query.len() ==> char_matches(#[trigger] query[i], candidate[i])
}

/// How many separators `s` holds.
pub open spec fn separator_count(s: Seq<char>) -> nat
    decreases s.len(),
{
    if s.len() == 0 {
        0
    } else {
        (if is_separator(s[0]) { 1nat } else { 0nat }) + separator_count(s.drop_first())
    }
}

/// What may stand in a variant at a position where the fragment has `c`.
pub open spec fn choices_at(c: char) -> Seq<char> {
    if is_separator(c) {
        seq!['_', '-']
    } else {
        seq![c]
    }
}

/// The choices at each position of `fragment`.
pub open spec fn choices(fragment: Seq<char>) -> Seq<Seq<char>> {
    Seq::new(fragment.len(), |i: int| choices_at(fragment[i]))
}

/// Each of `tails` with `head` put in front.
pub open spec fn prepend(head: char, tails: Seq<Seq<char>>) -> Seq<Seq<char>> {
    Seq::new(tails.len(), |i: int| seq![head] + tails[i])
}

/// For each of `heads` in turn, each of `tails` with that head in front.
pub open spec fn prepend_each(heads: Seq<char>, tails: Seq<Seq<char>>) -> Seq<Seq<char>>
    decreases heads.len(),
{
    if heads.len() == 0 {
        Seq::empty()
    } else {
        prepend(heads[0], tails) + prepend_each(heads.drop_first(), tails)
    }
}

/// The cartesian product of `columns`: every sequence that takes its `i`-th
/// element from `columns[i]`, ordered by the choice made in the first column,
/// then in the second, and so on.
pub open spec fn product(columns: Seq<Seq<char>>) -> Seq<Seq<char>>
    decreases columns.len(),
{
    if columns.len() == 0 {
        seq![Seq::empty()]
    } else {
        prepend_each(columns[0], product(columns.drop_first()))
    }
}

/// The variants of `fragment`: `_` before `-` at each separator, the last
/// separator changing fastest.
pub open spec fn variants(fragment: Seq<char>) -> Seq<Seq<char>> {
    product(choices(fragment))
}

/// How the variants of a fragment are made from those of its tail.
pub proof fn lemma_variants_step(fragment: Seq<char>)
    requires
        fragment.len() > 0,
    ensures
        variants(fragment) == if is_separator(fragment[0]) {
            prepend('_', variants(fragment.drop_first())) + prepend(
                '-',
                variants(fragment.drop_first()),
            )
        } else {
            prepend(fragment[0], variants(fragment.drop_first()))
        },
{
    let tails = variants(fragment.drop_first());
    assert(choices(fragment).drop_first() =~= choices(fragment.drop_first()));
    assert(choices(fragment)[0] == choices_at(fragment[0]));
    let heads = choices_at(fragment[0]);
    assert(variants(fragment) == prepend_each(heads, tails));
    assert(prepend_each(Seq::<char>::empty(), tails) =~= Seq::<Seq<char>>::empty());
    if is_separator(fragment[0]) {
        assert(heads.drop_first() =~= seq!['-']);
        assert(seq!['-'].drop_first() =~= Seq::<char>::empty());
        assert(prepend_each(seq!['-'], tails) =~= prepend('-', tails));
        assert(prepend_each(heads, tails) =~= prepend('_', tails) + prepend('-', tails));
    } else {
        assert(heads.drop_first() =~= Seq::<char>::empty());
        assert(prepend_each(heads, tails) =~= prepend(fragment[0], tails));
    }
}

/// A fragment with `k` separators has exactly `2^k` variants; each has the
/// fragment's length, holds a separator wherever the fragment holds one and
/// the fragment's own character everywhere else; no two are equal; and every
/// sequence of that shape is among them.
pub proof fn lemma_variants(fragment: Seq<char>)
    ensures
        variants(fragment).len() == pow2(separator_count(fragment)),
        forall|k: int|
            0 <= k < variants(fragment).len() ==> same_shape(
                fragment,
                #[trigger] variants(fragment)[k],
            ),
        forall|j: int, k: int|
            0 <= j < k < variants(fragment).len() ==> variants(fragment)[j] != variants(
                fragment,
            )[k],
        forall|s: Seq<char>| #[trigger]
            same_shape(fragment, s) ==> variants(fragment).contains(s),
    decreases fragment.len(),
{
    let all = variants(fragment);
    if fragment.len() == 0 {
        assert(choices(fragment) =~= Seq::<Seq<char>>::empty());
        assert(all =~= seq![Seq::<char>::empty()]);
        assert(pow2(0) == 1) by {
            lemma_pow2_unfold(1);
            vstd::arithmetic::power2::lemma2_to64();
        }
        assert forall|s: Seq<char>| #[trigger] same_shape(fragment, s) implies all.contains(s) by {
            assert(s =~= Seq::<char>::empty());
            assert(all[0] == s);
        }
    } else {
        let head = fragment[0];
        let tail = fragment.drop_first();
        let tails = variants(tail);
        let n = tails.len() as int;
        lemma_variants(tail);
        lemma_variants_step(fragment);
        assert(pow2(separator_count(fragment)) == if is_separator(head) {
            2 * pow2(separator_count(tail))
        } else {
            pow2(separator_count(tail))
        }) by {
            if is_separator(head) {
                lemma_pow2_unfold(separator_count(fragment));
            }
        }
        assert forall|k: int| 0 <= k < all.len() implies same_shape(fragment, #[trigger] all[k]) by {
            let t = if k < n { tails[k] } else { tails[k - n] };
            let h = all[k][0];
            assert(all[k] =~= seq![h] + t);
            assert(same_shape(tail, t));
            assert(char_matches(head, h));
            assert forall|i: int| 0 <= i < fragment.len() implies char_matches(
                #[trigger] fragment[i],
                all[k][i],
            ) by {
                if i > 0 {
                    assert(fragment[i] == tail[i - 1]);
                    assert(all[k][i] == t[i - 1]);
                }
            }
        }
        assert forall|j: int, k: int| 0 <= j < k < all.len() implies all[j] != all[k] by {
            let tj = if j < n { tails[j] } else { tails[j - n] };
            let tk = if k < n { tails[k] } else { tails[k - n] };
            assert(all[j] =~= seq![all[j][0]] + tj);
            assert(all[k] =~= seq![all[k][0]] + tk);
            assert(all[j].drop_first() =~= tj);
            assert(all[k].drop_first() =~= tk);
            if all[j][0] == all[k][0] {
                assert(tj != tk);
            }
        }
        assert forall|s: Seq<char>| #[trigger] same_shape(fragment, s) implies all.contains(s) by {
            let t = s.drop_first();
            assert(char_matches(fragment[0], s[0]));
            assert forall|i: int| 0 <= i < tail.len() implies char_matches(
                #[trigger] tail[i],
                t[i],
            ) by {
                assert(char_matches(fragment[i + 1], s[i + 1]));
            }
            assert(same_shape(tail, t));
            assert(tails.contains(t));
            let k = choose|k: int| 0 <= k < tails.len() && tails[k] == t;
            assert(s =~= seq![s[0]] + t);
            if is_separator(head) && s[0] == '-' {
                assert(all[n + k] =~= s);
            } else {
                assert(all[k] =~= s);
            }
        }
    }
}

/// `Itertools::multi_cartesian_product`, collected: the cartesian product of
/// the columns, each combination a vector with one element from each column.
/// The combinations come in the order of the choice made in the first column,
/// then in the second; the last column changes fastest. No column at all
/// gives the one empty combination.
#[verifier::external_body]
fn cartesian_product(columns: Vec<Vec<char>>) -> (out: Vec<Vec<char>>)
    ensures
        rows(out@) == product(rows(columns@)),
{
    columns.into_iter().multi_cartesian_product().collect()
}

/// Every sequence obtained from `fragment` by choosing `-` or `_` at each
/// position where `fragment` has one of the two.
pub fn expand(fragment: &Vec<char>) -> (out: Vec<Vec<char>>)
    ensures
        rows(out@) == variants(fragment@),
        out.len() == pow2(separator_count(fragment@)),
        forall|k: int| 0 <= k < out.len() ==> same_shape(fragment@, #[trigger] out[k]@),
        forall|j: int, k: int| 0 <= j < k < out.len() ==> out[j]@ != out[k]@,
{
    let mut columns: Vec<Vec<char>> = Vec::new();
    let mut i: usize = 0;
    while i < fragment.len()
        invariant
            0 <= i <= fragment.len(),
            columns.len() == i,
            forall|j: int| 0 <= j < i ==> columns[j]@ == choices_at(fragment[j]),
        decreases fragment.len() - i,
    {
        let c = fragment[i];
        if c == '_' || c == '-' {
            columns.push(vec!['_', '-']);
        } else {
            columns.push(vec![c]);
        }
        i += 1;
    }
    assert(rows(columns@) =~= choices(fragment@));
    let out = cartesian_product(columns);
    proof {
        lemma_variants(fragment@);
        assert forall|k: int| 0 <= k < out.len() implies same_shape(
            fragment@,
            #[trigger] out[k]@,
        ) by {
            assert(out[k]@ == rows(out@)[k]);
        }
        assert forall|j: int, k: int| 0 <= j < k < out.len() implies out[j]@ != out[k]@ by {
            assert(out[j]@ == rows(out@)[j]);
            assert(out[k]@ == rows(out@)[k]);
        }
    }
    out
}

/// Every string obtained from `part` by choosing `-` or `_` at each position
/// where `part` has one of the two.
pub fn expand_path_domain(part: &str) -> (out: Vec<String>)
    ensures
        texts(out@) == variants(part@),
        out.len() == pow2(separator_count(part@)),
        forall|k: int| 0 <= k < out.len() ==> same_shape(part@, #[trigger] out[k]@),
        forall|j: int, k: int| 0 <= j < k < out.len() ==> out[j]@ != out[k]@,
{
    let chars = chars_of(part);
    let combos = expand(&chars);
    let mut out: Vec<String> = Vec::new();
    let mut k: usize = 0;
    while k < combos.len()
        invariant
            0 <= k <= combos.len(),
            out.len() == k,
            forall|j: int| 0 <= j < k ==> out[j]@ == combos[j]@,
        decreases combos.len() - k,
    {
        out.push(string_of(&combos[k]));
        k += 1;
    }
    assert(texts(out@) =~= rows(combos@));
    out
}

/// Whether `name` begins with one of the variants of `fragment`.
pub open spec fn starts_with_variant(fragment: Seq<char>, name: Seq<char>) -> bool {
    exists|k: int|
        0 <= k < variants(fragment).len() && (#[trigger] variants(fragment)[k]).is_prefix_of(name)
}

/// To begin with a variant of a fragment is to match it as a prefix.
pub proof fn lemma_starts_with_variant(fragment: Seq<char>, name: Seq<char>)
    ensures
        starts_with_variant(fragment, name) <==> prefix_matches(fragment, name),
{
    lemma_variants(fragment);
    if starts_with_variant(fragment, name) {
        let k = choose|k: int|
            0 <= k < variants(fragment).len() && (#[trigger] variants(fragment)[k]).is_prefix_of(
                name,
            );
        let v = variants(fragment)[k];
        assert(same_shape(fragment, v));
        assert forall|i: int| 0 <= i < fragment.len() implies char_matches(
            #[trigger] fragment[i],
            name[i],
        ) by {
            assert(v[i] == name.subrange(0, v.len() as int)[i]);
        }
    }
    if prefix_matches(fragment, name) {
        let v = name.subrange(0, fragment.len() as int);
        assert(same_shape(fragment, v));
        assert(variants(fragment).contains(v));
        let k = choose|k: int| 0 <= k < variants(fragment).len() && variants(fragment)[k] == v;
        assert(variants(fragment)[k].is_prefix_of(name));
    }
}

/// Whether `name` begins with one of `parts`.
pub fn starts_with_any(name: &Vec<char>, parts: &Vec<Vec<char>>) -> (r: bool)
    ensures
        r == exists|k: int| 0 <= k < parts.len() && (#[trigger] parts[k]@).is_prefix_of(name@),
{
    let mut k: usize = 0;
    while k < parts.len()
        invariant
            0 <= k <= parts.len(),
            forall|j: int| 0 <= j < k ==> !(#[trigger] parts[j]@).is_prefix_of(name@),
        decreases parts.len() - k,
    {
        if starts_with(name, &parts[k]) {
            return true;
        }
        k += 1;
    }
    false
}

/// Whether `candidate` begins with `query`, where a `-` or `_` of the query
/// stands for either of the two and every other character for itself.
pub fn is_match(query: &Vec<char>, candidate: &Vec<char>) -> (r: bool)
    ensures
        r == prefix_matches(query@, candidate@),
{
    if query.len() > candidate.len() {
        return false;
    }
    let mut i: usize = 0;
    while i < query.len()
        invariant
            0 <= i <= query.len() <= candidate.len(),
            forall|j: int| 0 <= j < i ==> char_matches(#[trigger] query[j], candidate[j]),
        decreases query.len() - i,
    {
        let q = query[i];
        let c = candidate[i];
        let ok = if q == '-' || q == '_' {
            c == '-' || c == '_'
        } else {
            q == c
        };
        if !ok {
            assert(!char_matches(query[i as int], candidate[i as int]));
            return false;
        }
        i += 1;
    }
    true
}

} // verus!
