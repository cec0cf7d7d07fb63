//! The releases of a package as its metadata file holds them: one release to
//! a line, the latest last.

use vstd::prelude::*;

use crate::crates::Crate;
use crate::error::Error;
use crate::text::{
    chars_of, find_first, first_position, slice_of, string_of, texts, trim, trimmed,
};

verus! {

/// `line` without the carriage return at its end, if it has one.
pub open spec fn without_return(line: Seq<char>) -> Seq<char> {
    if line.len() > 0 && line.last() == '\r' {
        line.drop_last()
    } else {
        line
    }
}

/// The lines of `s`. A line ends at a line feed, and a carriage return just
/// before that line feed belongs to the line's end. What follows the last
/// line feed is a line if it is not empty; it is taken as it stands, a
/// carriage return at its end included.
pub open spec fn lines(s: Seq<char>) -> Seq<Seq<char>>
    decreases s.len(),
{
    if s.len() == 0 {
        Seq::empty()
    } else {
        match first_position(s, '\n') {
            Some(i) => if 0 <= i < s.len() {
                seq![without_return(s.take(i))] + lines(s.skip(i + 1))
            } else {
                seq![s]
            },
            None => seq![s],
        }
    }
}

/// The lines of a metadata file with the text `text`: the lines of the text
/// without the white space around it.
pub fn record_lines(text: &str) -> (out: Vec<String>)
    ensures
        texts(out@) == lines(trimmed(text@)),
{
    let v = trim(&chars_of(text));
    let mut out: Vec<String> = Vec::new();
    let mut start: usize = 0;
    let ghost mut done: Seq<Seq<char>> = Seq::empty();
    assert(v@.subrange(0, v.len() as int) =~= v@);
    while start < v.len()
        invariant
            0 <= start <= v.len(),
            out.len() == done.len(),
            forall|j: int| 0 <= j < out.len() ==> out[j]@ == done[j],
            lines(v@) == done + lines(v@.subrange(start as int, v.len() as int)),
        decreases v.len() - start,
    {
        let ghost rest = v@.subrange(start as int, v.len() as int);
        match find_first(&v, start, '\n') {
            Some(i) => {
                let end = start + i;
                let stop = if end > start && v[end - 1] == '\r' {
                    end - 1
                } else {
                    end
                };
                let line = string_of(&slice_of(&v, start, stop));
                proof {
                    assert(rest.take(i as int) =~= v@.subrange(start as int, end as int));
                    assert(rest.skip(i + 1) =~= v@.subrange(end + 1, v.len() as int));
                    assert(line@ =~= without_return(rest.take(i as int)));
                    assert(lines(v@) =~= done.push(line@) + lines(
                        v@.subrange(end + 1, v.len() as int),
                    ));
                    done = done.push(line@);
                }
                out.push(line);
                start = end + 1;
            },
            None => {
                let line = string_of(&slice_of(&v, start, v.len()));
                proof {
                    assert(lines(v@.subrange(v.len() as int, v.len() as int)) =~= Seq::<
                        Seq<char>,
                    >::empty());
                    assert(lines(v@) =~= done.push(line@) + lines(
                        v@.subrange(v.len() as int, v.len() as int),
                    ));
                    done = done.push(line@);
                }
                out.push(line);
                start = v.len();
            },
        }
    }
    assert(lines(v@.subrange(v.len() as int, v.len() as int)) =~= Seq::<Seq<char>>::empty());
    assert(texts(out@) =~= lines(v@));
    out
}

/// The releases of a metadata file whose lines decoded to `decoded`, in the
/// order of the file; `None` stands for a line that is no release. One such
/// line fails the whole file.
pub fn load_records(decoded: Vec<Option<Crate>>) -> (r: Result<Vec<Crate>, Error>)
    ensures
        match r {
            Ok(records) => {
                &&& records.len() == decoded.len()
                &&& forall|i: int| 0 <= i < decoded.len() ==> decoded[i] == Some(records[i])
            },
            Err(e) => {
                &&& e == Error::DecodeFailure
                &&& exists|i: int| 0 <= i < decoded.len() && decoded[i] is None
            },
        },
{
    let mut records: Vec<Crate> = Vec::new();
    for line in it: decoded
        invariant
            it.seq() == decoded@,
            records.len() == it.index(),
            forall|i: int| 0 <= i < it.index() ==> decoded[i] == Some(records[i]),
    {
        match line {
            Some(record) => {
                records.push(record);
            },
            None => {
                assert(decoded[it.index() as int] is None);
                return Err(Error::DecodeFailure);
            },
        }
    }
    Ok(records)
}

} // verus!
