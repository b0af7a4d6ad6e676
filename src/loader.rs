use vstd::prelude::*;

use crate::text::{
    chars_of, find_in, lemma_find_from_bounds, lines_of, scan_lines, split_once, string_of,
    strip_cr, trim, trim_span,
};

verus! {

/// Why loading a file of delimited pairs failed.
#[derive(Debug, Clone, Copy, PartialEq, Eq, Structural)]
pub enum LoadError {
    /// The file could not be read.
    IoError,
    /// The file holds no text at all.
    EmptyFileError,
    /// A line holds the delimiter, but one of its two fields is not a number.
    ParseError,
    /// No line of the file holds the delimiter.
    EmptyResultError,
}

/// The record that one line gives: its two sides around the first
/// occurrence of the delimiter, each trimmed; none where the delimiter does
/// not occur.
pub open spec fn record_of(line: Seq<char>, d: Seq<char>) -> Option<(Seq<char>, Seq<char>)> {
    match split_once(line, d) {
        Some((x, y)) => Some((trim(x), trim(y))),
        None => None,
    }
}

/// The records of `lines`, in order; a line without the delimiter gives none.
pub open spec fn records_of(lines: Seq<Seq<char>>, d: Seq<char>) -> Seq<(Seq<char>, Seq<char>)>
    decreases lines.len(),
{
    if lines.len() == 0 {
        seq![]
    } else {
        let before = records_of(lines.drop_last(), d);
        match record_of(lines.last(), d) {
            Some(r) => before.push(r),
            None => before,
        }
    }
}

/// The records of a text: one for each of its lines that holds the delimiter.
pub open spec fn records(contents: Seq<char>, d: Seq<char>) -> Seq<(Seq<char>, Seq<char>)> {
    records_of(lines_of(contents), d)
}

/// What a sequence of field pairs holds, as text.
pub open spec fn pair_views(v: Seq<(String, String)>) -> Seq<(Seq<char>, Seq<char>)> {
    v.map_values(|p: (String, String)| (p.0@, p.1@))
}

/// Appends the record of the line `s[lo..hi]`, if it has one.
fn push_record(s: &Vec<char>, lo: usize, hi: usize, d: &Vec<char>, out: &mut Vec<(String, String)>)
    requires
        lo <= hi <= s.len(),
    ensures
        pair_views(final(out)@) == match record_of(s@.subrange(lo as int, hi as int), d@) {
            Some(r) => pair_views(old(out)@).push(r),
            None => pair_views(old(out)@),
        },
{
    let ghost line = s@.subrange(lo as int, hi as int);
    match find_in(s, lo, hi, d) {
        Some(k) => {
            proof {
                lemma_find_from_bounds(line, d@, 0);
            }
            let (xa, xb) = trim_span(s, lo, lo + k);
            let (ya, yb) = trim_span(s, lo + k + d.len(), hi);
            assert(line.subrange(0, k as int) =~= s@.subrange(lo as int, lo + k));
            assert(line.subrange(k + d.len(), line.len() as int) =~= s@.subrange(
                lo + k + d.len(),
                hi as int,
            ));
            let x = string_of(s, xa, xb);
            let y = string_of(s, ya, yb);
            out.push((x, y));
            assert(pair_views(out@) =~= pair_views(old(out)@).push((x@, y@)));
        },
        None => {},
    }
}

/// Splits a text into field pairs: each line that holds the delimiter gives
/// its two sides around the first occurrence, trimmed of whitespace; a line
/// without it is passed over.
pub fn split_records(delimiter: &str, contents: &str) -> (r: Result<Vec<(String, String)>, LoadError>)
    ensures
        contents@.len() == 0 ==> r == Err::<Vec<(String, String)>, LoadError>(
            LoadError::EmptyFileError,
        ),
        contents@.len() > 0 && records(contents@, delimiter@).len() == 0 ==> r == Err::<
            Vec<(String, String)>,
            LoadError,
        >(LoadError::EmptyResultError),
        contents@.len() > 0 && records(contents@, delimiter@).len() > 0 ==> (r matches Ok(v)
            && pair_views(v@) == records(contents@, delimiter@)),
{
    let s = chars_of(contents);
    let d = chars_of(delimiter);
    if s.len() == 0 {
        return Err(LoadError::EmptyFileError);
    }
    let mut out: Vec<(String, String)> = Vec::new();
    let ghost mut done: Seq<Seq<char>> = seq![];
    let mut start: usize = 0;
    let mut k: usize = 0;
    assert(pair_views(out@) =~= records_of(done, d@));
    assert(s@.subrange(0, 0) =~= seq![]);
    while k < s.len()
        invariant
            start <= k <= s.len(),
            s@ == contents@,
            d@ == delimiter@,
            scan_lines(s@.subrange(0, k as int)) == (done, s@.subrange(start as int, k as int)),
            pair_views(out@) == records_of(done, d@),
        decreases s.len() - k,
    {
        let ghost cur = s@.subrange(start as int, k as int);
        assert(s@.subrange(0, k + 1).drop_last() =~= s@.subrange(0, k as int));
        if s[k] == '\n' {
            let end = if k > start && s[k - 1] == '\r' {
                k - 1
            } else {
                k
            };
            assert(strip_cr(cur) =~= s@.subrange(start as int, end as int));
            push_record(&s, start, end, &d, &mut out);
            proof {
                assert(done.push(strip_cr(cur)).drop_last() =~= done);
                done = done.push(strip_cr(cur));
            }
            start = k + 1;
            assert(s@.subrange(start as int, k + 1) =~= seq![]);
        } else {
            assert(cur.push(s@[k as int]) =~= s@.subrange(start as int, k + 1));
        }
        k = k + 1;
    }
    assert(s@.subrange(0, s.len() as int) =~= s@);
    if start < s.len() {
        let ghost cur = s@.subrange(start as int, s.len() as int);
        push_record(&s, start, s.len(), &d, &mut out);
        assert(done.push(cur).drop_last() =~= done);
    }
    if out.len() == 0 {
        return Err(LoadError::EmptyResultError);
    }
    Ok(out)
}

/// `parse` may turn the text `f` into `Some(v)`.
pub open spec fn parses_to<T, F: Fn(&str) -> Option<T>>(parse: F, f: Seq<char>, v: T) -> bool {
    exists|s: &str| s@ == f && #[trigger] parse.ensures((s,), Some(v))
}

/// `parse` may reject the text `f`.
pub open spec fn rejects<T, F: Fn(&str) -> Option<T>>(parse: F, f: Seq<char>) -> bool {
    exists|s: &str| s@ == f && #[trigger] parse.ensures((s,), None::<T>)
}

/// `v` holds, in order, one point for each record of `recs`, whose two
/// fields `parse` may turn into its two coordinates.
pub open spec fn points_of<T, F: Fn(&str) -> Option<T>>(
    parse: F,
    recs: Seq<(Seq<char>, Seq<char>)>,
    v: Seq<[T; 2]>,
) -> bool {
    &&& v.len() == recs.len()
    &&& forall|i: int|
        0 <= i < v.len() ==> parses_to(parse, recs[i].0, #[trigger] v[i][0]) && parses_to(
            parse,
            recs[i].1,
            v[i][1],
        )
}

/// `parse` never turns the text `f` into a value.
pub open spec fn refuses<T, F: Fn(&str) -> Option<T>>(parse: F, f: Seq<char>) -> bool {
    forall|s: &str, v: T| s@ == f ==> !#[trigger] parse.ensures((s,), Some(v))
}

/// Loads the points of a text: the records that `split_records` finds, each
/// field turned into a number by `parse`. One field that `parse` rejects fails
/// the whole load.
pub fn load_pairs<T, F: Fn(&str) -> Option<T>>(delimiter: &str, contents: &str, parse: F) -> (r:
    Result<Vec<[T; 2]>, LoadError>)
    requires
        forall|s: &str| #[trigger] parse.requires((s,)),
    ensures
        contents@.len() == 0 <==> r == Err::<Vec<[T; 2]>, LoadError>(LoadError::EmptyFileError),
        r == Err::<Vec<[T; 2]>, LoadError>(LoadError::EmptyResultError) <==> (contents@.len() > 0
            && records(contents@, delimiter@).len() == 0),
        r != Err::<Vec<[T; 2]>, LoadError>(LoadError::IoError),
        r == Err::<Vec<[T; 2]>, LoadError>(LoadError::ParseError) ==> exists|i: int|
            0 <= i < records(contents@, delimiter@).len() && (rejects(
                parse,
                (#[trigger] records(contents@, delimiter@)[i]).0,
            ) || rejects(parse, records(contents@, delimiter@)[i].1)),
        (exists|i: int|
            0 <= i < records(contents@, delimiter@).len() && (refuses(
                parse,
                (#[trigger] records(contents@, delimiter@)[i]).0,
            ) || refuses(parse, records(contents@, delimiter@)[i].1))) ==> r == Err::<
            Vec<[T; 2]>,
            LoadError,
        >(LoadError::ParseError),
        r matches Ok(v) ==> points_of(parse, records(contents@, delimiter@), v@),
{
    let fields = match split_records(delimiter, contents) {
        Ok(fields) => fields,
        Err(e) => {
            return Err(e);
        },
    };
    let ghost recs = records(contents@, delimiter@);
    assert(pair_views(fields@).len() == fields@.len());
    let mut out: Vec<[T; 2]> = Vec::new();
    let mut i: usize = 0;
    while i < fields.len()
        invariant
            i <= fields.len(),
            pair_views(fields@) == recs,
            recs == records(contents@, delimiter@),
            contents@.len() > 0,
            recs.len() > 0,
            forall|s: &str| #[trigger] parse.requires((s,)),
            out@.len() == i,
            forall|j: int|
                0 <= j < i ==> parses_to(parse, recs[j].0, #[trigger] out@[j][0]) && parses_to(
                    parse,
                    recs[j].1,
                    out@[j][1],
                ),
        decreases fields.len() - i,
    {
        assert(recs[i as int] == (fields@[i as int].0@, fields@[i as int].1@));
        let xs = fields[i].0.as_str();
        let x = match parse(xs) {
            Some(x) => x,
            None => {
                assert(rejects(parse, recs[i as int].0));
                return Err(LoadError::ParseError);
            },
        };
        let ys = fields[i].1.as_str();
        let y = match parse(ys) {
            Some(y) => y,
            None => {
                assert(rejects(parse, recs[i as int].1));
                return Err(LoadError::ParseError);
            },
        };
        assert(parses_to(parse, recs[i as int].0, x));
        assert(parses_to(parse, recs[i as int].1, y));
        out.push([x, y]);
        i = i + 1;
    }
    proof {
        assert(pair_views(fields@).len() == fields@.len());
        assert forall|j: int| 0 <= j < recs.len() implies !refuses(parse, recs[j].0) && !refuses(
            parse,
            recs[j].1,
        ) by {
            assert(parses_to(parse, recs[j].0, out@[j][0]));
            assert(parses_to(parse, recs[j].1, out@[j][1]));
        }
        assert(points_of(parse, recs, out@));
    }
    Ok(out)
}

} // verus!
