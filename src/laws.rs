use vstd::prelude::*;

use crate::loader::{record_of, records, records_of};
use crate::text::{all_ws, lines_of, split_once, trim, trim_end, trim_start};

verus! {

/// Records keep the order of their lines: the records of two runs of lines
/// are those of the first run followed by those of the second.
pub proof fn records_keep_line_order(a: Seq<Seq<char>>, b: Seq<Seq<char>>, d: Seq<char>)
    ensures
        records_of(a + b, d) == records_of(a, d) + records_of(b, d),
    decreases b.len(),
{
    if b.len() == 0 {
        assert(a + b =~= a);
        assert(records_of(a, d) + records_of(b, d) =~= records_of(a, d));
    } else {
        assert((a + b).drop_last() =~= a + b.drop_last());
        assert((a + b).last() == b.last());
        records_keep_line_order(a, b.drop_last(), d);
        match record_of(b.last(), d) {
            Some(r) => {
                assert(records_of(a, d) + records_of(b.drop_last(), d).push(r) =~= (records_of(
                    a,
                    d,
                ) + records_of(b.drop_last(), d)).push(r));
            },
            None => {},
        }
    }
}

/// A line without the delimiter gives no record, wherever it stands: with one
/// line that holds the delimiter and one that does not, in either order, the
/// records are the one record of the first.
pub proof fn delimiter_free_line_is_skipped(good: Seq<char>, bad: Seq<char>, d: Seq<char>)
    requires
        split_once(good, d) is Some,
        split_once(bad, d) is None,
    ensures
        records_of(seq![good, bad], d) == seq![record_of(good, d)->0],
        records_of(seq![bad, good], d) == seq![record_of(good, d)->0],
{
    let r = record_of(good, d)->0;
    let none = Seq::<Seq<char>>::empty();
    assert(seq![good].drop_last() =~= none);
    assert(seq![bad].drop_last() =~= none);
    assert(records_of(none, d) == Seq::<(Seq<char>, Seq<char>)>::empty());
    assert(records_of(seq![good], d) =~= seq![r]);
    assert(records_of(seq![bad], d) =~= Seq::<(Seq<char>, Seq<char>)>::empty());
    assert(seq![good, bad].drop_last() =~= seq![good]);
    assert(seq![good, bad].last() == bad);
    assert(seq![bad, good].drop_last() =~= seq![bad]);
    assert(seq![bad, good].last() == good);
    assert(Seq::<(Seq<char>, Seq<char>)>::empty().push(r) =~= seq![r]);
}

/// A text none of whose lines holds the delimiter has no records, so loading
/// it fails with `EmptyResultError` unless it is empty.
pub proof fn no_delimiter_no_records(contents: Seq<char>, d: Seq<char>)
    requires
        forall|i: int|
            0 <= i < lines_of(contents).len() ==> split_once(#[trigger] lines_of(contents)[i], d) is None,
    ensures
        records(contents, d).len() == 0,
{
    lemma_no_records_of(lines_of(contents), d);
}

proof fn lemma_no_records_of(lines: Seq<Seq<char>>, d: Seq<char>)
    requires
        forall|i: int| 0 <= i < lines.len() ==> split_once(#[trigger] lines[i], d) is None,
    ensures
        records_of(lines, d).len() == 0,
    decreases lines.len(),
{
    if lines.len() > 0 {
        assert(split_once(lines[lines.len() - 1], d) is None);
        lemma_no_records_of(lines.drop_last(), d);
    }
}

proof fn lemma_trim_start_skips_ws(w: Seq<char>, y: Seq<char>)
    requires
        all_ws(w),
    ensures
        trim_start(w + y) == trim_start(y),
    decreases w.len(),
{
    if w.len() > 0 {
        assert((w + y)[0] == w[0]);
        assert((w + y).drop_first() =~= w.drop_first() + y);
        lemma_trim_start_skips_ws(w.drop_first(), y);
    } else {
        assert(w + y =~= y);
    }
}

proof fn lemma_trim_end_skips_ws(y: Seq<char>, w: Seq<char>)
    requires
        all_ws(w),
    ensures
        trim_end(y + w) == trim_end(y),
    decreases w.len(),
{
    if w.len() > 0 {
        assert((y + w).last() == w.last());
        assert((y + w).drop_last() =~= y + w.drop_last());
        lemma_trim_end_skips_ws(y, w.drop_last());
    } else {
        assert(y + w =~= y);
    }
}

proof fn lemma_trim_start_append(x: Seq<char>, w: Seq<char>)
    requires
        !all_ws(x),
    ensures
        trim_start(x + w) == trim_start(x) + w,
    decreases x.len(),
{
    assert((x + w)[0] == x[0]);
    if is_ws_at_start(x) {
        assert((x + w).drop_first() =~= x.drop_first() + w);
        assert(!all_ws(x.drop_first())) by {
            let i = choose|i: int| 0 <= i < x.len() && !crate::text::is_ws(#[trigger] x[i]);
            assert(x.drop_first()[i - 1] == x[i]);
        }
        lemma_trim_start_append(x.drop_first(), w);
    }
}

spec fn is_ws_at_start(x: Seq<char>) -> bool {
    x.len() > 0 && crate::text::is_ws(x[0])
}

/// Whitespace around a field is ignored: `trim` of the field with whitespace
/// before and after it is `trim` of the field alone.
pub proof fn trim_ignores_padding(w1: Seq<char>, x: Seq<char>, w2: Seq<char>)
    requires
        all_ws(w1),
        all_ws(w2),
    ensures
        trim(w1 + x + w2) == trim(x),
{
    assert(w1 + x + w2 =~= w1 + (x + w2));
    lemma_trim_start_skips_ws(w1, x + w2);
    if all_ws(x) {
        lemma_trim_start_skips_ws(x, w2);
        lemma_trim_start_skips_ws(w2, seq![]);
        lemma_trim_start_skips_ws(x, seq![]);
        assert(w2 + Seq::<char>::empty() =~= w2);
        assert(x + Seq::<char>::empty() =~= x);
    } else {
        lemma_trim_start_append(x, w2);
        lemma_trim_end_skips_ws(trim_start(x), w2);
    }
}

/// A line whose fields carry whitespace around them gives the same record as
/// the line without it, where the delimiter first occurs at the same place
/// between the fields.
pub proof fn padded_line_same_record(
    x: Seq<char>,
    y: Seq<char>,
    d: Seq<char>,
    w1: Seq<char>,
    w2: Seq<char>,
    w3: Seq<char>,
    w4: Seq<char>,
)
    requires
        all_ws(w1),
        all_ws(w2),
        all_ws(w3),
        all_ws(w4),
        split_once(x + d + y, d) == Some((x, y)),
        split_once(w1 + x + w2 + d + w3 + y + w4, d) == Some((w1 + x + w2, w3 + y + w4)),
    ensures
        record_of(w1 + x + w2 + d + w3 + y + w4, d) == record_of(x + d + y, d),
{
    trim_ignores_padding(w1, x, w2);
    trim_ignores_padding(w3, y, w4);
}

} // verus!
