use vstd::prelude::*;

verus! {

/// The characters that Rust's `char::is_whitespace` accepts: those with the
/// Unicode `White_Space` property.
pub open spec fn is_ws(c: char) -> bool {
    let n = c as u32;
    (0x9 <= n <= 0xd) || n == 0x20 || n == 0x85 || n == 0xa0 || n == 0x1680 || (0x2000 <= n
        <= 0x200a) || n == 0x2028 || n == 0x2029 || n == 0x202f || n == 0x205f || n == 0x3000
}

/// Every character of `s` is whitespace.
pub open spec fn all_ws(s: Seq<char>) -> bool {
    forall|i: int| 0 <= i < s.len() ==> is_ws(#[trigger] s[i])
}

/// `s` without its leading whitespace.
pub open spec fn trim_start(s: Seq<char>) -> Seq<char>
    decreases s.len(),
{
    if s.len() > 0 && is_ws(s[0]) {
        trim_start(s.drop_first())
    } else {
        s
    }
}

/// `s` without its trailing whitespace.
pub open spec fn trim_end(s: Seq<char>) -> Seq<char>
    decreases s.len(),
{
    if s.len() > 0 && is_ws(s.last()) {
        trim_end(s.drop_last())
    } else {
        s
    }
}

/// `s` without whitespace at either end, as `str::trim` gives it.
pub open spec fn trim(s: Seq<char>) -> Seq<char> {
    trim_end(trim_start(s))
}

/// A line that a newline closed loses one carriage return before it.
pub open spec fn strip_cr(line: Seq<char>) -> Seq<char> {
    if line.len() > 0 && line.last() == '\r' {
        line.drop_last()
    } else {
        line
    }
}

/// Reading `s` from the start: the lines that a newline has closed, and the
/// characters read since the last newline.
pub open spec fn scan_lines(s: Seq<char>) -> (Seq<Seq<char>>, Seq<char>)
    decreases s.len(),
{
    if s.len() == 0 {
        (seq![], seq![])
    } else {
        let (done, cur) = scan_lines(s.drop_last());
        if s.last() == '\n' {
            (done.push(strip_cr(cur)), seq![])
        } else {
            (done, cur.push(s.last()))
        }
    }
}

/// The lines of `s`, as `str::lines` yields them: split at each newline, a
/// carriage return before a newline dropped, and no empty line after a final
/// newline.
pub open spec fn lines_of(s: Seq<char>) -> Seq<Seq<char>> {
    let (done, cur) = scan_lines(s);
    if cur.len() == 0 {
        done
    } else {
        done.push(cur)
    }
}

/// `d` occurs in `s` at position `k`.
pub open spec fn occurs_at(s: Seq<char>, d: Seq<char>, k: int) -> bool {
    0 <= k && k + d.len() <= s.len() && s.subrange(k, k + d.len()) =~= d
}

/// The first position at or after `k` where `d` occurs in `s`.
pub open spec fn find_from(s: Seq<char>, d: Seq<char>, k: int) -> Option<int>
    decreases s.len() - k,
{
    if k < 0 || k + d.len() > s.len() {
        None
    } else if occurs_at(s, d, k) {
        Some(k)
    } else {
        find_from(s, d, k + 1)
    }
}

/// The two sides of `s` around the first occurrence of `d`, as
/// `str::split_once` gives them.
pub open spec fn split_once(s: Seq<char>, d: Seq<char>) -> Option<(Seq<char>, Seq<char>)> {
    match find_from(s, d, 0) {
        Some(k) => Some((s.subrange(0, k), s.subrange(k + d.len(), s.len() as int))),
        None => None,
    }
}

pub proof fn lemma_find_from_bounds(s: Seq<char>, d: Seq<char>, k: int)
    ensures
        find_from(s, d, k) matches Some(j) ==> k <= j && occurs_at(s, d, j),
    decreases s.len() - k,
{
    if k < 0 || k + d.len() > s.len() {
    } else if occurs_at(s, d, k) {
    } else {
        lemma_find_from_bounds(s, d, k + 1);
    }
}

/// Relies on `str::chars`, collected into a `Vec`: the characters of `s` in order.
#[verifier::external_body]
pub(crate) fn chars_of(s: &str) -> (r: Vec<char>)
    ensures
        r@ == s@,
{
    s.chars().collect()
}

/// Relies on `String`'s `FromIterator<&char>`: the characters of `s[lo..hi]` in order.
#[verifier::external_body]
pub(crate) fn string_of(s: &Vec<char>, lo: usize, hi: usize) -> (r: String)
    requires
        lo <= hi <= s.len(),
    ensures
        r@ == s@.subrange(lo as int, hi as int),
{
    s[lo..hi].iter().collect()
}

/// Whether `c` is whitespace, as `char::is_whitespace` decides.
pub fn is_whitespace(c: char) -> (r: bool)
    ensures
        r == is_ws(c),
{
    let n = c as u32;
    (0x9 <= n && n <= 0xd) || n == 0x20 || n == 0x85 || n == 0xa0 || n == 0x1680 || (0x2000 <= n
        && n <= 0x200a) || n == 0x2028 || n == 0x2029 || n == 0x202f || n == 0x205f || n == 0x3000
}

/// The span of `s[lo..hi]` that is left once whitespace is cut from both ends.
pub fn trim_span(s: &Vec<char>, lo: usize, hi: usize) -> (r: (usize, usize))
    requires
        lo <= hi <= s.len(),
    ensures
        lo <= r.0 <= r.1 <= hi,
        s@.subrange(r.0 as int, r.1 as int) == trim(s@.subrange(lo as int, hi as int)),
{
    let mut a = lo;
    while a < hi && is_whitespace(s[a])
        invariant
            lo <= a <= hi <= s.len(),
            trim_start(s@.subrange(lo as int, hi as int)) == trim_start(
                s@.subrange(a as int, hi as int),
            ),
        decreases hi - a,
    {
        assert(s@.subrange(a as int, hi as int).drop_first() =~= s@.subrange(
            a + 1,
            hi as int,
        ));
        a = a + 1;
    }
    let mut b = hi;
    while b > a && is_whitespace(s[b - 1])
        invariant
            lo <= a <= b <= hi <= s.len(),
            trim_end(s@.subrange(a as int, hi as int)) == trim_end(
                s@.subrange(a as int, b as int),
            ),
        decreases b - a,
    {
        assert(s@.subrange(a as int, b as int).drop_last() =~= s@.subrange(a as int, b - 1));
        b = b - 1;
    }
    (a, b)
}

/// Whether `d` occurs in `s` at position `k`.
fn occurs_at_exec(s: &Vec<char>, d: &Vec<char>, k: usize, hi: usize) -> (r: bool)
    requires
        k + d.len() <= hi <= s.len(),
    ensures
        r == (s@.subrange(k as int, k + d.len()) =~= d@),
{
    let mut j: usize = 0;
    while j < d.len()
        invariant
            j <= d.len(),
            k + d.len() <= hi <= s.len(),
            forall|t: int| 0 <= t < j ==> s@[k + t] == d@[t],
        decreases d.len() - j,
    {
        if s[k + j] != d[j] {
            assert(s@.subrange(k as int, k + d.len())[j as int] != d@[j as int]);
            return false;
        }
        j = j + 1;
    }
    true
}

/// The first position in `s[lo..hi]` where `d` occurs, counted from `lo`.
pub fn find_in(s: &Vec<char>, lo: usize, hi: usize, d: &Vec<char>) -> (r: Option<usize>)
    requires
        lo <= hi <= s.len(),
    ensures
        r matches Some(k) ==> find_from(s@.subrange(lo as int, hi as int), d@, 0) == Some(
            k as int,
        ),
        r is None ==> find_from(s@.subrange(lo as int, hi as int), d@, 0) is None,
{
    let ghost line = s@.subrange(lo as int, hi as int);
    if d.len() > hi - lo {
        return None;
    }
    let last = hi - lo - d.len();
    let mut k: usize = 0;
    while k <= last
        invariant
            lo <= hi <= s.len(),
            last == hi - lo - d.len(),
            line == s@.subrange(lo as int, hi as int),
            find_from(line, d@, 0) == find_from(line, d@, k as int),
        decreases last + 1 - k,
    {
        assert(line.subrange(k as int, k + d.len()) =~= s@.subrange(lo + k, lo + k + d.len()));
        if occurs_at_exec(s, d, lo + k, hi) {
            return Some(k);
        }
        k = k + 1;
    }
    None
}

} // verus!
