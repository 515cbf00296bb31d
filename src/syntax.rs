use vstd::prelude::*;
use crate::error::Fault;
use crate::text::{find_either, first_of, lemma_first_of, sub_bytes};

verus! {

/// Index of the first byte `b` in `s[from..to]`, or `to`.
pub open spec fn first_in(s: Seq<u8>, from: int, to: int, b: u8) -> int
    decreases to - from,
{
    if from >= to {
        to
    } else if s[from] == b {
        from
    } else {
        first_in(s, from + 1, to, b)
    }
}

/// Index of the last byte `b` in `s[from..to]`, or `from - 1`.
pub open spec fn last_in(s: Seq<u8>, from: int, to: int, b: u8) -> int
    decreases to - from,
{
    if to <= from {
        from - 1
    } else if s[to - 1] == b {
        to - 1
    } else {
        last_in(s, from, to - 1, b)
    }
}

pub proof fn lemma_first_in(s: Seq<u8>, from: int, to: int, b: u8)
    requires
        0 <= from <= to <= s.len(),
    ensures
        from <= first_in(s, from, to, b) <= to,
        first_in(s, from, to, b) < to ==> s[first_in(s, from, to, b)] == b,
    decreases to - from,
{
    if from < to && s[from] != b {
        lemma_first_in(s, from + 1, to, b);
    }
}

pub proof fn lemma_last_in(s: Seq<u8>, from: int, to: int, b: u8)
    requires
        0 <= from <= to <= s.len(),
    ensures
        from - 1 <= last_in(s, from, to, b) < to,
    decreases to - from,
{
    if to > from && s[to - 1] != b {
        lemma_last_in(s, from, to - 1, b);
    }
}

pub fn find_in(s: &Vec<u8>, from: usize, to: usize, b: u8) -> (r: usize)
    requires
        from <= to <= s@.len(),
    ensures
        r == first_in(s@, from as int, to as int, b),
{
    let mut i: usize = from;
    while i < to
        invariant
            from <= i <= to <= s@.len(),
            first_in(s@, i as int, to as int, b) == first_in(s@, from as int, to as int, b),
        decreases to - i,
    {
        if s[i] == b {
            return i;
        }
        i = i + 1;
    }
    i
}

/// Finds `last_in(s, from, to, b)`; `None` stands for `from - 1`.
pub fn find_last_in(s: &Vec<u8>, from: usize, to: usize, b: u8) -> (r: Option<usize>)
    requires
        from <= to <= s@.len(),
    ensures
        r matches Some(k) ==> k == last_in(s@, from as int, to as int, b),
        r is None ==> last_in(s@, from as int, to as int, b) == from - 1,
{
    let mut j: usize = to;
    while j > from
        invariant
            from <= j <= to <= s@.len(),
            last_in(s@, from as int, j as int, b) == last_in(s@, from as int, to as int, b),
        decreases j - from,
    {
        if s[j - 1] == b {
            return Some(j - 1);
        }
        j = j - 1;
    }
    None
}

pub open spec fn is_space(b: u8) -> bool {
    b == 32 || b == 9 || b == 10 || b == 13
}

/// Start of `s[lo..hi]` without its leading white space.
pub open spec fn trim_lo(s: Seq<u8>, lo: int, hi: int) -> int
    decreases hi - lo,
{
    if lo < hi && is_space(s[lo]) {
        trim_lo(s, lo + 1, hi)
    } else {
        lo
    }
}

/// End of `s[lo..hi]` without its trailing white space.
pub open spec fn trim_hi(s: Seq<u8>, lo: int, hi: int) -> int
    decreases hi - lo,
{
    if lo < hi && is_space(s[hi - 1]) {
        trim_hi(s, lo, hi - 1)
    } else {
        hi
    }
}

/// `s[lo..hi]` without surrounding white space.
pub open spec fn trimmed(s: Seq<u8>, lo: int, hi: int) -> Seq<u8> {
    let a = trim_lo(s, lo, hi);
    s.subrange(a, trim_hi(s, a, hi))
}

/// Finds the bounds of `trimmed(s, lo, hi)`.
pub fn trim_bounds(s: &Vec<u8>, lo: usize, hi: usize) -> (r: (usize, usize))
    requires
        lo <= hi <= s@.len(),
    ensures
        lo <= r.0 <= r.1 <= hi,
        s@.subrange(r.0 as int, r.1 as int) == trimmed(s@, lo as int, hi as int),
{
    let mut a: usize = lo;
    while a < hi && (s[a] == 32 || s[a] == 9 || s[a] == 10 || s[a] == 13)
        invariant
            lo <= a <= hi <= s@.len(),
            trim_lo(s@, lo as int, hi as int) == trim_lo(s@, a as int, hi as int),
        decreases hi - a,
    {
        a = a + 1;
    }
    let mut b: usize = hi;
    while b > a && (s[b - 1] == 32 || s[b - 1] == 9 || s[b - 1] == 10 || s[b - 1] == 13)
        invariant
            lo <= a <= b <= hi <= s@.len(),
            trim_lo(s@, lo as int, hi as int) == a,
            trim_hi(s@, a as int, hi as int) == trim_hi(s@, a as int, b as int),
        decreases b - a,
    {
        b = b - 1;
    }
    (a, b)
}

/// The `key: value` pairs of the comma-separated list `s[p..end]`, each part
/// trimmed; `None` where an item has no colon.
pub open spec fn items_from(s: Seq<u8>, p: int, end: int) -> Option<Seq<(Seq<u8>, Seq<u8>)>>
    decreases end - p,
{
    let e = first_in(s, p, end, 44);
    let c = first_in(s, p, e, 58);
    if c >= e {
        None
    } else {
        let pair = (trimmed(s, p, c), trimmed(s, c + 1, e));
        if p <= e < end {
            match items_from(s, e + 1, end) {
                Some(rest) => Some(seq![pair] + rest),
                None => None,
            }
        } else {
            Some(seq![pair])
        }
    }
}

/// The inline arguments `s[lo..hi]` of an expansion: none where the list is
/// blank, else its `key: value` items.
pub open spec fn arg_pairs(s: Seq<u8>, lo: int, hi: int) -> Option<Seq<(Seq<u8>, Seq<u8>)>> {
    if trimmed(s, lo, hi).len() == 0 {
        Some(Seq::empty())
    } else {
        items_from(s, lo, hi)
    }
}

/// Parses `arg_pairs(s, lo, hi)`.
pub fn parse_args(s: &Vec<u8>, lo: usize, hi: usize) -> (r: Option<Vec<(Vec<u8>, Vec<u8>)>>)
    requires
        lo <= hi <= s@.len(),
    ensures
        r matches Some(v) ==> arg_pairs(s@, lo as int, hi as int) == Some(
            crate::refs::pairs_view(v@),
        ),
        r is None ==> arg_pairs(s@, lo as int, hi as int) is None,
{
    let (a, b) = trim_bounds(s, lo, hi);
    if a == b {
        let v: Vec<(Vec<u8>, Vec<u8>)> = Vec::new();
        assert(crate::refs::pairs_view(v@) =~= Seq::<(Seq<u8>, Seq<u8>)>::empty());
        return Some(v);
    }
    let mut out: Vec<(Vec<u8>, Vec<u8>)> = Vec::new();
    let mut p: usize = lo;
    loop
        invariant
            lo <= p <= hi <= s@.len(),
            trimmed(s@, lo as int, hi as int).len() != 0,
            items_from(s@, lo as int, hi as int) == match items_from(s@, p as int, hi as int) {
                Some(rest) => Some(crate::refs::pairs_view(out@) + rest),
                None => None::<Seq<(Seq<u8>, Seq<u8>)>>,
            },
        decreases hi - p,
    {
        let e = find_in(s, p, hi, 44);
        proof {
            lemma_first_in(s@, p as int, hi as int, 44);
        }
        let c = find_in(s, p, e, 58);
        proof {
            lemma_first_in(s@, p as int, e as int, 58);
        }
        if c >= e {
            return None;
        }
        let (k0, k1) = trim_bounds(s, p, c);
        let (v0, v1) = trim_bounds(s, c + 1, e);
        let pair = (sub_bytes(s, k0, k1), sub_bytes(s, v0, v1));
        let ghost pv = (pair.0@, pair.1@);
        let ghost old_out = crate::refs::pairs_view(out@);
        out.push(pair);
        assert(crate::refs::pairs_view(out@) =~= old_out.push(pv));
        if e < hi {
            assert(items_from(s@, p as int, hi as int) == match items_from(s@, e + 1, hi as int) {
                Some(rest) => Some(seq![pv] + rest),
                None => None::<Seq<(Seq<u8>, Seq<u8>)>>,
            });
            proof {
                match items_from(s@, e + 1, hi as int) {
                    Some(rest) => {
                        assert(old_out + (seq![pv] + rest) =~= old_out.push(pv) + rest);
                    },
                    None => {},
                }
            }
            p = e + 1;
        } else {
            assert(old_out + seq![pv] =~= old_out.push(pv));
            return Some(out);
        }
    }
}

/// The parts of `s[p..end]` between slashes.
pub open spec fn slash_parts(s: Seq<u8>, p: int, end: int) -> Seq<Seq<u8>>
    decreases end - p,
{
    let e = first_in(s, p, end, 47);
    if p <= e < end {
        seq![s.subrange(p, e)] + slash_parts(s, e + 1, end)
    } else {
        seq![s.subrange(p, end)]
    }
}

/// Splits `s[lo..hi]` at its slashes.
pub fn split_slashes(s: &Vec<u8>, lo: usize, hi: usize) -> (r: Vec<Vec<u8>>)
    requires
        lo <= hi <= s@.len(),
    ensures
        r@.map_values(|x: Vec<u8>| x@) == slash_parts(s@, lo as int, hi as int),
{
    let mut out: Vec<Vec<u8>> = Vec::new();
    let mut p: usize = lo;
    loop
        invariant
            lo <= p <= hi <= s@.len(),
            slash_parts(s@, lo as int, hi as int) == out@.map_values(|x: Vec<u8>| x@)
                + slash_parts(s@, p as int, hi as int),
        decreases hi - p,
    {
        let e = find_in(s, p, hi, 47);
        proof {
            lemma_first_in(s@, p as int, hi as int, 47);
        }
        let part = sub_bytes(s, p, e);
        let ghost old_out = out@.map_values(|x: Vec<u8>| x@);
        let ghost pv = part@;
        out.push(part);
        assert(out@.map_values(|x: Vec<u8>| x@) =~= old_out.push(pv));
        if e < hi {
            assert(old_out + (seq![pv] + slash_parts(s@, e + 1, hi as int)) =~= old_out.push(pv)
                + slash_parts(s@, e + 1, hi as int));
            p = e + 1;
        } else {
            assert(old_out + seq![pv] =~= old_out.push(pv));
            return out;
        }
    }
}

/// The line `---`.
pub open spec fn dashes() -> Seq<u8> {
    seq![45u8, 45, 45]
}

/// The line `...`.
pub open spec fn dots() -> Seq<u8> {
    seq![46u8, 46, 46]
}

/// The line of `s` that starts at `p`, without its line break.
pub open spec fn line_at(s: Seq<u8>, p: int) -> Seq<u8> {
    let l = s.subrange(p, first_of(s, p, 10, 10));
    if l.len() > 0 && l.last() == 13 {
        l.drop_last()
    } else {
        l
    }
}

/// Start of the first line from `p` on that is `---` or `...`.
pub open spec fn closing_line(s: Seq<u8>, p: int) -> Option<int>
    decreases s.len() - p,
{
    if p < 0 || p >= s.len() {
        None
    } else if line_at(s, p) == dashes() || line_at(s, p) == dots() {
        Some(p)
    } else {
        let e = first_of(s, p, 10, 10);
        if p <= e < s.len() {
            closing_line(s, e + 1)
        } else {
            None
        }
    }
}

/// End of the block of lines from `start` up to the line at `q`: before the
/// line break (`\n` or `\r\n`) that ends the block's last line.
pub open spec fn block_end(s: Seq<u8>, start: int, q: int) -> int {
    if q > start {
        if q - 1 > start && s[q - 2] == 13 {
            q - 2
        } else {
            q - 1
        }
    } else {
        start
    }
}

/// The front matter of `s`: where its first line is `---`, the lines up to
/// the next line that is `---` or `...`, without the break after the last
/// of them; else nothing. A block that never closes is an error.
pub open spec fn front_matter(s: Seq<u8>) -> Result<Seq<u8>, Fault> {
    if s.len() == 0 || line_at(s, 0) != dashes() {
        Ok(Seq::empty())
    } else {
        let e = first_of(s, 0, 10, 10);
        if e < s.len() {
            match closing_line(s, e + 1) {
                Some(q) => Ok(s.subrange(e + 1, block_end(s, e + 1, q))),
                None => Err(Fault::UnterminatedMetadata),
            }
        } else {
            Err(Fault::UnterminatedMetadata)
        }
    }
}

fn line_is(s: &Vec<u8>, p: usize, b: u8) -> (r: bool)
    requires
        p <= s@.len(),
    ensures
        r == (line_at(s@, p as int) == seq![b, b, b]),
{
    let e = find_either(s, p, 10, 10);
    proof {
        lemma_first_of(s@, p as int, 10, 10);
    }
    let mut end = e;
    if e > p && s[e - 1] == 13 {
        end = e - 1;
    }
    assert(line_at(s@, p as int) == s@.subrange(p as int, end as int));
    if end - p != 3 {
        return false;
    }
    let r = s[p] == b && s[p + 1] == b && s[p + 2] == b;
    assert(r ==> s@.subrange(p as int, end as int) =~= seq![b, b, b]);
    proof {
        if !r && s@.subrange(p as int, end as int) == seq![b, b, b] {
            assert(s@.subrange(p as int, end as int)[0] == b);
            assert(s@.subrange(p as int, end as int)[1] == b);
            assert(s@.subrange(p as int, end as int)[2] == b);
        }
    }
    r
}

/// Extracts `front_matter(s)`.
pub fn extract_metadata(s: &Vec<u8>) -> (r: Result<Vec<u8>, crate::error::BuildError>)
    ensures
        r matches Ok(b) ==> front_matter(s@) == Ok::<Seq<u8>, Fault>(b@),
        r matches Err(e) ==> front_matter(s@) == Err::<Seq<u8>, Fault>(e@),
{
    if s.len() == 0 || !line_is(s, 0, 45) {
        return Ok(Vec::new());
    }
    let e = find_either(s, 0, 10, 10);
    proof {
        lemma_first_of(s@, 0, 10, 10);
    }
    if e >= s.len() {
        return Err(crate::error::BuildError::UnterminatedMetadata);
    }
    let mut p: usize = e + 1;
    while p < s.len()
        invariant
            e < s@.len(),
            e + 1 <= p <= s@.len(),
            s@[p - 1] == 10,
            front_matter(s@) == match closing_line(s@, p as int) {
                Some(q) => Ok(s@.subrange(e + 1, block_end(s@, e + 1, q))),
                None => Err::<Seq<u8>, Fault>(Fault::UnterminatedMetadata),
            },
        decreases s@.len() - p,
    {
        if line_is(s, p, 45) || line_is(s, p, 46) {
            let mut end = e + 1;
            if p > e + 1 {
                end = p - 1;
                if p - 1 > e + 1 && s[p - 2] == 13 {
                    end = p - 2;
                }
            }
            return Ok(sub_bytes(s, e + 1, end));
        }
        let f = find_either(s, p, 10, 10);
        proof {
            lemma_first_of(s@, p as int, 10, 10);
        }
        if f >= s.len() {
            return Err(crate::error::BuildError::UnterminatedMetadata);
        }
        p = f + 1;
    }
    Err(crate::error::BuildError::UnterminatedMetadata)
}

} // verus!
