use vstd::prelude::*;
use vstd::utf8::valid_utf8;
use crate::error::{BuildError, Fault, faults};
use crate::text::{
    all_digits, append_bytes, digits_value, find_either, first_of, lemma_first_of, parse_index,
    sub_bytes, copy_bytes, decode_text,
};
use crate::value::{ParamValue, bytes_eq, field, get_field};

verus! {

/// One step of a key chain: an index into a sequence where `seg` is a
/// decimal index, else the text field `seg` of a mapping.
pub open spec fn step(v: ParamValue, seg: Seq<u8>) -> Option<ParamValue> {
    match v {
        ParamValue::Sequence(items) => {
            if all_digits(seg) && digits_value(seg) < items@.len() {
                Some(items@[digits_value(seg) as int])
            } else {
                None
            }
        },
        ParamValue::Mapping(m) => field(m@, seg),
        _ => None,
    }
}

/// Follows the dot-separated segments of `chain` from byte `pos` on,
/// starting at `cur`. A missing entry or a null is an error that names the
/// segment and the whole chain.
pub open spec fn walk(cur: ParamValue, chain: Seq<u8>, pos: int) -> Result<ParamValue, Fault>
    decreases chain.len() - pos,
{
    let d = first_of(chain, pos, 46, 46);
    let seg = chain.subrange(pos, d);
    match step(cur, seg) {
        Some(ParamValue::Null) => Err(Fault::MissingKey { segment: seg, chain }),
        None => Err(Fault::MissingKey { segment: seg, chain }),
        Some(x) => if pos <= d < chain.len() {
            walk(x, chain, d + 1)
        } else {
            Ok(x)
        },
    }
}

/// The text of `true`.
pub open spec fn true_text() -> Seq<u8> {
    seq![116u8, 114, 117, 101]
}

/// The text of `false`.
pub open spec fn false_text() -> Seq<u8> {
    seq![102u8, 97, 108, 115, 101]
}

/// The text of a resolved value; a sequence or a mapping has none.
pub open spec fn scalar_text(v: ParamValue, chain: Seq<u8>) -> Result<Seq<u8>, Fault> {
    match v {
        ParamValue::Null => Ok(Seq::empty()),
        ParamValue::Bool(b) => Ok(if b { true_text() } else { false_text() }),
        ParamValue::Number(t) => Ok(t@),
        ParamValue::Text(t) => Ok(t@),
        ParamValue::Sequence(_) => Err(Fault::NotScalar { chain, is_sequence: true }),
        ParamValue::Mapping(_) => Err(Fault::NotScalar { chain, is_sequence: false }),
    }
}

/// The value that `chain` reaches under parameter entries `params`: its first
/// segment is a field of `params`, the rest are followed by [`walk`].
pub open spec fn found_value(params: Seq<(ParamValue, ParamValue)>, chain: Seq<u8>) -> Result<ParamValue, Fault> {
    let d = first_of(chain, 0, 46, 46);
    let seg = chain.subrange(0, d);
    match field(params, seg) {
        Some(ParamValue::Null) => Err(Fault::MissingKey { segment: seg, chain }),
        None => Err(Fault::MissingKey { segment: seg, chain }),
        Some(x) => if 0 <= d < chain.len() {
            walk(x, chain, d + 1)
        } else {
            Ok(x)
        },
    }
}

/// The text that reference `chain` stands for under the inline text
/// parameters `inline` and the metadata entries `meta`; a key of `meta` hides
/// the same key of `inline`. An inline parameter is text and has no fields.
pub open spec fn resolve(inline: Seq<(Seq<u8>, Seq<u8>)>, meta: Seq<(ParamValue, ParamValue)>, chain: Seq<
    u8,
>) -> Result<Seq<u8>, Fault> {
    let d = first_of(chain, 0, 46, 46);
    let seg = chain.subrange(0, d);
    if field(meta, seg) is Some {
        match found_value(meta, chain) {
            Ok(v) => scalar_text(v, chain),
            Err(f) => Err(f),
        }
    } else {
        match text_field(inline, seg) {
            None => Err(Fault::MissingKey { segment: seg, chain }),
            Some(t) => if d < chain.len() {
                Err(
                    Fault::MissingKey {
                        segment: chain.subrange(d + 1, first_of(chain, d + 1, 46, 46)),
                        chain,
                    },
                )
            } else {
                Ok(t)
            },
        }
    }
}

/// The text under key `key` in text pairs `m`: the last pair with that key.
pub open spec fn text_field(m: Seq<(Seq<u8>, Seq<u8>)>, key: Seq<u8>) -> Option<Seq<u8>>
    decreases m.len(),
{
    if m.len() == 0 {
        None
    } else if m.last().0 == key {
        Some(m.last().1)
    } else {
        text_field(m.drop_last(), key)
    }
}

/// The view of a list of text pairs.
pub open spec fn pairs_view(m: Seq<(Vec<u8>, Vec<u8>)>) -> Seq<(Seq<u8>, Seq<u8>)> {
    m.map_values(|p: (Vec<u8>, Vec<u8>)| (p.0@, p.1@))
}

fn get_text_field<'a>(m: &'a Vec<(Vec<u8>, Vec<u8>)>, key: &Vec<u8>) -> (r: Option<&'a Vec<u8>>)
    ensures
        r matches Some(v) ==> text_field(pairs_view(m@), key@) == Some(v@),
        r is None ==> text_field(pairs_view(m@), key@) is None,
{
    let mut i: usize = m.len();
    assert(pairs_view(m@).subrange(0, i as int) == pairs_view(m@));
    while i > 0
        invariant
            i <= m@.len(),
            text_field(pairs_view(m@), key@) == text_field(pairs_view(m@).subrange(0, i as int), key@),
        decreases i,
    {
        let ghost s = pairs_view(m@).subrange(0, i as int);
        assert(s.drop_last() == pairs_view(m@).subrange(0, i - 1));
        if bytes_eq(&m[i - 1].0, key) {
            return Some(&m[i - 1].1);
        }
        i = i - 1;
    }
    None
}

fn step_exec<'a>(cur: &'a ParamValue, chain: &Vec<u8>, from: usize, to: usize) -> (r: Option<&'a ParamValue>)
    requires
        from <= to <= chain@.len(),
    ensures
        r matches Some(v) ==> step(*cur, chain@.subrange(from as int, to as int)) == Some(*v),
        r is None ==> step(*cur, chain@.subrange(from as int, to as int)) is None,
{
    match cur {
        ParamValue::Sequence(items) => match parse_index(chain, from, to, items.len()) {
            Some(k) => Some(&items[k]),
            None => None,
        },
        ParamValue::Mapping(m) => {
            let key = sub_bytes(chain, from, to);
            get_field(m, &key)
        },
        _ => None,
    }
}

fn scalar_exec(v: &ParamValue, chain: &Vec<u8>) -> (r: Result<Vec<u8>, BuildError>)
    ensures
        r matches Ok(t) ==> scalar_text(*v, chain@) == Ok::<Seq<u8>, Fault>(t@),
        r matches Err(e) ==> scalar_text(*v, chain@) == Err::<Seq<u8>, Fault>(e@),
{
    match v {
        ParamValue::Null => Ok(Vec::new()),
        ParamValue::Bool(b) => {
            if *b {
                let t = vec![116u8, 114, 117, 101];
                assert(t@ == true_text());
                Ok(t)
            } else {
                let t = vec![102u8, 97, 108, 115, 101];
                assert(t@ == false_text());
                Ok(t)
            }
        },
        ParamValue::Number(t) => Ok(copy_bytes(t)),
        ParamValue::Text(t) => Ok(copy_bytes(t)),
        ParamValue::Sequence(_) => Err(BuildError::NotScalar { chain: copy_bytes(chain), is_sequence: true }),
        ParamValue::Mapping(_) => Err(BuildError::NotScalar { chain: copy_bytes(chain), is_sequence: false }),
    }
}

/// Resolves reference `chain` against the metadata entries `meta`.
fn resolve_meta(meta: &Vec<(ParamValue, ParamValue)>, chain: &Vec<u8>) -> (r: Result<Vec<u8>, BuildError>)
    ensures
        r matches Ok(t) ==> (match found_value(meta@, chain@) {
            Ok(v) => scalar_text(v, chain@),
            Err(f) => Err(f),
        }) == Ok::<Seq<u8>, Fault>(t@),
        r matches Err(e) ==> (match found_value(meta@, chain@) {
            Ok(v) => scalar_text(v, chain@),
            Err(f) => Err(f),
        }) == Err::<Seq<u8>, Fault>(e@),
{
    let ghost params = meta@;
    let d = find_either(chain, 0, 46, 46);
    proof {
        lemma_first_of(chain@, 0, 46, 46);
    }
    let key = sub_bytes(chain, 0, d);
    let mut cur: &ParamValue = match get_field(meta, &key) {
        None => return Err(BuildError::MissingKey { segment: key, chain: copy_bytes(chain) }),
        Some(ParamValue::Null) => return Err(
            BuildError::MissingKey { segment: key, chain: copy_bytes(chain) },
        ),
        Some(x) => x,
    };
    assert(chain@.subrange(0, chain@.len() as int) == chain@);
    let mut pos: usize = d;
    while pos < chain.len()
        invariant
            pos <= chain@.len(),
            found_value(params, chain@) == (if pos < chain@.len() {
                walk(*cur, chain@, pos + 1)
            } else {
                Ok::<ParamValue, Fault>(*cur)
            }),
            chain@.subrange(0, chain@.len() as int) == chain@,
            params == meta@,
        decreases chain@.len() - pos,
    {
        let start = pos + 1;
        let e = find_either(chain, start, 46, 46);
        proof {
            lemma_first_of(chain@, start as int, 46, 46);
        }
        let ghost seg = chain@.subrange(start as int, e as int);
        assert(walk(*cur, chain@, start as int) == match step(*cur, seg) {
            Some(ParamValue::Null) => Err(Fault::MissingKey { segment: seg, chain: chain@ }),
            None => Err(Fault::MissingKey { segment: seg, chain: chain@ }),
            Some(x) => if start <= e < chain@.len() {
                walk(x, chain@, e + 1)
            } else {
                Ok(x)
            },
        });
        match step_exec(cur, chain, start, e) {
            None => {
                let err = BuildError::MissingKey {
                    segment: sub_bytes(chain, start, e),
                    chain: copy_bytes(chain),
                };
                return Err(err);
            },
            Some(ParamValue::Null) => {
                let err = BuildError::MissingKey {
                    segment: sub_bytes(chain, start, e),
                    chain: copy_bytes(chain),
                };
                return Err(err);
            },
            Some(x) => {
                cur = x;
                pos = e;
            },
        }
    }
    scalar_exec(cur, chain)
}

/// Resolves reference `chain` against inline text parameters and metadata
/// entries, as `resolve` says.
pub fn resolve_chain(inline: &Vec<(Vec<u8>, Vec<u8>)>, meta: &Vec<(ParamValue, ParamValue)>, chain: &Vec<u8>) -> (r:
    Result<Vec<u8>, BuildError>)
    ensures
        r matches Ok(t) ==> resolve(pairs_view(inline@), meta@, chain@) == Ok::<Seq<u8>, Fault>(t@),
        r matches Err(e) ==> resolve(pairs_view(inline@), meta@, chain@) == Err::<Seq<u8>, Fault>(e@),
{
    let d = find_either(chain, 0, 46, 46);
    proof {
        lemma_first_of(chain@, 0, 46, 46);
    }
    let key = sub_bytes(chain, 0, d);
    match get_field(meta, &key) {
        Some(_) => resolve_meta(meta, chain),
        None => match get_text_field(inline, &key) {
            None => Err(BuildError::MissingKey { segment: key, chain: copy_bytes(chain) }),
            Some(t) => {
                if d < chain.len() {
                    let e = find_either(chain, d + 1, 46, 46);
                    proof {
                        lemma_first_of(chain@, d + 1, 46, 46);
                    }
                    Err(BuildError::MissingKey { segment: sub_bytes(chain, d + 1, e), chain: copy_bytes(chain) })
                } else {
                    Ok(copy_bytes(t))
                }
            },
        },
    }
}

/// Where a reference placeholder `$%{chain}` opens at `i`, the index of its
/// closing brace; else `i`. The chain is non-empty and holds no line break.
pub open spec fn ref_end(s: Seq<u8>, i: int) -> int {
    if 0 <= i && i + 3 <= s.len() && s[i] == 36 && s[i + 1] == 37 && s[i + 2] == 123 {
        let k = first_of(s, i + 3, 125, 10);
        if k < s.len() && s[k] == 125 && k > i + 3 {
            k
        } else {
            i
        }
    } else {
        i
    }
}

/// The text of `s` from byte `i` on with each reference placeholder replaced
/// by what it resolves to under `inline` and `meta`, and the failures met, in order.
/// A placeholder that fails is replaced by nothing.
pub open spec fn expand_refs(
    s: Seq<u8>,
    inline: Seq<(Seq<u8>, Seq<u8>)>,
    meta: Seq<(ParamValue, ParamValue)>,
    i: int,
) -> (Seq<u8>, Seq<Fault>)
    decreases s.len() - i,
{
    if i < 0 || i >= s.len() {
        (Seq::empty(), Seq::empty())
    } else {
        let k = ref_end(s, i);
        if k > i {
            let rest = expand_refs(s, inline, meta, k + 1);
            match resolve(inline, meta, s.subrange(i + 3, k)) {
                Ok(t) => (t + rest.0, rest.1),
                Err(f) => (rest.0, seq![f] + rest.1),
            }
        } else {
            let rest = expand_refs(s, inline, meta, i + 1);
            (seq![s[i]] + rest.0, rest.1)
        }
    }
}

fn ref_end_exec(s: &Vec<u8>, i: usize) -> (r: usize)
    requires
        i < s@.len(),
    ensures
        r == ref_end(s@, i as int),
        r > i ==> r < s@.len(),
{
    if 3 <= s.len() - i && s[i] == 36 && s[i + 1] == 37 && s[i + 2] == 123 {
        let k = find_either(s, i + 3, 125, 10);
        proof {
            lemma_first_of(s@, i + 3, 125, 10);
        }
        if k < s.len() && s[k] == 125 && k > i + 3 {
            k
        } else {
            i
        }
    } else {
        i
    }
}

/// What expanding the references of text `s` gives: text that is not UTF-8
/// is refused; else the expanded text, or every failure met, in order.
pub open spec fn refs_outcome(
    s: Seq<u8>,
    inline: Seq<(Seq<u8>, Seq<u8>)>,
    meta: Seq<(ParamValue, ParamValue)>,
) -> Result<Seq<u8>, Seq<Fault>> {
    if !valid_utf8(s) {
        Err(seq![Fault::NotUtf8])
    } else {
        let x = expand_refs(s, inline, meta, 0);
        if x.1.len() == 0 {
            Ok(x.0)
        } else {
            Err(x.1)
        }
    }
}

/// Replaces every reference placeholder `$%{a.b.0}` of the UTF-8 text
/// `content` by the text it resolves to under the entries of `inline`
/// followed by those of `meta` (a key of `meta` hides the same key of
/// `inline`). Every failure is collected; where there is any, they are
/// returned together, in order.
pub fn expand_references(content: &Vec<u8>, inline: &Vec<(Vec<u8>, Vec<u8>)>, meta: &Vec<(ParamValue, ParamValue)>) -> (r:
    Result<Vec<u8>, Vec<BuildError>>)
    ensures
        r matches Ok(t) ==> refs_outcome(content@, pairs_view(inline@), meta@) == Ok::<
            Seq<u8>,
            Seq<Fault>,
        >(t@),
        r matches Err(e) ==> refs_outcome(content@, pairs_view(inline@), meta@) == Err::<
            Seq<u8>,
            Seq<Fault>,
        >(faults(e@)),
{
    if decode_text(content).is_none() {
        let mut es: Vec<BuildError> = Vec::new();
        es.push(BuildError::NotUtf8);
        assert(faults(es@) =~= seq![Fault::NotUtf8]);
        return Err(es);
    }
    let ghost pv = pairs_view(inline@);
    let ghost s = content@;
    let mut out: Vec<u8> = Vec::new();
    let mut errs: Vec<BuildError> = Vec::new();
    let mut i: usize = 0;
    while i < content.len()
        invariant
            i <= s.len(),
            s == content@,
            pv == pairs_view(inline@),
            expand_refs(s, pv, meta@, 0) == (out@ + expand_refs(s, pv, meta@, i as int).0, faults(errs@)
                + expand_refs(s, pv, meta@, i as int).1),
        decreases s.len() - i,
    {
        let ghost rest_i = expand_refs(s, pv, meta@, i as int);
        let k = ref_end_exec(content, i);
        if k > i {
            let chain = sub_bytes(content, i + 3, k);
            let ghost rest = expand_refs(s, pv, meta@, k + 1);
            match resolve_chain(inline, meta, &chain) {
                Ok(t) => {
                    let ghost old_out = out@;
                    append_bytes(&mut out, &t);
                    assert(rest_i == (t@ + rest.0, rest.1));
                    assert(old_out + (t@ + rest.0) == out@ + rest.0);
                },
                Err(e) => {
                    let ghost old_errs = errs@;
                    let ghost f = e@;
                    errs.push(e);
                    assert(faults(errs@) == faults(old_errs).push(f));
                    assert(rest_i == (rest.0, seq![f] + rest.1));
                    assert(faults(old_errs) + (seq![f] + rest.1) == faults(errs@) + rest.1);
                },
            }
            i = k + 1;
        } else {
            let ghost rest = expand_refs(s, pv, meta@, i + 1);
            let ghost old_out = out@;
            out.push(content[i]);
            assert(rest_i == (seq![s[i as int]] + rest.0, rest.1));
            assert(old_out + (seq![s[i as int]] + rest.0) == out@ + rest.0);
            i = i + 1;
        }
    }
    assert(expand_refs(s, pv, meta@, i as int) == (Seq::<u8>::empty(), Seq::<Fault>::empty()));
    assert(out@ + Seq::<u8>::empty() == out@);
    assert(faults(errs@) + Seq::<Fault>::empty() == faults(errs@));
    if errs.len() == 0 {
        Ok(out)
    } else {
        Err(errs)
    }
}

} // verus!
