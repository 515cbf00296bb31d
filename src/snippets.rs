use vstd::prelude::*;
use vstd::utf8::{decode_utf8, valid_utf8};
use crate::error::{BuildError, Fault, faults, names_view};
use crate::glob::{globs_compile, globs_match};
use crate::refs::{expand_references, pairs_view, refs_outcome};
use crate::syntax::{
    arg_pairs, extract_metadata, find_in, find_last_in, first_in, front_matter, last_in,
    lemma_first_in, lemma_last_in, parse_args, slash_parts, split_slashes,
};
use crate::text::{append_bytes, copy_bytes, decode_text, find_either, first_of, lemma_first_of, sub_bytes};
use crate::value::{ParamValue, parse_mapping, yaml_mapping};
use crate::vfs::{Entry, Folder, find_index, joined, key};

verus! {

/// Index of the closing brace of a candidate expansion at `i`.
pub open spec fn exp_close(s: Seq<u8>, i: int) -> int {
    first_of(s, i + 4, 125, 10)
}

/// Index of the opening parenthesis of a candidate expansion at `i`.
pub open spec fn exp_open(s: Seq<u8>, i: int) -> int {
    first_in(s, i + 4, exp_close(s, i), 40)
}

/// Index of the colon that ends the lookup path of a candidate expansion at
/// `i`, or `i + 3` where there is none.
pub open spec fn exp_colon(s: Seq<u8>, i: int) -> int {
    last_in(s, i + 4, exp_open(s, i), 58)
}

/// Where an expansion placeholder `$%%{[path:]name(args)}` opens at `i`, the
/// index of its closing brace; else `i`. The placeholder stays on one line,
/// and its name is not empty.
pub open spec fn exp_end(s: Seq<u8>, i: int) -> int {
    if 0 <= i && i + 4 <= s.len() && s[i] == 36 && s[i + 1] == 37 && s[i + 2] == 37 && s[i + 3]
        == 123 {
        let k = exp_close(s, i);
        let o = exp_open(s, i);
        let c = exp_colon(s, i);
        if k < s.len() && s[k] == 125 && o < k - 1 && s[k - 1] == 41 && c + 1 < o {
            k
        } else {
            i
        }
    } else {
        i
    }
}

/// The folder of a file's path.
pub open spec fn dir_of(file: Seq<Seq<char>>) -> Seq<Seq<char>> {
    if file.len() > 0 {
        file.drop_last()
    } else {
        file
    }
}

/// The decoded names of byte strings, where all are UTF-8.
pub open spec fn decode_parts(parts: Seq<Seq<u8>>) -> Option<Seq<Seq<char>>>
    decreases parts.len(),
{
    if parts.len() == 0 {
        Some(Seq::empty())
    } else {
        match decode_parts(parts.drop_last()) {
            Some(p) => if valid_utf8(parts.last()) {
                Some(p.push(decode_utf8(parts.last())))
            } else {
                None
            },
            None => None,
        }
    }
}

/// The path at which the snippet of the expansion at `i` is looked up: in
/// its lookup path where it has one, else beside the referencing `file`.
/// `None` where a name is not UTF-8.
pub open spec fn snippet_target(file: Seq<Seq<char>>, s: Seq<u8>, i: int) -> Option<Seq<Seq<char>>> {
    let o = exp_open(s, i);
    let c = exp_colon(s, i);
    let name = s.subrange(c + 1, o);
    if !valid_utf8(name) {
        None
    } else if c >= i + 4 {
        match decode_parts(slash_parts(s, i + 4, c)) {
            Some(d) => Some(d.push(decode_utf8(name))),
            None => None,
        }
    } else {
        Some(dir_of(file).push(decode_utf8(name)))
    }
}

/// One expansion of snippet `body` for a metadata file with contents `c`:
/// its front matter, read as a YAML mapping, is laid over the inline
/// parameters.
pub open spec fn instance(body: Seq<u8>, inline: Seq<(Seq<u8>, Seq<u8>)>, c: Seq<u8>) -> Result<
    Seq<u8>,
    Seq<Fault>,
> {
    match front_matter(c) {
        Err(f) => Err(seq![f]),
        Ok(b) => if !valid_utf8(b) {
            Err(seq![Fault::NotUtf8])
        } else {
            match yaml_mapping(decode_utf8(b)) {
                None => Err(seq![Fault::BadMetadata]),
                Some(m) => refs_outcome(body, inline, m),
            }
        },
    }
}

/// The expansions of `body` for the first `n` files that pattern `pat`
/// matches, in order, and the failures met.
pub open spec fn instances(
    body: Seq<u8>,
    inline: Seq<(Seq<u8>, Seq<u8>)>,
    files: Seq<Entry>,
    pat: Seq<char>,
    n: int,
) -> (Seq<Seq<u8>>, Seq<Fault>)
    decreases n,
{
    if n <= 0 {
        (Seq::empty(), Seq::empty())
    } else {
        let prev = instances(body, inline, files, pat, n - 1);
        if globs_match(seq![pat], joined(key(files[n - 1]))) {
            match instance(body, inline, files[n - 1].1@) {
                Ok(t) => (prev.0.push(t), prev.1),
                Err(f) => (prev.0, prev.1 + f),
            }
        } else {
            prev
        }
    }
}

/// How many of the first `n` files pattern `pat` matches.
pub open spec fn matched_count(files: Seq<Entry>, pat: Seq<char>, n: int) -> nat
    decreases n,
{
    if n <= 0 {
        0
    } else if globs_match(seq![pat], joined(key(files[n - 1]))) {
        matched_count(files, pat, n - 1) + 1
    } else {
        matched_count(files, pat, n - 1)
    }
}

/// A metadata instance that fails reports at least one failure.
pub proof fn lemma_instance_err(body: Seq<u8>, inline: Seq<(Seq<u8>, Seq<u8>)>, c: Seq<u8>)
    ensures
        instance(body, inline, c) matches Err(f) ==> f.len() > 0,
{
}

/// Where no metadata file fails, a snippet with a metadata folder expands
/// exactly once per matched file.
pub proof fn law_one_output_per_metadata_file(
    body: Seq<u8>,
    inline: Seq<(Seq<u8>, Seq<u8>)>,
    files: Seq<Entry>,
    pat: Seq<char>,
    n: int,
)
    requires
        0 <= n <= files.len(),
        instances(body, inline, files, pat, n).1.len() == 0,
    ensures
        instances(body, inline, files, pat, n).0.len() == matched_count(files, pat, n),
    decreases n,
{
    if n > 0 {
        let prev = instances(body, inline, files, pat, n - 1);
        lemma_instance_err(body, inline, files[n - 1].1@);
        if globs_match(seq![pat], joined(key(files[n - 1]))) {
            match instance(body, inline, files[n - 1].1@) {
                Ok(t) => {},
                Err(f) => {
                    assert((prev.1 + f).len() > 0);
                },
            }
        }
        law_one_output_per_metadata_file(body, inline, files, pat, n - 1);
    }
}

/// What expanding the snippets of the file at `file` with contents `s`
/// gives: contents that are not UTF-8 are refused; else the expanded text,
/// or every failure met, in order.
pub open spec fn contents_outcome(files: Seq<Entry>, file: Seq<Seq<char>>, s: Seq<u8>) -> Result<
    Seq<u8>,
    Seq<Fault>,
> {
    if !valid_utf8(s) {
        Err(seq![Fault::NotUtf8])
    } else {
        let x = expand_snippets(files, file, s, 0);
        if x.1.len() == 0 {
            Ok(x.0)
        } else {
            Err(x.1)
        }
    }
}

/// Where no metadata file fails, each output of a metadata expansion is the
/// expansion for one matched file alone: the snippet under the inline
/// parameters overlaid with that file's front matter and no other's.
pub proof fn law_each_output_from_its_own_file(
    body: Seq<u8>,
    inline: Seq<(Seq<u8>, Seq<u8>)>,
    files: Seq<Entry>,
    pat: Seq<char>,
    n: int,
)
    requires
        0 <= n <= files.len(),
        instances(body, inline, files, pat, n).1.len() == 0,
    ensures
        forall|k: int|
            0 <= k < instances(body, inline, files, pat, n).0.len() ==> exists|j: int|
                0 <= j < n && globs_match(seq![pat], joined(key(files[j]))) && instance(
                    body,
                    inline,
                    #[trigger] files[j].1@,
                ) == Ok::<Seq<u8>, Seq<Fault>>(#[trigger] instances(body, inline, files, pat, n).0[k]),
    decreases n,
{
    if n > 0 {
        let prev = instances(body, inline, files, pat, n - 1);
        let cur = instances(body, inline, files, pat, n);
        lemma_instance_err(body, inline, files[n - 1].1@);
        if globs_match(seq![pat], joined(key(files[n - 1]))) {
            match instance(body, inline, files[n - 1].1@) {
                Ok(t) => {},
                Err(f) => {
                    assert((prev.1 + f).len() > 0);
                },
            }
        }
        law_each_output_from_its_own_file(body, inline, files, pat, n - 1);
        assert forall|k: int| 0 <= k < cur.0.len() implies exists|j: int|
            0 <= j < n && globs_match(seq![pat], joined(key(files[j]))) && instance(
                body,
                inline,
                #[trigger] files[j].1@,
            ) == Ok::<Seq<u8>, Seq<Fault>>(#[trigger] cur.0[k]) by {
            if k < prev.0.len() {
                assert(cur.0[k] == prev.0[k]);
                let j = choose|j: int|
                    0 <= j < n - 1 && globs_match(seq![pat], joined(key(files[j]))) && instance(
                        body,
                        inline,
                        #[trigger] files[j].1@,
                    ) == Ok::<Seq<u8>, Seq<Fault>>(prev.0[k]);
                assert(0 <= j < n);
            } else {
                assert(instance(body, inline, files[n - 1].1@) == Ok::<Seq<u8>, Seq<Fault>>(cur.0[k]));
            }
        }
    }
}

/// Texts joined with a blank line between them.
pub open spec fn join_blank(parts: Seq<Seq<u8>>) -> Seq<u8>
    decreases parts.len(),
{
    if parts.len() == 0 {
        Seq::empty()
    } else if parts.len() == 1 {
        parts[0]
    } else {
        join_blank(parts.drop_last()) + seq![10u8, 10] + parts.last()
    }
}

/// Expansion of snippet `body` once for each file directly in folder `path`
/// of `files`, joined by blank lines.
pub open spec fn metadata_result(
    files: Seq<Entry>,
    body: Seq<u8>,
    inline: Seq<(Seq<u8>, Seq<u8>)>,
    path: Seq<u8>,
) -> Result<Seq<u8>, Seq<Fault>> {
    if !valid_utf8(path) {
        Err(seq![Fault::NotUtf8])
    } else {
        let pat = decode_utf8(path) + seq!['/', '*'];
        if !globs_compile(seq![pat]) {
            Err(seq![Fault::BadGlob])
        } else {
            let x = instances(body, inline, files, pat, files.len() as int);
            if x.1.len() == 0 {
                Ok(join_blank(x.0))
            } else {
                Err(x.1)
            }
        }
    }
}

/// What the expansion placeholder at `i` of `s` (a file at path `file`)
/// becomes, with the snippets in `files`.
pub open spec fn expansion(files: Seq<Entry>, file: Seq<Seq<char>>, s: Seq<u8>, i: int) -> Result<
    Seq<u8>,
    Seq<Fault>,
> {
    let k = exp_close(s, i);
    let o = exp_open(s, i);
    let c = exp_colon(s, i);
    match arg_pairs(s, o + 1, k - 1) {
        None => Err(seq![Fault::BadParameters]),
        Some(inline) => match snippet_target(file, s, i) {
            None => Err(seq![Fault::NotUtf8]),
            Some(t) => match find_index(files, t) {
                None => Err(seq![Fault::SnippetNotFound { name: s.subrange(c + 1, o) }]),
                Some(j) => if c >= i + 4 {
                    metadata_result(files, files[j].1@, inline, s.subrange(i + 4, c))
                } else {
                    refs_outcome(files[j].1@, inline, Seq::empty())
                },
            },
        },
    }
}

/// The text of `s` from byte `i` on with each expansion placeholder replaced
/// by its expansion, and the failures met, in order. A placeholder that
/// fails is replaced by nothing.
pub open spec fn expand_snippets(files: Seq<Entry>, file: Seq<Seq<char>>, s: Seq<u8>, i: int) -> (Seq<
    u8,
>, Seq<Fault>)
    decreases s.len() - i,
{
    if i < 0 || i >= s.len() {
        (Seq::empty(), Seq::empty())
    } else {
        let k = exp_end(s, i);
        if k > i {
            let rest = expand_snippets(files, file, s, k + 1);
            match expansion(files, file, s, i) {
                Ok(t) => (t + rest.0, rest.1),
                Err(f) => (rest.0, f + rest.1),
            }
        } else {
            let rest = expand_snippets(files, file, s, i + 1);
            (seq![s[i]] + rest.0, rest.1)
        }
    }
}

fn one_error(e: BuildError) -> (r: Vec<BuildError>)
    ensures
        faults(r@) == seq![e@],
{
    let mut v: Vec<BuildError> = Vec::new();
    v.push(e);
    assert(faults(v@) =~= seq![e@]);
    v
}

/// Expands `body` for one metadata file with contents `c`.
fn process_instance(body: &Vec<u8>, inline: &Vec<(Vec<u8>, Vec<u8>)>, c: &Vec<u8>) -> (r: Result<
    Vec<u8>,
    Vec<BuildError>,
>)
    ensures
        r matches Ok(t) ==> instance(body@, pairs_view(inline@), c@) == Ok::<Seq<u8>, Seq<Fault>>(
            t@,
        ),
        r matches Err(e) ==> instance(body@, pairs_view(inline@), c@) == Err::<Seq<u8>, Seq<Fault>>(
            faults(e@),
        ),
{
    let b = match extract_metadata(c) {
        Ok(b) => b,
        Err(e) => return Err(one_error(e)),
    };
    let text = match decode_text(&b) {
        Some(t) => t,
        None => return Err(one_error(BuildError::NotUtf8)),
    };
    let m = match parse_mapping(&text) {
        Some(m) => m,
        None => return Err(one_error(BuildError::BadMetadata)),
    };
    expand_references(body, inline, &m)
}

/// A snippet invocation: the snippet's name, its contents once found, the
/// folder whose files supply per-instance metadata, and the inline
/// parameters.
pub struct Snippet {
    pub name: Vec<u8>,
    pub contents: Vec<u8>,
    pub metadata_path: Option<Vec<u8>>,
    pub parameters: Vec<(Vec<u8>, Vec<u8>)>,
}

impl Snippet {
    /// Expands the snippet: once under its inline parameters, or, with a
    /// metadata folder, once per file directly in that folder of `fs`, each
    /// under the inline parameters overlaid with that file's front matter,
    /// joined by blank lines.
    pub fn process_snippet(&self, fs: &Folder) -> (r: Result<Vec<u8>, Vec<BuildError>>)
        ensures
            ({
                let want = match self.metadata_path {
                    Some(p) => metadata_result(
                        fs.files@,
                        self.contents@,
                        pairs_view(self.parameters@),
                        p@,
                    ),
                    None => refs_outcome(
                        self.contents@,
                        pairs_view(self.parameters@),
                        Seq::empty(),
                    ),
                };
                &&& r matches Ok(t) ==> want == Ok::<Seq<u8>, Seq<Fault>>(t@)
                &&& r matches Err(e) ==> want == Err::<Seq<u8>, Seq<Fault>>(faults(e@))
            }),
    {
        match &self.metadata_path {
            None => {
                let empty: Vec<(ParamValue, ParamValue)> = Vec::new();
                assert(empty@ =~= Seq::<(ParamValue, ParamValue)>::empty());
                expand_references(&self.contents, &self.parameters, &empty)
            },
            Some(p) => process_metadata(fs, &self.contents, &self.parameters, p),
        }
    }
}

/// Expands `body` once per file directly in folder `path` of `fs`.
fn process_metadata(fs: &Folder, body: &Vec<u8>, inline: &Vec<(Vec<u8>, Vec<u8>)>, path: &Vec<u8>) -> (r:
    Result<Vec<u8>, Vec<BuildError>>)
    ensures
        r matches Ok(t) ==> metadata_result(fs.files@, body@, pairs_view(inline@), path@) == Ok::<
            Seq<u8>,
            Seq<Fault>,
        >(t@),
        r matches Err(e) ==> metadata_result(fs.files@, body@, pairs_view(inline@), path@) == Err::<
            Seq<u8>,
            Seq<Fault>,
        >(faults(e@)),
{
    let ghost inl = pairs_view(inline@);
    let mut pat = match decode_text(path) {
        Some(t) => t,
        None => return Err(one_error(BuildError::NotUtf8)),
    };
    proof {
        reveal_strlit("/*");
    }
    pat.append("/*");
    let ghost gp = pat@;
    assert(gp == decode_utf8(path@) + seq!['/', '*']);
    let mut globs: Vec<String> = Vec::new();
    globs.push(pat);
    assert(names_view(globs@) =~= seq![gp]);
    let flags = match fs.matches_globs(&globs) {
        Ok(f) => f,
        Err(e) => return Err(one_error(e)),
    };
    let mut out: Vec<u8> = Vec::new();
    let mut count: usize = 0;
    let ghost mut outs: Seq<Seq<u8>> = Seq::empty();
    let mut errs: Vec<BuildError> = Vec::new();
    let mut j: usize = 0;
    while j < fs.files.len()
        invariant
            j <= fs.files@.len(),
            flags@.len() == fs.files@.len(),
            forall|q: int|
                0 <= q < flags@.len() ==> flags@[q] == globs_match(
                    seq![gp],
                    joined(key(fs.files@[q])),
                ),
            inl == pairs_view(inline@),
            instances(body@, inl, fs.files@, gp, j as int) == (outs, faults(errs@)),
            out@ == join_blank(outs),
            count == outs.len(),
            count <= j,
        decreases fs.files@.len() - j,
    {
        if flags[j] {
            match process_instance(body, inline, &fs.files[j].1) {
                Ok(t) => {
                    if count > 0 {
                        out.push(10);
                        out.push(10);
                    }
                    let ghost before = out@;
                    append_bytes(&mut out, &t);
                    proof {
                        let n = outs.push(t@);
                        assert(n.drop_last() == outs);
                        if count > 0 {
                            assert(before == join_blank(outs) + seq![10u8, 10]);
                        } else {
                            assert(before == Seq::<u8>::empty());
                            assert(out@ =~= t@);
                        }
                        outs = n;
                    }
                    count = count + 1;
                },
                Err(es) => {
                    let ghost old_errs = errs@;
                    let ghost added = es@;
                    let mut es = es;
                    errs.append(&mut es);
                    assert(faults(errs@) =~= faults(old_errs) + faults(added));
                },
            }
        }
        j = j + 1;
    }
    if errs.len() == 0 {
        Ok(out)
    } else {
        Err(errs)
    }
}

/// Finds the expansion placeholder at `i`: its closing brace, its opening
/// parenthesis, and where its name starts.
fn exp_end_exec(s: &Vec<u8>, i: usize) -> (r: Option<(usize, usize, usize)>)
    requires
        i < s@.len(),
    ensures
        r is None ==> exp_end(s@, i as int) == i,
        r matches Some(t) ==> {
            &&& exp_end(s@, i as int) == t.0 && t.0 > i && t.0 < s@.len()
            &&& t.1 == exp_open(s@, i as int)
            &&& t.2 == exp_colon(s@, i as int) + 1
            &&& i + 4 <= t.2 < t.1 < t.0 - 1
        },
{
    if 4 <= s.len() - i && s[i] == 36 && s[i + 1] == 37 && s[i + 2] == 37 && s[i + 3] == 123 {
        let k = find_either(s, i + 4, 125, 10);
        proof {
            lemma_first_of(s@, i + 4, 125, 10);
        }
        let o = find_in(s, i + 4, k, 40);
        proof {
            lemma_first_in(s@, i + 4, k as int, 40);
        }
        proof {
            lemma_last_in(s@, i + 4, o as int, 58);
        }
        let ns = match find_last_in(s, i + 4, o, 58) {
            Some(c) => c + 1,
            None => i + 4,
        };
        if k < s.len() && s[k] == 125 && k > 0 && o < k - 1 && s[k - 1] == 41 && ns < o {
            Some((k, o, ns))
        } else {
            None
        }
    } else {
        None
    }
}

/// Reads the expansion placeholder that spans `s[i..=k]` (opening parenthesis
/// at `o`, name from `ns`): its name, its lookup path, and its inline
/// parameters. The snippet's contents are left empty.
fn extract_snippet(s: &Vec<u8>, i: usize, k: usize, o: usize, ns: usize) -> (r: Result<
    Snippet,
    BuildError,
>)
    requires
        i + 4 <= ns < o < k - 1,
        k < s@.len(),
    ensures
        r matches Err(e) ==> e@ == Fault::BadParameters && arg_pairs(
            s@,
            o + 1,
            k - 1,
        ) is None,
        r matches Ok(sn) ==> {
            &&& arg_pairs(s@, o + 1, k - 1) == Some(pairs_view(sn.parameters@))
            &&& sn.name@ == s@.subrange(ns as int, o as int)
            &&& ns > i + 4 ==> (sn.metadata_path matches Some(p) && p@ == s@.subrange(
                i + 4,
                ns - 1,
            ))
            &&& ns <= i + 4 ==> sn.metadata_path is None
        },
{
    let parameters = match parse_args(s, o + 1, k - 1) {
        Some(v) => v,
        None => return Err(BuildError::BadParameters),
    };
    let metadata_path = if ns > i + 4 {
        Some(sub_bytes(s, i + 4, ns - 1))
    } else {
        None
    };
    Ok(Snippet { name: sub_bytes(s, ns, o), contents: Vec::new(), metadata_path, parameters })
}

/// Decodes each byte string as a name.
fn decode_all(parts: &Vec<Vec<u8>>) -> (r: Option<Vec<String>>)
    ensures
        r matches Some(v) ==> decode_parts(parts@.map_values(|x: Vec<u8>| x@)) == Some(
            names_view(v@),
        ),
        r is None ==> decode_parts(parts@.map_values(|x: Vec<u8>| x@)) is None,
{
    let ghost pv = parts@.map_values(|x: Vec<u8>| x@);
    let mut out: Vec<String> = Vec::new();
    let mut j: usize = 0;
    while j < parts.len()
        invariant
            j <= parts@.len(),
            pv == parts@.map_values(|x: Vec<u8>| x@),
            decode_parts(pv.subrange(0, j as int)) == Some(names_view(out@)),
        decreases parts@.len() - j,
    {
        assert(pv.subrange(0, j + 1).drop_last() == pv.subrange(0, j as int));
        match decode_text(&parts[j]) {
            Some(t) => {
                let ghost before = names_view(out@);
                out.push(t);
                assert(names_view(out@) =~= before.push(t@));
            },
            None => {
                proof {
                    lemma_decode_none(pv, j as int);
                }
                return None;
            },
        }
        j = j + 1;
    }
    assert(pv.subrange(0, parts@.len() as int) == pv);
    Some(out)
}

/// Once one part does not decode, no longer list of parts decodes.
proof fn lemma_decode_none(pv: Seq<Seq<u8>>, j: int)
    requires
        0 <= j < pv.len(),
        decode_parts(pv.subrange(0, j + 1)) is None,
    ensures
        decode_parts(pv) is None,
    decreases pv.len() - j,
{
    if j + 1 < pv.len() {
        assert(pv.subrange(0, j + 2).drop_last() == pv.subrange(0, j + 1));
        lemma_decode_none(pv, j + 1);
    } else {
        assert(pv.subrange(0, j + 1) == pv);
    }
}

/// Expands the placeholder at `i`, found by `exp_end_exec`.
fn expand_one(fs: &Folder, file: &Vec<String>, s: &Vec<u8>, i: usize, k: usize, o: usize, ns: usize) -> (r:
    Result<Vec<u8>, Vec<BuildError>>)
    requires
        exp_end(s@, i as int) == k,
        k > i,
        k < s@.len(),
        o == exp_open(s@, i as int),
        ns == exp_colon(s@, i as int) + 1,
        i + 4 <= ns < o < k - 1,
    ensures
        r matches Ok(t) ==> expansion(fs.files@, names_view(file@), s@, i as int) == Ok::<
            Seq<u8>,
            Seq<Fault>,
        >(t@),
        r matches Err(e) ==> expansion(fs.files@, names_view(file@), s@, i as int) == Err::<
            Seq<u8>,
            Seq<Fault>,
        >(faults(e@)),
{
    assert(k == exp_close(s@, i as int));
    let mut snippet = match extract_snippet(s, i, k, o, ns) {
        Ok(sn) => sn,
        Err(e) => return Err(one_error(e)),
    };
    let name = match decode_text(&snippet.name) {
        Some(t) => t,
        None => return Err(one_error(BuildError::NotUtf8)),
    };
    let mut target: Vec<String> = if ns > i + 4 {
        let parts = split_slashes(s, i + 4, ns - 1);
        match decode_all(&parts) {
            Some(d) => d,
            None => return Err(one_error(BuildError::NotUtf8)),
        }
    } else {
        let mut d = crate::vfs::copy_names(file);
        if d.len() > 0 {
            d.pop();
        }
        proof {
            if file@.len() > 0 {
                assert(names_view(d@) =~= names_view(file@).drop_last());
            }
        }
        d
    };
    let ghost before = names_view(target@);
    target.push(name);
    assert(names_view(target@) =~= before.push(decode_utf8(snippet.name@)));
    assert(snippet_target(names_view(file@), s@, i as int) == Some(names_view(target@)));
    match fs.find(&target) {
        None => Err(one_error(BuildError::SnippetNotFound { name: copy_bytes(&snippet.name) })),
        Some((_, c)) => {
            snippet.contents = c;
            snippet.process_snippet(fs)
        },
    }
}

impl Snippet {
    /// Replaces every expansion placeholder of `contents`, the contents of the
    /// file at `filepath` (its path below the contents folder), by its
    /// expansion with the snippets of `fs`. Contents that are not UTF-8 are
    /// refused.
    /// Every failure is collected; where there is any, they are returned
    /// together, in order.
    pub fn process_contents(fs: &Folder, filepath: &Vec<String>, contents: &Vec<u8>) -> (r: Result<
        Vec<u8>,
        Vec<BuildError>,
    >)
        ensures
            r matches Ok(t) ==> contents_outcome(fs.files@, names_view(filepath@), contents@)
                == Ok::<Seq<u8>, Seq<Fault>>(t@),
            r matches Err(e) ==> contents_outcome(fs.files@, names_view(filepath@), contents@)
                == Err::<Seq<u8>, Seq<Fault>>(faults(e@)),
    {
        if decode_text(contents).is_none() {
            return Err(one_error(BuildError::NotUtf8));
        }
        let ghost files = fs.files@;
        let ghost file = names_view(filepath@);
        let ghost s = contents@;
        let mut out: Vec<u8> = Vec::new();
        let mut errs: Vec<BuildError> = Vec::new();
        let mut i: usize = 0;
        while i < contents.len()
            invariant
                i <= s.len(),
                s == contents@,
                files == fs.files@,
                file == names_view(filepath@),
                expand_snippets(files, file, s, 0) == (out@ + expand_snippets(files, file, s, i as int).0,
                    faults(errs@) + expand_snippets(files, file, s, i as int).1),
            decreases s.len() - i,
        {
            let ghost rest_i = expand_snippets(files, file, s, i as int);
            match exp_end_exec(contents, i) {
                Some((k, o, ns)) => {
                    let ghost rest = expand_snippets(files, file, s, k + 1);
                    match expand_one(fs, filepath, contents, i, k, o, ns) {
                        Ok(t) => {
                            let ghost old_out = out@;
                            append_bytes(&mut out, &t);
                            assert(rest_i == (t@ + rest.0, rest.1));
                            assert(old_out + (t@ + rest.0) == out@ + rest.0);
                        },
                        Err(es) => {
                            let ghost old_errs = errs@;
                            let ghost added = faults(es@);
                            let mut es = es;
                            errs.append(&mut es);
                            assert(faults(errs@) =~= faults(old_errs) + added);
                            assert(rest_i == (rest.0, added + rest.1));
                            assert(faults(old_errs) + (added + rest.1) == faults(errs@) + rest.1);
                        },
                    }
                    i = k + 1;
                },
                None => {
                    let ghost rest = expand_snippets(files, file, s, i + 1);
                    let ghost old_out = out@;
                    out.push(contents[i]);
                    assert(rest_i == (seq![s[i as int]] + rest.0, rest.1));
                    assert(old_out + (seq![s[i as int]] + rest.0) == out@ + rest.0);
                    i = i + 1;
                },
            }
        }
        assert(expand_snippets(files, file, s, i as int) == (Seq::<u8>::empty(), Seq::<Fault>::empty()));
        assert(out@ + Seq::<u8>::empty() == out@);
        assert(faults(errs@) + Seq::<Fault>::empty() == faults(errs@));
        if errs.len() == 0 {
            Ok(out)
        } else {
            Err(errs)
        }
    }
}

} // verus!
