use vstd::prelude::*;
use crate::config::{Config, ErrorOn, Filter, PreRun, policy, policy_of};
use crate::error::{BuildError, Fault, faults, names_view};
use crate::glob::{GlobMatcher, globs_compile, globs_match};
use crate::snippets::{Snippet, contents_outcome};
use crate::text::copy_bytes;
use crate::vfs::{
    Entry, Folder, Outcome, copy_names, find_index, is_dir, join_names, joined, key, kept, stem,
    stem_of, under,
};

verus! {

/// What an external command handed back.
pub struct CommandOutput {
    pub stdout: Vec<u8>,
    pub stderr: Vec<u8>,
    /// Whether it exited with success.
    pub success: bool,
}

/// Where a pre-run step's error policy fails the build on output `o`, the
/// output to show; else `None`. `status` fails on an unsuccessful exit.
pub open spec fn step_fault(error_on: Seq<char>, o: CommandOutput) -> Option<Seq<u8>> {
    match policy(error_on) {
        ErrorOn::Stdout => if o.stdout@.len() > 0 {
            Some(o.stdout@)
        } else {
            None
        },
        ErrorOn::Stderr => if o.stderr@.len() > 0 {
            Some(o.stderr@)
        } else {
            None
        },
        ErrorOn::Status => if !o.success {
            Some(o.stderr@)
        } else {
            None
        },
        ErrorOn::Nothing => None,
    }
}

/// Decides what becomes of a file with contents `current` after `step`'s
/// command returned `out`: a failure that shows the output where the step's
/// policy says so, else the command's output where the step replaces
/// contents, else the current contents.
pub fn pre_run_result(step: &PreRun, current: &Vec<u8>, out: &CommandOutput) -> (r: Result<
    Vec<u8>,
    BuildError,
>)
    ensures
        match step_fault(step.error_on@, *out) {
            Some(shown) => r matches Err(e) && e@ == Fault::PreRun {
                command: step.command@,
                output: shown,
            },
            None => r matches Ok(b) && b@ == (if step.replace {
                out.stdout@
            } else {
                current@
            }),
        },
{
    let shown = match policy_of(&step.error_on) {
        ErrorOn::Stdout => if out.stdout.len() > 0 {
            Some(&out.stdout)
        } else {
            None
        },
        ErrorOn::Stderr => if out.stderr.len() > 0 {
            Some(&out.stderr)
        } else {
            None
        },
        ErrorOn::Status => if !out.success {
            Some(&out.stderr)
        } else {
            None
        },
        ErrorOn::Nothing => None,
    };
    match shown {
        Some(b) => Err(BuildError::PreRun { command: step.command.clone(), output: copy_bytes(b) }),
        None => if step.replace {
            Ok(copy_bytes(&out.stdout))
        } else {
            Ok(copy_bytes(current))
        },
    }
}

/// What one pre-run step makes of file `e`, given what its command did
/// (`out`): a file that the step's patterns do not match stays as it is; a
/// matched file needs the command's result, whose failure to run or whose
/// output, judged by the step's policy, decides.
pub open spec fn step_applied(
    step: &PreRun,
    e: Entry,
    out: Option<Result<CommandOutput, String>>,
    o: Outcome,
) -> bool {
    if !globs_match(names_view(step.files@), joined(key(e))) {
        o matches Ok(Some(x)) && key(x) == key(e) && x.1@ == e.1@
    } else {
        match out {
            None => o matches Err(es) && faults(es@) == seq![(Fault::MissingOutput { file: key(e) })],
            Some(Err(m)) => o matches Err(es) && faults(es@) == seq![
                (Fault::Spawn { command: step.command@, message: m@ }),
            ],
            Some(Ok(c)) => match step_fault(step.error_on@, c) {
                Some(shown) => o matches Err(es) && faults(es@) == seq![
                    (Fault::PreRun { command: step.command@, output: shown }),
                ],
                None => o matches Ok(Some(x)) && key(x) == key(e) && x.1@ == (if step.replace {
                    c.stdout@
                } else {
                    e.1@
                }),
            },
        }
    }
}

fn one(e: BuildError) -> (r: Vec<BuildError>)
    ensures
        faults(r@) == seq![e@],
{
    let mut es: Vec<BuildError> = Vec::new();
    es.push(e);
    assert(faults(es@) =~= seq![e@]);
    es
}

/// The outcome of one pre-run step for each file of `f`: `outputs[i]` is
/// what running the step's command on file `i` gave, where it was run. Only
/// the files that the step's patterns match are changed; fails exactly when
/// the patterns do not compile.
pub fn step_outcomes(f: &Folder, step: &PreRun, outputs: &Vec<Option<Result<CommandOutput, String>>>) -> (r:
    Result<Vec<Outcome>, BuildError>)
    requires
        outputs@.len() == f.files@.len(),
    ensures
        r is Ok == globs_compile(names_view(step.files@)),
        r matches Err(e) ==> e@ == Fault::BadGlob,
        r matches Ok(v) ==> v@.len() == f.files@.len() && forall|i: int|
            0 <= i < v@.len() ==> step_applied(step, f.files@[i], outputs@[i], #[trigger] v@[i]),
{
    let flags = match f.matches_globs(&step.files) {
        Ok(v) => v,
        Err(e) => return Err(e),
    };
    let mut r: Vec<Outcome> = Vec::new();
    let mut i: usize = 0;
    while i < f.files.len()
        invariant
            i <= f.files@.len(),
            outputs@.len() == f.files@.len(),
            flags@.len() == f.files@.len(),
            forall|j: int|
                0 <= j < flags@.len() ==> flags@[j] == globs_match(
                    names_view(step.files@),
                    joined(key(f.files@[j])),
                ),
            r@.len() == i,
            forall|j: int| 0 <= j < i ==> step_applied(step, f.files@[j], outputs@[j], #[trigger] r@[j]),
        decreases f.files@.len() - i,
    {
        let path = copy_names(&f.files[i].0);
        let o: Outcome = if !flags[i] {
            Ok(Some((path, copy_bytes(&f.files[i].1))))
        } else {
            match &outputs[i] {
                None => Err(one(BuildError::MissingOutput { file: path })),
                Some(Err(m)) => Err(one(BuildError::Spawn { command: step.command.clone(), message: m.clone() })),
                Some(Ok(out)) => match pre_run_result(step, &f.files[i].1, out) {
                    Ok(b) => Ok(Some((path, b))),
                    Err(e) => Err(one(e)),
                },
            }
        };
        r.push(o);
        i = i + 1;
    }
    Ok(r)
}

/// A path with its last name replaced by `n`.
pub open spec fn with_name(t: Seq<Seq<char>>, n: Seq<char>) -> Seq<Seq<char>> {
    if t.len() > 0 {
        t.drop_last().push(n)
    } else {
        seq![n]
    }
}

/// Replaces the last name of a path by `n`.
pub fn set_file_name(t: &Vec<String>, n: &String) -> (r: Vec<String>)
    ensures
        names_view(r@) == with_name(names_view(t@), n@),
{
    let mut r = copy_names(t);
    if r.len() > 0 {
        r.pop();
    }
    let ghost before = names_view(r@);
    r.push(n.clone());
    assert(names_view(r@) =~= before.push(n@));
    proof {
        if t@.len() > 0 {
            assert(before =~= names_view(t@).drop_last());
        } else {
            assert(before =~= Seq::<Seq<char>>::empty());
        }
    }
    r
}

/// The template for the content file at `file`: the best match for the
/// file's own path, else the best match for the default name in the file's
/// folder. Names the file where neither exists.
pub fn template_for(templates: &Folder, file: &Vec<String>, default: &String) -> (r: Result<
    Vec<String>,
    BuildError,
>)
    ensures
        match find_index(templates.files@, names_view(file@)) {
            Some(i) => r matches Ok(p) && names_view(p@) == key(templates.files@[i]),
            None => match find_index(
                templates.files@,
                with_name(names_view(file@), default@),
            ) {
                Some(j) => r matches Ok(p) && names_view(p@) == key(templates.files@[j]),
                None => r matches Err(e) && e@ == Fault::NoTemplate { file: names_view(file@) },
            },
        },
{
    match templates.find(file) {
        Some((p, _)) => Ok(p),
        None => {
            let alt = set_file_name(file, default);
            match templates.find(&alt) {
                Some((p, _)) => Ok(p),
                None => Err(BuildError::NoTemplate { file: copy_names(file) }),
            }
        },
    }
}

/// The paths of the filters whose patterns match `path`, in order; `None`
/// where a filter's patterns do not compile.
pub open spec fn matching_filters(filters: Seq<Filter>, path: Seq<char>) -> Option<Seq<Seq<char>>>
    decreases filters.len(),
{
    if filters.len() == 0 {
        Some(Seq::empty())
    } else {
        match matching_filters(filters.drop_last(), path) {
            None => None,
            Some(prev) => {
                let g = names_view(filters.last().files@);
                if !globs_compile(g) {
                    None
                } else if globs_match(g, path) {
                    Some(prev.push(filters.last().path@))
                } else {
                    Some(prev)
                }
            },
        }
    }
}

/// The filters that apply to the file at `file`.
pub fn filters_for(filters: &Vec<Filter>, file: &Vec<String>) -> (r: Result<Vec<String>, BuildError>)
    ensures
        r matches Ok(v) ==> matching_filters(filters@, joined(names_view(file@))) == Some(
            names_view(v@),
        ),
        r matches Err(e) ==> e@ == Fault::BadGlob && matching_filters(
            filters@,
            joined(names_view(file@)),
        ) is None,
{
    let path = join_names(file);
    let mut out: Vec<String> = Vec::new();
    let mut i: usize = 0;
    while i < filters.len()
        invariant
            i <= filters@.len(),
            path@ == joined(names_view(file@)),
            matching_filters(filters@.subrange(0, i as int), path@) == Some(names_view(out@)),
        decreases filters@.len() - i,
    {
        let ghost pre = filters@.subrange(0, i as int);
        assert(filters@.subrange(0, i + 1).drop_last() == pre);
        let m = match GlobMatcher::new(&filters[i].files) {
            Ok(m) => m,
            Err(e) => {
                proof {
                    lemma_filters_none(filters@, i as int, path@);
                }
                return Err(e);
            },
        };
        if m.is_match(&path) {
            let ghost before = names_view(out@);
            out.push(filters[i].path.clone());
            assert(names_view(out@) =~= before.push(filters@[i as int].path@));
        }
        i = i + 1;
    }
    assert(filters@.subrange(0, filters@.len() as int) == filters@);
    Ok(out)
}

proof fn lemma_filters_none(filters: Seq<Filter>, i: int, path: Seq<char>)
    requires
        0 <= i < filters.len(),
        matching_filters(filters.subrange(0, i + 1), path) is None,
    ensures
        matching_filters(filters, path) is None,
    decreases filters.len() - i,
{
    if i + 1 < filters.len() {
        assert(filters.subrange(0, i + 2).drop_last() == filters.subrange(0, i + 1));
        lemma_filters_none(filters, i + 1, path);
    } else {
        assert(filters.subrange(0, i + 1) == filters);
    }
}

/// The renderer's command line: the program, its fixed options, the extra
/// arguments, the template, and one `--filter=` option per filter.
pub open spec fn render_command(extra: Seq<Seq<char>>, template: Seq<char>, filters: Seq<Seq<char>>) -> Seq<
    Seq<char>,
> {
    seq!["pandoc"@, "--to"@, "html5"@, "--standalone"@] + extra + seq!["--template"@, template]
        + filters.map_values(|f: Seq<char>| "--filter="@ + f)
}

/// Builds `render_command(extra_args, template, filters)`.
pub fn render_args(extra_args: &Vec<String>, template: &String, filters: &Vec<String>) -> (r: Vec<
    String,
>)
    ensures
        names_view(r@) == render_command(names_view(extra_args@), template@, names_view(filters@)),
{
    let mut r: Vec<String> = Vec::new();
    r.push(String::from_str("pandoc"));
    r.push(String::from_str("--to"));
    r.push(String::from_str("html5"));
    r.push(String::from_str("--standalone"));
    let ghost head = names_view(r@);
    assert(head =~= seq!["pandoc"@, "--to"@, "html5"@, "--standalone"@]);
    let mut i: usize = 0;
    while i < extra_args.len()
        invariant
            i <= extra_args@.len(),
            names_view(r@) == head + names_view(extra_args@).subrange(0, i as int),
        decreases extra_args@.len() - i,
    {
        let ghost before = names_view(r@);
        r.push(extra_args[i].clone());
        assert(names_view(r@) =~= before.push(extra_args@[i as int]@));
        assert(names_view(extra_args@).subrange(0, i + 1) =~= names_view(extra_args@).subrange(
            0,
            i as int,
        ).push(extra_args@[i as int]@));
        i = i + 1;
    }
    assert(names_view(extra_args@).subrange(0, extra_args@.len() as int) == names_view(extra_args@));
    let ghost before_t = names_view(r@);
    r.push(String::from_str("--template"));
    r.push(template.clone());
    let ghost mid = names_view(r@);
    assert(mid =~= before_t + seq!["--template"@, template@]);
    let mut j: usize = 0;
    while j < filters.len()
        invariant
            j <= filters@.len(),
            names_view(r@) == mid + names_view(filters@).subrange(0, j as int).map_values(
                |f: Seq<char>| "--filter="@ + f,
            ),
        decreases filters@.len() - j,
    {
        let ghost before = names_view(r@);
        let opt = String::from_str("--filter=").concat(filters[j].as_str());
        r.push(opt);
        assert(names_view(r@) =~= before.push("--filter="@ + filters@[j as int]@));
        assert(names_view(filters@).subrange(0, j + 1).map_values(|f: Seq<char>| "--filter="@ + f)
            =~= names_view(filters@).subrange(0, j as int).map_values(|f: Seq<char>| "--filter="@ + f).push(
            "--filter="@ + filters@[j as int]@,
        ));
        j = j + 1;
    }
    assert(names_view(filters@).subrange(0, filters@.len() as int) == names_view(filters@));
    r
}

/// A path whose last name has its extension replaced by `.html`.
pub open spec fn html_path(t: Seq<Seq<char>>) -> Seq<Seq<char>> {
    with_name(t, stem(t.last()) + ".html"@)
}

/// Gives the file at `file` the extension `.html`.
pub fn html_name(file: &Vec<String>) -> (r: Vec<String>)
    requires
        file@.len() > 0,
    ensures
        names_view(r@) == html_path(names_view(file@)),
{
    let n = stem_of(&file[file.len() - 1]).concat(".html");
    set_file_name(file, &n)
}

/// Decides what becomes of the content file at `file` after the renderer
/// returned `out`: any error output fails it; else it holds the rendered
/// output under its `.html` name.
pub fn render_result(file: &Vec<String>, out: &CommandOutput) -> (r: Result<Entry, BuildError>)
    requires
        file@.len() > 0,
    ensures
        out.stderr@.len() > 0 ==> (r matches Err(e) && e@ == (Fault::Render {
            file: names_view(file@),
            stderr: out.stderr@,
        })),
        out.stderr@.len() == 0 ==> (r matches Ok(e) && key(e) == html_path(names_view(file@))
            && e.1@ == out.stdout@),
{
    if out.stderr.len() > 0 {
        Err(BuildError::Render { file: copy_names(file), stderr: copy_bytes(&out.stderr) })
    } else {
        Ok((html_name(file), copy_bytes(&out.stdout)))
    }
}

/// What the renderer is asked to do for one content file.
pub struct RenderJob {
    /// The renderer's command line, program first.
    pub args: Vec<String>,
    /// What the renderer reads: the file with its snippets expanded.
    pub input: Vec<u8>,
}

/// Prepares the rendering of the content file at `file` (its path below the
/// contents folder) with `contents`: resolves its template in `templates`,
/// expands its snippets from `snippets`, and picks the filters that apply to
/// it.
pub fn render_job(
    templates: &Folder,
    snippets: &Folder,
    config: &Config,
    file: &Vec<String>,
    contents: &Vec<u8>,
) -> (r: Result<RenderJob, Vec<BuildError>>)
    ensures
        r matches Ok(job) ==> job_error(templates, snippets, config, names_view(file@), contents@) is None
            && job_made(templates, snippets, config, names_view(file@), contents@, job),
        r matches Err(e) ==> job_error(templates, snippets, config, names_view(file@), contents@)
            == Some(faults(e@)),
{
    let t = match template_for(templates, file, &config.default_template) {
        Ok(t) => t,
        Err(e) => {
            let mut es: Vec<BuildError> = Vec::new();
            es.push(e);
            assert(faults(es@) =~= seq![e@]);
            return Err(es);
        },
    };
    let ghost tv = names_view(t@);
    assert(template_found(templates, names_view(file@), config.default_template@, tv));
    let input = match Snippet::process_contents(snippets, file, contents) {
        Ok(b) => b,
        Err(es) => return Err(es),
    };
    let fs = match filters_for(&config.filters, file) {
        Ok(v) => v,
        Err(e) => {
            let mut es: Vec<BuildError> = Vec::new();
            es.push(e);
            assert(faults(es@) =~= seq![e@]);
            return Err(es);
        },
    };
    let mut path = templates.path.clone();
    proof {
        reveal_strlit("/");
    }
    path.append("/");
    let tp = join_names(&t);
    path.append(tp.as_str());
    let args = render_args(&config.extra_args, &path, &fs);
    let ghost fv = names_view(fs@);
    assert(path@ == templates.path@ + seq!['/'] + joined(tv));
    assert(matching_filters(config.filters@, joined(names_view(file@))) == Some(fv));
    let job = RenderJob { args, input };
    assert(names_view(job.args@) == render_command(
        names_view(config.extra_args@),
        templates.path@ + seq!['/'] + joined(tv),
        fv,
    ));
    Ok(job)
}

/// `t` is the path of the template that `template_for` finds.
pub open spec fn template_found(templates: &Folder, file: Seq<Seq<char>>, default: Seq<char>, t: Seq<
    Seq<char>,
>) -> bool {
    match find_index(templates.files@, file) {
        Some(i) => t == key(templates.files@[i]),
        None => match find_index(templates.files@, with_name(file, default)) {
            Some(j) => t == key(templates.files@[j]),
            None => false,
        },
    }
}

/// `job` renders the content file at `file` with `contents`: its command
/// line names the file's template and filters, and its input is the file
/// with its snippets expanded.
pub open spec fn job_made(
    templates: &Folder,
    snippets: &Folder,
    config: &Config,
    file: Seq<Seq<char>>,
    contents: Seq<u8>,
    job: RenderJob,
) -> bool {
    &&& exists|t: Seq<Seq<char>>, fs: Seq<Seq<char>>|
        template_found(templates, file, config.default_template@, t) && matching_filters(
            config.filters@,
            joined(file),
        ) == Some(fs) && names_view(job.args@) == render_command(
            names_view(config.extra_args@),
            templates.path@ + seq!['/'] + joined(t),
            fs,
        )
    &&& contents_outcome(snippets.files@, file, contents) == Ok::<Seq<u8>, Seq<Fault>>(job.input@)
}

/// Why the content file at `file` cannot be prepared for rendering, where it
/// cannot: it has no template; else its snippets fail; else a filter's
/// patterns do not compile.
pub open spec fn job_error(
    templates: &Folder,
    snippets: &Folder,
    config: &Config,
    file: Seq<Seq<char>>,
    contents: Seq<u8>,
) -> Option<Seq<Fault>> {
    if !(exists|t: Seq<Seq<char>>| template_found(templates, file, config.default_template@, t)) {
        Some(seq![Fault::NoTemplate { file }])
    } else {
        match contents_outcome(snippets.files@, file, contents) {
            Err(f) => Some(f),
            Ok(_) => if matching_filters(config.filters@, joined(file)) is None {
                Some(seq![Fault::BadGlob])
            } else {
                None
            },
        }
    }
}

/// The stages of a build, in the order they run.
#[derive(PartialEq, Eq, Structural, Clone, Copy, Debug)]
pub enum Stage {
    /// Drop the files that the ignore patterns match.
    Ignore,
    /// Run the pre-run step with this index.
    PreRun(usize),
    /// Set the passthrough files aside.
    Passthrough,
    /// Render the content files.
    Render,
    /// Merge the passthrough files back.
    Merge,
    Done,
}

/// The stage after `s` in a build with `steps` pre-run steps: ignore, each
/// pre-run step in order, passthrough, render, merge.
pub open spec fn stage_after(s: Stage, steps: nat) -> Stage {
    match s {
        Stage::Ignore => if steps > 0 {
            Stage::PreRun(0)
        } else {
            Stage::Passthrough
        },
        Stage::PreRun(i) => if i + 1 < steps {
            Stage::PreRun((i + 1) as usize)
        } else {
            Stage::Passthrough
        },
        Stage::Passthrough => Stage::Render,
        Stage::Render => Stage::Merge,
        Stage::Merge => Stage::Done,
        Stage::Done => Stage::Done,
    }
}

/// Moves a build with `steps` pre-run steps on from stage `s`.
pub fn next_stage(s: Stage, steps: usize) -> (r: Stage)
    ensures
        r == stage_after(s, steps as nat),
{
    match s {
        Stage::Ignore => if steps > 0 {
            Stage::PreRun(0)
        } else {
            Stage::Passthrough
        },
        Stage::PreRun(i) => if steps > 0 && i < steps - 1 {
            Stage::PreRun(i + 1)
        } else {
            Stage::Passthrough
        },
        Stage::Passthrough => Stage::Render,
        Stage::Render => Stage::Merge,
        Stage::Merge => Stage::Done,
        Stage::Done => Stage::Done,
    }
}

/// Sets aside the files that the passthrough patterns `globs` match: the
/// first folder holds them, the second the rest.
pub fn split_passthrough(f: &Folder, globs: &Vec<String>) -> (r: Result<(Folder, Folder), BuildError>)
    requires
        f.wf(),
    ensures
        r is Ok == globs_compile(names_view(globs@)),
        r matches Err(e) ==> e@ == Fault::BadGlob,
        r matches Ok(p) ==> p.0.wf() && p.1.wf() && p.0@ == kept(f@, names_view(globs@), true)
            && p.1@ == kept(f@, names_view(globs@), false),
{
    let pass = match f.filter_globs(globs) {
        Ok(x) => x,
        Err(e) => return Err(e),
    };
    let rest = match f.remove_globs(globs) {
        Ok(x) => x,
        Err(e) => return Err(e),
    };
    Ok((pass, rest))
}

/// The top-level folder `name` of `f`, or the failure that names it.
fn top_folder(f: &Folder, name: &str) -> (r: Result<Folder, BuildError>)
    requires
        f.wf(),
    ensures
        r matches Ok(x) ==> x.wf() && x@ == under(f@, name@) && is_dir(f.files@, seq![name@]),
        r matches Err(e) ==> e@ == (Fault::MissingFolder { folder: name@ }) && !is_dir(
            f.files@,
            seq![name@],
        ),
{
    let n = String::from_str(name);
    match f.subfolder(&n) {
        Some(x) => Ok(x),
        None => Err(BuildError::MissingFolder { folder: n }),
    }
}

/// The contents, templates and snippets folders at the top of `f`; fails on
/// the first of them that is absent.
pub fn render_folders(f: &Folder) -> (r: Result<(Folder, Folder, Folder), BuildError>)
    requires
        f.wf(),
    ensures
        r matches Ok(t) ==> t.0.wf() && t.1.wf() && t.2.wf() && t.0@ == under(f@, "contents"@)
            && t.1@ == under(f@, "templates"@) && t.2@ == under(f@, "snippets"@),
        r is Err == (!is_dir(f.files@, seq!["contents"@]) || !is_dir(f.files@, seq!["templates"@])
            || !is_dir(f.files@, seq!["snippets"@])),
        r matches Err(e) ==> e@ == (Fault::MissingFolder {
            folder: if !is_dir(f.files@, seq!["contents"@]) {
                "contents"@
            } else if !is_dir(f.files@, seq!["templates"@]) {
                "templates"@
            } else {
                "snippets"@
            },
        }),
{
    let c = match top_folder(f, "contents") {
        Ok(x) => x,
        Err(e) => return Err(e),
    };
    let t = match top_folder(f, "templates") {
        Ok(x) => x,
        Err(e) => return Err(e),
    };
    let s = match top_folder(f, "snippets") {
        Ok(x) => x,
        Err(e) => return Err(e),
    };
    Ok((c, t, s))
}

} // verus!
