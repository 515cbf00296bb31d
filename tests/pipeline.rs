use span::config::{def_error_on, def_replace, policy_of, Config, ErrorOn, Filter, PreRun};
use span::error::BuildError;
use span::pipeline::{
    filters_for, html_name, next_stage, pre_run_result, render_args, render_folders, render_job,
    render_result, split_passthrough, step_outcomes, CommandOutput, Stage,
};
use span::vfs::Folder;

fn path(s: &str) -> Vec<String> {
    s.split('/').map(|x| x.to_string()).collect()
}

fn step(error_on: &str, replace: bool) -> PreRun {
    PreRun {
        command: "tool -x".to_string(),
        files: vec!["*.md".to_string()],
        error_on: error_on.to_string(),
        replace,
    }
}

fn output(stdout: &str, stderr: &str, success: bool) -> CommandOutput {
    CommandOutput { stdout: stdout.as_bytes().to_vec(), stderr: stderr.as_bytes().to_vec(), success }
}

#[test]
fn defaults() {
    assert_eq!(def_error_on(), "none");
    assert!(def_replace());
    assert_eq!(policy_of(&"stderr".to_string()), ErrorOn::Stderr);
    assert_eq!(policy_of(&"stdout".to_string()), ErrorOn::Stdout);
    assert_eq!(policy_of(&"status".to_string()), ErrorOn::Status);
    assert_eq!(policy_of(&"other".to_string()), ErrorOn::Nothing);
}

#[test]
fn stderr_policy_fails_with_the_error_text() {
    let r = pre_run_result(&step("stderr", true), &b"orig".to_vec(), &output("out", "boom", true));
    assert_eq!(
        r,
        Err(BuildError::PreRun { command: "tool -x".to_string(), output: b"boom".to_vec() })
    );
}

#[test]
fn stderr_policy_passes_on_silence() {
    let r = pre_run_result(&step("stderr", true), &b"orig".to_vec(), &output("out", "", true));
    assert_eq!(r, Ok(b"out".to_vec()));
    let r = pre_run_result(&step("stderr", false), &b"orig".to_vec(), &output("out", "", true));
    assert_eq!(r, Ok(b"orig".to_vec()));
}

#[test]
fn other_policies() {
    let r = pre_run_result(&step("stdout", true), &b"o".to_vec(), &output("said", "", true));
    assert_eq!(r, Err(BuildError::PreRun { command: "tool -x".to_string(), output: b"said".to_vec() }));
    let r = pre_run_result(&step("status", true), &b"o".to_vec(), &output("", "bad", false));
    assert_eq!(r, Err(BuildError::PreRun { command: "tool -x".to_string(), output: b"bad".to_vec() }));
    let r = pre_run_result(&step("status", true), &b"o".to_vec(), &output("new", "", true));
    assert_eq!(r, Ok(b"new".to_vec()));
    let r = pre_run_result(&step("none", true), &b"o".to_vec(), &output("x", "noise", false));
    assert_eq!(r, Ok(b"x".to_vec()));
}

#[test]
fn step_over_a_tree() {
    let mut f = Folder::new("root".to_string());
    f.push(path("a.md"), b"A".to_vec()).unwrap();
    f.push(path("b.txt"), b"B".to_vec()).unwrap();
    let s = step("stderr", true);
    let flags = f.matches_globs(&s.files).unwrap();
    assert_eq!(flags, vec![true, false]);
    let outs = vec![Some(Ok(output("A2", "", true))), None];
    let g = f.map(step_outcomes(&f, &s, &outs).unwrap()).unwrap();
    assert_eq!(g.files, vec![(path("a.md"), b"A2".to_vec()), (path("b.txt"), b"B".to_vec())]);
    let outs = vec![Some(Ok(output("", "warn", true))), None];
    let r = f.map(step_outcomes(&f, &s, &outs).unwrap());
    assert_eq!(
        r.err(),
        Some(vec![BuildError::PreRun { command: "tool -x".to_string(), output: b"warn".to_vec() }])
    );
}

#[test]
fn step_leaves_unmatched_files_alone() {
    let mut f = Folder::new("root".to_string());
    f.push(path("a.md"), b"A".to_vec()).unwrap();
    f.push(path("b.txt"), b"B".to_vec()).unwrap();
    let s = step("none", true);
    let outs = vec![Some(Ok(output("A2", "", true))), Some(Ok(output("B2", "", true)))];
    let g = f.map(step_outcomes(&f, &s, &outs).unwrap()).unwrap();
    assert_eq!(g.files, vec![(path("a.md"), b"A2".to_vec()), (path("b.txt"), b"B".to_vec())]);
}

#[test]
fn step_failures_to_run_are_collected() {
    let mut f = Folder::new("root".to_string());
    f.push(path("a.md"), b"A".to_vec()).unwrap();
    f.push(path("c.md"), b"C".to_vec()).unwrap();
    let s = step("none", true);
    let outs = vec![Some(Err("no such program".to_string())), None];
    let r = f.map(step_outcomes(&f, &s, &outs).unwrap());
    assert_eq!(
        r.err(),
        Some(vec![
            BuildError::Spawn { command: "tool -x".to_string(), message: "no such program".to_string() },
            BuildError::MissingOutput { file: path("c.md") },
        ])
    );
    let mut bad = step("none", true);
    bad.files = vec!["[".to_string()];
    assert_eq!(step_outcomes(&f, &bad, &outs).err(), Some(BuildError::BadGlob));
}

#[test]
fn stages_run_in_order() {
    let mut order = Vec::new();
    let mut s = Stage::Ignore;
    while s != Stage::Done {
        order.push(s);
        s = next_stage(s, 2);
    }
    assert_eq!(
        order,
        vec![Stage::Ignore, Stage::PreRun(0), Stage::PreRun(1), Stage::Passthrough, Stage::Render, Stage::Merge]
    );
    assert_eq!(next_stage(Stage::Ignore, 0), Stage::Passthrough);
}

#[test]
fn passthrough_and_render_folders() {
    let mut f = Folder::new("root".to_string());
    f.push(path("contents/a.md"), b"A".to_vec()).unwrap();
    f.push(path("contents/img.png"), b"P".to_vec()).unwrap();
    f.push(path("templates/default.html"), b"T".to_vec()).unwrap();
    let (pass, rest) = split_passthrough(&f, &vec!["**/*.png".to_string()]).unwrap();
    assert_eq!(pass.files, vec![(path("contents/img.png"), b"P".to_vec())]);
    assert_eq!(rest.files.len(), 2);
    let r = render_folders(&rest);
    assert_eq!(r.err(), Some(BuildError::MissingFolder { folder: "snippets".to_string() }));
    let mut g = rest.clone();
    g.push(path("snippets/s.txt"), b"S".to_vec()).unwrap();
    let (c, t, sn) = render_folders(&g).unwrap();
    assert_eq!(c.files, vec![(path("a.md"), b"A".to_vec())]);
    assert_eq!(t.files, vec![(path("default.html"), b"T".to_vec())]);
    assert_eq!(sn.files, vec![(path("s.txt"), b"S".to_vec())]);
}

#[test]
fn render_command_line() {
    let args = render_args(
        &vec!["--toc".to_string()],
        &"templates/a/default.html".to_string(),
        &vec!["f1.lua".to_string(), "f2".to_string()],
    );
    assert_eq!(
        args,
        vec![
            "pandoc", "--to", "html5", "--standalone", "--toc", "--template",
            "templates/a/default.html", "--filter=f1.lua", "--filter=f2",
        ]
    );
}

#[test]
fn html_names() {
    assert_eq!(html_name(&path("a/b/page.md")), path("a/b/page.html"));
    assert_eq!(html_name(&path("x.tar.gz")), path("x.tar.html"));
    assert_eq!(html_name(&path(".hidden")), path(".hidden.html"));
    assert_eq!(html_name(&path("plain")), path("plain.html"));
}

#[test]
fn render_output_decides() {
    let ok = render_result(&path("a/p.md"), &output("<p>", "", true)).unwrap();
    assert_eq!(ok, (path("a/p.html"), b"<p>".to_vec()));
    let bad = render_result(&path("a/p.md"), &output("<p>", "warning", true));
    assert_eq!(
        bad,
        Err(BuildError::Render { file: path("a/p.md"), stderr: b"warning".to_vec() })
    );
}

#[test]
fn filters_that_apply() {
    let filters = vec![
        Filter { path: "md.lua".to_string(), files: vec!["**/*.md".to_string()] },
        Filter { path: "txt.lua".to_string(), files: vec!["*.txt".to_string()] },
    ];
    assert_eq!(filters_for(&filters, &path("a/p.md")).unwrap(), vec!["md.lua".to_string()]);
    let broken = vec![Filter { path: "x".to_string(), files: vec!["[".to_string()] }];
    assert_eq!(filters_for(&broken, &path("p.md")), Err(BuildError::BadGlob));
}

#[test]
fn render_job_for_a_content_file() {
    let mut templates = Folder::new("templates".to_string());
    templates.push(path("blog/default.html"), b"T".to_vec()).unwrap();
    let mut snippets = Folder::new("snippets".to_string());
    snippets.push(path("sig.txt"), b"-- $%{by}".to_vec()).unwrap();
    let config = Config {
        ignore: Vec::new(),
        passthrough: Vec::new(),
        pre_run: Vec::new(),
        filters: vec![Filter { path: "f.lua".to_string(), files: vec!["blog/*".to_string()] }],
        extra_args: Vec::new(),
        default_template: "default".to_string(),
    };
    let job = render_job(
        &templates,
        &snippets,
        &config,
        &path("blog/post.md"),
        &b"text $%%{sig(by: me)}".to_vec(),
    )
    .unwrap();
    assert_eq!(job.input, b"text -- me".to_vec());
    assert_eq!(
        job.args,
        vec![
            "pandoc", "--to", "html5", "--standalone", "--template",
            "templates/blog/default.html", "--filter=f.lua",
        ]
    );
    let r = render_job(&templates, &snippets, &config, &path("news/post.md"), &b"t".to_vec());
    assert_eq!(r.err(), Some(vec![BuildError::NoTemplate { file: path("news/post.md") }]));
    let r = render_job(&templates, &snippets, &config, &path("blog/post.md"), &b"$%%{none()}".to_vec());
    assert_eq!(r.err(), Some(vec![BuildError::SnippetNotFound { name: b"none".to_vec() }]));
    let mut broken = config;
    broken.filters = vec![Filter { path: "f.lua".to_string(), files: vec!["[".to_string()] }];
    let r = render_job(&templates, &snippets, &broken, &path("blog/post.md"), &b"t".to_vec());
    assert_eq!(r.err(), Some(vec![BuildError::BadGlob]));
}
