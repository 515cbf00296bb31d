use span::error::BuildError;
use span::pipeline::{set_file_name, template_for};
use span::vfs::{Folder, Outcome};

fn path(s: &str) -> Vec<String> {
    s.split('/').map(|x| x.to_string()).collect()
}

fn tree(files: &[(&str, &str)]) -> Folder {
    let mut f = Folder::new("root".to_string());
    for (p, c) in files {
        f.push(path(p), c.as_bytes().to_vec()).unwrap();
    }
    f
}

fn get(f: &Folder, p: &str) -> Option<Vec<u8>> {
    let key = path(p);
    f.files.iter().rev().find(|e| e.0 == key).map(|e| e.1.clone())
}

fn paths(f: &Folder) -> Vec<String> {
    let mut v: Vec<String> = f.files.iter().map(|e| e.0.join("/")).collect();
    v.sort();
    v
}

#[test]
fn push_creates_and_overwrites() {
    let mut f = Folder::new("root".to_string());
    f.push(path("a/b/c.md"), b"one".to_vec()).unwrap();
    f.push(path("a/b/c.md"), b"two".to_vec()).unwrap();
    assert_eq!(f.files.len(), 1);
    assert_eq!(get(&f, "a/b/c.md"), Some(b"two".to_vec()));
    assert_eq!(f.push(Vec::new(), b"x".to_vec()), Err(BuildError::NoFileName));
}

#[test]
fn filter_and_remove_split_the_tree() {
    let f = tree(&[("a.md", "1"), ("b.txt", "2"), ("d/c.md", "3"), ("d/e.txt", "4")]);
    let globs = vec!["*.md".to_string()];
    let kept = f.filter_globs(&globs).unwrap();
    let removed = f.remove_globs(&globs).unwrap();
    assert_eq!(paths(&kept), vec!["a.md"]);
    assert_eq!(paths(&removed), vec!["b.txt", "d/c.md", "d/e.txt"]);
    let mut all = paths(&kept);
    all.extend(paths(&removed));
    all.sort();
    assert_eq!(all, paths(&f));
}

#[test]
fn star_does_not_cross_separator() {
    let f = tree(&[("d/c.md", "3"), ("c.md", "1")]);
    let got = f.get_globs(&vec!["**/*.md".to_string()]).unwrap();
    assert_eq!(got.len(), 2);
    let only_top = f.get_globs(&vec!["*.md".to_string()]).unwrap();
    assert_eq!(only_top.len(), 1);
    assert_eq!(only_top[0].0, path("c.md"));
    assert_eq!(get(&f, "d/c.md"), Some(b"3".to_vec()));
}

#[test]
fn bad_glob_is_an_error() {
    let f = tree(&[("a.md", "1")]);
    assert_eq!(f.filter_globs(&vec!["a[".to_string()]).err(), Some(BuildError::BadGlob));
    assert_eq!(f.matches_globs(&vec!["a[".to_string()]).err(), Some(BuildError::BadGlob));
}

#[test]
fn empty_glob_set_matches_nothing() {
    let f = tree(&[("a.md", "1"), ("b/c.md", "2")]);
    assert_eq!(f.matches_globs(&Vec::new()).unwrap(), vec![false, false]);
    assert_eq!(f.remove_globs(&Vec::new()).unwrap().files.len(), 2);
}

#[test]
fn join_prefers_second_tree() {
    let x = tree(&[("p.md", "from x"), ("only_x.md", "x")]);
    let y = tree(&[("p.md", "from y"), ("only_y.md", "y")]);
    let j = Folder::join(x, y);
    assert_eq!(get(&j, "p.md"), Some(b"from y".to_vec()));
    assert_eq!(paths(&j), vec!["only_x.md", "only_y.md", "p.md"]);
    assert_eq!(j.path, "root");
}

#[test]
fn find_exact_match_first() {
    let f = tree(&[("x.md", "top"), ("a/x.md", "in a"), ("a/b/x.html", "in b")]);
    let (p, c) = f.find(&path("a/b/x.md")).unwrap();
    assert_eq!(p, path("a/b/x.html"));
    assert_eq!(c, b"in b".to_vec());
    let (p, c) = f.find(&path("a/x")).unwrap();
    assert_eq!(p, path("a/x.md"));
    assert_eq!(c, b"in a".to_vec());
}

#[test]
fn find_stops_at_missing_folder_and_climbs() {
    let f = tree(&[("a/page.html", "a page"), ("page.html", "root page")]);
    let (p, _) = f.find(&path("a/zz/page.md")).unwrap();
    assert_eq!(p, path("a/page.html"));
    let g = tree(&[("other/page.html", "x")]);
    assert_eq!(g.find(&path("a/page.md")), None);
}

#[test]
fn upward_fallback_to_default_template() {
    let templates = tree(&[("a/default.html", "T")]);
    assert_eq!(templates.find(&path("a/b/page")), None);
    let t = template_for(&templates, &path("a/b/page"), &"default".to_string()).unwrap();
    assert_eq!(t, path("a/default.html"));
    assert_eq!(set_file_name(&path("a/b/page"), &"default".to_string()), path("a/b/default"));
}

#[test]
fn missing_template_names_the_file() {
    let templates = tree(&[("z/other.html", "T")]);
    let r = template_for(&templates, &path("a/page.md"), &"default".to_string());
    assert_eq!(r, Err(BuildError::NoTemplate { file: path("a/page.md") }));
}

#[test]
fn map_collects_all_failures() {
    let f = tree(&[("a.md", "1"), ("b.md", "2"), ("c.md", "3")]);
    let outcomes: Vec<Outcome> = vec![
        Err(vec![BuildError::BadParameters]),
        Ok(Some((path("b2.md"), b"two".to_vec()))),
        Err(vec![BuildError::NotUtf8, BuildError::BadMetadata]),
    ];
    let r = f.map(outcomes);
    assert_eq!(
        r.err(),
        Some(vec![BuildError::BadParameters, BuildError::NotUtf8, BuildError::BadMetadata])
    );
}

#[test]
fn map_renames_and_deletes() {
    let f = tree(&[("a.md", "1"), ("b.md", "2")]);
    let outcomes: Vec<Outcome> = vec![Ok(None), Ok(Some((path("d/b.html"), b"B".to_vec())))];
    let g = f.map(outcomes).unwrap();
    assert_eq!(paths(&g), vec!["d/b.html"]);
    assert_eq!(get(&g, "d/b.html"), Some(b"B".to_vec()));
    let bad: Vec<Outcome> = vec![Ok(Some((Vec::new(), b"x".to_vec()))), Ok(None)];
    assert_eq!(f.map(bad).err(), Some(vec![BuildError::NoFileName]));
}

#[test]
fn subfolder_strips_its_name() {
    let f = tree(&[("contents/a.md", "1"), ("contents/d/b.md", "2"), ("templates/t.html", "3")]);
    let c = f.subfolder(&"contents".to_string()).unwrap();
    assert_eq!(paths(&c), vec!["a.md", "d/b.md"]);
    assert_eq!(c.path, "root/contents");
    assert!(f.subfolder(&"snippets".to_string()).is_none());
}

#[test]
fn rebuild_from_entries() {
    let f = tree(&[("a.md", "1"), ("d/b.md", "2")]);
    let g = Folder::from_entries(f.path.clone(), f.files.clone()).unwrap();
    assert_eq!(g.files, f.files);
    assert_eq!(g.path, f.path);
    let dup = vec![(path("a.md"), b"1".to_vec()), (path("a.md"), b"2".to_vec())];
    let h = Folder::from_entries("r".to_string(), dup).unwrap();
    assert_eq!(h.files, vec![(path("a.md"), b"2".to_vec())]);
    let bad = vec![(Vec::new(), b"1".to_vec())];
    assert_eq!(Folder::from_entries("r".to_string(), bad).err(), Some(BuildError::NoFileName));
}
