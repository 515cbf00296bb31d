use span::error::BuildError;
use span::refs::expand_references;
use span::snippets::Snippet;
use span::syntax::{extract_metadata, parse_args};
use span::value::ParamValue;
use span::vfs::Folder;

fn path(s: &str) -> Vec<String> {
    s.split('/').map(|x| x.to_string()).collect()
}

fn text(s: &str) -> ParamValue {
    ParamValue::Text(s.as_bytes().to_vec())
}

fn params() -> Vec<(ParamValue, ParamValue)> {
    vec![
        (text("title"), text("Hello")),
        (text("tags"), ParamValue::Sequence(vec![text("a"), text("b")])),
        (text("flag"), ParamValue::Bool(true)),
        (text("n"), ParamValue::Number(b"42".to_vec())),
        (text("empty"), ParamValue::Null),
        (text("m"), ParamValue::Mapping(vec![(text("k"), text("v"))])),
    ]
}

fn expand(s: &str) -> Result<Vec<u8>, Vec<BuildError>> {
    expand_references(&s.as_bytes().to_vec(), &Vec::new(), &params())
}

#[test]
fn reference_to_a_field() {
    assert_eq!(expand("$%{title}").unwrap(), b"Hello".to_vec());
    assert_eq!(expand("<h1>$%{title}</h1>").unwrap(), b"<h1>Hello</h1>".to_vec());
}

#[test]
fn reference_to_an_index() {
    assert_eq!(expand("$%{tags.0}").unwrap(), b"a".to_vec());
    assert_eq!(expand("$%{tags.1}").unwrap(), b"b".to_vec());
    assert_eq!(expand("$%{m.k}").unwrap(), b"v".to_vec());
}

#[test]
fn reference_out_of_range_names_the_chain() {
    assert_eq!(
        expand("$%{tags.2}"),
        Err(vec![BuildError::MissingKey { segment: b"2".to_vec(), chain: b"tags.2".to_vec() }])
    );
}

#[test]
fn scalars_become_text() {
    assert_eq!(expand("$%{flag}/$%{n}").unwrap(), b"true/42".to_vec());
}

#[test]
fn null_and_composites_are_errors_and_all_are_reported() {
    let r = expand("$%{empty} $%{tags} $%{m} $%{nope}");
    assert_eq!(
        r,
        Err(vec![
            BuildError::MissingKey { segment: b"empty".to_vec(), chain: b"empty".to_vec() },
            BuildError::NotScalar { chain: b"tags".to_vec(), is_sequence: true },
            BuildError::NotScalar { chain: b"m".to_vec(), is_sequence: false },
            BuildError::MissingKey { segment: b"nope".to_vec(), chain: b"nope".to_vec() },
        ])
    );
}

#[test]
fn text_without_placeholders_is_unchanged() {
    assert_eq!(expand("plain $% {x} $%{} $%{a\nb}").unwrap(), b"plain $% {x} $%{} $%{a\nb}".to_vec());
}

#[test]
fn metadata_hides_inline_parameters() {
    let inline = vec![(b"title".to_vec(), b"Inline".to_vec()), (b"who".to_vec(), b"me".to_vec())];
    let r = expand_references(&b"$%{title} $%{who}".to_vec(), &inline, &params()).unwrap();
    assert_eq!(r, b"Hello me".to_vec());
    let r = expand_references(&b"$%{who.x}".to_vec(), &inline, &Vec::new());
    assert_eq!(
        r,
        Err(vec![BuildError::MissingKey { segment: b"x".to_vec(), chain: b"who.x".to_vec() }])
    );
}

#[test]
fn inline_arguments_are_trimmed() {
    let s = b"( a : 1 ,b:two words )".to_vec();
    let v = parse_args(&s, 1, s.len() - 1).unwrap();
    assert_eq!(
        v,
        vec![(b"a".to_vec(), b"1".to_vec()), (b"b".to_vec(), b"two words".to_vec())]
    );
    let blank = b"(  )".to_vec();
    assert_eq!(parse_args(&blank, 1, 3).unwrap(), Vec::new());
    let bad = b"(a)".to_vec();
    assert_eq!(parse_args(&bad, 1, 2), None);
}

#[test]
fn front_matter_blocks() {
    assert_eq!(extract_metadata(&b"---\nk: v\n---\nbody".to_vec()).unwrap(), b"k: v".to_vec());
    assert_eq!(extract_metadata(&b"---\r\nk: v\r\n...\r\n".to_vec()).unwrap(), b"k: v".to_vec());
    assert_eq!(extract_metadata(&b"---\ntitle: A\n---\nbody\n".to_vec()).unwrap(), b"title: A".to_vec());
    assert_eq!(extract_metadata(&b"---\na: 1\n...\nb: 2\n---\n".to_vec()).unwrap(), b"a: 1".to_vec());
    assert_eq!(extract_metadata(&b"---\na: 1\nb: 2\n---".to_vec()).unwrap(), b"a: 1\nb: 2".to_vec());
    assert_eq!(extract_metadata(&b"---\n---\n".to_vec()).unwrap(), Vec::<u8>::new());
    assert_eq!(extract_metadata(&b"no front matter".to_vec()).unwrap(), Vec::<u8>::new());
    assert_eq!(extract_metadata(&b"---\nk: v\n".to_vec()), Err(BuildError::UnterminatedMetadata));
}

fn snippets_tree() -> Folder {
    let mut f = Folder::new("snippets".to_string());
    f.push(path("card.txt"), b"[$%{name}]".to_vec()).unwrap();
    f.push(path("greet.txt"), b"Hi $%{who}!".to_vec()).unwrap();
    f.push(path("people/a.md"), b"---\nname: Ann\n---\nx".to_vec()).unwrap();
    f.push(path("people/b.md"), b"---\nname: Bob\nage: 3\n---\n".to_vec()).unwrap();
    f.push(path("people/c.md"), b"---\nname: Cy\n...\n".to_vec()).unwrap();
    f
}

#[test]
fn expansion_with_inline_arguments() {
    let fs = snippets_tree();
    let r = Snippet::process_contents(&fs, &path("index.md"), &b"<$%%{greet(who: you)}>".to_vec());
    assert_eq!(r.unwrap(), b"<Hi you!>".to_vec());
}

#[test]
fn one_expansion_per_metadata_file() {
    let fs = snippets_tree();
    let r = Snippet::process_contents(&fs, &path("index.md"), &b"$%%{people:card()}".to_vec());
    assert_eq!(r.unwrap(), b"[Ann]\n\n[Bob]\n\n[Cy]".to_vec());
}

#[test]
fn missing_snippet_is_reported() {
    let fs = snippets_tree();
    let r = Snippet::process_contents(&fs, &path("index.md"), &b"a $%%{nothing()} b $%%{greet(x)}".to_vec());
    assert_eq!(
        r,
        Err(vec![BuildError::SnippetNotFound { name: b"nothing".to_vec() }, BuildError::BadParameters])
    );
}

#[test]
fn unterminated_metadata_in_a_metadata_file() {
    let mut fs = snippets_tree();
    fs.push(path("people/d.md"), b"---\nname: D\n".to_vec()).unwrap();
    let r = Snippet::process_contents(&fs, &path("index.md"), &b"$%%{people:card()}".to_vec());
    assert_eq!(r, Err(vec![BuildError::UnterminatedMetadata]));
}

#[test]
fn bad_yaml_metadata_is_reported() {
    let mut fs = Folder::new("snippets".to_string());
    fs.push(path("card.txt"), b"[$%{name}]".to_vec()).unwrap();
    fs.push(path("people/a.md"), b"---\n- just\n- a list\n---\n".to_vec()).unwrap();
    let r = Snippet::process_contents(&fs, &path("index.md"), &b"$%%{people:card()}".to_vec());
    assert_eq!(r, Err(vec![BuildError::BadMetadata]));
}

#[test]
fn non_utf8_snippet_name_is_reported() {
    let fs = snippets_tree();
    let r = Snippet::process_contents(&fs, &path("index.md"), &b"$%%{\xff()}".to_vec());
    assert_eq!(r, Err(vec![BuildError::NotUtf8]));
}

#[test]
fn process_snippet_without_metadata() {
    let fs = snippets_tree();
    let sn = Snippet {
        name: b"greet".to_vec(),
        contents: b"Hi $%{who}!".to_vec(),
        metadata_path: None,
        parameters: vec![(b"who".to_vec(), b"all".to_vec())],
    };
    assert_eq!(sn.process_snippet(&fs).unwrap(), b"Hi all!".to_vec());
}

#[test]
fn yaml_values_become_parameters() {
    let mut fs = Folder::new("snippets".to_string());
    fs.push(path("row.txt"), b"$%{n}|$%{list.1}|$%{ok}|$%{nested.k}|$%{who}".to_vec()).unwrap();
    fs.push(
        path("data/one.md"),
        b"---\nn: 3\nlist: [x, y]\nok: false\nnested:\n  k: deep\n---\n".to_vec(),
    )
    .unwrap();
    let r = Snippet::process_contents(&fs, &path("page.md"), &b"$%%{data:row(who: inline)}".to_vec());
    assert_eq!(r.unwrap(), b"3|y|false|deep|inline".to_vec());
}

#[test]
fn metadata_overrides_inline_argument() {
    let mut fs = Folder::new("snippets".to_string());
    fs.push(path("row.txt"), b"$%{who}".to_vec()).unwrap();
    fs.push(path("data/one.md"), b"---\nwho: meta\n---\n".to_vec()).unwrap();
    let r = Snippet::process_contents(&fs, &path("page.md"), &b"$%%{data:row(who: inline)}".to_vec());
    assert_eq!(r.unwrap(), b"meta".to_vec());
}

#[test]
fn snippet_found_beside_the_file_first() {
    let mut fs = Folder::new("snippets".to_string());
    fs.push(path("box.txt"), b"top".to_vec()).unwrap();
    fs.push(path("blog/box.txt"), b"blog".to_vec()).unwrap();
    let r = Snippet::process_contents(&fs, &path("blog/post.md"), &b"$%%{box()}".to_vec());
    assert_eq!(r.unwrap(), b"blog".to_vec());
    let r = Snippet::process_contents(&fs, &path("news/post.md"), &b"$%%{box()}".to_vec());
    assert_eq!(r.unwrap(), b"top".to_vec());
}

#[test]
fn non_utf8_contents_are_refused() {
    let fs = snippets_tree();
    let r = Snippet::process_contents(&fs, &path("index.md"), &vec![0xff]);
    assert_eq!(r, Err(vec![BuildError::NotUtf8]));
    assert_eq!(expand_references(&vec![0xff], &Vec::new(), &Vec::new()), Err(vec![BuildError::NotUtf8]));
}

#[test]
fn non_utf8_snippet_body_is_refused() {
    let mut fs = Folder::new("snippets".to_string());
    fs.push(path("bad.txt"), vec![b'x', 0xff]).unwrap();
    let r = Snippet::process_contents(&fs, &path("index.md"), &b"$%%{bad()}".to_vec());
    assert_eq!(r, Err(vec![BuildError::NotUtf8]));
}
