use flash::config::{
    Analysis, Config, Project, Scripts, Templates,
};
use flash::url::{chars_before, find_repeated, UrlPath};

fn config_with_base(base: Option<&str>) -> Config {
    Config {
        project: Project {
            name: "Geode".to_string(),
            version: "1.0".to_string(),
            repository: None,
            tree: None,
            icon: None,
        },
        tutorials: None,
        sources: Vec::new(),
        run: None,
        analysis: Analysis { compile_args: Vec::new() },
        cmake: None,
        templates: Templates {
            class: String::new(),
            struct_: String::new(),
            function: String::new(),
            head: String::new(),
            nav: String::new(),
            file: String::new(),
            page: String::new(),
            tutorial: String::new(),
            tutorial_index: String::new(),
        },
        scripts: Scripts { css: Vec::new(), js: Vec::new() },
        external_libs: Vec::new(),
        ignore: None,
        matching: None,
        input_dir: "project".to_string(),
        output_dir: "out".to_string(),
        output_url: base.map(|b| UrlPath::parse(b).unwrap()),
    }
}

#[test]
fn parse_splits_on_slashes_and_drops_empty_segments() {
    let url = UrlPath::parse("/tutorials//intro.md").unwrap();
    assert_eq!(url.segments(), vec!["tutorials".to_string(), "intro.md".to_string()]);
    assert_eq!(url.to_unencoded_string(), "/tutorials/intro.md");
    assert_eq!(url.len(), 2);
    assert_eq!(url.segment(1), Some("intro.md".to_string()));
    assert_eq!(url.segment(2), None);
}

#[test]
fn parse_refuses_a_parent_segment() {
    assert!(UrlPath::parse("/a/../b").is_err());
    assert!(UrlPath::parse("..").is_err());
    assert!(UrlPath::parse("/a/..b").is_ok());
    assert!(UrlPath::parse("/a/.../b").is_ok());
}

#[test]
fn empty_path_is_written_as_a_slash() {
    assert_eq!(UrlPath::new().to_unencoded_string(), "/");
    assert!(UrlPath::parse("").unwrap().is_empty());
    assert!(UrlPath::parse("///").unwrap().is_empty());
}

#[test]
fn new_with_path_splits_every_part() {
    let url = UrlPath::new_with_path(vec![
        "".to_string(),
        "geode".to_string(),
        "a/b".to_string(),
        "operator/".to_string(),
    ]);
    assert_eq!(url.to_unencoded_string(), "/geode/a/b/operator");
    assert_eq!(UrlPath::part("x/y").to_unencoded_string(), "/x/y");
}

#[test]
fn join_puts_the_second_path_behind_the_first() {
    let a = UrlPath::parse("docs/v1").unwrap();
    let b = UrlPath::parse("classes/Mod").unwrap();
    assert_eq!(a.join(&b).to_unencoded_string(), "/docs/v1/classes/Mod");
    assert_eq!(a.join(&UrlPath::new()).to_unencoded_string(), "/docs/v1");
    assert_eq!(UrlPath::new().join(&b).to_unencoded_string(), "/classes/Mod");
}

#[test]
fn to_absolute_puts_the_base_in_front() {
    let url = UrlPath::parse("classes/Mod").unwrap();
    assert_eq!(
        url.to_absolute(&config_with_base(Some("docs/v1"))).to_unencoded_string(),
        "/docs/v1/classes/Mod"
    );
    assert_eq!(url.to_absolute(&config_with_base(None)).to_unencoded_string(), "/classes/Mod");
}

#[test]
fn remove_extension_strips_only_a_matching_ending() {
    let url = UrlPath::parse("/tutorials/intro.md").unwrap();
    assert_eq!(url.remove_extension(".md").to_unencoded_string(), "/tutorials/intro");
    assert_eq!(url.remove_extension(".html").to_unencoded_string(), "/tutorials/intro.md");
    assert_eq!(url.remove_extension("").to_unencoded_string(), "/tutorials/intro.md");
    let only = UrlPath::parse("/tutorials/.md").unwrap();
    assert_eq!(only.remove_extension(".md").to_unencoded_string(), "/tutorials/.md");
    assert_eq!(UrlPath::new().remove_extension(".md").to_unencoded_string(), "/");
    let inner = UrlPath::parse("/a.md/b").unwrap();
    assert_eq!(inner.remove_extension(".md").to_unencoded_string(), "/a.md/b");
}

#[test]
fn prefix_test_and_strip_go_by_whole_segments() {
    let url = UrlPath::parse("src/include/Geode/Mod.hpp").unwrap();
    let dir = UrlPath::parse("src/include").unwrap();
    let other = UrlPath::parse("src/inc").unwrap();
    assert!(url.starts_with(&dir));
    assert!(!url.starts_with(&other));
    assert!(url.starts_with(&UrlPath::new()));
    assert!(!dir.starts_with(&url));
    assert_eq!(url.strip_prefix(&dir).to_unencoded_string(), "/Geode/Mod.hpp");
    assert_eq!(url.strip_prefix(&other).to_unencoded_string(), "/src/include/Geode/Mod.hpp");
    assert_eq!(url.strip_prefix(&url).to_unencoded_string(), "/");
}

#[test]
fn append_to_last_changes_only_the_last_segment() {
    let url = UrlPath::parse("functions/geode/log").unwrap();
    assert_eq!(url.append_to_last("2").to_unencoded_string(), "/functions/geode/log2");
    assert_eq!(url.append_to_last("").to_unencoded_string(), "/functions/geode/log");
    assert_eq!(url.append_to_last("/x").to_unencoded_string(), "/functions/geode/log/x");
    assert_eq!(UrlPath::new().append_to_last("7").to_unencoded_string(), "/7");
}

#[test]
fn equals_compares_segment_by_segment() {
    let a = UrlPath::parse("/a/b").unwrap();
    let b = UrlPath::parse("a//b/").unwrap();
    let c = UrlPath::parse("a/b/c").unwrap();
    let d = UrlPath::parse("a/c").unwrap();
    assert!(a.equals(&b));
    assert!(!a.equals(&c));
    assert!(!c.equals(&a));
    assert!(!a.equals(&d));
    assert!(a.clone().equals(&a));
    assert!(a == b);
    assert!(a != c);
    assert!(a != d);
}

#[test]
fn a_path_is_read_back_as_it_was_written() {
    for text in ["", "/", "a", "/a/b.c/d e", "tutorials/intro.md"] {
        let url = UrlPath::parse(text).unwrap();
        let again = UrlPath::parse(&url.to_unencoded_string()).unwrap();
        assert_eq!(again, url);
        assert_eq!(again.segments(), url.segments());
    }
}

#[test]
fn paths_are_ordered_segment_by_segment() {
    let url = |s: &str| UrlPath::parse(s).unwrap();
    assert!(url("a").precedes(&url("b")));
    assert!(!url("b").precedes(&url("a")));
    assert!(!url("a").precedes(&url("a")));
    assert!(url("a").precedes(&url("a/b")));
    assert!(!url("a/b").precedes(&url("a")));
    assert!(url("").precedes(&url("a")));
    assert!(!url("").precedes(&url("")));
    assert!(url("a/z").precedes(&url("ab")));
    assert!(url("a/b/c").precedes(&url("a/c")));
    assert!(url("Z").precedes(&url("a")));
    let chars = |s: &str| -> Vec<char> { s.chars().collect() };
    assert!(chars_before(&chars("abc"), &chars("abd")));
    assert!(chars_before(&chars("ab"), &chars("abc")));
    assert!(!chars_before(&chars("abc"), &chars("abc")));
    assert!(!chars_before(&chars("b"), &chars("abc")));
}

#[test]
fn repeated_paths_are_found() {
    let url = |s: &str| UrlPath::parse(s).unwrap();
    assert_eq!(find_repeated(&vec![url("a"), url("b"), url("c")]), None);
    assert_eq!(find_repeated(&vec![url("a"), url("b"), url("/a/")]), Some((0, 2)));
    assert_eq!(find_repeated(&vec![url("a"), url("b"), url("b"), url("a")]), Some((1, 2)));
    assert_eq!(find_repeated(&Vec::new()), None);
    assert_eq!(find_repeated(&vec![url("functions/log1"), url("functions/log").append_to_last("1")]), Some((0, 1)));
}
