use flash::config::{
    glob_pattern, holds_path, Analysis, Config, MyRegex, Project, RawSource, Scripts, Source,
    Templates,
};
use flash::url::UrlPath;

fn raw() -> RawSource {
    RawSource {
        name: "Loader".to_string(),
        dir: UrlPath::parse("loader/include").unwrap(),
        includes: vec!["**/*.hpp".to_string(), "/abs/*.h".to_string()],
        exclude: vec!["Geode/internal/*".to_string()],
        exists_online: false,
    }
}

fn strings(items: &[&str]) -> Vec<String> {
    items.iter().map(|s| s.to_string()).collect()
}

#[test]
fn patterns_stand_below_the_directory_of_the_root() {
    let raw = raw();
    assert_eq!(raw.include_patterns(), strings(&["loader/include/**/*.hpp", "/abs/*.h"]));
    assert_eq!(raw.exclude_patterns(), strings(&["loader/include/Geode/internal/*"]));
    assert_eq!(glob_pattern(&UrlPath::new(), "*.hpp"), "*.hpp");
    assert_eq!(glob_pattern(&UrlPath::parse("a").unwrap(), ""), "a/");
}

#[test]
fn excluded_files_are_left_out() {
    let found = strings(&["a.hpp", "internal/b.hpp", "c.hpp", "a.hpp"]);
    let excluded = strings(&["internal/b.hpp", "zzz.hpp"]);
    let source = Source::from_raw(raw(), found, excluded).unwrap();
    assert_eq!(source.name, "Loader");
    assert_eq!(source.dir.to_unencoded_string(), "/loader/include");
    assert!(!source.exists_online);
    assert_eq!(source.includes, strings(&["a.hpp", "c.hpp", "a.hpp"]));
    let all = Source::from_raw(raw(), strings(&["x", "y"]), Vec::new()).unwrap();
    assert_eq!(all.includes, strings(&["x", "y"]));
    let none = Source::from_raw(raw(), strings(&["x", "y"]), strings(&["y", "x"])).unwrap();
    assert!(none.includes.is_empty());
    let empty = Source::from_raw(raw(), Vec::new(), strings(&["y"])).unwrap();
    assert!(empty.includes.is_empty());
    assert!(holds_path(&strings(&["a", "b"]), &"b".to_string()));
    assert!(!holds_path(&strings(&["a", "b"]), &"c".to_string()));
}

#[test]
fn all_includes_lists_every_root_in_order() {
    let source = |name: &str, files: &[&str]| Source {
        name: name.to_string(),
        dir: UrlPath::new(),
        includes: strings(files),
        exists_online: true,
    };
    let config = Config {
        project: Project {
            name: "P".to_string(),
            version: "1".to_string(),
            repository: None,
            tree: None,
            icon: None,
        },
        tutorials: None,
        sources: vec![source("a", &["1", "2"]), source("b", &[]), source("c", &["3"])],
        run: None,
        analysis: Analysis { compile_args: Vec::new() },
        cmake: None,
        templates: Templates {
            class: String::new(),
            struct_: String::new(),
            function: String::new(),
            head: String::new(),
            nav: String::new(),
            file: String::new(),
            page: String::new(),
            tutorial: String::new(),
            tutorial_index: String::new(),
        },
        scripts: Scripts { css: Vec::new(), js: Vec::new() },
        external_libs: Vec::new(),
        ignore: None,
        matching: None,
        input_dir: String::new(),
        output_dir: String::new(),
        output_url: None,
    };
    assert_eq!(config.all_includes(), strings(&["1", "2", "3"]));
}

#[test]
fn parse_sets_the_directories_and_the_base_of_the_run() {
    let read = Config {
        project: Project {
            name: "P".to_string(),
            version: "1".to_string(),
            repository: None,
            tree: None,
            icon: None,
        },
        tutorials: None,
        sources: Vec::new(),
        run: None,
        analysis: Analysis { compile_args: vec!["-std=c++20".to_string()] },
        cmake: None,
        templates: Templates {
            class: String::new(),
            struct_: String::new(),
            function: String::new(),
            head: String::new(),
            nav: String::new(),
            file: String::new(),
            page: "p".to_string(),
            tutorial: String::new(),
            tutorial_index: String::new(),
        },
        scripts: Scripts { css: Vec::new(), js: Vec::new() },
        external_libs: Vec::new(),
        ignore: None,
        matching: None,
        input_dir: "old".to_string(),
        output_dir: "old".to_string(),
        output_url: None,
    };
    let config = Config::parse(
        read,
        "in".to_string(),
        "out".to_string(),
        Some(UrlPath::parse("docs").unwrap()),
    )
    .unwrap();
    assert_eq!(config.input_dir, "in");
    assert_eq!(config.output_dir, "out");
    assert_eq!(config.output_url.unwrap().to_unencoded_string(), "/docs");
    assert_eq!(config.project.name, "P");
    assert_eq!(config.templates.page, "p");
    assert_eq!(config.analysis.compile_args, vec!["-std=c++20".to_string()]);
}

#[test]
fn patterns_are_compiled_or_refused() {
    let regex = MyRegex::new("^geode::.*Impl$").unwrap();
    assert!(regex.regex().is_match("geode::ModImpl"));
    assert!(!regex.regex().is_match("geode::Mod"));
    assert!(regex.0.is_match("geode::Impl"));
    assert!(regex.is_match("geode::xImpl"));
    assert_eq!(regex.as_str(), "^geode::.*Impl$");
    let error = MyRegex::new("(unclosed").err().unwrap();
    assert!(!error.is_empty());
    assert!(MyRegex::new("[a-").is_err());
    assert!(MyRegex::new("").is_ok());
}
