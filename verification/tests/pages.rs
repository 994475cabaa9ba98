use flash::ast::{Ast, Declaration, EntityKind};
use flash::builder::builder::{
    assemble_nav, fill_template, fill_text, gather_builds, merge_results, number_overloads,
    same_name, Builder,
};
use flash::builder::function::Function;
use flash::builder::shared::{declaration_slots, output_function};
use flash::builder::traits::{describe, ASTEntry, Entry, NavItem, OutputEntry};
use flash::config::{Analysis, Config, Project, Scripts, Source, Templates};
use flash::html::Html;
use flash::url::UrlPath;

fn config() -> Config {
    Config {
        project: Project {
            name: "Geode".to_string(),
            version: "1.0".to_string(),
            repository: None,
            tree: Some("https://example.com/tree".to_string()),
            icon: None,
        },
        tutorials: None,
        sources: vec![Source {
            name: "Main".to_string(),
            dir: UrlPath::parse("include").unwrap(),
            includes: Vec::new(),
            exists_online: true,
        }],
        run: None,
        analysis: Analysis { compile_args: Vec::new() },
        cmake: None,
        templates: Templates {
            class: String::new(),
            struct_: String::new(),
            function: "<h1>{name}</h1><p>{description}</p>{source}{header}{missing}".to_string(),
            head: String::new(),
            nav: String::new(),
            file: String::new(),
            page: "<title>{title}</title><meta content=\"{description}\"><nav>{nav}</nav><main>{content}</main>".to_string(),
            tutorial: String::new(),
            tutorial_index: String::new(),
        },
        scripts: Scripts { css: Vec::new(), js: Vec::new() },
        external_libs: Vec::new(),
        ignore: None,
        matching: None,
        input_dir: "/src".to_string(),
        output_dir: "out".to_string(),
        output_url: Some(UrlPath::parse("docs").unwrap()),
    }
}

fn decl(kind: EntityKind, name: Option<&str>, parent: Option<usize>) -> Declaration {
    Declaration {
        kind,
        name: name.map(|n| n.to_string()),
        parent,
        definition_file: Some("/src/include/log.hpp".to_string()),
    }
}

/// 0 geode, 1..=3 geode::log three times, 4 geode::other, 5 a field, 6 an unnamed function.
fn sample() -> Ast {
    let mut ast = Ast::new();
    for d in [
        decl(EntityKind::Namespace, Some("geode"), None),
        decl(EntityKind::FunctionDecl, Some("log"), Some(0)),
        decl(EntityKind::FunctionDecl, Some("log"), Some(0)),
        decl(EntityKind::FunctionTemplate, Some("log"), Some(0)),
        decl(EntityKind::FunctionDecl, Some("other"), Some(0)),
        decl(EntityKind::Other, Some("field"), Some(0)),
        decl(EntityKind::FunctionDecl, None, Some(0)),
    ] {
        ast = ast.with(d).0;
    }
    ast
}

fn empty_nav() -> NavItem {
    NavItem::new_root(None, Vec::new())
}

#[test]
fn overloads_are_numbered_in_order() {
    let ast = sample();
    let mut functions: Vec<Function> =
        [1, 4, 2, 3].iter().map(|i| Function::new(ast.entity(*i).unwrap())).collect();
    number_overloads(&mut functions);
    let urls: Vec<String> = functions.iter().map(|f| f.url().to_unencoded_string()).collect();
    assert_eq!(
        urls,
        vec![
            "/functions/geode/log",
            "/functions/geode/other",
            "/functions/geode/log1",
            "/functions/geode/log2",
        ]
    );
    let names: Vec<String> = functions.iter().map(|f| f.name()).collect();
    assert_eq!(names, vec!["log", "other", "log", "log"]);
}

#[test]
fn overload_index_changes_only_the_last_segment() {
    let ast = sample();
    let mut function = Function::new(ast.entity(1).unwrap());
    assert_eq!(function.url().to_unencoded_string(), "/functions/geode/log");
    function.add_overload_index(0);
    assert_eq!(function.url().to_unencoded_string(), "/functions/geode/log");
    function.add_overload_index(1);
    assert_eq!(function.url().to_unencoded_string(), "/functions/geode/log1");
    function.add_overload_index(12);
    assert_eq!(function.url().to_unencoded_string(), "/functions/geode/log12");
    assert_eq!(function.name(), "log");
    assert_eq!(function.try_url().unwrap().to_unencoded_string(), "/functions/geode/log12");
    assert_eq!(function.copy().url().to_unencoded_string(), "/functions/geode/log12");
    assert_eq!(function.qualified_name(), vec!["geode", "log"]);
}

#[test]
fn names_are_compared_part_by_part() {
    let a = vec!["geode".to_string(), "log".to_string()];
    let b = vec!["geode".to_string(), "log".to_string()];
    let c = vec!["geode".to_string()];
    let d = vec!["geode".to_string(), "lag".to_string()];
    assert!(same_name(&a, &b));
    assert!(!same_name(&a, &c));
    assert!(!same_name(&a, &d));
}

#[test]
fn function_is_an_entry() {
    let ast = sample();
    let config = config();
    let function = Function::new(ast.entity(1).unwrap());
    assert!(function.is_resolvable());
    assert_eq!(function.category(), "function");
    assert_eq!(function.entity().index(), 1);
    let nav = function.nav().to_html(&config).gen_html();
    assert_eq!(
        nav,
        "<a onclick=\"return navigate('/docs/functions/geode/log')\" href=\"/docs/functions/geode/log\"><i class=\"icon variant\" data-feather=\"code\"></i>log</a>"
    );
    let builder = Builder::new(config, empty_nav());
    assert_eq!(
        function.output_description(&builder),
        "Documentation for the log function in Geode"
    );
    assert_eq!(function.description(&builder), "Documentation for the log function in Geode");
    let (template, slots) = function.output(&builder);
    assert_eq!(template, builder.config.templates.function);
    let names: Vec<&str> = slots.iter().map(|s| s.0).collect();
    assert_eq!(names, vec!["name", "description", "source", "header"]);
    assert_eq!(output_function(&function, &builder).len(), 4);
    let unnamed = Function::new(ast.entity(6).unwrap());
    assert_eq!(unnamed.name(), "`Anonymous function`");
    assert_eq!(describe("a", "b", "c"), "Documentation for the a b in c");
}

#[test]
fn slots_of_a_declaration() {
    let ast = sample();
    let builder = Builder::new(config(), empty_nav());
    let slots = declaration_slots(&ast.entity(1).unwrap(), "log", "About <log>", &builder);
    let written: Vec<(&str, String)> = slots.iter().map(|s| (s.0, s.1.gen_html())).collect();
    assert_eq!(
        written,
        vec![
            ("name", "log".to_string()),
            ("description", "About &lt;log&gt;".to_string()),
            ("source", "<a href=\"https://example.com/tree/include/log.hpp\">View source</a>".to_string()),
            ("header", "<code>/log.hpp</code>".to_string()),
        ]
    );
    let mut config = config();
    config.sources.clear();
    let builder = Builder::new(config, empty_nav());
    let slots = declaration_slots(&ast.entity(1).unwrap(), "log", "d", &builder);
    assert_eq!(slots[2].1.gen_html(), "");
    assert_eq!(slots[3].1.gen_html(), "");
}

#[test]
fn page_is_composed_from_the_templates() {
    let ast = sample();
    let nav = NavItem::new_root(None, vec![NavItem::new_link("n", UrlPath::new(), None)]);
    let builder = Builder::new(config(), nav);
    let function = Function::new(ast.entity(1).unwrap());
    let tasks = function.build(&builder).unwrap();
    assert_eq!(tasks.len(), 1);
    assert_eq!(tasks[0].url.to_unencoded_string(), "/functions/geode/log");
    assert_eq!(tasks[0].path, "out/functions/geode/log/index.html");
    assert_eq!(
        tasks[0].content,
        "<title>log</title><meta content=\"Documentation for the log function in Geode\"><nav><a onclick=\"return navigate('/docs')\" href=\"/docs\">n</a></nav><main><h1>log</h1><p>Documentation for the log function in Geode</p><a href=\"https://example.com/tree/include/log.hpp\">View source</a><code>/log.hpp</code>{missing}</main>"
    );
    let same = builder.create_output_for(&function).unwrap();
    assert_eq!(same[0].content, tasks[0].content);
    assert_eq!(same[0].path, tasks[0].path);
}

#[test]
fn entry_without_a_url_is_not_built() {
    let ast = sample();
    let builder = Builder::new(config(), empty_nav());
    let field = Function::new(ast.entity(5).unwrap());
    assert!(!field.is_resolvable());
    assert!(field.try_url().is_none());
    assert_eq!(field.build(&builder).err(), Some("Unable to resolve a URL for field".to_string()));
    assert!(builder.create_output_for(&field).is_err());
    let result = builder.create_output(None, "x", "d", "t", &Vec::new());
    assert_eq!(result.err(), Some("Unable to resolve a URL for x".to_string()));
}

#[test]
fn one_entry_that_fails_does_not_hold_up_the_others() {
    let ast = sample();
    let builder = Builder::new(config(), empty_nav());
    let entries: Vec<Function> =
        [1, 5, 4].iter().map(|i| Function::new(ast.entity(*i).unwrap())).collect();
    let (tasks, skipped) = builder.build_all(&entries);
    let urls: Vec<String> = tasks.iter().map(|t| t.url.to_unencoded_string()).collect();
    assert_eq!(urls, vec!["/functions/geode/log", "/functions/geode/other"]);
    assert_eq!(skipped, vec!["Unable to resolve a URL for field".to_string()]);
    let nav = assemble_nav(Some("Functions"), &entries);
    match nav {
        NavItem::Root(label, items) => {
            assert_eq!(label, Some("Functions".to_string()));
            assert_eq!(items.len(), 2);
        }
        _ => panic!("not a root"),
    }
}

#[test]
fn builds_are_gathered_in_order() {
    let page = |url: &str| flash::builder::traits::PageTask {
        url: UrlPath::parse(url).unwrap(),
        path: format!("out/{url}/index.html"),
        content: url.to_string(),
    };
    let (pages, messages) = gather_builds(vec![
        Ok(vec![page("a"), page("b")]),
        Err("first".to_string()),
        Ok(Vec::new()),
        Ok(vec![page("c")]),
        Err("second".to_string()),
    ]);
    let contents: Vec<String> = pages.into_iter().map(|p| p.content).collect();
    assert_eq!(contents, vec!["a", "b", "c"]);
    assert_eq!(messages, vec!["first".to_string(), "second".to_string()]);
    let (pages, messages) = gather_builds(Vec::new());
    assert!(pages.is_empty() && messages.is_empty());
}

#[test]
fn results_are_gathered_in_order() {
    let url = |s: &str| UrlPath::parse(s).unwrap();
    let report = merge_results(vec![
        Ok(url("a")),
        Err("disk full".to_string()),
        Ok(url("b")),
        Err("no access".to_string()),
        Ok(url("c")),
    ]);
    let built: Vec<String> = report.built.iter().map(|u| u.to_unencoded_string()).collect();
    assert_eq!(built, vec!["/a", "/b", "/c"]);
    assert_eq!(report.failed, vec!["disk full".to_string(), "no access".to_string()]);
    let without = merge_results(vec![Ok(url("a")), Ok(url("b")), Ok(url("c"))]);
    let built: Vec<String> = without.built.iter().map(|u| u.to_unencoded_string()).collect();
    assert_eq!(built, vec!["/a", "/b", "/c"]);
    assert!(without.failed.is_empty());
    let none = merge_results(Vec::new());
    assert!(none.built.is_empty() && none.failed.is_empty());
}

#[test]
fn templates_are_filled_once() {
    let slots = vec![("a", Html::text("<{b}>")), ("b", Html::Raw("<i>".to_string()))];
    assert_eq!(fill_template("{a}|{b}|{c}|{a", &slots), "&lt;{b}&gt;|<i>|{c}|{a");
    assert_eq!(fill_template("", &slots), "");
    let texts = vec![("x".chars().collect(), "1".chars().collect()), (Vec::new(), "2".chars().collect())];
    assert_eq!(fill_text("{x}{}{x}", &texts), "1{}1".replace("{}", "2"));
}
