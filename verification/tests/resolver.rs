use flash::ast::{Ast, Declaration, Entity, EntityKind};
use flash::builder::namespace::CppItemKind;
use flash::builder::traits::{is_scope_end, stem, EntityMethods};
use flash::config::{Analysis, Config, Project, Scripts, Source, Templates};
use flash::url::UrlPath;

fn config() -> Config {
    Config {
        project: Project {
            name: "Geode".to_string(),
            version: "1.0".to_string(),
            repository: None,
            tree: Some("https://github.com/geode-sdk/geode/tree/main".to_string()),
            icon: None,
        },
        tutorials: None,
        sources: vec![
            Source {
                name: "Loader".to_string(),
                dir: UrlPath::parse("loader/include").unwrap(),
                includes: Vec::new(),
                exists_online: true,
            },
            Source {
                name: "Everything".to_string(),
                dir: UrlPath::parse("loader").unwrap(),
                includes: Vec::new(),
                exists_online: true,
            },
            Source {
                name: "Private".to_string(),
                dir: UrlPath::parse("private").unwrap(),
                includes: Vec::new(),
                exists_online: false,
            },
        ],
        run: None,
        analysis: Analysis { compile_args: Vec::new() },
        cmake: None,
        templates: Templates {
            class: String::new(),
            struct_: String::new(),
            function: String::new(),
            head: String::new(),
            nav: String::new(),
            file: String::new(),
            page: String::new(),
            tutorial: String::new(),
            tutorial_index: String::new(),
        },
        scripts: Scripts { css: Vec::new(), js: Vec::new() },
        external_libs: Vec::new(),
        ignore: None,
        matching: None,
        input_dir: "/home/me/geode".to_string(),
        output_dir: "out".to_string(),
        output_url: Some(UrlPath::parse("docs").unwrap()),
    }
}

fn decl(kind: EntityKind, name: Option<&str>, parent: Option<usize>, file: Option<&str>) -> Declaration {
    Declaration {
        kind,
        name: name.map(|n| n.to_string()),
        parent,
        definition_file: file.map(|f| f.to_string()),
    }
}

/// 0 unit, 1 geode, 2 geode::Mod, 3 geode::Mod::enable, 4 anonymous namespace, 5 helper in it,
/// 6 std, 7 std::vector, 8 a file-like parent, 9 a function in it, 10 an unexposed parent,
/// 11 a function in it, 12 a field, 13 a function in a private root, 14 one without a file,
/// 15 one outside every root, 16 std::move without a name of its file.
fn sample() -> Ast {
    let header = Some("/home/me/geode/loader/include/Geode/Mod.hpp");
    let decls = vec![
        decl(EntityKind::TranslationUnit, Some("main.cpp"), None, None),
        decl(EntityKind::Namespace, Some("geode"), Some(0), header),
        decl(EntityKind::ClassDecl, Some("Mod"), Some(1), header),
        decl(EntityKind::Method, Some("enable"), Some(2), header),
        decl(EntityKind::Namespace, None, Some(1), header),
        decl(EntityKind::FunctionDecl, Some("helper"), Some(4), header),
        decl(EntityKind::Namespace, Some("std"), Some(0), Some("/usr/include/c++/13/vector")),
        decl(EntityKind::ClassTemplate, Some("vector"), Some(6), Some("/usr/include/c++/13/bits/stl_vector.h")),
        decl(EntityKind::Other, Some("other.cxx"), None, None),
        decl(EntityKind::FunctionDecl, Some("free"), Some(8), header),
        decl(EntityKind::UnexposedDecl, Some("wrapper"), Some(1), None),
        decl(EntityKind::FunctionDecl, Some("inner"), Some(10), header),
        decl(EntityKind::Other, Some("m_field"), Some(2), header),
        decl(EntityKind::FunctionDecl, Some("secret"), Some(1), Some("/home/me/geode/private/x.hpp")),
        decl(EntityKind::FunctionDecl, Some("nowhere"), Some(1), None),
        decl(EntityKind::FunctionDecl, Some("far"), Some(1), Some("/opt/lib/far.hpp")),
        decl(EntityKind::FunctionDecl, Some("move"), Some(6), Some("/")),
    ];
    let mut ast = Ast::new();
    for d in decls {
        let (next, index) = ast.with(d);
        assert!(index.is_some());
        ast = next;
    }
    ast
}

fn names(entity: &Entity) -> Vec<String> {
    entity.full_name()
}

fn url(path: Option<UrlPath>) -> Option<String> {
    path.map(|p| p.to_unencoded_string())
}

#[test]
fn qualified_name_is_the_chain_of_scopes() {
    let ast = sample();
    assert_eq!(names(&ast.entity(3).unwrap()), vec!["geode", "Mod", "enable"]);
    assert_eq!(names(&ast.entity(1).unwrap()), vec!["geode"]);
    assert_eq!(names(&ast.entity(0).unwrap()), vec!["main.cpp"]);
    assert_eq!(names(&ast.entity(5).unwrap()), vec!["geode", "_anon", "helper"]);
    assert_eq!(names(&ast.entity(9).unwrap()), vec!["free"]);
    assert_eq!(names(&ast.entity(11).unwrap()), vec!["inner"]);
    let chain: Vec<usize> =
        ast.entity(3).unwrap().ancestorage().iter().map(|e| e.index()).collect();
    assert_eq!(chain, vec![1, 2, 3]);
}

#[test]
fn scopes_end_at_synthetic_parents_and_source_files() {
    let ast = sample();
    assert!(is_scope_end(&ast.entity(0).unwrap()));
    assert!(is_scope_end(&ast.entity(8).unwrap()));
    assert!(is_scope_end(&ast.entity(10).unwrap()));
    assert!(!is_scope_end(&ast.entity(1).unwrap()));
    assert!(!is_scope_end(&ast.entity(4).unwrap()));
    let mut ast = Ast::new();
    for name in ["a.cpp", "a.cc", "a.cxx", "a.c++", "a.hpp", "cpp", ".cc"] {
        ast = ast.with(decl(EntityKind::Other, Some(name), None, None)).0;
    }
    let ends: Vec<bool> = (0..7).map(|i| is_scope_end(&ast.entity(i).unwrap())).collect();
    assert_eq!(ends, vec![true, true, true, true, false, false, true]);
}

#[test]
fn declarations_are_added_parents_first() {
    let ast = Ast::new();
    let (ast, index) = ast.with(decl(EntityKind::Namespace, Some("a"), Some(0), None));
    assert_eq!(index, None);
    assert_eq!(ast.len(), 0);
    let (ast, index) = ast.with(decl(EntityKind::Namespace, Some("a"), None, None));
    assert_eq!(index, Some(0));
    let (ast, index) = ast.with(decl(EntityKind::Namespace, Some("b"), Some(1), None));
    assert_eq!(index, None);
    let (ast, index) = ast.with(decl(EntityKind::Namespace, Some("b"), Some(0), None));
    assert_eq!(index, Some(1));
    assert_eq!(ast.len(), 2);
    assert!(ast.entity(2).is_none());
    let b = ast.entity(1).unwrap();
    assert_eq!(b.get_kind(), EntityKind::Namespace);
    assert_eq!(b.get_name(), Some("b".to_string()));
    assert_eq!(b.get_definition_file(), None);
    assert_eq!(b.get_semantic_parent().unwrap().index(), 0);
    assert!(ast.entity(0).unwrap().get_semantic_parent().is_none());
}

#[test]
fn categories_follow_the_kind() {
    assert_eq!(CppItemKind::from(EntityKind::Namespace), Some(CppItemKind::Namespace));
    assert_eq!(CppItemKind::from(EntityKind::ClassDecl), Some(CppItemKind::Class));
    assert_eq!(CppItemKind::from(EntityKind::ClassTemplate), Some(CppItemKind::Class));
    assert_eq!(CppItemKind::from(EntityKind::StructDecl), Some(CppItemKind::Struct));
    assert_eq!(CppItemKind::from(EntityKind::EnumDecl), Some(CppItemKind::Enum));
    for kind in [
        EntityKind::FunctionDecl,
        EntityKind::FunctionTemplate,
        EntityKind::Method,
        EntityKind::Constructor,
        EntityKind::Destructor,
        EntityKind::ConversionFunction,
    ] {
        assert_eq!(CppItemKind::from(kind), Some(CppItemKind::Function));
    }
    assert_eq!(CppItemKind::from(EntityKind::Other), None);
    assert_eq!(CppItemKind::from(EntityKind::TranslationUnit), None);
    assert_eq!(CppItemKind::Class.docs_category().to_unencoded_string(), "/classes");
    assert_eq!(CppItemKind::Namespace.docs_category().to_unencoded_string(), "/namespaces");
    assert_eq!(CppItemKind::Struct.docs_category().to_unencoded_string(), "/structs");
    assert_eq!(CppItemKind::Enum.docs_category().to_unencoded_string(), "/enums");
    assert_eq!(CppItemKind::Function.docs_category().to_unencoded_string(), "/functions");
    assert_eq!(CppItemKind::Function.word(), "function");
}

#[test]
fn urls_are_category_and_qualified_name() {
    let ast = sample();
    let config = config();
    let method = ast.entity(3).unwrap();
    assert_eq!(url(method.rel_docs_url()), Some("/functions/geode/Mod/enable".to_string()));
    assert_eq!(
        url(method.abs_docs_url(&config)),
        Some("/docs/functions/geode/Mod/enable".to_string())
    );
    assert_eq!(url(ast.entity(2).unwrap().rel_docs_url()), Some("/classes/geode/Mod".to_string()));
    assert_eq!(url(ast.entity(12).unwrap().rel_docs_url()), None);
    assert_eq!(url(ast.entity(12).unwrap().abs_docs_url(&config)), None);
}

#[test]
fn standard_library_goes_to_the_reference_site() {
    let ast = sample();
    let config = config();
    let vector = ast.entity(7).unwrap();
    assert_eq!(
        url(vector.abs_docs_url(&config)),
        Some("/en.cppreference.com/w/cpp/stl_vector/vector".to_string())
    );
    assert_eq!(
        vector.github_url(&config),
        Some("https://en.cppreference.com/w/cpp/stl_vector/vector".to_string())
    );
    let std = ast.entity(6).unwrap();
    assert_eq!(
        url(std.abs_docs_url(&config)),
        Some("/en.cppreference.com/w/cpp/vector/std".to_string())
    );
    let unnamed_file = ast.entity(16).unwrap();
    assert_eq!(url(unnamed_file.abs_docs_url(&config)), None);
    assert_eq!(unnamed_file.github_url(&config), None);
    assert_eq!(url(vector.rel_docs_url()), Some("/classes/std/vector".to_string()));
}

#[test]
fn header_source_and_hints() {
    let ast = sample();
    let config = config();
    let method = ast.entity(3).unwrap();
    assert_eq!(
        method.definition_file(),
        Some("/home/me/geode/loader/include/Geode/Mod.hpp".to_string())
    );
    assert_eq!(url(method.header(&config)), Some("/loader/include/Geode/Mod.hpp".to_string()));
    assert_eq!(method.config_source(&config).unwrap().name, "Loader");
    assert_eq!(url(method.include_path(&config)), Some("/Geode/Mod.hpp".to_string()));
    assert_eq!(
        method.github_url(&config),
        Some("https://github.com/geode-sdk/geode/tree/main/loader/include/Geode/Mod.hpp".to_string())
    );
    let secret = ast.entity(13).unwrap();
    assert_eq!(secret.config_source(&config).unwrap().name, "Private");
    assert_eq!(secret.github_url(&config), None);
    assert_eq!(url(secret.include_path(&config)), Some("/x.hpp".to_string()));
    let nowhere = ast.entity(14).unwrap();
    assert_eq!(nowhere.definition_file(), None);
    assert_eq!(url(nowhere.header(&config)), None);
    assert!(nowhere.config_source(&config).is_none());
    assert_eq!(nowhere.github_url(&config), None);
    assert_eq!(url(nowhere.include_path(&config)), None);
    let far = ast.entity(15).unwrap();
    assert_eq!(url(far.header(&config)), Some("/opt/lib/far.hpp".to_string()));
    assert!(far.config_source(&config).is_none());
    assert_eq!(far.github_url(&config), None);
    assert_eq!(url(far.include_path(&config)), None);
    let mut no_tree = config;
    no_tree.project.tree = None;
    assert_eq!(method.github_url(&no_tree), None);
}

#[test]
fn stem_is_what_stands_before_the_last_dot() {
    let stem_of = |s: &str| -> String { stem(&s.chars().collect()).into_iter().collect() };
    assert_eq!(stem_of("vector"), "vector");
    assert_eq!(stem_of("stl_vector.h"), "stl_vector");
    assert_eq!(stem_of("a.tar.gz"), "a.tar");
    assert_eq!(stem_of(".hidden"), ".hidden");
    assert_eq!(stem_of("dot."), "dot");
    assert_eq!(stem_of(""), "");
    assert_eq!(stem_of("."), ".");
    assert_eq!(stem_of(".."), ".");
}
