use flash::builder::traits::NavItem;
use flash::config::{Analysis, Config, Project, Scripts, Templates};
use flash::html::{Html, HtmlElement};
use flash::url::UrlPath;

fn config_with_base(base: Option<&str>) -> Config {
    Config {
        project: Project {
            name: "Geode".to_string(),
            version: "1.0".to_string(),
            repository: None,
            tree: None,
            icon: None,
        },
        tutorials: None,
        sources: Vec::new(),
        run: None,
        analysis: Analysis { compile_args: Vec::new() },
        cmake: None,
        templates: Templates {
            class: String::new(),
            struct_: String::new(),
            function: String::new(),
            head: String::new(),
            nav: String::new(),
            file: String::new(),
            page: String::new(),
            tutorial: String::new(),
            tutorial_index: String::new(),
        },
        scripts: Scripts { css: Vec::new(), js: Vec::new() },
        external_libs: Vec::new(),
        ignore: None,
        matching: None,
        input_dir: "project".to_string(),
        output_dir: "out".to_string(),
        output_url: base.map(|b| UrlPath::parse(b).unwrap()),
    }
}

#[test]
fn link_is_an_anchor_to_the_absolute_url() {
    let config = config_with_base(Some("docs"));
    let link = NavItem::new_link("Mod", UrlPath::parse("classes/geode/Mod").unwrap(), None);
    assert_eq!(
        link.to_html(&config).gen_html(),
        "<a onclick=\"return navigate('/docs/classes/geode/Mod')\" href=\"/docs/classes/geode/Mod\">Mod</a>"
    );
    let link = NavItem::new_link("a<b", UrlPath::new(), Some(("code", true)));
    assert_eq!(
        link.to_html(&config_with_base(None)).gen_html(),
        "<a onclick=\"return navigate('/')\" href=\"/\"><i class=\"icon variant\" data-feather=\"code\"></i>a&lt;b</a>"
    );
    let link = NavItem::new_link("x", UrlPath::new(), Some(("book", false)));
    assert_eq!(
        link.to_html(&config_with_base(None)).gen_html(),
        "<a onclick=\"return navigate('/')\" href=\"/\"><i class=\"icon\" data-feather=\"book\"></i>x</a>"
    );
}

#[test]
fn directory_opens_and_closes() {
    let config = config_with_base(None);
    let inner = NavItem::new_link("f", UrlPath::parse("functions/f").unwrap(), None);
    let dir = NavItem::new_dir("geode", vec![inner], Some(("folder", false)));
    assert_eq!(
        dir.to_html(&config).gen_html(),
        "<details><summary><i data-feather=\"chevron-right\"></i><i class=\"icon\" data-feather=\"folder\"></i>geode</summary><div><a onclick=\"return navigate('/functions/f')\" href=\"/functions/f\">f</a></div></details>"
    );
    let open = NavItem::new_dir_open("geode", Vec::new(), None, true);
    assert_eq!(
        open.to_html(&config).gen_html(),
        "<details open=\"\"><summary><i data-feather=\"chevron-right\"></i>geode</summary><div></div></details>"
    );
    let closed = NavItem::new_dir_open("geode", Vec::new(), None, false);
    assert_eq!(
        closed.to_html(&config).gen_html(),
        "<details><summary><i data-feather=\"chevron-right\"></i>geode</summary><div></div></details>"
    );
}

#[test]
fn root_is_a_list_or_an_open_container() {
    let config = config_with_base(None);
    let a = NavItem::new_link("a", UrlPath::parse("a").unwrap(), None);
    let b = NavItem::new_link("b", UrlPath::parse("b").unwrap(), None);
    let root = NavItem::new_root(None, vec![a, b]);
    assert_eq!(
        root.to_html(&config).gen_html(),
        "<a onclick=\"return navigate('/a')\" href=\"/a\">a</a><a onclick=\"return navigate('/b')\" href=\"/b\">b</a>"
    );
    let named = NavItem::new_root(Some("Classes"), vec![NavItem::new_root(None, Vec::new())]);
    assert_eq!(
        named.to_html(&config).gen_html(),
        "<details open=\"\" class=\"root\"><summary><i data-feather=\"chevron-right\"></i>Classes</summary><div></div></details>"
    );
    assert_eq!(NavItem::new_root(None, Vec::new()).to_html(&config).gen_html(), "");
}

#[test]
fn constructors_keep_what_they_are_given() {
    match NavItem::new_link("n", UrlPath::parse("u").unwrap(), Some(("i", true))) {
        NavItem::Link(name, url, icon) => {
            assert_eq!(name, "n");
            assert_eq!(url.to_unencoded_string(), "/u");
            assert_eq!(icon, Some(("i".to_string(), true)));
        }
        _ => panic!("not a link"),
    }
    match NavItem::new_dir("d", Vec::new(), None) {
        NavItem::Dir(name, items, icon, open) => {
            assert_eq!(name, "d");
            assert!(items.is_empty());
            assert_eq!(icon, None);
            assert!(!open);
        }
        _ => panic!("not a directory"),
    }
    match NavItem::new_dir_open("d", Vec::new(), Some(("i", false)), true) {
        NavItem::Dir(_, _, icon, open) => {
            assert_eq!(icon, Some(("i".to_string(), false)));
            assert!(open);
        }
        _ => panic!("not a directory"),
    }
    match NavItem::new_root(Some("r"), Vec::new()) {
        NavItem::Root(name, items) => {
            assert_eq!(name, Some("r".to_string()));
            assert!(items.is_empty());
        }
        _ => panic!("not a root"),
    }
}

#[test]
fn html_is_written_with_escapes() {
    let element = HtmlElement::new("p")
        .with_class("a")
        .with_class_opt(Some("b"))
        .with_class_opt(None)
        .with_attr("title", "x \"y\" & <z>")
        .with_attr_opt("hidden", None)
        .with_attr_opt("id", Some("i"))
        .with_text("1 < 2 & 3 > 2")
        .with_child(Html::Raw("<br>".to_string()))
        .with_child_opt(None)
        .with_child_opt(Some(Html::text("t")))
        .with_children(vec![Html::list(vec![Html::text("u"), Html::text("v")])]);
    assert_eq!(
        element.into_html().gen_html(),
        "<p class=\"a b\" title=\"x &quot;y&quot; &amp; &lt;z&gt;\" id=\"i\">1 &lt; 2 &amp; 3 &gt; 2<br>tuv</p>"
    );
    assert_eq!(HtmlElement::new("div").into_html().gen_html(), "<div></div>");
    assert_eq!(Html::list(Vec::new()).gen_html(), "");
}
