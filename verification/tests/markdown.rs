use flash::builder::builder::Builder;
use flash::builder::event::{Level, LinkKind, MdEvent, MdTag};
use flash::builder::markdown::{
    anchor_piece_of, extract_metadata_from_md, fix_destination, fmt_events, fmt_markdown,
    metadata_with_title, output_tutorial, parse_markdown_metadata, parse_style, read_events,
    title_of_events, write_events, MDStream, Metadata, RemoveExtension, Rewrite, Style, UrlFixer,
};
use flash::builder::shared::fmt_emoji;
use flash::builder::traits::NavItem;
use flash::config::{Analysis, Config, Project, Scripts, Templates};
use flash::html::Html;
use flash::url::UrlPath;

fn config_with_base(base: Option<&str>) -> Config {
    Config {
        project: Project {
            name: "Geode".to_string(),
            version: "1.0".to_string(),
            repository: None,
            tree: None,
            icon: None,
        },
        tutorials: None,
        sources: Vec::new(),
        run: None,
        analysis: Analysis { compile_args: Vec::new() },
        cmake: None,
        templates: Templates {
            class: String::new(),
            struct_: String::new(),
            function: String::new(),
            head: String::new(),
            nav: String::new(),
            file: String::new(),
            page: String::new(),
            tutorial: String::new(),
            tutorial_index: String::new(),
        },
        scripts: Scripts { css: Vec::new(), js: Vec::new() },
        external_libs: Vec::new(),
        ignore: None,
        matching: None,
        input_dir: "project".to_string(),
        output_dir: "out".to_string(),
        output_url: base.map(|b| UrlPath::parse(b).unwrap()),
    }
}

fn builder_with_base(base: Option<&str>) -> Builder {
    Builder::new(config_with_base(base), NavItem::new_root(None, Vec::new()))
}

fn qna() -> Option<Metadata> {
    Some(Metadata { title: None, description: None, icon: None, order: None, style: Style::QnA })
}

fn no_fixer() -> Option<RemoveExtension> {
    None
}

fn md_fixer() -> Option<RemoveExtension> {
    Some(RemoveExtension { ext: ".md".to_string() })
}

fn is_quote_start(event: &MdEvent) -> bool {
    matches!(event, MdEvent::Start(MdTag::BlockQuote))
}

fn is_quote_end(event: &MdEvent) -> bool {
    matches!(event, MdEvent::End(MdTag::BlockQuote))
}

fn text(s: &str) -> MdEvent<'static> {
    MdEvent::Text(s.to_string())
}

fn heading_start(level: Level) -> MdEvent<'static> {
    MdEvent::Start(MdTag::Heading(level, None, Vec::new()))
}

fn heading_end(level: Level) -> MdEvent<'static> {
    MdEvent::End(MdTag::Heading(level, None, Vec::new()))
}

fn anchor_of(event: &MdEvent) -> Option<String> {
    match event {
        MdEvent::Start(MdTag::Heading(_, anchor, _)) => anchor.clone(),
        _ => panic!("not the start of a heading"),
    }
}

fn text_of(event: &MdEvent) -> String {
    match event {
        MdEvent::Text(text) => text.clone(),
        _ => panic!("not a text"),
    }
}

#[test]
fn heading_gets_an_anchor_from_its_text() {
    let builder = builder_with_base(None);
    let events = read_events("## Hello, World!");
    let out = fmt_events(&builder, events, None, no_fixer());
    assert_eq!(anchor_of(&out[0]), Some("hello-world".to_string()));
    let html = fmt_markdown(&builder, "## Hello, World!", None, no_fixer()).gen_html();
    assert_eq!(html, "<div class=\"text\"><h2 id=\"hello-world\">Hello, World!</h2>\n</div>");
}

#[test]
fn anchor_joins_the_text_runs_of_a_heading() {
    let builder = builder_with_base(None);
    let events = vec![
        heading_start(Level::H1),
        text("  Getting "),
        MdEvent::Start(MdTag::BlockQuote),
        text("STARTED  now!"),
        heading_end(Level::H1),
        text("Not part of it"),
    ];
    let out = fmt_events(&builder, events, None, no_fixer());
    assert_eq!(anchor_of(&out[0]), Some("getting-started-now".to_string()));
    assert_eq!(out.len(), 6);
}

#[test]
fn anchor_sees_only_the_window_ahead() {
    let builder = builder_with_base(None);
    let events = vec![
        heading_start(Level::H3),
        text("one"),
        text("two"),
        text("three"),
        text("four"),
        text("five"),
        text("six"),
        heading_end(Level::H3),
    ];
    let out = fmt_events(&builder, events, None, no_fixer());
    assert_eq!(anchor_of(&out[0]), Some("one-two-three-four-five".to_string()));
    let events = vec![heading_start(Level::H3), text("one"), text("two"), heading_end(Level::H3)];
    let stream = MDStream::<'_, '_, 1, RemoveExtension>::new(events, None, &builder, None);
    let out = stream.collect();
    assert_eq!(anchor_of(&out[0]), Some("one".to_string()));
}

#[test]
fn anchor_is_kept_or_left_out_where_the_rules_say_so() {
    let builder = builder_with_base(None);
    let given = MdEvent::Start(MdTag::Heading(Level::H2, Some("mine".to_string()), Vec::new()));
    let events = vec![given, text("Title"), heading_end(Level::H2)];
    let out = fmt_events(&builder, events, None, no_fixer());
    assert_eq!(anchor_of(&out[0]), Some("mine".to_string()));
    let events = vec![heading_start(Level::H4), text("Deep"), heading_end(Level::H4)];
    let out = fmt_events(&builder, events, None, no_fixer());
    assert_eq!(anchor_of(&out[0]), None);
    let events = vec![heading_start(Level::H3), heading_end(Level::H3)];
    let out = fmt_events(&builder, events, None, no_fixer());
    assert_eq!(anchor_of(&out[0]), Some(String::new()));
}

#[test]
fn anchor_piece_keeps_letters_digits_and_whitespace() {
    assert_eq!(anchor_piece_of("Hello, World!"), "hello world".chars().collect::<Vec<char>>());
    assert_eq!(anchor_piece_of("C++ 20: <std>"), "c 20 std".chars().collect::<Vec<char>>());
    assert_eq!(anchor_piece_of("ÄÖ-ü"), "äöü".chars().collect::<Vec<char>>());
}

#[test]
fn qna_wraps_each_answer_in_a_block_quote() {
    let builder = builder_with_base(None);
    let events = vec![
        heading_start(Level::H2),
        text("First?"),
        heading_end(Level::H2),
        text("An answer."),
        text("More of it."),
        heading_start(Level::H2),
        text("Second?"),
        heading_end(Level::H2),
        text("The last answer."),
    ];
    let out = fmt_events(&builder, events, qna(), no_fixer());
    assert_eq!(out.len(), 13);
    assert!(is_quote_start(&out[3]));
    assert_eq!(text_of(&out[4]), "An answer.");
    assert_eq!(text_of(&out[5]), "More of it.");
    assert!(is_quote_end(&out[6]));
    assert!(matches!(&out[7], MdEvent::Start(MdTag::Heading(Level::H2, _, _))));
    assert!(is_quote_start(&out[10]));
    assert_eq!(text_of(&out[11]), "The last answer.");
    assert!(is_quote_end(&out[12]));
    match &out[0] {
        MdEvent::Start(MdTag::Heading(_, _, classes)) => {
            assert_eq!(classes, &vec!["qna-question".to_string()])
        }
        _ => panic!("not the start of a heading"),
    }
}

#[test]
fn qna_opens_and_closes_an_empty_answer_at_the_end() {
    let builder = builder_with_base(None);
    let events = vec![heading_start(Level::H2), text("Why?"), heading_end(Level::H2)];
    let out = fmt_events(&builder, events, qna(), no_fixer());
    assert_eq!(out.len(), 5);
    assert!(is_quote_start(&out[3]));
    assert!(is_quote_end(&out[4]));
}

#[test]
fn qna_question_that_ends_inside_an_answer_opens_a_quote_in_it() {
    let builder = builder_with_base(None);
    let events = vec![
        heading_start(Level::H2),
        heading_end(Level::H2),
        text("answer"),
        heading_end(Level::H2),
        text("more"),
    ];
    let out = fmt_events(&builder, events, qna(), no_fixer());
    assert_eq!(out.len(), 8);
    assert!(is_quote_start(&out[2]));
    assert_eq!(text_of(&out[3]), "answer");
    assert!(matches!(&out[4], MdEvent::End(MdTag::Heading(Level::H2, _, _))));
    assert!(is_quote_start(&out[5]));
    assert_eq!(text_of(&out[6]), "more");
    assert!(is_quote_end(&out[7]));
}

#[test]
fn qna_leaves_other_heading_levels_unwrapped() {
    let builder = builder_with_base(None);
    let events = vec![
        heading_start(Level::H1),
        text("Title"),
        heading_end(Level::H1),
        text("Intro"),
        heading_start(Level::H3),
        text("Sub"),
        heading_end(Level::H3),
    ];
    let out = fmt_events(&builder, events, qna(), no_fixer());
    assert_eq!(out.len(), 7);
    assert!(!out.iter().any(|e| is_quote_start(e) || is_quote_end(e)));
    match &out[0] {
        MdEvent::Start(MdTag::Heading(_, _, classes)) => {
            assert_eq!(classes, &vec!["qna-question".to_string()])
        }
        _ => panic!("not the start of a heading"),
    }
    match &out[4] {
        MdEvent::Start(MdTag::Heading(_, _, classes)) => assert!(classes.is_empty()),
        _ => panic!("not the start of a heading"),
    }
}

#[test]
fn default_style_never_wraps() {
    let builder = builder_with_base(None);
    let events = vec![
        heading_start(Level::H2),
        text("First?"),
        heading_end(Level::H2),
        text("An answer."),
    ];
    let out = fmt_events(&builder, events, None, no_fixer());
    assert_eq!(out.len(), 4);
    assert!(!out.iter().any(|e| is_quote_start(e) || is_quote_end(e)));
    let plain = Some(Metadata::new_with_title("T".to_string()));
    let html = fmt_markdown(&builder, "## Q\n\nA\n", plain, no_fixer()).gen_html();
    assert!(!html.contains("blockquote"));
    let html = fmt_markdown(&builder, "## Q\n\nA\n", qna(), no_fixer()).gen_html();
    assert_eq!(
        html,
        "<div class=\"text\"><h2 id=\"q\" class=\"qna-question\">Q</h2>\n<blockquote>\n<p>A</p>\n</blockquote>\n</div>"
    );
}

#[test]
fn rooted_link_is_rewritten_and_made_absolute() {
    let builder = builder_with_base(Some("docs"));
    let config = &builder.config;
    assert_eq!(
        fix_destination(LinkKind::Inline, "/tutorials/intro.md", &md_fixer(), config),
        "/docs/tutorials/intro"
    );
    assert_eq!(
        fix_destination(LinkKind::Inline, "/tutorials/intro.md", &no_fixer(), config),
        "/docs/tutorials/intro.md"
    );
    assert_eq!(
        fix_destination(LinkKind::Reference, "/tutorials/intro.md", &md_fixer(), config),
        "/docs/tutorials/intro.md"
    );
    assert_eq!(
        fix_destination(LinkKind::Inline, "https://example.com/a.md", &md_fixer(), config),
        "https://example.com/a.md"
    );
    assert_eq!(
        fix_destination(LinkKind::Inline, "intro.md", &md_fixer(), config),
        "intro.md"
    );
    assert_eq!(fix_destination(LinkKind::Inline, "/../x.md", &no_fixer(), config), "/../x.md");
    assert_eq!(fix_destination(LinkKind::Inline, "", &md_fixer(), config), "");
    let html = fmt_markdown(&builder, "[intro](/tutorials/intro.md)", None, md_fixer()).gen_html();
    assert_eq!(
        html,
        "<div class=\"text\"><p><a href=\"/docs/tutorials/intro\">intro</a></p>\n</div>"
    );
    let html = fmt_markdown(&builder, "![pic](/assets/pic.png)", None, md_fixer()).gen_html();
    assert_eq!(
        html,
        "<div class=\"text\"><p><img src=\"/docs/assets/pic.png\" alt=\"pic\" /></p>\n</div>"
    );
}

#[test]
fn link_is_rewritten_by_a_function_of_the_caller() {
    let builder = builder_with_base(Some("docs"));
    let to_html = Rewrite::new(|url: UrlPath| {
        if url.starts_with(&UrlPath::part("tutorials")) {
            Some(url.remove_extension(".md").append_to_last(".html"))
        } else {
            None
        }
    });
    assert_eq!(
        to_html.fix(UrlPath::part("tutorials/a.md")).map(|u| u.to_unencoded_string()),
        Some("/tutorials/a.html".to_string())
    );
    assert!(to_html.fix(UrlPath::part("other/a.md")).is_none());
    let fixer = Some(to_html);
    assert_eq!(
        fix_destination(LinkKind::Inline, "/tutorials/a.md", &fixer, &builder.config),
        "/docs/tutorials/a.html"
    );
    assert_eq!(
        fix_destination(LinkKind::Inline, "/other/a.md", &fixer, &builder.config),
        "/docs/other/a.md"
    );
    let html = fmt_markdown(&builder, "[a](/tutorials/a.md)", None, fixer).gen_html();
    assert_eq!(html, "<div class=\"text\"><p><a href=\"/docs/tutorials/a.html\">a</a></p>\n</div>");
    let remove = RemoveExtension { ext: ".md".to_string() };
    assert_eq!(
        remove.fix(UrlPath::part("a/b.md")).map(|u| u.to_unencoded_string()),
        Some("/a/b".to_string())
    );
}

#[test]
fn emoji_shorthand_is_written_out_in_text() {
    assert_eq!(fmt_emoji("Done :tada: now"), "Done \u{1f389} now");
    assert_eq!(fmt_emoji(":warning::x:"), "\u{26a0}\u{fe0f}\u{274c}");
    assert_eq!(fmt_emoji(":unknown: :tada"), ":unknown: :tada");
    assert_eq!(fmt_emoji("::+1::"), ":\u{1f44d}:");
    assert_eq!(fmt_emoji(""), "");
}

#[test]
fn emoji_shorthand_in_a_code_block_is_kept() {
    let builder = builder_with_base(None);
    let doc = "Launch :rocket:\n\n```\nlaunch(:rocket:)\n```\n\nDone :rocket:\n";
    let out = fmt_events(&builder, read_events(doc), None, no_fixer());
    let texts: Vec<String> = out
        .iter()
        .filter_map(|e| match e {
            MdEvent::Text(t) => Some(t.clone()),
            _ => None,
        })
        .collect();
    assert_eq!(
        texts,
        vec![
            "Launch \u{1f680}".to_string(),
            "launch(:rocket:)\n".to_string(),
            "Done \u{1f680}".to_string(),
        ]
    );
    let html = fmt_markdown(&builder, doc, None, no_fixer()).gen_html();
    assert!(html.contains("<code>launch(:rocket:)\n</code>"));
}

#[test]
fn events_are_read_and_written_by_the_parser() {
    let events = read_events("# Title\n\nSome *text*.\n");
    assert!(matches!(&events[0], MdEvent::Start(MdTag::Heading(Level::H1, None, _))));
    assert_eq!(text_of(&events[1]), "Title");
    assert!(matches!(&events[2], MdEvent::End(MdTag::Heading(Level::H1, None, _))));
    assert!(matches!(&events[3], MdEvent::Start(MdTag::Other(_))));
    assert_eq!(write_events(&events), "<h1>Title</h1>\n<p>Some <em>text</em>.</p>\n");
    assert_eq!(write_events(&Vec::new()), "");
    let link = read_events("[a](/b \"c\")");
    assert!(matches!(&link[1], MdEvent::Start(MdTag::Link(LinkKind::Inline, d, t)) if d == "/b" && t == "c"));
    let auto = read_events("<https://example.com>");
    assert!(matches!(&auto[1], MdEvent::Start(MdTag::Link(LinkKind::Autolink, _, _))));
}

#[test]
fn front_matter_is_parted_from_the_body() {
    let (body, front) = parse_markdown_metadata("---\ntitle: Hi\n---\n# Body\n");
    assert_eq!(front, Some("\ntitle: Hi\n".to_string()));
    assert_eq!(body, "\n# Body\n");
    let (body, front) = parse_markdown_metadata("\n  ---a---b");
    assert_eq!(front, Some("a".to_string()));
    assert_eq!(body, "b");
    let (body, front) = parse_markdown_metadata("# No front matter\n---\n");
    assert_eq!(front, None);
    assert_eq!(body, "# No front matter\n---\n");
    let (body, front) = parse_markdown_metadata("  ---\nnever closed");
    assert_eq!(front, None);
    assert_eq!(body, "\nnever closed");
    let (body, front) = parse_markdown_metadata("------");
    assert_eq!(front, Some(String::new()));
    assert_eq!(body, "");
    let (body, front) = parse_markdown_metadata("");
    assert_eq!(front, None);
    assert_eq!(body, "");
}

#[test]
fn style_names_are_read() {
    assert_eq!(parse_style("default"), Ok(Style::Default));
    assert_eq!(parse_style("qna"), Ok(Style::QnA));
    assert_eq!(parse_style("QnA"), Err("Invalid style".to_string()));
    assert_eq!(parse_style(""), Err("Invalid style".to_string()));
    assert_eq!(Style::default(), Style::Default);
}

#[test]
fn title_comes_from_the_first_heading() {
    let meta = extract_metadata_from_md("# My Guide\n\nText\n", None, None).unwrap();
    assert_eq!(meta.title, Some("My Guide".to_string()));
    assert_eq!(meta.description, None);
    assert_eq!(meta.style, Style::Default);
    let meta = extract_metadata_from_md("# My *own* :tada: Guide\n", None, None).unwrap();
    assert_eq!(meta.title, Some("My own :tada: Guide".to_string()));
    assert_eq!(title_of_events(&read_events("## Second level\n")), "Second level");
    assert_eq!(title_of_events(&read_events("Text\n\n# Later\n")), "");
    assert_eq!(title_of_events(&Vec::new()), "");
}

#[test]
fn title_falls_back_to_the_default() {
    let meta =
        extract_metadata_from_md("Just text.\n", None, Some("Fallback".to_string())).unwrap();
    assert_eq!(meta.title, Some("Fallback".to_string()));
    assert!(extract_metadata_from_md("Just text.\n", None, None).is_none());
    assert!(extract_metadata_from_md("", None, None).is_none());
    assert!(extract_metadata_from_md("Just text.\n", qna(), None).is_none());
    let meta = extract_metadata_from_md("Just text.\n", qna(), Some("D".to_string())).unwrap();
    assert_eq!(meta.title, Some("D".to_string()));
    assert_eq!(meta.style, Style::QnA);
}

#[test]
fn title_of_the_front_matter_wins() {
    let front = Some(Metadata {
        title: Some("Front".to_string()),
        description: Some("About".to_string()),
        icon: Some("book".to_string()),
        order: Some(3),
        style: Style::QnA,
    });
    let meta = extract_metadata_from_md(
        "---\ntitle: Front\n---\n# Heading\n",
        front,
        Some("Default".to_string()),
    )
    .unwrap();
    assert_eq!(meta.title, Some("Front".to_string()));
    assert_eq!(meta.description, Some("About".to_string()));
    assert_eq!(meta.icon, Some("book".to_string()));
    assert_eq!(meta.order, Some(3));
    assert_eq!(meta.style, Style::QnA);
    let meta = metadata_with_title("Derived".to_string(), qna(), Some("D".to_string())).unwrap();
    assert_eq!(meta.title, Some("Derived".to_string()));
    let meta = extract_metadata_from_md("---\nicon: x\n---\n# Heading\n", qna(), None).unwrap();
    assert_eq!(meta.title, Some("Heading".to_string()));
}

#[test]
fn metadata_with_a_title_has_defaults_elsewhere() {
    let meta = Metadata::new_with_title("T".to_string());
    assert_eq!(meta.title, Some("T".to_string()));
    assert_eq!(meta.description, None);
    assert_eq!(meta.icon, None);
    assert_eq!(meta.order, None);
    assert_eq!(meta.style, Style::Default);
    let meta = Metadata::default();
    assert_eq!(meta.title, None);
    assert_eq!(meta.style, Style::Default);
}

#[test]
fn markdown_body_is_what_follows_the_front_matter() {
    let builder = builder_with_base(None);
    let html =
        fmt_markdown(&builder, "---\nstyle: qna\n---\nHello :smile:\n", None, no_fixer()).gen_html();
    assert_eq!(html, "<div class=\"text\"><p>Hello \u{1f604}</p>\n</div>");
}

struct Page;

impl flash::builder::traits::Entry for Page {
    fn resolvable(&self) -> bool {
        true
    }

    fn is_resolvable(&self) -> bool {
        true
    }

    fn name(&self) -> String {
        "Intro & more".to_string()
    }

    fn url(&self) -> UrlPath {
        UrlPath::parse("tutorials/intro").unwrap()
    }

    fn build(&self, _builder: &Builder) -> flash::builder::traits::BuildResult {
        Ok(Vec::new())
    }

    fn nav(&self) -> NavItem {
        NavItem::new_link("Intro", self.url(), None)
    }
}

#[test]
fn tutorial_has_title_content_and_links() {
    let builder = builder_with_base(Some("docs"));
    let slots =
        output_tutorial(&Page, &builder, "See [next](/tutorials/next.md)", None, Html::text("L"));
    assert_eq!(slots.len(), 3);
    assert_eq!(slots[0].0, "title");
    assert_eq!(slots[0].1.gen_html(), "Intro &amp; more");
    assert_eq!(slots[1].0, "content");
    assert_eq!(
        slots[1].1.gen_html(),
        "<div class=\"text\"><p>See <a href=\"/docs/tutorials/next\">next</a></p>\n</div>"
    );
    assert_eq!(slots[2].0, "links");
    assert_eq!(slots[2].1.gen_html(), "L");
}
