//! One run: numbering overloads, assembling navigation, composing pages and
//! gathering what the page tasks report.

use crate::builder::function::Function;
use crate::builder::traits::{
    items_of, nav_html, BuildResult, Entry, NavItem, NavView, OutputEntry, PageTask,
};
use crate::config::Config;
use crate::html::{html_text, Html};
use crate::text::{
    append_chars, chars_of, lemma_texts_of_push, string_of, substitute, substituted, table_of,
    texts_of,
};
use crate::url::{path_text, paths_of, site_base, UrlPath};
use vstd::prelude::*;

verus! {

/// What every page of a run is built with.
pub struct Builder {
    pub config: Config,
    /// The navigation of the site. It is complete before any page is built.
    pub nav: NavItem,
}

/// How a slot is written in a template.
pub open spec fn slot_token(name: Seq<char>) -> Seq<char> {
    seq!['{'] + name + seq!['}']
}

/// What each slot of a vector holds: its name and its content as HTML text.
pub open spec fn slots_of(slots: Seq<(&'static str, Html)>) -> Seq<(Seq<char>, Seq<char>)> {
    Seq::new(slots.len(), |i: int| (slots[i].0@, html_text(slots[i].1@)))
}

/// The slots as text: each with its name and its content as HTML text.
pub open spec fn slot_texts(
    slots: Seq<(Seq<char>, crate::html::HtmlView)>,
) -> Seq<(Seq<char>, Seq<char>)> {
    Seq::new(slots.len(), |i: int| (slots[i].0, html_text(slots[i].1)))
}

/// The slots of a vector as text are the text of what they hold.
pub proof fn lemma_slot_texts(slots: Seq<(&'static str, Html)>)
    ensures
        slots_of(slots) == slot_texts(crate::builder::shared::slot_views(slots)),
{
    assert(slots_of(slots) =~= slot_texts(crate::builder::shared::slot_views(slots)));
}

/// The table that replaces the token of each slot by its content.
pub open spec fn slot_table(slots: Seq<(Seq<char>, Seq<char>)>) -> Seq<(Seq<char>, Seq<char>)> {
    Seq::new(slots.len(), |i: int| (slot_token(slots[i].0), slots[i].1))
}

/// A template with its slots filled. What is filled in is not read again for
/// tokens; a token that names no slot stays.
pub open spec fn filled(template: Seq<char>, slots: Seq<(Seq<char>, Seq<char>)>) -> Seq<char> {
    substituted(template, 0, slot_table(slots))
}

/// The file of a page below the output directory.
pub open spec fn page_path(output_dir: Seq<char>, url: Seq<Seq<char>>) -> Seq<char> {
    output_dir + path_text(url) + "/index.html"@
}

/// A whole page: the page template with title, description, content and
/// navigation filled in.
pub open spec fn page_text(
    page_template: Seq<char>,
    title: Seq<char>,
    description: Seq<char>,
    content: Seq<char>,
    nav: Seq<char>,
) -> Seq<char> {
    filled(
        page_template,
        seq![
            ("title"@, crate::html::escaped(title)),
            ("description"@, crate::html::escaped(description)),
            ("content"@, content),
            ("nav"@, nav),
        ],
    )
}

/// Fills the slots of a template, given each slot as text.
pub fn fill_text(template: &str, slots: &Vec<(Vec<char>, Vec<char>)>) -> (r: String)
    ensures
        r@ == filled(template@, table_of(slots@)),
{
    let mut table: Vec<(Vec<char>, Vec<char>)> = Vec::new();
    let mut i: usize = 0;
    while i < slots.len()
        invariant
            0 <= i <= slots.len(),
            table@.len() == i,
            forall|k: int|
                0 <= k < i ==> (#[trigger] table@[k]).0@ == slot_token(slots@[k].0@) && table@[k].1@
                    == slots@[k].1@,
        decreases slots.len() - i,
    {
        let mut token: Vec<char> = Vec::new();
        token.push('{');
        append_chars(&mut token, &slots[i].0);
        token.push('}');
        let value = crate::text::copy_chars(&slots[i].1);
        proof {
            assert(token@ =~= slot_token(slots@[i as int].0@));
        }
        table.push((token, value));
        i += 1;
    }
    proof {
        assert(table_of(table@) =~= slot_table(table_of(slots@)));
    }
    let chars = chars_of(template);
    let out = substitute(&chars, &table);
    string_of(&out)
}

/// Fills the slots of a template.
pub fn fill_template(template: &str, slots: &Vec<(&'static str, Html)>) -> (r: String)
    ensures
        r@ == filled(template@, slots_of(slots@)),
{
    let mut texts: Vec<(Vec<char>, Vec<char>)> = Vec::new();
    let mut i: usize = 0;
    while i < slots.len()
        invariant
            0 <= i <= slots.len(),
            table_of(texts@) == slots_of(slots@).take(i as int),
        decreases slots.len() - i,
    {
        let name = chars_of(slots[i].0);
        let content = chars_of(slots[i].1.gen_html().as_str());
        proof {
            assert(table_of(texts@.push((name, content))) =~= table_of(texts@).push(
                (name@, content@),
            ));
            assert(slots_of(slots@).take(i + 1) =~= slots_of(slots@).take(i as int).push(
                (name@, content@),
            ));
        }
        texts.push((name, content));
        i += 1;
    }
    proof {
        assert(slots_of(slots@).take(i as int) =~= slots_of(slots@));
    }
    fill_text(template, &texts)
}

/// What a run reports at its end.
#[derive(Debug)]
pub struct BuildReport {
    /// The pages that were written.
    pub built: Vec<UrlPath>,
    /// What went wrong, one message for each task that failed.
    pub failed: Vec<String>,
}

/// The URLs of the tasks that succeeded, in order.
pub open spec fn successes(results: Seq<Result<UrlPath, String>>) -> Seq<Seq<Seq<char>>>
    decreases results.len(),
{
    if results.len() == 0 {
        Seq::empty()
    } else {
        match results.last() {
            Ok(url) => successes(results.drop_last()).push(url@),
            Err(_) => successes(results.drop_last()),
}
    }
}

/// The messages of the tasks that failed, in order.
pub open spec fn failures(results: Seq<Result<UrlPath, String>>) -> Seq<Seq<char>>
    decreases results.len(),
{
    if results.len() == 0 {
        Seq::empty()
    } else {
        match results.last() {
            Ok(_) => failures(results.drop_last()),
            Err(message) => failures(results.drop_last()).push(message@),
}
    }
}

/// Gathers what the page tasks report: every success and every failure, each
/// in the order of the tasks.
pub fn merge_results(results: Vec<Result<UrlPath, String>>) -> (report: BuildReport)
    ensures
        paths_of(report.built@) == successes(results@),
        texts_of(report.failed@) == failures(results@),
{
    let mut results = results;
    let ghost all = results@;
    let mut built_back: Vec<UrlPath> = Vec::new();
    let mut failed_back: Vec<String> = Vec::new();
    // The results are taken from the back, and then put in order.
    while results.len() > 0
        invariant
            results@ == all.take(results@.len() as int),
            results@.len() <= all.len(),
            successes(results@) + paths_of(built_back@).reverse() == successes(all),
            failures(results@) + texts_of(failed_back@).reverse() == failures(all),
        decreases results.len(),
    {
        let ghost before = results@;
        let ghost s_tail = paths_of(built_back@).reverse();
        let ghost f_tail = texts_of(failed_back@).reverse();
        let result = results.pop().unwrap();
        proof {
            assert(before.drop_last() =~= results@);
            assert(before.last() == result);
            assert(results@ =~= all.take(results@.len() as int));
        }
        match result {
            Ok(url) => {
                proof {
                    assert(paths_of(built_back@.push(url)).reverse() =~= seq![url@] + s_tail);
                    assert(successes(results@).push(url@) + s_tail =~= successes(results@) + (
                    seq![url@] + s_tail));
                }
                built_back.push(url);
            },
            Err(message) => {
                proof {
                    lemma_texts_of_push(failed_back@, message);
                    assert(texts_of(failed_back@).push(message@).reverse() =~= seq![message@]
                        + f_tail);
                    assert(failures(results@).push(message@) + f_tail =~= failures(results@) + (
                    seq![message@] + f_tail));
                }
                failed_back.push(message);
            },
}
    }
    let mut built: Vec<UrlPath> = Vec::new();
    let mut failed: Vec<String> = Vec::new();
    proof {
        assert(paths_of(built@) + paths_of(built_back@).reverse() =~= successes(all));
        assert(texts_of(failed@) + texts_of(failed_back@).reverse() =~= failures(all));
    }
    while built_back.len() > 0
        invariant
            paths_of(built@) + paths_of(built_back@).reverse() == successes(all),
        decreases built_back.len(),
    {
        let ghost before = paths_of(built_back@);
        let ghost sofar = paths_of(built@);
        let url = built_back.pop().unwrap();
        proof {
            assert(before.reverse() =~= seq![url@] + paths_of(built_back@).reverse());
            assert(paths_of(built@.push(url)) =~= sofar.push(url@));
            assert(sofar.push(url@) + paths_of(built_back@).reverse() =~= sofar + (seq![url@]
                + paths_of(built_back@).reverse()));
        }
        built.push(url);
    }
    while failed_back.len() > 0
        invariant
            texts_of(failed@) + texts_of(failed_back@).reverse() == failures(all),
        decreases failed_back.len(),
    {
        let ghost before = texts_of(failed_back@);
        let ghost sofar = texts_of(failed@);
        let message = failed_back.pop().unwrap();
        proof {
            assert(before.reverse() =~= seq![message@] + texts_of(failed_back@).reverse());
            lemma_texts_of_push(failed@, message);
            assert(sofar.push(message@) + texts_of(failed_back@).reverse() =~= sofar + (
            seq![message@] + texts_of(failed_back@).reverse()));
        }
        failed.push(message);
    }
    proof {
        assert(paths_of(built@) + Seq::<Seq<Seq<char>>>::empty() =~= paths_of(built@));
        assert(texts_of(failed@) + Seq::<Seq<char>>::empty() =~= texts_of(failed@));
        assert(paths_of(built_back@).reverse() =~= Seq::<Seq<Seq<char>>>::empty());
        assert(texts_of(failed_back@).reverse() =~= Seq::<Seq<char>>::empty());
    }
    BuildReport { built, failed }
}

/// A task that fails takes nothing from the others: with it or without it,
/// the same pages are reported as written, in the same order.
pub proof fn law_failure_spares_siblings(
    results: Seq<Result<UrlPath, String>>,
    at: int,
    message: String,
)
    requires
        0 <= at <= results.len(),
    ensures
        successes(results.insert(at, Err(message))) == successes(results),
        failures(results.insert(at, Err(message))).len() == failures(results).len() + 1,
    decreases results.len() - at,
{
    let with_failure = results.insert(at, Err(message));
    if at == results.len() {
        assert(with_failure.drop_last() =~= results);
        assert(with_failure.last() == Err::<UrlPath, String>(message));
    } else {
        law_failure_spares_siblings(results.drop_last(), at, message);
        assert(with_failure.drop_last() =~= results.drop_last().insert(at, Err(message)));
        assert(with_failure.last() == results.last());
    }
}

impl Builder {
    /// A run with its configuration and its navigation.
    pub fn new(config: Config, nav: NavItem) -> (r: Builder)
        ensures
            r.config == config,
            r.nav == nav,
    {
        Builder { config, nav }
    }

    /// Composes one page and says where it is written.
    pub fn page_task(
        &self,
        url: UrlPath,
        title: &str,
        description: &str,
        template: &str,
        slots: &Vec<(&'static str, Html)>,
    ) -> (task: PageTask)
        ensures
            task.url == url,
            task.path@ == page_path(self.config.output_dir@, url@),
            task.content@ == page_text(
                self.config.templates.page@,
                title@,
                description@,
                filled(template@, slots_of(slots@)),
                html_text(nav_html(self.nav@, site_base(self.config.base_view()))),
            ),
    {
        let content = fill_template(template, slots);
        let nav = self.nav.to_html(&self.config).gen_html();
        let mut outer: Vec<(Vec<char>, Vec<char>)> = Vec::new();
        let mut title_text: Vec<char> = Vec::new();
        crate::html::write_escaped(&mut title_text, &chars_of(title));
        let mut description_text: Vec<char> = Vec::new();
        crate::html::write_escaped(&mut description_text, &chars_of(description));
        outer.push((chars_of("title"), title_text));
        outer.push((chars_of("description"), description_text));
        outer.push((chars_of("content"), chars_of(content.as_str())));
        outer.push((chars_of("nav"), chars_of(nav.as_str())));
        proof {
            assert(title_text@ =~= crate::html::escaped(title@));
            assert(description_text@ =~= crate::html::escaped(description@));
            assert(table_of(outer@) =~= seq![
                ("title"@, crate::html::escaped(title@)),
                ("description"@, crate::html::escaped(description@)),
                ("content"@, content@),
                ("nav"@, nav@),
            ]);
        }
        let page = fill_text(self.config.templates.page.as_str(), &outer);
        let mut path = self.config.output_dir.clone();
        path.append(url.to_unencoded_string().as_str());
        path.append("/index.html");
        PageTask { url, path, content: page }
    }

    /// The page of an entry, or why there is none: without a URL there is no
    /// page.
    pub fn create_output(
        &self,
        url: Option<UrlPath>,
        name: &str,
        description: &str,
        template: &str,
        slots: &Vec<(&'static str, Html)>,
    ) -> (r: BuildResult)
        ensures
            is_page_of(
                self,
                crate::builder::markdown::path_of(url),
                name@,
                description@,
                template@,
                slots_of(slots@),
                r,
            ),
            r.is_ok() ==> r.unwrap()@[0].url == url.unwrap(),
    {
        match url {
            Some(url) => {
                let task = self.page_task(url, name, description, template, slots);
                let mut tasks: Vec<PageTask> = Vec::new();
                tasks.push(task);
                Ok(tasks)
            },
            None => {
                let mut message = String::from_str("Unable to resolve a URL for ");
                message.append(name);
                Err(message)
            },
        }
    }

    /// The page of an entry, or why there is none: an entry without a URL has
    /// no page. The name, the URL, the template with its slots and the
    /// description are what the entry gives when it is asked for them.
    pub fn create_output_for<E: OutputEntry>(&self, entry: &E) -> (r: BuildResult)
        ensures
            r.is_ok() == entry.resolvable(),
            exists|
                name: String,
                url: Option<UrlPath>,
                out: (String, Vec<(&'static str, Html)>),
                description: String,
            |
                #[trigger] asked_for_output(self, entry, name, url, out, description)
                    && is_page_of(
                    self,
                    crate::builder::markdown::path_of(url),
                    name@,
                    description@,
                    out.0@,
                    slots_of(out.1@),
                    r,
                ),
    {
        let name = entry.name();
        let url = if entry.is_resolvable() {
            Some(entry.url())
        } else {
            None
        };
        let out = entry.output(self);
        let description = entry.description(self);
        let r = self.create_output(
            url,
            name.as_str(),
            description.as_str(),
            out.0.as_str(),
            &out.1,
        );
        proof {
            assert(asked_for_output(self, entry, name, url, out, description));
        }
        r
    }

    /// Asks every entry for its pages. An entry that cannot be built is left
    /// out, and its message is kept; the others are not held up by it.
    pub fn build_all<E: Entry>(&self, entries: &Vec<E>) -> (r: (Vec<PageTask>, Vec<String>))
        ensures
            exists|results: Seq<BuildResult>|
                #[trigger] built_by(self, entries@, results) && r.0@ == gathered_pages(results)
                    && r.1@ == gathered_messages(results),
            r.1@.len() <= entries@.len(),
    {
        let mut results: Vec<BuildResult> = Vec::new();
        let mut i: usize = 0;
        while i < entries.len()
            invariant
                0 <= i <= entries.len(),
                results@.len() == i,
                forall|k: int|
                    0 <= k < i ==> call_ensures(
                        E::build,
                        (&entries@[k], self),
                        #[trigger] results@[k],
                    ),
            decreases entries.len() - i,
        {
            let result = entries[i].build(self);
            results.push(result);
            i += 1;
        }
        let ghost all = results@;
        proof {
            lemma_gathered_lengths(all);
            assert(built_by(self, entries@, all));
        }
        gather_builds(results)
    }
}

/// Whether `results` is what the entries gave when each was asked for its
/// pages in turn: one result for each entry, the one that its `build`
/// returned.
pub open spec fn built_by<E: Entry>(
    builder: &Builder,
    entries: Seq<E>,
    results: Seq<BuildResult>,
) -> bool {
    &&& results.len() == entries.len()
    &&& forall|k: int|
        0 <= k < entries.len() ==> call_ensures(
            E::build,
            (&entries[k], builder),
            #[trigger] results[k],
        )
}

/// Whether `r` is what asking for the page of an entry gives: with a URL,
/// one page at that URL, in its file below the output directory, with the
/// page template filled; without one, the message that says so.
pub open spec fn is_page_of(
    builder: &Builder,
    url: Option<Seq<Seq<char>>>,
    name: Seq<char>,
    description: Seq<char>,
    template: Seq<char>,
    slots: Seq<(Seq<char>, Seq<char>)>,
    r: BuildResult,
) -> bool {
    match (url, r) {
        (Some(url), Ok(pages)) => pages@.len() == 1 && pages@[0].url@ == url && pages@[0].path@
            == page_path(builder.config.output_dir@, url) && pages@[0].content@ == page_text(
            builder.config.templates.page@,
            name,
            description,
            filled(template, slots),
            html_text(nav_html(builder.nav@, site_base(builder.config.base_view()))),
        ),
        (None, Err(message)) => message@ == "Unable to resolve a URL for "@ + name,
        _ => false,
    }
}

/// Whether these are what an entry gave when it was asked for what its page
/// is made of: its name, its URL if it has one, its template with the slots,
/// and its description.
pub open spec fn asked_for_output<E: OutputEntry>(
    builder: &Builder,
    entry: &E,
    name: String,
    url: Option<UrlPath>,
    out: (String, Vec<(&'static str, Html)>),
    description: String,
) -> bool {
    &&& call_ensures(E::name, (entry,), name)
    &&& match url {
        Some(url) => entry.resolvable() && call_ensures(E::url, (entry,), url),
        None => !entry.resolvable(),
    }
    &&& call_ensures(E::output, (entry, builder), out)
    &&& call_ensures(E::description, (entry, builder), description)
}

/// Whether `navs` holds what the entries that have a URL gave when each was
/// asked for its navigation, in the order of the entries.
pub open spec fn linked_by<E: Entry>(entries: Seq<E>, navs: Seq<NavItem>) -> bool
    decreases entries.len(),
{
    if entries.len() == 0 {
        navs.len() == 0
    } else if entries.last().resolvable() {
        navs.len() > 0 && call_ensures(E::nav, (&entries.last(),), navs.last()) && linked_by(
            entries.drop_last(),
            navs.drop_last(),
        )
    } else {
        linked_by(entries.drop_last(), navs)
    }
}

/// The pages of every entry that could be built, in order.
pub open spec fn gathered_pages(results: Seq<BuildResult>) -> Seq<PageTask>
    decreases results.len(),
{
    if results.len() == 0 {
        Seq::empty()
    } else {
        match results.last() {
            Ok(pages) => gathered_pages(results.drop_last()) + pages@,
            Err(_) => gathered_pages(results.drop_last()),
}
    }
}

/// The message of every entry that could not be built, in order.
pub open spec fn gathered_messages(results: Seq<BuildResult>) -> Seq<String>
    decreases results.len(),
{
    if results.len() == 0 {
        Seq::empty()
    } else {
        match results.last() {
            Ok(_) => gathered_messages(results.drop_last()),
            Err(message) => gathered_messages(results.drop_last()).push(message),
}
    }
}

/// There are no more messages than entries.
pub proof fn lemma_gathered_lengths(results: Seq<BuildResult>)
    ensures
        gathered_messages(results).len() <= results.len(),
    decreases results.len(),
{
    if results.len() > 0 {
        lemma_gathered_lengths(results.drop_last());
    }
}

/// Puts together what the entries gave when they were asked for their pages:
/// the pages of those that could be built, and the messages of the others.
pub fn gather_builds(results: Vec<BuildResult>) -> (r: (Vec<PageTask>, Vec<String>))
    ensures
        r.0@ == gathered_pages(results@),
        r.1@ == gathered_messages(results@),
{
    let mut results = results;
    let ghost all = results@;
    let mut back: Vec<BuildResult> = Vec::new();
    proof {
        assert(all.take(all.len() as int) =~= all);
    }
    while results.len() > 0
        invariant
            results@.len() + back@.len() == all.len(),
            results@ == all.take(results@.len() as int),
            forall|k: int| 0 <= k < back@.len() ==> back@[k] == all[all.len() - 1 - k],
        decreases results.len(),
    {
        let ghost before = results@;
        let result = results.pop().unwrap();
        proof {
            assert(result == before[before.len() - 1]);
            assert(results@ =~= all.take(results@.len() as int));
        }
        back.push(result);
    }
    let mut pages: Vec<PageTask> = Vec::new();
    let mut messages: Vec<String> = Vec::new();
    proof {
        assert(all.take(0) =~= Seq::empty());
        assert(results@.len() == 0);
    }
    while back.len() > 0
        invariant
            back@.len() <= all.len(),
            forall|k: int| 0 <= k < back@.len() ==> back@[k] == all[all.len() - 1 - k],
            pages@ == gathered_pages(all.take(all.len() - back@.len())),
            messages@ == gathered_messages(all.take(all.len() - back@.len())),
        decreases back.len(),
    {
        let ghost n = back@.len();
        let ghost done = all.take(all.len() - n);
        let result = back.pop().unwrap();
        proof {
            assert(result == all[all.len() - n]);
            assert(all.take(all.len() - n + 1).drop_last() =~= done);
            assert(all.take(all.len() - n + 1).last() == result);
        }
        match result {
            Ok(mut more) => {
                pages.append(&mut more);
            },
            Err(message) => {
                messages.push(message);
            },
}
    }
    proof {
        assert(all.take(all.len() as int) =~= all);
    }
    (pages, messages)
}

/// The navigation of a list of entries under one label: what each entry
/// that has a URL gives for its navigation, in the order of the entries.
pub fn assemble_nav<E: Entry>(label: Option<&str>, entries: &Vec<E>) -> (r: NavItem)
    ensures
        exists|navs: Seq<NavItem>|
            #[trigger] linked_by(entries@, navs) && r@ == NavView::Root(
                match label {
                    Some(label) => Some(label@),
                    None => None,
                },
                items_of(navs),
            ),
        r@ is Root,
        r@->Root_1.len() <= entries@.len(),
{
    let mut items: Vec<NavItem> = Vec::new();
    let mut i: usize = 0;
    proof {
        assert(entries@.take(0) =~= Seq::<E>::empty());
    }
    while i < entries.len()
        invariant
            0 <= i <= entries.len(),
            items@.len() <= i,
            linked_by(entries@.take(i as int), items@),
        decreases entries.len() - i,
    {
        let ghost before = items@;
        proof {
            assert(entries@.take(i + 1).drop_last() =~= entries@.take(i as int));
            assert(entries@.take(i + 1).last() == entries@[i as int]);
        }
        if entries[i].is_resolvable() {
            let nav = entries[i].nav();
            items.push(nav);
            proof {
                assert(items@.drop_last() =~= before);
                assert(items@.last() == nav);
            }
        }
        i += 1;
    }
    proof {
        assert(entries@.take(i as int) =~= entries@);
    }
    let ghost navs = items@;
    let r = NavItem::new_root(label, items);
    proof {
        assert(items_of(navs).len() == navs.len());
    }
    r
}

/// How many of the names before `index` are the name at `index`.
pub open spec fn overload_index(names: Seq<Seq<Seq<char>>>, index: int) -> nat
    decreases index,
{
    if index <= 0 || index > names.len() {
        0
    } else {
        overload_count(names, names[index], index)
    }
}

/// How many of the first `upto` names are `name`.
pub open spec fn overload_count(names: Seq<Seq<Seq<char>>>, name: Seq<Seq<char>>, upto: int) -> nat
    decreases upto,
{
    if upto <= 0 || upto > names.len() {
        0
    } else if names[upto - 1] == name {
        overload_count(names, name, upto - 1) + 1
    } else {
        overload_count(names, name, upto - 1)
    }
}

/// Counting further never counts less.
pub proof fn lemma_overload_count_grows(
    names: Seq<Seq<Seq<char>>>,
    name: Seq<Seq<char>>,
    from: int,
    upto: int,
)
    requires
        0 <= from <= upto <= names.len(),
    ensures
        overload_count(names, name, from) <= overload_count(names, name, upto),
    decreases upto - from,
{
    if from < upto {
        lemma_overload_count_grows(names, name, from, upto - 1);
    }
}

/// Two functions of one name get different indices, the earlier one the
/// smaller; so by `law_overloads_have_distinct_urls` their URLs differ.
pub proof fn law_numbering_separates_overloads(names: Seq<Seq<Seq<char>>>, i: int, j: int)
    requires
        0 <= i < j < names.len(),
        names[i] == names[j],
    ensures
        overload_index(names, i) < overload_index(names, j),
        overload_url_differs(names, i, j),
{
    let name = names[j];
    lemma_overload_count_grows(names, name, i + 1, j);
    assert(overload_count(names, name, i + 1) == overload_count(names, name, i) + 1);
    if i == 0 {
        assert(overload_count(names, name, 0) == 0);
    }
    assert forall|url: Seq<Seq<char>>| crate::url::valid_segments(url) && url.len() > 0 implies (
    #[trigger] crate::builder::function::overload_url(url, Some(overload_index(names, i))))
        != crate::builder::function::overload_url(url, Some(overload_index(names, j))) by {
        crate::builder::function::law_overloads_have_distinct_urls(
            url,
            overload_index(names, i),
            overload_index(names, j),
        );
    }
}

/// Whether the functions at `i` and `j` get different URLs from any URL that
/// they share before numbering.
pub open spec fn overload_url_differs(names: Seq<Seq<Seq<char>>>, i: int, j: int) -> bool {
    forall|url: Seq<Seq<char>>|
        crate::url::valid_segments(url) && url.len() > 0 ==> (
        #[trigger] crate::builder::function::overload_url(url, Some(overload_index(names, i))))
            != crate::builder::function::overload_url(url, Some(overload_index(names, j)))
}

/// The qualified names of the functions of a vector.
pub open spec fn names_of(functions: Seq<Function<'_>>) -> Seq<Seq<Seq<char>>> {
    Seq::new(functions.len(), |i: int| functions[i].qualified())
}

/// Whether two qualified names are the same.
pub fn same_name(a: &Vec<String>, b: &Vec<String>) -> (r: bool)
    ensures
        r == (texts_of(a@) == texts_of(b@)),
{
    if a.len() != b.len() {
        assert(texts_of(a@).len() != texts_of(b@).len());
        return false;
    }
    let mut i: usize = 0;
    while i < a.len()
        invariant
            0 <= i <= a.len(),
            a.len() == b.len(),
            forall|k: int| 0 <= k < i ==> texts_of(a@)[k] == texts_of(b@)[k],
        decreases a.len() - i,
    {
        if a[i] != b[i] {
            assert(texts_of(a@)[i as int] != texts_of(b@)[i as int]);
            return false;
        }
        i += 1;
    }
    assert(texts_of(a@) =~= texts_of(b@));
    true
}

/// Numbers the functions that share a qualified name, in the order in which
/// they stand: the first of a name gets 0, the next 1, and so on.
pub fn number_overloads<'e>(functions: &mut Vec<Function<'e>>)
    ensures
        final(functions)@.len() == old(functions)@.len(),
        forall|i: int|
            0 <= i < old(functions)@.len() ==> (#[trigger] final(functions)@[i]).same_declaration(
                old(functions)@[i],
            ) && final(functions)@[i].overload() == Some(
                overload_index(names_of(old(functions)@), i),
            ),
{
    let ghost before = functions@;
    let ghost all = names_of(before);
    let mut names: Vec<Vec<String>> = Vec::new();
    let mut i: usize = 0;
    while i < functions.len()
        invariant
            0 <= i <= functions.len(),
            functions@ == before,
            all == names_of(before),
            names@.len() == i,
            forall|k: int| 0 <= k < i ==> texts_of((#[trigger] names@[k])@) == all[k],
        decreases functions.len() - i,
    {
        names.push(functions[i].qualified_name());
        i += 1;
    }
    let mut out: Vec<Function<'e>> = Vec::new();
    let mut i: usize = 0;
    while i < functions.len()
        invariant
            0 <= i <= functions.len(),
            functions@ == before,
            all == names_of(before),
            names@.len() == functions.len(),
            out@.len() == i,
            forall|k: int| 0 <= k < names@.len() ==> texts_of((#[trigger] names@[k])@) == all[k],
            forall|k: int|
                0 <= k < i ==> (#[trigger] out@[k]).same_declaration(before[k]) && out@[k].overload()
                    == Some(overload_index(all, k)),
        decreases functions.len() - i,
    {
        let mut count: usize = 0;
        let mut j: usize = 0;
        while j < i
            invariant
                0 <= j <= i < functions.len(),
                names@.len() == functions.len(),
                all.len() == functions.len(),
                count <= j,
                forall|k: int|
                    0 <= k < names@.len() ==> texts_of((#[trigger] names@[k])@) == all[k],
                count == overload_count(all, all[i as int], j as int),
            decreases i - j,
        {
            if same_name(&names[j], &names[i]) {
                count += 1;
            }
            j += 1;
        }
        let mut numbered = functions[i].copy();
        numbered.add_overload_index(count);
        out.push(numbered);
        i += 1;
    }
    *functions = out;
}

} // verus!
