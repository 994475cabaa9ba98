//! Markdown for the site: front matter, heading anchors, link targets, emoji
//! shorthand and the question-and-answer style.

use crate::builder::builder::Builder;
use crate::builder::event::{
    html_of_events, lemma_views_of_push, markdown_events, parse_events, render_events, text_of,
    views_of, LinkKind, MdEvent, MdEventView, MdTag, MdTagView,
};
use crate::builder::shared::{emojified, fmt_emoji};
use crate::builder::traits::Entry;
use crate::config::Config;
use crate::html::{ElementView, Html, HtmlElement, HtmlView};
use crate::lookahead::{window_of, CachedLookahead};
use crate::text::{
    append_chars, char_is_alphanumeric, char_is_whitespace, chars_of, count_leading_whitespace,
    find, first_occurrence, join, joined, lowercase_of, matches_at, occurs_at, runs, slice_chars,
    split, string_of, trimmed_start, Separator,
};
use crate::url::{parent_segment, path_text, site_base, slash, without_extension, UrlPath};
use vstd::prelude::*;

verus! {

/// How a document is laid out.
#[derive(Clone, Copy, Debug, PartialEq, Eq, Structural)]
pub enum Style {
    Default,
    /// Questions and answers: what follows a second-level heading is set as
    /// its answer.
    QnA,
}

impl Default for Style {
    fn default() -> (r: Style)
        ensures
            r == Style::Default,
    {
        Style::Default
    }
}

/// The names of the styles.
pub open spec fn style_named(name: Seq<char>) -> Option<Style> {
    if name == "default"@ {
        Some(Style::Default)
    } else if name == "qna"@ {
        Some(Style::QnA)
    } else {
        None
    }
}

/// Reads the name of a style: `default` or `qna`.
pub fn parse_style(name: &str) -> (r: Result<Style, String>)
    ensures
        match r {
            Ok(style) => style_named(name@) == Some(style),
            Err(message) => style_named(name@).is_none() && message@ == "Invalid style"@,
},
{
    let chars = chars_of(name);
    if crate::url::same_chars(&chars, &chars_of("default")) {
        Ok(Style::Default)
    } else if crate::url::same_chars(&chars, &chars_of("qna")) {
        proof {
            reveal_strlit("default");
            reveal_strlit("qna");
            assert("default"@.len() != "qna"@.len());
        }
        Ok(Style::QnA)
    } else {
        Err(String::from_str("Invalid style"))
    }
}

/// What a document says of itself in its front matter.
#[derive(Clone, Debug)]
pub struct Metadata {
    pub title: Option<String>,
    pub description: Option<String>,
    pub icon: Option<String>,
    pub order: Option<usize>,
    pub style: Style,
}

impl Default for Metadata {
    fn default() -> (r: Metadata)
        ensures
            r.title.is_none(),
            r.description.is_none(),
            r.icon.is_none(),
            r.order.is_none(),
            r.style == Style::Default,
    {
        Metadata { title: None, description: None, icon: None, order: None, style: Style::Default }
    }
}

impl Metadata {
    /// Metadata with a title and nothing else.
    pub fn new_with_title(title: String) -> (r: Metadata)
        ensures
            r.title == Some(title),
            r.description.is_none(),
            r.icon.is_none(),
            r.order.is_none(),
            r.style == Style::Default,
    {
        Metadata {
            title: Some(title),
            description: None,
            icon: None,
            order: None,
            style: Style::Default,
}
    }
}

/// A rewrite of site paths that the caller supplies. A function serves as
/// one through `Rewrite`.
pub trait UrlFixer {
    /// What the rewrite makes of a path; `None` where it leaves the link
    /// alone.
    spec fn fixed(&self, url: Seq<Seq<char>>) -> Option<Seq<Seq<char>>>;

    fn fix(&self, url: UrlPath) -> (r: Option<UrlPath>)
        ensures
            match r {
                Some(path) => self.fixed(url@) == Some(path@),
                None => self.fixed(url@).is_none(),
},
    ;
}

/// The rewrite that takes an extension off the last segment.
pub struct RemoveExtension {
    pub ext: String,
}

impl UrlFixer for RemoveExtension {
    open spec fn fixed(&self, url: Seq<Seq<char>>) -> Option<Seq<Seq<char>>> {
        Some(without_extension(url, self.ext@))
    }

    fn fix(&self, url: UrlPath) -> (r: Option<UrlPath>) {
        Some(url.remove_extension(self.ext.as_str()))
    }
}

/// The segments of a path, if there is one.
pub open spec fn path_of(url: Option<UrlPath>) -> Option<Seq<Seq<char>>> {
    match url {
        Some(url) => Some(url@),
        None => None,
    }
}

/// Whether a function can serve as a rewrite: it takes every path, and what
/// it returns depends on the segments of the path alone.
pub open spec fn rewrites<F: Fn(UrlPath) -> Option<UrlPath>>(f: F) -> bool {
    &&& forall|url: UrlPath| #[trigger] f.requires((url,))
    &&& forall|a: UrlPath, b: UrlPath, x: Option<UrlPath>, y: Option<UrlPath>|
        a@ == b@ && #[trigger] f.ensures((a,), x) && #[trigger] f.ensures((b,), y) ==> path_of(x)
            == path_of(y)
}

/// A rewrite that is given as a function.
pub struct Rewrite<F: Fn(UrlPath) -> Option<UrlPath>> {
    f: F,
}

impl<F: Fn(UrlPath) -> Option<UrlPath>> Rewrite<F> {
    #[verifier::type_invariant]
    closed spec fn inv(&self) -> bool {
        rewrites(self.f)
    }

    /// The function that rewrites.
    pub closed spec fn function(&self) -> F {
        self.f
    }

    /// The rewrite that `f` makes.
    pub fn new(f: F) -> (r: Self)
        requires
            rewrites(f),
        ensures
            r.function() == f,
    {
        Rewrite { f }
    }
}

/// What a rewrite makes of a path is what its function returns for it.
pub proof fn lemma_rewrite_follows_its_function<F: Fn(UrlPath) -> Option<UrlPath>>(
    rewrite: Rewrite<F>,
    url: UrlPath,
    out: Option<UrlPath>,
)
    requires
        rewrites(rewrite.function()),
        rewrite.function().ensures((url,), out),
    ensures
        rewrite.fixed(url@) == path_of(out),
{
    let (a, x) = choose|a: UrlPath, x: Option<UrlPath>|
        a@ == url@ && #[trigger] rewrite.f.ensures((a,), x);
    assert(a@ == url@ && rewrite.f.ensures((a,), x));
}

impl<F: Fn(UrlPath) -> Option<UrlPath>> UrlFixer for Rewrite<F> {
    /// What the function makes of a path with these segments.
    closed spec fn fixed(&self, url: Seq<Seq<char>>) -> Option<Seq<Seq<char>>> {
        let (a, x) = choose|a: UrlPath, x: Option<UrlPath>|
            a@ == url && #[trigger] self.f.ensures((a,), x);
        path_of(x)
    }

    fn fix(&self, url: UrlPath) -> (r: Option<UrlPath>)
        ensures
            self.function().ensures((url,), r),
    {
        proof {
            use_type_invariant(self);
        }
        let f = &self.f;
        let r = f(url);
        proof {
            assert(self.f.ensures((url,), r));
            let (a, x) = choose|a: UrlPath, x: Option<UrlPath>|
                a@ == url@ && #[trigger] self.f.ensures((a,), x);
            assert(a@ == url@ && self.f.ensures((a,), x));
            assert(path_of(x) == path_of(r));
        }
        r
    }
}

/// Whether a destination is written from the root of the site.
pub open spec fn rooted(dest: Seq<char>) -> bool {
    dest.len() > 0 && dest[0] == '/'
}

/// A destination after the caller's rewrite: only an inline link from the
/// root is handed to it.
pub open spec fn fixed_dest<F: UrlFixer>(kind: LinkKind, dest: Seq<char>, fixer: Option<F>) -> Seq<
    char,
> {
    match fixer {
        Some(f) => if kind == LinkKind::Inline && rooted(dest) {
            match f.fixed(runs(dest, slash())) {
                Some(url) => path_text(url),
                None => dest,
}
        } else {
            dest
        },
        None => dest,
}
}

/// The destination that is written for a link: after the rewrite, a
/// destination from the root is put below the site's base, unless it holds a
/// `..` segment.
pub open spec fn rewritten_dest<F: UrlFixer>(
    kind: LinkKind,
    dest: Seq<char>,
    fixer: Option<F>,
    base: Seq<Seq<char>>,
) -> Seq<char> {
    let fixed = fixed_dest(kind, dest, fixer);
    if rooted(dest) && !runs(fixed, slash()).contains(parent_segment()) {
        path_text(base + runs(fixed, slash()))
    } else {
        fixed
    }
}

/// An inline link from the root, through the rewrite that takes an extension
/// off, comes out below the base of the site, without the extension: its
/// destination is the base, then the segments of the link, the last one
/// without the extension. Only a link with a `..` segment is left as the
/// rewrite made it.
pub proof fn law_rooted_link_is_made_absolute(
    dest: Seq<char>,
    fixer: RemoveExtension,
    base: Seq<Seq<char>>,
)
    requires
        rooted(dest),
        !without_extension(runs(dest, slash()), fixer.ext@).contains(parent_segment()),
    ensures
        rewritten_dest(LinkKind::Inline, dest, Some(fixer), base) == path_text(
            base + without_extension(runs(dest, slash()), fixer.ext@),
        ),
{
    let segments = runs(dest, slash());
    let stripped = without_extension(segments, fixer.ext@);
    crate::url::lemma_segments_valid(dest);
    assert(crate::url::valid_segments(stripped)) by {
        assert forall|i: int| 0 <= i < stripped.len() implies crate::url::valid_segment(
            #[trigger] stripped[i],
        ) by {
            if stripped != segments {
                if i < segments.len() - 1 {
                    assert(stripped[i] == segments[i]);
                } else {
                    let last = segments.last();
                    assert(crate::url::valid_segment(last));
                    assert forall|k: int| 0 <= k < stripped[i].len() implies stripped[i][k]
                        != '/' by {
                        assert(stripped[i][k] == last[k]);
                    }
                }
            }
        }
    }
    crate::url::law_path_text_round_trip(stripped);
    assert(fixed_dest(LinkKind::Inline, dest, Some(fixer)) == path_text(stripped));
}

/// Computes the destination that is written for a link.
pub fn fix_destination<F: UrlFixer>(
    kind: LinkKind,
    dest: &str,
    fixer: &Option<F>,
    config: &Config,
) -> (r: String)
    ensures
        r@ == rewritten_dest(kind, dest@, *fixer, site_base(config.base_view())),
{
    let chars = chars_of(dest);
    let from_root: bool = chars.len() > 0 && chars[0] == '/';
    let inline: bool = match kind {
        LinkKind::Inline => true,
        _ => false,
};
    let fixed: String = match fixer {
        Some(f) => {
            if inline && from_root {
                match f.fix(UrlPath::part(dest)) {
                    Some(url) => url.to_unencoded_string(),
                    None => string_of(&chars),
}
            } else {
                string_of(&chars)
            }
        },
        None => string_of(&chars),
};
    if from_root {
        match UrlPath::parse(fixed.as_str()) {
            Ok(path) => path.to_absolute(config).to_unencoded_string(),
            Err(_) => fixed,
}
    } else {
        fixed
    }
}

/// The characters of a heading's text that its anchor is made of: letters,
/// digits and whitespace.
pub open spec fn kept_for_anchor(text: Seq<char>) -> Seq<char>
    decreases text.len(),
{
    if text.len() == 0 {
        Seq::empty()
    } else if char_is_alphanumeric(text.last()) || char_is_whitespace(text.last()) {
        kept_for_anchor(text.drop_last()).push(text.last())
    } else {
        kept_for_anchor(text.drop_last())
    }
}

/// What one text run of a heading gives to its anchor.
pub open spec fn anchor_piece(text: Seq<char>) -> Seq<char> {
    lowercase_of(kept_for_anchor(text))
}

/// Whether an event is the end of a heading.
pub open spec fn ends_heading(event: MdEventView) -> bool {
    match event {
        MdEventView::End(MdTagView::Heading(_, _, _)) => true,
        _ => false,
}
}

/// How many events stand before the first end of a heading.
pub open spec fn heading_span(events: Seq<MdEventView>) -> int
    decreases events.len(),
{
    if events.len() == 0 || ends_heading(events[0]) {
        0
    } else {
        1 + heading_span(events.drop_first())
    }
}

/// The pieces of the text runs among `events`, with one space between them.
pub open spec fn anchor_buffer(events: Seq<MdEventView>) -> Seq<char>
    decreases events.len(),
{
    if events.len() == 0 {
        Seq::empty()
    } else {
        let before = anchor_buffer(events.drop_last());
        match events.last() {
            MdEventView::Text(text) => if before.len() > 0 {
                before + seq![' '] + anchor_piece(text)
            } else {
                anchor_piece(text)
            },
            _ => before,
}
    }
}

/// The anchor of a heading, from the events that can be seen after its
/// start: the words of its text runs, in lower case, with hyphens between.
pub open spec fn anchor_of(window: Seq<MdEventView>) -> Seq<char> {
    joined(
        runs(anchor_buffer(window.take(heading_span(window))), Separator::Whitespace),
        seq!['-'],
    )
}

/// The span of a heading ends at the first end of a heading.
pub proof fn lemma_heading_span(events: Seq<MdEventView>, k: int)
    requires
        0 <= k <= events.len(),
        forall|j: int| 0 <= j < k ==> !ends_heading(#[trigger] events[j]),
        k == events.len() || ends_heading(events[k]),
    ensures
        heading_span(events) == k,
    decreases k,
{
    if k > 0 {
        let rest = events.drop_first();
        assert forall|j: int| 0 <= j < k - 1 implies !ends_heading(#[trigger] rest[j]) by {
            assert(rest[j] == events[j + 1]);
        }
        assert(!ends_heading(events[0]));
        lemma_heading_span(rest, k - 1);
    }
}

/// Computes what one text run gives to an anchor.
pub fn anchor_piece_of(text: &str) -> (r: Vec<char>)
    ensures
        r@ == anchor_piece(text@),
{
    let chars = chars_of(text);
    let mut kept: Vec<char> = Vec::new();
    let mut i: usize = 0;
    while i < chars.len()
        invariant
            0 <= i <= chars.len(),
            kept@ == kept_for_anchor(chars@.take(i as int)),
        decreases chars.len() - i,
    {
        proof {
            assert(chars@.take(i + 1).drop_last() =~= chars@.take(i as int));
        }
        let c = chars[i];
        if c.is_alphanumeric() || c.is_whitespace() {
            kept.push(c);
        }
        i += 1;
    }
    proof {
        assert(chars@.take(i as int) =~= chars@);
    }
    let lowered = string_of(&kept).as_str().to_lowercase();
    chars_of(lowered.as_str())
}

/// Computes the anchor of the heading whose start was just taken.
pub fn anchor_ahead<'a, const SIZE: usize>(iter: &CachedLookahead<MdEvent<'a>, SIZE>) -> (r: String)
    ensures
        r@ == anchor_of(views_of(iter.window())),
{
    let ghost window = views_of(iter.window());
    let mut buf: Vec<char> = Vec::new();
    let mut k: usize = 0;
    loop
        invariant
            0 <= k <= window.len(),
            window == views_of(iter.window()),
            forall|j: int| 0 <= j < k ==> !ends_heading(#[trigger] window[j]),
            buf@ == anchor_buffer(window.take(k as int)),
        ensures
            k == window.len() || ends_heading(window[k as int]),
        decreases window.len() - k,
    {
        match iter.lookahead(k) {
            None => {
                break ;
            },
            Some(event) => {
                proof {
                    assert(window[k as int] == event@);
                    assert(window.take(k + 1).drop_last() =~= window.take(k as int));
                    assert(window.take(k + 1).last() == event@);
                }
                match event {
                    MdEvent::Text(text) => {
                        if buf.len() > 0 {
                            buf.push(' ');
                        }
                        let piece = anchor_piece_of(text.as_str());
                        append_chars(&mut buf, &piece);
                    },
                    MdEvent::End(MdTag::Heading(_, _, _)) => {
                        break ;
                    },
                    _ => {},
}
                k += 1;
            },
}
    }
    proof {
        lemma_heading_span(window, k as int);
    }
    let words = split(&buf, &Separator::Whitespace);
    let mut hyphen: Vec<char> = Vec::new();
    hyphen.push('-');
    assert(hyphen@ =~= seq!['-']);
    let out = join(&words, &hyphen);
    string_of(&out)
}

/// Where the stream stands with the block quote of an answer.
#[derive(Clone, Copy, Debug, PartialEq, Eq, Structural)]
pub enum InsertP {
    /// No answer is open.
    Dont,
    /// A question has just ended: the quote is opened next.
    Start,
    /// An answer is open, up to the next question or the end.
    ToEnd,
}

/// What a rewriting is made with, besides the caller's rewrite of links.
pub struct Rules {
    /// Whether the document is in the question-and-answer style.
    pub qna: bool,
    /// How many events can be seen ahead.
    pub window: nat,
    /// The segments of the site's base URL.
    pub base: Seq<Seq<char>>,
}

/// The state of a rewriting stream.
pub struct StreamState<'a> {
    /// The events that are still to come.
    pub remaining: Seq<MdEventView<'a>>,
    pub stage: InsertP,
    /// Whether a code block is open.
    pub in_code: bool,
}

/// The class that marks a question.
pub open spec fn question_class() -> Seq<char> {
    "qna-question"@
}

/// A tag as it is written at its start: a link or an image gets its
/// destination resolved, a heading its anchor and, as a question, its class.
pub open spec fn rewritten_tag<'a, F: UrlFixer>(
    tag: MdTagView<'a>,
    ahead: Seq<MdEventView<'a>>,
    fixer: Option<F>,
    rules: Rules,
) -> MdTagView<'a> {
    match tag {
        MdTagView::Link(kind, dest, title) => MdTagView::Link(
            kind,
            rewritten_dest(kind, dest, fixer, rules.base),
            title,
        ),
        MdTagView::Image(kind, dest, title) => MdTagView::Image(
            kind,
            rewritten_dest(kind, dest, fixer, rules.base),
            title,
        ),
        MdTagView::Heading(level, anchor, classes) => MdTagView::Heading(
            level,
            if anchor.is_none() && level.rank() < 4 {
                Some(anchor_of(window_of(ahead, rules.window)))
            } else {
                anchor
            },
            if rules.qna && level.rank() < 3 {
                classes.push(question_class())
            } else {
                classes
            },
        ),
        other => other,
}
}

/// An event as it is written, given the events that follow it.
pub open spec fn rewritten<'a, F: UrlFixer>(
    event: MdEventView<'a>,
    ahead: Seq<MdEventView<'a>>,
    in_code: bool,
    fixer: Option<F>,
    rules: Rules,
) -> MdEventView<'a> {
    match event {
        MdEventView::Text(text) => if in_code {
            MdEventView::Text(text)
        } else {
            MdEventView::Text(emojified(text))
        },
        MdEventView::Start(tag) => MdEventView::Start(rewritten_tag(tag, ahead, fixer, rules)),
        other => other,
}
}

/// Whether an event is the end of a question: of a second-level heading.
pub open spec fn ends_question(event: MdEventView) -> bool {
    match event {
        MdEventView::End(MdTagView::Heading(level, _, _)) => level.rank() == 2,
        _ => false,
}
}

/// Whether an event is the start of a question.
pub open spec fn starts_question(event: MdEventView) -> bool {
    match event {
        MdEventView::Start(MdTagView::Heading(level, _, _)) => level.rank() == 2,
        _ => false,
}
}

/// Whether an open answer ends here: at the next question, or at the end.
pub open spec fn answer_ends(remaining: Seq<MdEventView>) -> bool {
    remaining.len() == 0 || starts_question(remaining[0])
}

/// The stage after an event has been pulled: the end of a question asks for
/// the quote of its answer.
pub open spec fn stage_after(event: MdEventView, stage: InsertP, rules: Rules) -> InsertP {
    if rules.qna && ends_question(event) {
        InsertP::Start
    } else {
        stage
    }
}

/// Whether a code block is open after an event.
pub open spec fn in_code_after(event: MdEventView, in_code: bool) -> bool {
    match event {
        MdEventView::Start(MdTagView::CodeBlock(_)) => true,
        MdEventView::End(MdTagView::CodeBlock(_)) => false,
        _ => in_code,
}
}

/// The event that opens an answer.
pub open spec fn opens_quote<'a>() -> MdEventView<'a> {
    MdEventView::Start(MdTagView::BlockQuote)
}

/// The event that closes an answer.
pub open spec fn closes_quote<'a>() -> MdEventView<'a> {
    MdEventView::End(MdTagView::BlockQuote)
}

/// One pull from the stream: the event that comes out and the state after
/// it, or `None` at the end.
pub open spec fn step<'a, F: UrlFixer>(state: StreamState<'a>, fixer: Option<F>, rules: Rules) -> Option<
    (MdEventView<'a>, StreamState<'a>),
> {
    if state.stage == InsertP::Start {
        Some((opens_quote(), StreamState { stage: InsertP::ToEnd, ..state }))
    } else if state.stage == InsertP::ToEnd && answer_ends(state.remaining) {
        Some((closes_quote(), StreamState { stage: InsertP::Dont, ..state }))
    } else if state.remaining.len() == 0 {
        None
    } else {
        let event = state.remaining[0];
        let rest = state.remaining.drop_first();
        Some(
            (
                rewritten(event, rest, state.in_code, fixer, rules),
                StreamState {
                    remaining: rest,
                    stage: stage_after(event, state.stage, rules),
                    in_code: in_code_after(event, state.in_code),
},
            ),
        )
    }
}

/// What bounds the pulls that are left.
pub open spec fn pulls_left(state: StreamState) -> nat {
    3 * state.remaining.len() + match state.stage {
        InsertP::Start => 2nat,
        InsertP::ToEnd => 1nat,
        InsertP::Dont => 0nat,
}
}

/// Everything that comes out of the stream from a state on.
pub open spec fn transformed<'a, F: UrlFixer>(
    state: StreamState<'a>,
    fixer: Option<F>,
    rules: Rules,
) -> Seq<MdEventView<'a>>
    decreases pulls_left(state),
{
    match step(state, fixer, rules) {
        None => Seq::empty(),
        Some((event, next)) => seq![event] + transformed(next, fixer, rules),
}
}

/// Every pull brings the end nearer.
pub proof fn lemma_step_decreases<'a, F: UrlFixer>(
    state: StreamState<'a>,
    fixer: Option<F>,
    rules: Rules,
)
    ensures
        match step(state, fixer, rules) {
            Some((_, next)) => pulls_left(next) < pulls_left(state),
            None => true,
},
{
}

/// The events rewritten one by one, with nothing put between them.
pub open spec fn rewritten_each<'a, F: UrlFixer>(
    events: Seq<MdEventView<'a>>,
    in_code: bool,
    fixer: Option<F>,
    rules: Rules,
) -> Seq<MdEventView<'a>>
    decreases events.len(),
{
    if events.len() == 0 {
        Seq::empty()
    } else {
        seq![rewritten(events[0], events.drop_first(), in_code, fixer, rules)] + rewritten_each(
            events.drop_first(),
            in_code_after(events[0], in_code),
            fixer,
            rules,
        )
    }
}

/// Whether a code block is open after `events`, if `in_code` says whether
/// one was open before them.
pub open spec fn in_code_past(events: Seq<MdEventView>, in_code: bool) -> bool
    decreases events.len(),
{
    if events.len() == 0 {
        in_code
    } else {
        in_code_after(events.last(), in_code_past(events.drop_last(), in_code))
    }
}

/// Text in a code block comes out as it went in: its emoji shorthand is not
/// written out, whatever the style and whatever state the stream is in.
pub proof fn law_code_text_kept<'a, F: UrlFixer>(
    state: StreamState<'a>,
    fixer: Option<F>,
    rules: Rules,
    text: Seq<char>,
)
    requires
        state.in_code,
        state.remaining.len() > 0,
        state.remaining[0] == MdEventView::<'a>::Text(text),
    ensures
        state.stage != InsertP::Start ==> transformed(state, fixer, rules).len() >= 1
            && transformed(state, fixer, rules)[0] == MdEventView::<'a>::Text(text),
        state.stage == InsertP::Start ==> transformed(state, fixer, rules).len() >= 2
            && transformed(state, fixer, rules)[1] == MdEventView::<'a>::Text(text),
{
    lemma_step_decreases(state, fixer, rules);
    if state.stage == InsertP::Start {
        let next = StreamState { stage: InsertP::ToEnd, ..state };
        lemma_step_decreases(next, fixer, rules);
        assert(transformed(state, fixer, rules) == seq![opens_quote()] + transformed(
            next,
            fixer,
            rules,
        ));
    }
}

/// In a document of the default style nothing is put between the events:
/// what comes out is each event rewritten, in order, and no block quote is
/// opened or closed that the document does not hold itself.
pub proof fn law_default_style_adds_nothing<'a, F: UrlFixer>(
    events: Seq<MdEventView<'a>>,
    in_code: bool,
    fixer: Option<F>,
    rules: Rules,
)
    requires
        !rules.qna,
    ensures
        transformed(
            StreamState { remaining: events, stage: InsertP::Dont, in_code },
            fixer,
            rules,
        ) == rewritten_each(events, in_code, fixer, rules),
        rewritten_each(events, in_code, fixer, rules).len() == events.len(),
    decreases events.len(),
{
    let state = StreamState { remaining: events, stage: InsertP::Dont, in_code };
    lemma_step_decreases(state, fixer, rules);
    if events.len() > 0 {
        law_default_style_adds_nothing(
            events.drop_first(),
            in_code_after(events[0], in_code),
            fixer,
            rules,
        );
    }
}

/// In a document of the default style every event comes out at its own
/// place: rewritten with the events after it ahead, and with the code block
/// state that the events before it leave. So text in a code block comes out
/// as it went in, and text outside one with its emoji written out.
pub proof fn law_default_style_rewrites_in_place<'a, F: UrlFixer>(
    events: Seq<MdEventView<'a>>,
    fixer: Option<F>,
    rules: Rules,
    index: int,
)
    requires
        !rules.qna,
        0 <= index < events.len(),
    ensures
        transformed(start_of(events), fixer, rules).len() == events.len(),
        transformed(start_of(events), fixer, rules)[index] == rewritten(
            events[index],
            events.subrange(index + 1, events.len() as int),
            in_code_past(events.take(index), false),
            fixer,
            rules,
        ),
{
    law_default_style_adds_nothing(events, false, fixer, rules);
    lemma_rewritten_each_index(events, false, fixer, rules, index);
}

/// Where `rewritten_each` writes the event at `index`: rewritten with the
/// events after it ahead, and with the code block state that the events
/// before it leave.
pub proof fn lemma_rewritten_each_index<'a, F: UrlFixer>(
    events: Seq<MdEventView<'a>>,
    in_code: bool,
    fixer: Option<F>,
    rules: Rules,
    index: int,
)
    requires
        0 <= index < events.len(),
    ensures
        rewritten_each(events, in_code, fixer, rules).len() == events.len(),
        rewritten_each(events, in_code, fixer, rules)[index] == rewritten(
            events[index],
            events.subrange(index + 1, events.len() as int),
            in_code_past(events.take(index), in_code),
            fixer,
            rules,
        ),
    decreases events.len(),
{
    lemma_rewritten_each_len(events, in_code, fixer, rules);
    let rest = events.drop_first();
    if index == 0 {
        assert(events.subrange(1, events.len() as int) =~= rest);
        assert(events.take(0) =~= Seq::empty());
    } else {
        lemma_rewritten_each_index(rest, in_code_after(events[0], in_code), fixer, rules, index - 1);
        assert(rest.subrange(index, rest.len() as int) =~= events.subrange(
            index + 1,
            events.len() as int,
        ));
        lemma_in_code_past_first(events.take(index), in_code);
        assert(events.take(index).drop_first() =~= rest.take(index - 1));
    }
}

/// Rewriting one by one keeps the number of events.
pub proof fn lemma_rewritten_each_len<'a, F: UrlFixer>(
    events: Seq<MdEventView<'a>>,
    in_code: bool,
    fixer: Option<F>,
    rules: Rules,
)
    ensures
        rewritten_each(events, in_code, fixer, rules).len() == events.len(),
    decreases events.len(),
{
    if events.len() > 0 {
        lemma_rewritten_each_len(
            events.drop_first(),
            in_code_after(events[0], in_code),
            fixer,
            rules,
        );
    }
}

/// The code block state can be followed from the first event as well as
/// from the last.
pub proof fn lemma_in_code_past_first(events: Seq<MdEventView>, in_code: bool)
    requires
        events.len() > 0,
    ensures
        in_code_past(events, in_code) == in_code_past(
            events.drop_first(),
            in_code_after(events[0], in_code),
        ),
    decreases events.len(),
{
    if events.len() == 1 {
        assert(events.drop_last() =~= Seq::empty());
        assert(events.drop_first() =~= Seq::empty());
        assert(events.last() == events[0]);
    } else {
        lemma_in_code_past_first(events.drop_last(), in_code);
        assert(events.drop_last().drop_first() =~= events.drop_first().drop_last());
        assert(events.drop_last()[0] == events[0]);
        assert(events.drop_first().last() == events.last());
    }
}

/// In the question-and-answer style the end of a question is followed at
/// once by the start of a block quote: the answer.
pub proof fn law_answer_opens<'a, F: UrlFixer>(
    state: StreamState<'a>,
    fixer: Option<F>,
    rules: Rules,
)
    requires
        rules.qna,
        state.stage != InsertP::Start,
        state.remaining.len() > 0,
        ends_question(state.remaining[0]),
    ensures
        transformed(state, fixer, rules).len() >= 2,
        transformed(state, fixer, rules)[0] == state.remaining[0],
        transformed(state, fixer, rules)[1] == opens_quote::<'a>(),
{
    lemma_step_decreases(state, fixer, rules);
    assert(!starts_question(state.remaining[0]));
    let (event, next) = step(state, fixer, rules).unwrap();
    assert(event == state.remaining[0]);
    assert(next.stage == InsertP::Start);
    lemma_step_decreases(next, fixer, rules);
    let after = StreamState { stage: InsertP::ToEnd, ..next };
    assert(transformed(next, fixer, rules) == seq![opens_quote::<'a>()] + transformed(
        after,
        fixer,
        rules,
    ));
    assert(transformed(state, fixer, rules) == seq![event] + transformed(next, fixer, rules));
}

/// An open answer is closed before the next question, and at the end of the
/// document; until then nothing is put between the events.
pub proof fn law_answer_closes<'a, F: UrlFixer>(
    state: StreamState<'a>,
    fixer: Option<F>,
    rules: Rules,
)
    requires
        state.stage == InsertP::ToEnd,
    ensures
        answer_ends(state.remaining) ==> transformed(state, fixer, rules) == seq![
            closes_quote::<'a>(),
        ] + transformed(StreamState { stage: InsertP::Dont, ..state }, fixer, rules),
        state.remaining.len() == 0 ==> transformed(state, fixer, rules) == seq![
            closes_quote::<'a>(),
        ],
        !answer_ends(state.remaining) ==> transformed(state, fixer, rules) == seq![
            rewritten(
                state.remaining[0],
                state.remaining.drop_first(),
                state.in_code,
                fixer,
                rules,
            ),
        ] + transformed(
            StreamState {
                remaining: state.remaining.drop_first(),
                stage: stage_after(state.remaining[0], InsertP::ToEnd, rules),
                in_code: in_code_after(state.remaining[0], state.in_code),
},
            fixer,
            rules,
        ),
{
    lemma_step_decreases(state, fixer, rules);
    if state.remaining.len() == 0 {
        let next = StreamState { stage: InsertP::Dont, ..state };
        lemma_step_decreases(next, fixer, rules);
        assert(transformed(next, fixer, rules) =~= Seq::empty());
        assert(seq![closes_quote::<'a>()] + Seq::empty() =~= seq![closes_quote::<'a>()]);
    }
}

/// Whether none of the events starts or ends a question.
pub open spec fn no_question(events: Seq<MdEventView>) -> bool {
    forall|k: int|
        0 <= k < events.len() ==> !starts_question(#[trigger] events[k]) && !ends_question(
            events[k],
        )
}

/// An open answer runs to the next question or to the end: its events come
/// out rewritten with nothing between them, and then the quote is closed.
pub proof fn lemma_answer_runs_to_its_end<'a, F: UrlFixer>(
    answer: Seq<MdEventView<'a>>,
    tail: Seq<MdEventView<'a>>,
    in_code: bool,
    fixer: Option<F>,
    rules: Rules,
)
    requires
        no_question(answer),
        answer_ends(tail),
    ensures
        transformed(
            StreamState { remaining: answer + tail, stage: InsertP::ToEnd, in_code },
            fixer,
            rules,
        ) == rewritten_each(answer + tail, in_code, fixer, rules).take(answer.len() as int) + seq![
            closes_quote::<'a>(),
        ] + transformed(
            StreamState {
                remaining: tail,
                stage: InsertP::Dont,
                in_code: in_code_past(answer, in_code),
},
            fixer,
            rules,
        ),
    decreases answer.len(),
{
    let whole = answer + tail;
    let state = StreamState { remaining: whole, stage: InsertP::ToEnd, in_code };
    let end = StreamState {
        remaining: tail,
        stage: InsertP::Dont,
        in_code: in_code_past(answer, in_code),
};
    lemma_rewritten_each_len(whole, in_code, fixer, rules);
    if answer.len() == 0 {
        assert(whole =~= tail);
        assert(rewritten_each(whole, in_code, fixer, rules).take(0) =~= Seq::empty());
        assert(transformed(state, fixer, rules) == seq![closes_quote::<'a>()] + transformed(
            end,
            fixer,
            rules,
        ));
        assert(Seq::<MdEventView<'a>>::empty() + seq![closes_quote::<'a>()] + transformed(
            end,
            fixer,
            rules,
        ) =~= seq![closes_quote::<'a>()] + transformed(end, fixer, rules));
    } else {
        let first = answer[0];
        let rest = answer.drop_first();
        assert(whole[0] == first);
        assert(!starts_question(first) && !ends_question(first));
        assert(whole.drop_first() =~= rest + tail);
        assert(no_question(rest)) by {
            assert forall|k: int| 0 <= k < rest.len() implies !starts_question(
                #[trigger] rest[k],
            ) && !ends_question(rest[k]) by {
                assert(rest[k] == answer[k + 1]);
            }
        }
        let in_code_next = in_code_after(first, in_code);
        lemma_answer_runs_to_its_end(rest, tail, in_code_next, fixer, rules);
        lemma_in_code_past_first(answer, in_code);
        lemma_rewritten_each_len(rest + tail, in_code_next, fixer, rules);
        let out = rewritten(first, rest + tail, in_code, fixer, rules);
        let next = StreamState { remaining: rest + tail, stage: InsertP::ToEnd, in_code: in_code_next };
        assert(step(state, fixer, rules) == Some((out, next)));
        assert(transformed(state, fixer, rules) == seq![out] + transformed(next, fixer, rules));
        let each = rewritten_each(whole, in_code, fixer, rules);
        let each_rest = rewritten_each(rest + tail, in_code_next, fixer, rules);
        assert(each == seq![out] + each_rest);
        assert(each.take(answer.len() as int) =~= seq![out] + each_rest.take(rest.len() as int));
        assert(seq![out] + (each_rest.take(rest.len() as int) + seq![closes_quote::<'a>()]
            + transformed(end, fixer, rules)) =~= each.take(answer.len() as int) + seq![
            closes_quote::<'a>(),
        ] + transformed(end, fixer, rules));
    }
}

/// In the question-and-answer style, what stands between the end of a
/// question and the next question, or the end of the document, is wrapped in
/// a block quote: the quote opens right after the question, the events of
/// the answer follow, each rewritten and with nothing between them, and the
/// quote closes before the stream goes on.
pub proof fn law_answer_is_wrapped<'a, F: UrlFixer>(
    question_end: MdEventView<'a>,
    answer: Seq<MdEventView<'a>>,
    tail: Seq<MdEventView<'a>>,
    stage: InsertP,
    in_code: bool,
    fixer: Option<F>,
    rules: Rules,
)
    requires
        rules.qna,
        stage != InsertP::Start,
        ends_question(question_end),
        no_question(answer),
        answer_ends(tail),
    ensures
        transformed(
            StreamState { remaining: seq![question_end] + answer + tail, stage, in_code },
            fixer,
            rules,
        ) == seq![question_end, opens_quote::<'a>()] + rewritten_each(
            answer + tail,
            in_code,
            fixer,
            rules,
        ).take(answer.len() as int) + seq![closes_quote::<'a>()] + transformed(
            StreamState {
                remaining: tail,
                stage: InsertP::Dont,
                in_code: in_code_past(answer, in_code),
},
            fixer,
            rules,
        ),
{
    let whole = seq![question_end] + answer + tail;
    let state = StreamState { remaining: whole, stage, in_code };
    assert(whole[0] == question_end);
    assert(!starts_question(question_end));
    assert(whole.drop_first() =~= answer + tail);
    let opening = StreamState { remaining: answer + tail, stage: InsertP::Start, in_code };
    let open = StreamState { remaining: answer + tail, stage: InsertP::ToEnd, in_code };
    assert(step(state, fixer, rules) == Some((question_end, opening)));
    assert(transformed(state, fixer, rules) == seq![question_end] + transformed(
        opening,
        fixer,
        rules,
    ));
    assert(step(opening, fixer, rules) == Some((opens_quote::<'a>(), open)));
    assert(transformed(opening, fixer, rules) == seq![opens_quote::<'a>()] + transformed(
        open,
        fixer,
        rules,
    ));
    lemma_answer_runs_to_its_end(answer, tail, in_code, fixer, rules);
    let body = rewritten_each(answer + tail, in_code, fixer, rules).take(answer.len() as int);
    let end = transformed(
        StreamState {
            remaining: tail,
            stage: InsertP::Dont,
            in_code: in_code_past(answer, in_code),
},
        fixer,
        rules,
    );
    assert(seq![question_end] + (seq![opens_quote::<'a>()] + (body + seq![closes_quote::<'a>()]
        + end)) =~= seq![question_end, opens_quote::<'a>()] + body + seq![closes_quote::<'a>()]
        + end);
}

/// Where an event of a rewritten document comes from.
pub enum Placed<'a> {
    /// An event of the document, rewritten.
    Own(MdEventView<'a>),
    /// The start of the block quote of an answer, which the style puts in.
    Opens,
    /// The end of the block quote of an answer, which the style puts in.
    Closes,
}

/// The event that is written for a placed one.
pub open spec fn event_of<'a>(placed: Placed<'a>) -> MdEventView<'a> {
    match placed {
        Placed::Own(event) => event,
        Placed::Opens => opens_quote(),
        Placed::Closes => closes_quote(),
    }
}

/// The events that are written for the placed ones.
pub open spec fn written<'a>(placed: Seq<Placed<'a>>) -> Seq<MdEventView<'a>> {
    placed.map_values(|p: Placed<'a>| event_of(p))
}

/// What is put in before an event: an open answer is closed before the next
/// question starts.
pub open spec fn put_before<'a>(event: MdEventView<'a>, open: bool) -> Seq<Placed<'a>> {
    if open && starts_question(event) {
        seq![Placed::Closes]
    } else {
        Seq::empty()
    }
}

/// What is put in after an event: an answer is opened right after the end of
/// a question.
pub open spec fn put_after<'a>(event: MdEventView<'a>) -> Seq<Placed<'a>> {
    if ends_question(event) {
        seq![Placed::Opens]
    } else {
        Seq::empty()
    }
}

/// Whether an answer is open after an event, if `open` says whether one was
/// open before it.
pub open spec fn open_after(event: MdEventView, open: bool) -> bool {
    ends_question(event) || (open && !starts_question(event))
}

/// A whole document in the question-and-answer style: every event at its
/// place, rewritten; the start of a block quote right after the end of each
/// question; and the end of a block quote right before the next question
/// starts, or at the end of the document for the last.
pub open spec fn placed<'a, F: UrlFixer>(
    events: Seq<MdEventView<'a>>,
    open: bool,
    in_code: bool,
    fixer: Option<F>,
    rules: Rules,
) -> Seq<Placed<'a>>
    decreases events.len(),
{
    if events.len() == 0 {
        if open {
            seq![Placed::Closes]
        } else {
            Seq::empty()
        }
    } else {
        put_before(events[0], open) + seq![
            Placed::Own(rewritten(events[0], events.drop_first(), in_code, fixer, rules)),
        ] + put_after(events[0]) + placed(
            events.drop_first(),
            open_after(events[0], open),
            in_code_after(events[0], in_code),
            fixer,
            rules,
        )
    }
}

/// The stage of a stream between two events, with an answer open or not.
pub open spec fn stage_of(open: bool) -> InsertP {
    if open {
        InsertP::ToEnd
    } else {
        InsertP::Dont
    }
}

/// The events of the document among the placed ones, in order.
pub open spec fn own_events<'a>(placed: Seq<Placed<'a>>) -> Seq<MdEventView<'a>>
    decreases placed.len(),
{
    if placed.len() == 0 {
        Seq::empty()
    } else {
        match placed[0] {
            Placed::Own(event) => seq![event] + own_events(placed.drop_first()),
            _ => own_events(placed.drop_first()),
        }
    }
}

/// The quotes that the style puts in, in order: `true` for a start, `false`
/// for an end.
pub open spec fn quotes(placed: Seq<Placed>) -> Seq<bool>
    decreases placed.len(),
{
    if placed.len() == 0 {
        Seq::empty()
    } else {
        match placed[0] {
            Placed::Own(_) => quotes(placed.drop_first()),
            Placed::Opens => seq![true] + quotes(placed.drop_first()),
            Placed::Closes => seq![false] + quotes(placed.drop_first()),
        }
    }
}

/// Whether quotes open and close in turn, from a state in which one is open
/// or not, and none is open at the end: no quote is opened inside another,
/// and each is closed.
pub open spec fn in_turn(marks: Seq<bool>, open: bool) -> bool
    decreases marks.len(),
{
    if marks.len() == 0 {
        !open
    } else if marks[0] {
        !open && in_turn(marks.drop_first(), true)
    } else {
        open && in_turn(marks.drop_first(), false)
    }
}

/// Whether no question ends while an answer is open: the end of every
/// second-level heading comes after the start of one.
pub open spec fn questions_paired(events: Seq<MdEventView>, open: bool) -> bool
    decreases events.len(),
{
    if events.len() == 0 {
        true
    } else {
        !(open && ends_question(events[0])) && questions_paired(
            events.drop_first(),
            open_after(events[0], open),
        )
    }
}

pub proof fn lemma_written_concat<'a>(a: Seq<Placed<'a>>, b: Seq<Placed<'a>>)
    ensures
        written(a + b) == written(a) + written(b),
{
    assert(written(a + b) =~= written(a) + written(b));
}

pub proof fn lemma_own_events_concat<'a>(a: Seq<Placed<'a>>, b: Seq<Placed<'a>>)
    ensures
        own_events(a + b) == own_events(a) + own_events(b),
    decreases a.len(),
{
    if a.len() == 0 {
        assert(a + b =~= b);
        assert(own_events(a) + own_events(b) =~= own_events(b));
    } else {
        lemma_own_events_concat(a.drop_first(), b);
        assert((a + b).drop_first() =~= a.drop_first() + b);
        assert((a + b)[0] == a[0]);
        match a[0] {
            Placed::Own(event) => {
                assert(seq![event] + (own_events(a.drop_first()) + own_events(b)) =~= own_events(a)
                    + own_events(b));
            },
            _ => {},
        }
    }
}

pub proof fn lemma_quotes_concat(a: Seq<Placed>, b: Seq<Placed>)
    ensures
        quotes(a + b) == quotes(a) + quotes(b),
    decreases a.len(),
{
    if a.len() == 0 {
        assert(a + b =~= b);
        assert(quotes(a) + quotes(b) =~= quotes(b));
    } else {
        lemma_quotes_concat(a.drop_first(), b);
        assert((a + b).drop_first() =~= a.drop_first() + b);
        assert((a + b)[0] == a[0]);
        match a[0] {
            Placed::Own(_) => {},
            Placed::Opens => {
                assert(seq![true] + (quotes(a.drop_first()) + quotes(b)) =~= quotes(a) + quotes(
                    b,
                ));
            },
            Placed::Closes => {
                assert(seq![false] + (quotes(a.drop_first()) + quotes(b)) =~= quotes(a) + quotes(
                    b,
                ));
            },
        }
    }
}

/// The parts of a placed document that is not empty.
pub proof fn lemma_placed_parts<'a, F: UrlFixer>(
    events: Seq<MdEventView<'a>>,
    open: bool,
    in_code: bool,
    fixer: Option<F>,
    rules: Rules,
)
    requires
        events.len() > 0,
    ensures
        own_events(placed(events, open, in_code, fixer, rules)) == seq![
            rewritten(events[0], events.drop_first(), in_code, fixer, rules),
        ] + own_events(
            placed(
                events.drop_first(),
                open_after(events[0], open),
                in_code_after(events[0], in_code),
                fixer,
                rules,
            ),
        ),
        quotes(placed(events, open, in_code, fixer, rules)) == quotes(put_before(events[0], open))
            + quotes(put_after(events[0])) + quotes(
            placed(
                events.drop_first(),
                open_after(events[0], open),
                in_code_after(events[0], in_code),
                fixer,
                rules,
            ),
        ),
{
    let before = put_before(events[0], open);
    let own = seq![Placed::Own(rewritten(events[0], events.drop_first(), in_code, fixer, rules))];
    let after = put_after(events[0]);
    let rest = placed(
        events.drop_first(),
        open_after(events[0], open),
        in_code_after(events[0], in_code),
        fixer,
        rules,
    );
    lemma_own_events_concat(before + own + after, rest);
    lemma_own_events_concat(before + own, after);
    lemma_own_events_concat(before, own);
    lemma_quotes_concat(before + own + after, rest);
    lemma_quotes_concat(before + own, after);
    lemma_quotes_concat(before, own);
    assert(own.drop_first() =~= Seq::<Placed<'a>>::empty());
    assert(own_events(own) =~= seq![
        rewritten(events[0], events.drop_first(), in_code, fixer, rules),
    ]);
    assert(quotes(own) =~= Seq::<bool>::empty());
    assert(own_events(before) =~= Seq::<MdEventView<'a>>::empty()) by {
        if before.len() > 0 {
            assert(before.drop_first() =~= Seq::<Placed<'a>>::empty());
        }
    }
    assert(own_events(after) =~= Seq::<MdEventView<'a>>::empty()) by {
        if after.len() > 0 {
            assert(after.drop_first() =~= Seq::<Placed<'a>>::empty());
        }
    }
    assert(Seq::<MdEventView<'a>>::empty() + own_events(own) + Seq::<MdEventView<'a>>::empty()
        + own_events(rest) =~= own_events(own) + own_events(rest));
    assert(quotes(before) + Seq::<bool>::empty() + quotes(after) + quotes(rest) =~= quotes(before)
        + quotes(after) + quotes(rest));
}

/// In the question-and-answer style a whole document comes out as `placed`
/// says, whatever its events are: every event at its place, the start of a
/// block quote right after the end of each second-level heading, and the end
/// of a block quote right before the next second-level heading starts, or
/// at the end of the document. A heading of another level opens and closes
/// nothing.
pub proof fn law_qna_places_every_event<'a, F: UrlFixer>(
    events: Seq<MdEventView<'a>>,
    open: bool,
    in_code: bool,
    fixer: Option<F>,
    rules: Rules,
)
    requires
        rules.qna,
    ensures
        transformed(
            StreamState { remaining: events, stage: stage_of(open), in_code },
            fixer,
            rules,
        ) == written(placed(events, open, in_code, fixer, rules)),
    decreases events.len(),
{
    let state = StreamState { remaining: events, stage: stage_of(open), in_code };
    let all = placed(events, open, in_code, fixer, rules);
    if events.len() == 0 {
        if open {
            let closed = StreamState { stage: InsertP::Dont, ..state };
            assert(step(state, fixer, rules) == Some((closes_quote::<'a>(), closed)));
            assert(transformed(closed, fixer, rules) =~= Seq::empty());
            assert(transformed(state, fixer, rules) =~= seq![closes_quote::<'a>()]);
            assert(written(all) =~= seq![closes_quote::<'a>()]);
        } else {
            assert(transformed(state, fixer, rules) =~= Seq::empty());
            assert(written(all) =~= Seq::empty());
        }
    } else {
        let event = events[0];
        let rest = events.drop_first();
        let out = rewritten(event, rest, in_code, fixer, rules);
        let open_next = open_after(event, open);
        let in_code_next = in_code_after(event, in_code);
        law_qna_places_every_event(rest, open_next, in_code_next, fixer, rules);
        let tail = placed(rest, open_next, in_code_next, fixer, rules);
        let after_state = StreamState {
            remaining: rest,
            stage: stage_of(open_next),
            in_code: in_code_next,
        };
        let before = put_before(event, open);
        let own = seq![Placed::Own(out)];
        let after = put_after(event);
        lemma_written_concat(before + own + after, tail);
        lemma_written_concat(before + own, after);
        lemma_written_concat(before, own);
        assert(written(own) =~= seq![out]);
        // What the stream does from the state in which the event is next.
        let ready = StreamState {
            remaining: events,
            stage: stage_of(open && !starts_question(event)),
            in_code,
        };
        let from_ready = transformed(ready, fixer, rules);
        assert(from_ready == seq![out] + written(after) + written(tail)) by {
            if ends_question(event) {
                let opening = StreamState {
                    remaining: rest,
                    stage: InsertP::Start,
                    in_code: in_code_next,
                };
                assert(step(ready, fixer, rules) == Some((out, opening)));
                assert(step(opening, fixer, rules) == Some((opens_quote::<'a>(), after_state)));
                assert(transformed(opening, fixer, rules) == seq![opens_quote::<'a>()]
                    + transformed(after_state, fixer, rules));
                assert(written(after) =~= seq![opens_quote::<'a>()]);
                assert(seq![out] + (seq![opens_quote::<'a>()] + written(tail)) =~= seq![out]
                    + written(after) + written(tail));
            } else {
                assert(step(ready, fixer, rules) == Some((out, after_state)));
                assert(written(after) =~= Seq::empty());
                assert(seq![out] + written(tail) =~= seq![out] + written(after) + written(tail));
            }
        }
        if open && starts_question(event) {
            assert(step(state, fixer, rules) == Some((closes_quote::<'a>(), ready)));
            assert(written(before) =~= seq![closes_quote::<'a>()]);
            assert(seq![closes_quote::<'a>()] + (seq![out] + written(after) + written(tail))
                =~= written(before) + written(own) + written(after) + written(tail));
        } else {
            assert(ready == state);
            assert(written(before) =~= Seq::empty());
            assert(seq![out] + written(after) + written(tail) =~= written(before) + written(own)
                + written(after) + written(tail));
        }
    }
}

/// A document in the question-and-answer style, drained from its start,
/// comes out as `placed` says, with no answer open before its first event.
pub proof fn law_qna_wraps_the_document<'a, F: UrlFixer>(
    events: Seq<MdEventView<'a>>,
    fixer: Option<F>,
    rules: Rules,
)
    requires
        rules.qna,
    ensures
        transformed(start_of(events), fixer, rules) == written(
            placed(events, false, false, fixer, rules),
        ),
{
    law_qna_places_every_event(events, false, false, fixer, rules);
}

/// The events of the document come out in their order, each rewritten: what
/// the style puts in stands between them and changes none of them.
pub proof fn law_qna_keeps_every_event<'a, F: UrlFixer>(
    events: Seq<MdEventView<'a>>,
    open: bool,
    in_code: bool,
    fixer: Option<F>,
    rules: Rules,
)
    ensures
        own_events(placed(events, open, in_code, fixer, rules)) == rewritten_each(
            events,
            in_code,
            fixer,
            rules,
        ),
    decreases events.len(),
{
    if events.len() == 0 {
        let all = placed(events, open, in_code, fixer, rules);
        if open {
            assert(all.drop_first() =~= Seq::<Placed<'a>>::empty());
            assert(own_events(all.drop_first()) =~= Seq::empty());
        }
        assert(own_events(all) =~= Seq::empty());
    } else {
        lemma_placed_parts(events, open, in_code, fixer, rules);
        law_qna_keeps_every_event(
            events.drop_first(),
            open_after(events[0], open),
            in_code_after(events[0], in_code),
            fixer,
            rules,
        );
    }
}

/// Where no question ends while an answer is open, the block quotes that
/// the style puts in open and close in turn: none is opened inside another,
/// and each one that is opened is closed.
pub proof fn law_qna_quotes_are_balanced<'a, F: UrlFixer>(
    events: Seq<MdEventView<'a>>,
    open: bool,
    in_code: bool,
    fixer: Option<F>,
    rules: Rules,
)
    requires
        questions_paired(events, open),
    ensures
        in_turn(quotes(placed(events, open, in_code, fixer, rules)), open),
    decreases events.len(),
{
    let all = placed(events, open, in_code, fixer, rules);
    if events.len() == 0 {
        if open {
            assert(all.drop_first() =~= Seq::<Placed<'a>>::empty());
            assert(quotes(all.drop_first()) =~= Seq::<bool>::empty());
            assert(quotes(all) =~= seq![false]);
            assert(quotes(all).drop_first() =~= Seq::<bool>::empty());
            assert(in_turn(quotes(all).drop_first(), false));
            assert(!quotes(all)[0]);
        } else {
            assert(quotes(all) =~= Seq::<bool>::empty());
        }
    } else {
        let event = events[0];
        let open_next = open_after(event, open);
        lemma_placed_parts(events, open, in_code, fixer, rules);
        law_qna_quotes_are_balanced(
            events.drop_first(),
            open_next,
            in_code_after(event, in_code),
            fixer,
            rules,
        );
        let tail = quotes(
            placed(events.drop_first(), open_next, in_code_after(event, in_code), fixer, rules),
        );
        let before = put_before(event, open);
        let after = put_after(event);
        assert(quotes(Seq::<Placed<'a>>::empty()) =~= Seq::<bool>::empty());
        if open && starts_question(event) {
            assert(!ends_question(event));
            assert(before.drop_first() =~= Seq::<Placed<'a>>::empty());
            assert(quotes(before) =~= seq![false]);
            assert(quotes(after) =~= Seq::<bool>::empty());
            assert(quotes(all) =~= seq![false] + tail);
            assert(quotes(all).drop_first() =~= tail);
            assert(!quotes(all)[0]);
            assert(!open_next);
            assert(in_turn(quotes(all), open));
        } else if ends_question(event) {
            assert(!open);
            assert(after.drop_first() =~= Seq::<Placed<'a>>::empty());
            assert(quotes(before) =~= Seq::<bool>::empty());
            assert(quotes(after) =~= seq![true]);
            assert(quotes(all) =~= seq![true] + tail);
            assert(quotes(all).drop_first() =~= tail);
            assert(quotes(all)[0]);
            assert(open_next);
            assert(in_turn(quotes(all), open));
        } else {
            assert(quotes(before) =~= Seq::<bool>::empty());
            assert(quotes(after) =~= Seq::<bool>::empty());
            assert(quotes(all) =~= tail);
            assert(open_next == open);
        }
    }
}

/// The state in which a stream over `events` starts.
pub open spec fn start_of<'a>(events: Seq<MdEventView<'a>>) -> StreamState<'a> {
    StreamState { remaining: events, stage: InsertP::Dont, in_code: false }
}

/// The window of the views is the view of the window.
pub proof fn lemma_views_of_window<'a>(events: Seq<MdEvent<'a>>, size: nat)
    ensures
        views_of(window_of(events, size)) == window_of(views_of(events), size),
{
    assert(views_of(window_of(events, size)) =~= window_of(views_of(events), size));
}

/// A stream of markdown events, rewritten for the site as they are pulled.
pub struct MDStream<'a, 'b, const SIZE: usize, F: UrlFixer> {
    iter: CachedLookahead<MdEvent<'a>, SIZE>,
    url_fixer: Option<F>,
    builder: &'b Builder,
    metadata: Option<Metadata>,
    insert_para_stage: InsertP,
    inside_code_block: bool,
}

/// Whether a document with this metadata is in the question-and-answer
/// style.
pub open spec fn is_qna(metadata: Option<Metadata>) -> bool {
    match metadata {
        Some(meta) => meta.style == Style::QnA,
        None => false,
}
}

impl<'a, 'b, const SIZE: usize, F: UrlFixer> MDStream<'a, 'b, SIZE, F> {
    /// Where the stream stands.
    pub closed spec fn state(&self) -> StreamState<'a> {
        StreamState {
            remaining: views_of(self.iter.remaining()),
            stage: self.insert_para_stage,
            in_code: self.inside_code_block,
}
    }

    /// The caller's rewrite of links.
    pub closed spec fn fixer(&self) -> Option<F> {
        self.url_fixer
    }

    /// What the stream rewrites with.
    pub closed spec fn rules(&self) -> Rules {
        Rules {
            qna: is_qna(self.metadata),
            window: SIZE as nat,
            base: site_base(self.builder.config.base_view()),
}
    }

    /// A stream over the events of a document.
    pub fn new(
        events: Vec<MdEvent<'a>>,
        url_fixer: Option<F>,
        builder: &'b Builder,
        metadata: Option<Metadata>,
    ) -> (r: MDStream<'a, 'b, SIZE, F>)
        ensures
            r.state() == start_of(views_of(events@)),
            r.fixer() == url_fixer,
            r.rules() == (Rules {
                qna: is_qna(metadata),
                window: SIZE as nat,
                base: site_base(builder.config.base_view()),
}),
    {
        MDStream {
            iter: CachedLookahead::new(events),
            url_fixer,
            builder,
            metadata,
            insert_para_stage: InsertP::Dont,
            inside_code_block: false,
}
    }

    fn qna(&self) -> (r: bool)
        ensures
            r == self.rules().qna,
    {
        match &self.metadata {
            Some(meta) => match meta.style {
                Style::QnA => true,
                Style::Default => false,
},
            None => false,
}
    }

    /// Whether the answer that is open ends before the next event.
    fn at_answer_end(&self) -> (r: bool)
        ensures
            r == answer_ends(self.state().remaining),
    {
        match self.iter.peek() {
            Some(event) => {
                assert(self.state().remaining[0] == event@);
                match event {
                    MdEvent::Start(MdTag::Heading(level, _, _)) => level.number() == 2,
                    _ => false,
}
            },
            None => true,
}
    }

    /// Rewrites the tag of a start event.
    fn rewrite_tag(&mut self, tag: MdTag<'a>) -> (r: MdTag<'a>)
        ensures
            r@ == rewritten_tag(
                tag@,
                old(self).state().remaining,
                old(self).fixer(),
                old(self).rules(),
            ),
            final(self).state() == (StreamState {
                in_code: in_code_after(MdEventView::Start(tag@), old(self).state().in_code),
                ..old(self).state()
            }),
            final(self).fixer() == old(self).fixer(),
            final(self).rules() == old(self).rules(),
    {
        match tag {
            MdTag::Link(kind, dest, title) => {
                let fixed = fix_destination(
                    kind,
                    dest.as_str(),
                    &self.url_fixer,
                    &self.builder.config,
                );
                MdTag::Link(kind, fixed, title)
            },
            MdTag::Image(kind, dest, title) => {
                let fixed = fix_destination(
                    kind,
                    dest.as_str(),
                    &self.url_fixer,
                    &self.builder.config,
                );
                MdTag::Image(kind, fixed, title)
            },
            MdTag::Heading(level, anchor, classes) => {
                let anchor = if anchor.is_none() && level.number() < 4 {
                    proof {
                        lemma_views_of_window(self.iter.remaining(), SIZE as nat);
                    }
                    Some(anchor_ahead(&self.iter))
                } else {
                    anchor
                };
                let mut classes = classes;
                if self.qna() && level.number() < 3 {
                    let class = String::from_str("qna-question");
                    proof {
                        crate::text::lemma_texts_of_push(classes@, class);
                    }
                    classes.push(class);
                }
                MdTag::Heading(level, anchor, classes)
            },
            MdTag::CodeBlock(kind) => {
                self.inside_code_block = true;
                MdTag::CodeBlock(kind)
            },
            other => other,
}
    }

    /// Pulls the next event of the rewritten document.
    pub fn next(&mut self) -> (r: Option<MdEvent<'a>>)
        ensures
            final(self).fixer() == old(self).fixer(),
            final(self).rules() == old(self).rules(),
            match step(old(self).state(), old(self).fixer(), old(self).rules()) {
                Some((event, state)) => r.is_some() && r.unwrap()@ == event && final(self).state()
                    == state,
                None => r.is_none() && final(self).state() == old(self).state(),
},
    {
        match self.insert_para_stage {
            InsertP::Start => {
                self.insert_para_stage = InsertP::ToEnd;
                return Some(MdEvent::Start(MdTag::BlockQuote));
            },
            InsertP::ToEnd => {
                if self.at_answer_end() {
                    self.insert_para_stage = InsertP::Dont;
                    return Some(MdEvent::End(MdTag::BlockQuote));
                }
            },
            InsertP::Dont => {},
}
        let ghost before = self.iter.remaining();
        let event = match self.iter.next() {
            Some(event) => event,
            None => {
                return None;
            },
};
        proof {
            assert(views_of(before.drop_first()) =~= views_of(before).drop_first());
            assert(views_of(before)[0] == event@);
        }
        let out = match event {
            MdEvent::Text(text) => {
                if self.inside_code_block {
                    MdEvent::Text(text)
                } else {
                    MdEvent::Text(fmt_emoji(text.as_str()))
                }
            },
            MdEvent::Start(tag) => MdEvent::Start(self.rewrite_tag(tag)),
            MdEvent::End(tag) => {
                match &tag {
                    MdTag::Heading(level, _, _) => {
                        if self.qna() && level.number() == 2 {
                            self.insert_para_stage = InsertP::Start;
                        }
                    },
                    MdTag::CodeBlock(_) => {
                        self.inside_code_block = false;
                    },
                    _ => {},
}
                MdEvent::End(tag)
            },
            other => other,
};
        Some(out)
    }

    /// Pulls every event that is left.
    pub fn collect(self) -> (out: Vec<MdEvent<'a>>)
        ensures
            views_of(out@) == transformed(self.state(), self.fixer(), self.rules()),
    {
        let mut stream = self;
        let mut out: Vec<MdEvent<'a>> = Vec::new();
        let ghost whole = transformed(self.state(), self.fixer(), self.rules());
        assert(views_of(out@) + whole =~= whole);
        loop
            invariant
                stream.fixer() == self.fixer(),
                stream.rules() == self.rules(),
                views_of(out@) + transformed(stream.state(), stream.fixer(), stream.rules())
                    == whole,
            ensures
                views_of(out@) == whole,
            decreases pulls_left(stream.state()),
        {
            let ghost state = stream.state();
            let ghost sofar = views_of(out@);
            proof {
                lemma_step_decreases(state, stream.fixer(), stream.rules());
            }
            match stream.next() {
                Some(event) => {
                    proof {
                        lemma_views_of_push(out@, event);
                        let rest = transformed(stream.state(), stream.fixer(), stream.rules());
                        assert(sofar.push(event@) + rest =~= sofar + (seq![event@] + rest));
                    }
                    out.push(event);
                },
                None => {
                    proof {
                        assert(sofar + Seq::<MdEventView<'a>>::empty() =~= sofar);
                    }
                    break ;
                },
}
        }
        out
    }
}

/// The line that opens and closes front matter.
pub open spec fn fence() -> Seq<char> {
    seq!['-', '-', '-']
}

/// The front matter of a document, if it has any: the text between a fence
/// at its start, after whitespace, and the next fence.
pub open spec fn front_matter_of(doc: Seq<char>) -> Option<Seq<char>> {
    let trimmed = trimmed_start(doc);
    if occurs_at(trimmed, 0, fence()) {
        let rest = trimmed.subrange(3, trimmed.len() as int);
        match first_occurrence(rest, fence(), 0) {
            Some(end) => Some(rest.subrange(0, end)),
            None => None,
}
    } else {
        None
    }
}

/// The body of a document: what follows its front matter. Without an opening
/// fence the body is the whole document; with an opening fence that is never
/// closed, it is what follows that fence.
pub open spec fn body_of(doc: Seq<char>) -> Seq<char> {
    let trimmed = trimmed_start(doc);
    if occurs_at(trimmed, 0, fence()) {
        let rest = trimmed.subrange(3, trimmed.len() as int);
        match first_occurrence(rest, fence(), 0) {
            Some(end) => if 0 <= end && end + 3 <= rest.len() {
                rest.subrange(end + 3, rest.len() as int)
            } else {
                rest
            },
            None => rest,
}
    } else {
        doc
    }
}

/// Parts a document into its body and the text of its front matter.
pub fn parse_markdown_metadata(doc: &str) -> (r: (String, Option<String>))
    ensures
        r.0@ == body_of(doc@),
        match r.1 {
            Some(front) => front_matter_of(doc@) == Some(front@),
            None => front_matter_of(doc@).is_none(),
},
{
    let chars = chars_of(doc);
    let lead = count_leading_whitespace(&chars);
    let trimmed = slice_chars(&chars, lead, chars.len());
    let mut dashes: Vec<char> = Vec::new();
    dashes.push('-');
    dashes.push('-');
    dashes.push('-');
    assert(dashes@ =~= fence());
    if !matches_at(&trimmed, 0, &dashes) {
        return (string_of(&chars), None);
    }
    let rest = slice_chars(&trimmed, 3, trimmed.len());
    match find(&rest, &dashes, 0) {
        Some(end) => {
            proof {
                crate::text::lemma_first_occurrence(rest@, dashes@, 0);
            }
            let front = slice_chars(&rest, 0, end);
            let body = slice_chars(&rest, end + 3, rest.len());
            (string_of(&body), Some(string_of(&front)))
        },
        None => (string_of(&rest), None),
}
}

/// Reads the events of a text.
pub fn read_events<'a>(text: &'a str) -> (events: Vec<MdEvent<'a>>)
    ensures
        views_of(events@) == markdown_events(text@),
{
    parse_events(text)
}

/// Writes events as HTML.
pub fn write_events(events: &Vec<MdEvent<'_>>) -> (html: String)
    ensures
        html@ == html_of_events(views_of(events@)),
{
    render_events(events)
}

/// The `div` that holds the HTML of a document.
pub open spec fn text_div(markup: Seq<char>) -> HtmlView {
    HtmlView::Element(
        ElementView {
            tag: "div"@,
            classes: seq!["text"@],
            attributes: Seq::empty(),
            children: seq![HtmlView::Raw(markup)],
},
    )
}

/// The rules of a run for a document with this metadata, with `window`
/// events seen ahead.
pub open spec fn rules_for(builder: &Builder, metadata: Option<Metadata>, window: nat) -> Rules {
    Rules { qna: is_qna(metadata), window, base: site_base(builder.config.base_view()) }
}

/// Rewrites the events of a document for the site.
pub fn fmt_events<'a, F: UrlFixer>(
    builder: &Builder,
    events: Vec<MdEvent<'a>>,
    metadata: Option<Metadata>,
    url_fixer: Option<F>,
) -> (out: Vec<MdEvent<'a>>)
    ensures
        views_of(out@) == transformed(
            start_of(views_of(events@)),
            url_fixer,
            rules_for(builder, metadata, 5),
        ),
{
    let stream = MDStream::<5, F>::new(events, url_fixer, builder, metadata);
    stream.collect()
}

/// The HTML of a document for the site. `metadata` is the front matter of
/// `text`, as the caller has read it; the body of `text` is what is written.
pub fn fmt_markdown<F: UrlFixer>(
    builder: &Builder,
    text: &str,
    metadata: Option<Metadata>,
    url_fixer: Option<F>,
) -> (r: Html)
    ensures
        r@ == text_div(
            html_of_events(
                transformed(
                    start_of(markdown_events(body_of(text@))),
                    url_fixer,
                    rules_for(builder, metadata, 5),
                ),
            ),
        ),
{
    let (body, _) = parse_markdown_metadata(text);
    let events = parse_events(body.as_str());
    let out = fmt_events(builder, events, metadata, url_fixer);
    let content = render_events(&out);
    let element = HtmlElement::new("div").with_class("text").with_child(Html::Raw(content));
    proof {
        assert(element@.classes =~= seq!["text"@]);
        assert(element@.children =~= seq![HtmlView::Raw(content@)]);
    }
    element.into_html()
}

/// Whether an event is the start of a heading.
pub open spec fn starts_heading(event: MdEventView) -> bool {
    match event {
        MdEventView::Start(MdTagView::Heading(_, _, _)) => true,
        _ => false,
}
}

/// The text runs among `events`, one after another, as they are.
pub open spec fn plain_text(events: Seq<MdEventView>) -> Seq<char>
    decreases events.len(),
{
    if events.len() == 0 {
        Seq::empty()
    } else {
        match events.last() {
            MdEventView::Text(text) => plain_text(events.drop_last()) + text,
            _ => plain_text(events.drop_last()),
}
    }
}

/// The title that a document gives itself: the text of the heading that it
/// starts with, up to the end of that heading; empty where it starts with
/// anything else.
pub open spec fn derived_title(events: Seq<MdEventView>) -> Seq<char> {
    if events.len() > 0 && starts_heading(events[0]) {
        let rest = events.drop_first();
        plain_text(rest.take(heading_span(rest)))
    } else {
        Seq::empty()
    }
}

/// The title of a document: that of its front matter; else the one it gives
/// itself, if that is not empty; else the caller's.
pub open spec fn chosen_title(
    front: Option<Seq<char>>,
    derived: Seq<char>,
    default_title: Option<Seq<char>>,
) -> Option<Seq<char>> {
    match front {
        Some(title) => Some(title),
        None => if derived.len() > 0 {
            Some(derived)
        } else {
            default_title
        },
}
}

/// The title of the front matter, if there is front matter with a title.
pub open spec fn front_title(metadata: Option<Metadata>) -> Option<Seq<char>> {
    match metadata {
        Some(meta) => text_of(meta.title),
        None => None,
}
}

/// Whether `r` is `metadata` with the title `title`; without front matter,
/// every other field has its default.
pub open spec fn titled(r: Metadata, metadata: Option<Metadata>, title: Seq<char>) -> bool {
    &&& text_of(r.title) == Some(title)
    &&& match metadata {
        Some(meta) => r.description == meta.description && r.icon == meta.icon && r.order
            == meta.order && r.style == meta.style,
        None => r.description.is_none() && r.icon.is_none() && r.order.is_none() && r.style
            == Style::Default,
}
}

/// Reads the title that a document gives itself.
pub fn title_of_events(events: &Vec<MdEvent<'_>>) -> (r: String)
    ensures
        r@ == derived_title(views_of(events@)),
{
    let ghost all = views_of(events@);
    if events.len() == 0 {
        return String::new();
    }
    match &events[0] {
        MdEvent::Start(MdTag::Heading(_, _, _)) => {},
        _ => {
            assert(!starts_heading(all[0]));
            return String::new();
        },
}
    assert(starts_heading(all[0]));
    let ghost rest = all.drop_first();
    let mut out: Vec<char> = Vec::new();
    let mut i: usize = 1;
    loop
        invariant
            1 <= i <= events.len(),
            all == views_of(events@),
            rest == all.drop_first(),
            forall|j: int| 0 <= j < i - 1 ==> !ends_heading(#[trigger] rest[j]),
            out@ == plain_text(rest.take(i - 1)),
        ensures
            1 <= i <= events.len(),
            i - 1 == rest.len() || ends_heading(rest[i - 1]),
        decreases events.len() - i,
    {
        if i == events.len() {
            break ;
        }
        proof {
            assert(rest[i - 1] == events@[i as int]@);
            assert(rest.take(i as int).drop_last() =~= rest.take(i - 1));
            assert(rest.take(i as int).last() == rest[i - 1]);
        }
        match &events[i] {
            MdEvent::End(MdTag::Heading(_, _, _)) => {
                break ;
            },
            MdEvent::Text(text) => {
                let piece = chars_of(text.as_str());
                append_chars(&mut out, &piece);
            },
            _ => {},
}
        i += 1;
    }
    proof {
        lemma_heading_span(rest, i - 1);
    }
    string_of(&out)
}

/// Chooses the title of a document and returns its metadata with it, or
/// `None` where nothing gives a title.
pub fn metadata_with_title(
    derived: String,
    metadata: Option<Metadata>,
    default_title: Option<String>,
) -> (r: Option<Metadata>)
    ensures
        match chosen_title(front_title(metadata), derived@, text_of(default_title)) {
            Some(title) => r.is_some() && titled(r.unwrap(), metadata, title),
            None => r.is_none(),
},
{
    let derived_len = derived.as_str().unicode_len();
    match metadata {
        Some(meta) => {
            if meta.title.is_some() {
                return Some(meta);
            }
            let title = if derived_len > 0 {
                Some(derived)
            } else {
                default_title
            };
            match title {
                Some(title) => Some(
                    Metadata {
                        title: Some(title),
                        description: meta.description,
                        icon: meta.icon,
                        order: meta.order,
                        style: meta.style,
},
                ),
                None => None,
}
        },
        None => {
            if derived_len > 0 {
                Some(Metadata::new_with_title(derived))
            } else {
                match default_title {
                    Some(title) => Some(Metadata::new_with_title(title)),
                    None => None,
}
            }
        },
}
}

/// The metadata of a document, with a title. `metadata` is the front matter
/// of `text`, as the caller has read it.
pub fn extract_metadata_from_md(
    text: &str,
    metadata: Option<Metadata>,
    default_title: Option<String>,
) -> (r: Option<Metadata>)
    ensures
        match chosen_title(
            front_title(metadata),
            derived_title(markdown_events(body_of(text@))),
            text_of(default_title),
        ) {
            Some(title) => r.is_some() && titled(r.unwrap(), metadata, title),
            None => r.is_none(),
},
{
    let (body, _) = parse_markdown_metadata(text);
    let events = parse_events(body.as_str());
    let derived = title_of_events(&events);
    metadata_with_title(derived, metadata, default_title)
}

/// The slots of a tutorial page.
pub fn tutorial_slots(name: &str, content: Html, links: Html) -> (slots: Vec<(&'static str, Html)>)
    ensures
        slots@.len() == 3,
        slots@[0].0@ == "title"@,
        slots@[0].1@ == HtmlView::Text(name@),
        slots@[1].0@ == "content"@,
        slots@[1].1@ == content@,
        slots@[2].0@ == "links"@,
        slots@[2].1@ == links@,
{
    let mut slots: Vec<(&'static str, Html)> = Vec::new();
    slots.push(("title", Html::text(name)));
    slots.push(("content", content));
    slots.push(("links", links));
    slots
}

/// The slots of the page of a tutorial: its title is the name of the entry,
/// its content the document, with links to other tutorials rewritten.
/// `metadata` is the front matter of `content`, as the caller has read it.
pub fn output_tutorial<T: Entry>(
    entry: &T,
    builder: &Builder,
    content: &str,
    metadata: Option<Metadata>,
    links: Html,
) -> (slots: Vec<(&'static str, Html)>)
    ensures
        slots@.len() == 3,
        slots@[0].0@ == "title"@,
        exists|name: String|
            #[trigger] call_ensures(T::name, (entry,), name) && slots@[0].1@ == HtmlView::Text(
                name@,
            ),
        slots@[1].0@ == "content"@,
        exists|fixer: RemoveExtension|
            fixer.ext@ == ".md"@ && slots@[1].1@ == text_div(
                html_of_events(
                    transformed(
                        start_of(markdown_events(body_of(content@))),
                        Some(fixer),
                        rules_for(builder, metadata, 5),
                    ),
                ),
            ),
        slots@[2].0@ == "links"@,
        slots@[2].1@ == links@,
{
    let name = entry.name();
    let fixer = RemoveExtension { ext: String::from_str(".md") };
    let html = fmt_markdown(builder, content, metadata, Some(fixer));
    tutorial_slots(name.as_str(), html, links)
}

} // verus!
