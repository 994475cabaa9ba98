//! Site paths: a URL is held as its segments, and every way of making one
//! goes through the same splitting, so that no segment is empty or holds a
//! slash.

use crate::config::Config;
use crate::text::{
    chars_of, copy_chars, deep, lemma_deep_push, lemma_texts_of_push, matches_at, prefixed_concat,
    runs, scan, separates, split, string_of, texts_of, Separator,
};
use vstd::prelude::*;

verus! {

/// What separates the segments of a path.
pub open spec fn slash() -> Separator {
    Separator::Char('/')
}

/// Whether a text can be a segment: it is not empty and holds no slash.
pub open spec fn valid_segment(s: Seq<char>) -> bool {
    s.len() > 0 && forall|k: int| 0 <= k < s.len() ==> s[k] != '/'
}

/// Whether every text can be a segment.
pub open spec fn valid_segments(p: Seq<Seq<char>>) -> bool {
    forall|i: int| 0 <= i < p.len() ==> valid_segment(#[trigger] p[i])
}

/// The segments of each text in turn.
pub open spec fn segments_of_all(texts: Seq<Seq<char>>) -> Seq<Seq<char>>
    decreases texts.len(),
{
    if texts.len() == 0 {
        Seq::empty()
    } else {
        segments_of_all(texts.drop_last()) + runs(texts.last(), slash())
    }
}

/// The segment `..`, which would climb out of the site.
pub open spec fn parent_segment() -> Seq<char> {
    seq!['.', '.']
}

/// How a path is written: a slash before each segment, and a lone slash for
/// the empty path.
pub open spec fn path_text(p: Seq<Seq<char>>) -> Seq<char> {
    if p.len() == 0 {
        seq!['/']
    } else {
        prefixed_concat(p, seq!['/'])
    }
}

/// `p` without `ext` at the end of its last segment, where the last segment
/// ends in `ext` and is longer than it; else `p`.
pub open spec fn without_extension(p: Seq<Seq<char>>, ext: Seq<char>) -> Seq<Seq<char>> {
    if p.len() > 0 && ext.len() > 0 && p.last().len() > ext.len() && p.last().subrange(
        p.last().len() - ext.len(),
        p.last().len() as int,
    ) == ext {
        p.drop_last().push(p.last().subrange(0, p.last().len() - ext.len()))
    } else {
        p
    }
}

/// Whether `p` begins with the segments of `prefix`.
pub open spec fn has_prefix(p: Seq<Seq<char>>, prefix: Seq<Seq<char>>) -> bool {
    prefix.len() <= p.len() && p.subrange(0, prefix.len() as int) == prefix
}

/// `p` without `prefix` in front, where it begins with it; else `p`.
pub open spec fn without_prefix(p: Seq<Seq<char>>, prefix: Seq<Seq<char>>) -> Seq<Seq<char>> {
    if has_prefix(p, prefix) {
        p.subrange(prefix.len() as int, p.len() as int)
    } else {
        p
    }
}

/// `p` with `suffix` written behind its last segment. The text is split
/// again, so a slash in `suffix` starts a new segment; on the empty path the
/// suffix alone is split.
pub open spec fn with_suffix(p: Seq<Seq<char>>, suffix: Seq<char>) -> Seq<Seq<char>> {
    if p.len() == 0 {
        runs(suffix, slash())
    } else {
        p.drop_last() + runs(p.last() + suffix, slash())
    }
}

/// The segments in front of every absolute URL of the site.
pub open spec fn site_base(output_url: Option<Seq<Seq<char>>>) -> Seq<Seq<char>> {
    match output_url {
        Some(base) => base,
        None => Seq::empty(),
}
}

/// Whether no character of `run` separates.
pub open spec fn unbroken(run: Seq<char>, sep: Separator) -> bool {
    forall|k: int| 0 <= k < run.len() ==> !separates(sep, #[trigger] run[k])
}

/// Whether every run is non-empty and unbroken.
pub open spec fn proper_runs(all: Seq<Seq<char>>, sep: Separator) -> bool {
    forall|i: int| 0 <= i < all.len() ==> (#[trigger] all[i]).len() > 0 && unbroken(all[i], sep)
}

/// A scan closes only proper runs, and its open run is unbroken.
pub proof fn lemma_scan_valid(s: Seq<char>, sep: Separator)
    ensures
        proper_runs(scan(s, sep).0, sep),
        unbroken(scan(s, sep).1, sep),
    decreases s.len(),
{
    if s.len() > 0 {
        lemma_scan_valid(s.drop_last(), sep);
        let (done, open) = scan(s.drop_last(), sep);
        if separates(sep, s.last()) {
            if open.len() > 0 {
                assert forall|i: int| 0 <= i < done.push(open).len() implies (
                #[trigger] done.push(open)[i]).len() > 0 && unbroken(done.push(open)[i], sep) by {
                    if i < done.len() {
                        assert(done.push(open)[i] =~= done[i]);
                    }
                }
            }
        } else {
            assert forall|k: int| 0 <= k < open.push(s.last()).len() implies !separates(
                sep,
                #[trigger] open.push(s.last())[k],
            ) by {
                if k < open.len() {
                    assert(open.push(s.last())[k] =~= open[k]);
                }
            }
        }
    }
}

/// Every run is non-empty and free of separators.
pub proof fn lemma_runs_valid(s: Seq<char>, sep: Separator)
    ensures
        proper_runs(runs(s, sep), sep),
{
    lemma_scan_valid(s, sep);
    let (done, open) = scan(s, sep);
    if open.len() > 0 {
        assert forall|i: int| 0 <= i < done.push(open).len() implies (#[trigger] done.push(
            open,
        )[i]).len() > 0 && unbroken(done.push(open)[i], sep) by {
            if i < done.len() {
                assert(done.push(open)[i] =~= done[i]);
            }
        }
    }
}

/// The runs between slashes are valid segments.
pub proof fn lemma_segments_valid(s: Seq<char>)
    ensures
        valid_segments(runs(s, slash())),
{
    lemma_runs_valid(s, slash());
    assert forall|i: int| 0 <= i < runs(s, slash()).len() implies valid_segment(
        #[trigger] runs(s, slash())[i],
    ) by {
        let r = runs(s, slash())[i];
        assert(unbroken(r, slash()));
        assert forall|k: int| 0 <= k < r.len() implies r[k] != '/' by {
            assert(!separates(slash(), r[k]));
        }
    }
}

/// A text without a separator is scanned as one open run.
pub proof fn lemma_scan_plain(s: Seq<char>, sep: Separator)
    requires
        unbroken(s, sep),
    ensures
        scan(s, sep).0 == Seq::<Seq<char>>::empty(),
        scan(s, sep).1 == s,
    decreases s.len(),
{
    if s.len() > 0 {
        assert(unbroken(s.drop_last(), sep)) by {
            assert forall|k: int| 0 <= k < s.drop_last().len() implies !separates(
                sep,
                #[trigger] s.drop_last()[k],
            ) by {
                assert(s.drop_last()[k] =~= s[k]);
            }
        }
        lemma_scan_plain(s.drop_last(), sep);
        assert(!separates(sep, s[s.len() - 1]));
        assert(s.drop_last().push(s.last()) =~= s);
    }
}

/// A valid segment is its own only run.
pub proof fn lemma_runs_of_segment(s: Seq<char>)
    requires
        valid_segment(s),
    ensures
        runs(s, slash()) == seq![s],
{
    assert(unbroken(s, slash())) by {
        assert forall|k: int| 0 <= k < s.len() implies !separates(slash(), #[trigger] s[k]) by {}
    }
    lemma_scan_plain(s, slash());
    assert(Seq::<Seq<char>>::empty().push(s) =~= seq![s]);
}

/// Adds the segments of `text` at the end of `parts`.
fn push_runs(parts: &mut Vec<Vec<char>>, text: &Vec<char>)
    ensures
        deep(final(parts)@) == deep(old(parts)@) + runs(text@, slash()),
{
    let mut pieces = split(text, &Separator::Char('/'));
    let ghost before = deep(parts@);
    let ghost all = runs(text@, slash());
    let mut rest: Vec<Vec<char>> = Vec::new();
    proof {
        assert(all.take(all.len() as int) =~= all);
    }
    // The pieces are moved over from the back, and then put in order.
    while pieces.len() > 0
        invariant
            pieces@.len() + rest@.len() == all.len(),
            deep(pieces@) == all.take(pieces@.len() as int),
            forall|i: int|
                0 <= i < rest@.len() ==> (#[trigger] rest@[i])@ == all[all.len() - 1 - i],
        decreases pieces.len(),
    {
        let ghost prior = pieces@;
        let piece = pieces.pop().unwrap();
        proof {
            assert(deep(prior)[prior.len() - 1] == piece@);
            assert(deep(pieces@) =~= all.take(pieces@.len() as int));
        }
        rest.push(piece);
    }
    proof {
        assert(before + all.take(0) =~= before);
    }
    while rest.len() > 0
        invariant
            rest@.len() <= all.len(),
            forall|i: int|
                0 <= i < rest@.len() ==> (#[trigger] rest@[i])@ == all[all.len() - 1 - i],
            deep(parts@) == before + all.take(all.len() - rest@.len()),
        decreases rest.len(),
    {
        let piece = rest.pop().unwrap();
        let ghost prior = deep(parts@);
        parts.push(piece);
        proof {
            assert(deep(parts@) =~= prior.push(piece@));
            assert(all.take(all.len() - rest@.len()) =~= all.take(
                all.len() - rest@.len() - 1,
            ).push(piece@));
            assert(deep(parts@) =~= before + all.take(all.len() - rest@.len()));
        }
    }
    proof {
        assert(all.take(all.len() as int) =~= all);
    }
}

/// All runs of all texts are valid segments.
pub proof fn lemma_segments_of_all_valid(texts: Seq<Seq<char>>)
    ensures
        valid_segments(segments_of_all(texts)),
    decreases texts.len(),
{
    if texts.len() > 0 {
        lemma_segments_of_all_valid(texts.drop_last());
        lemma_segments_valid(texts.last());
    }
}

/// Scanning goes on after a separator as if it started there: what stood
/// before is closed.
pub proof fn lemma_scan_after_separator(a: Seq<char>, c: char, b: Seq<char>, sep: Separator)
    requires
        separates(sep, c),
    ensures
        scan(a.push(c) + b, sep) == (runs(a, sep) + scan(b, sep).0, scan(b, sep).1),
    decreases b.len(),
{
    let whole = a.push(c) + b;
    if b.len() == 0 {
        assert(whole =~= a.push(c));
        assert(whole.drop_last() =~= a);
        assert(whole.last() == c);
        assert(runs(a, sep) + Seq::<Seq<char>>::empty() =~= runs(a, sep));
    } else {
        lemma_scan_after_separator(a, c, b.drop_last(), sep);
        assert(whole.drop_last() =~= a.push(c) + b.drop_last());
        assert(whole.last() == b.last());
        let (done, open) = scan(b.drop_last(), sep);
        if separates(sep, b.last()) {
            if open.len() > 0 {
                assert((runs(a, sep) + done).push(open) =~= runs(a, sep) + done.push(open));
            }
        }
    }
}

/// Writing a path and reading it again gives the same path.
pub proof fn law_path_text_round_trip(p: Seq<Seq<char>>)
    requires
        valid_segments(p),
    ensures
        runs(path_text(p), slash()) == p,
    decreases p.len(),
{
    if p.len() == 0 {
        let text = seq!['/'];
        assert(text.drop_last() =~= Seq::<char>::empty());
        assert(text.last() == '/');
        assert(scan(text.drop_last(), slash()) == (Seq::<Seq<char>>::empty(), Seq::<char>::empty()));
        assert(runs(text, slash()) =~= p);
    } else {
        let front = p.drop_last();
        let last = p.last();
        assert(valid_segment(last));
        assert(valid_segments(front)) by {
            assert forall|i: int| 0 <= i < front.len() implies valid_segment(
                #[trigger] front[i],
            ) by {
                assert(front[i] == p[i]);
            }
        }
        let before = prefixed_concat(front, seq!['/']);
        assert(runs(before, slash()) == front) by {
            if front.len() == 0 {
                assert(before =~= Seq::<char>::empty());
            } else {
                law_path_text_round_trip(front);
            }
        }
        assert(prefixed_concat(p, seq!['/']) =~= before.push('/') + last);
        lemma_scan_after_separator(before, '/', last, slash());
        assert(unbroken(last, slash())) by {
            assert forall|k: int| 0 <= k < last.len() implies !separates(
                slash(),
                #[trigger] last[k],
            ) by {}
        }
        lemma_scan_plain(last, slash());
        assert((front + Seq::<Seq<char>>::empty()).push(last) =~= p);
    }
}

/// A site path.
#[derive(Debug)]
pub struct UrlPath {
    parts: Vec<Vec<char>>,
}

impl View for UrlPath {
    type V = Seq<Seq<char>>;

    closed spec fn view(&self) -> Seq<Seq<char>> {
        deep(self.parts@)
    }
}

impl PartialEq for UrlPath {
    fn eq(&self, other: &UrlPath) -> (r: bool) {
        self.equals(other)
    }
}

impl Eq for UrlPath {

}

impl vstd::std_specs::cmp::PartialEqSpecImpl for UrlPath {
    open spec fn obeys_eq_spec() -> bool {
        true
    }

    open spec fn eq_spec(&self, other: &UrlPath) -> bool {
        self@ == other@
    }
}

impl Clone for UrlPath {
    fn clone(&self) -> (r: Self)
        ensures
            r@ == self@,
    {
        proof {
            use_type_invariant(self);
        }
        UrlPath { parts: self.clone_parts() }
    }
}

impl UrlPath {
    #[verifier::type_invariant]
    closed spec fn inv(&self) -> bool {
        valid_segments(self@)
    }

    /// The empty path: the root of the site.
    pub fn new() -> (r: UrlPath)
        ensures
            r@ == Seq::<Seq<char>>::empty(),
    {
        let parts: Vec<Vec<char>> = Vec::new();
        assert(deep(parts@) =~= Seq::<Seq<char>>::empty());
        UrlPath { parts }
    }

    /// A copy of the segments.
    fn clone_parts(&self) -> (parts: Vec<Vec<char>>)
        ensures
            deep(parts@) == self@,
    {
        let mut parts: Vec<Vec<char>> = Vec::new();
        let mut i: usize = 0;
        while i < self.parts.len()
            invariant
                0 <= i <= self.parts.len(),
                deep(parts@) == self@.take(i as int),
            decreases self.parts.len() - i,
        {
            let part = copy_chars(&self.parts[i]);
            proof {
                assert(part@ == self@[i as int]);
                lemma_deep_push(parts@, part);
                assert(self@.take(i + 1) =~= self@.take(i as int).push(self@[i as int]));
            }
            parts.push(part);
            i += 1;
        }
        proof {
            assert(self@.take(i as int) =~= self@);
        }
        parts
    }

    /// The path made of the segments of each part in turn.
    pub fn new_with_path(parts: Vec<String>) -> (r: UrlPath)
        ensures
            r@ == segments_of_all(texts_of(parts@)),
    {
        let ghost texts = texts_of(parts@);
        let mut out: Vec<Vec<char>> = Vec::new();
        let mut i: usize = 0;
        assert(deep(out@) =~= Seq::<Seq<char>>::empty());
        while i < parts.len()
            invariant
                0 <= i <= parts.len(),
                texts == texts_of(parts@),
                deep(out@) == segments_of_all(texts.take(i as int)),
            decreases parts.len() - i,
        {
            let chars = chars_of(parts[i].as_str());
            proof {
                assert(texts.take(i + 1).drop_last() =~= texts.take(i as int));
                assert(texts.take(i + 1).last() =~= chars@);
            }
            push_runs(&mut out, &chars);
            i += 1;
        }
        proof {
            assert(texts.take(i as int) =~= texts);
            lemma_segments_of_all_valid(texts);
        }
        UrlPath { parts: out }
    }

    /// The path of one text.
    pub fn part(text: &str) -> (r: UrlPath)
        ensures
            r@ == runs(text@, slash()),
    {
        let chars = chars_of(text);
        let mut out: Vec<Vec<char>> = Vec::new();
        assert(deep(out@) =~= Seq::<Seq<char>>::empty());
        push_runs(&mut out, &chars);
        proof {
            lemma_segments_valid(text@);
            assert(Seq::<Seq<char>>::empty() + runs(text@, slash()) =~= runs(text@, slash()));
        }
        UrlPath { parts: out }
    }

    /// Reads a path. One with a `..` segment is refused: it would climb out
    /// of the site.
    pub fn parse(url: &str) -> (r: Result<UrlPath, String>)
        ensures
            match r {
                Ok(path) => path@ == runs(url@, slash()) && !runs(url@, slash()).contains(
                    parent_segment(),
                ),
                Err(message) => runs(url@, slash()).contains(parent_segment()) && message@
                    == "a URL may not hold a `..` segment"@,
},
    {
        let path = UrlPath::part(url);
        let mut i: usize = 0;
        while i < path.parts.len()
            invariant
                0 <= i <= path.parts.len(),
                path@ == runs(url@, slash()),
                forall|k: int| 0 <= k < i ==> path@[k] != parent_segment(),
            decreases path.parts.len() - i,
        {
            let part = &path.parts[i];
            if part.len() == 2 && part[0] == '.' && part[1] == '.' {
                proof {
                    assert(part@ == parent_segment());
                    assert(path@[i as int] == parent_segment());
                }
                return Err(String::from_str("a URL may not hold a `..` segment"));
            }
            proof {
                if path@[i as int] == parent_segment() {
                    assert(part@.len() == 2 && part@[0] == '.' && part@[1] == '.');
                }
            }
            i += 1;
        }
        Ok(path)
    }

    /// How many segments the path has.
    pub fn len(&self) -> (n: usize)
        ensures
            n == self@.len(),
    {
        self.parts.len()
    }

    /// Whether the path has no segment.
    pub fn is_empty(&self) -> (r: bool)
        ensures
            r == (self@.len() == 0),
    {
        self.parts.len() == 0
    }

    /// The segment at `index`.
    pub fn segment(&self, index: usize) -> (r: Option<String>)
        ensures
            match r {
                Some(s) => index < self@.len() && s@ == self@[index as int],
                None => index >= self@.len(),
},
    {
        if index < self.parts.len() {
            Some(string_of(&self.parts[index]))
        } else {
            None
        }
    }

    /// The segments, first to last.
    pub fn segments(&self) -> (r: Vec<String>)
        ensures
            texts_of(r@) == self@,
    {
        let mut out: Vec<String> = Vec::new();
        let mut i: usize = 0;
        while i < self.parts.len()
            invariant
                0 <= i <= self.parts.len(),
                texts_of(out@) == self@.take(i as int),
            decreases self.parts.len() - i,
        {
            let s = string_of(&self.parts[i]);
            proof {
                lemma_texts_of_push(out@, s);
                assert(self@.take(i + 1) =~= self@.take(i as int).push(self@[i as int]));
            }
            out.push(s);
            i += 1;
        }
        proof {
            assert(self@.take(i as int) =~= self@);
        }
        out
    }

    /// First this path, then `other`.
    pub fn join(&self, other: &UrlPath) -> (r: UrlPath)
        ensures
            r@ == self@ + other@,
    {
        proof {
            use_type_invariant(self);
            use_type_invariant(other);
        }
        let mut parts = self.clone_parts();
        let mut i: usize = 0;
        assert(self@ + other@.take(0) =~= self@);
        while i < other.parts.len()
            invariant
                0 <= i <= other.parts.len(),
                deep(parts@) == self@ + other@.take(i as int),
            decreases other.parts.len() - i,
        {
            let part = copy_chars(&other.parts[i]);
            let ghost prior = deep(parts@);
            proof {
                assert(part@ == other@[i as int]);
            }
            parts.push(part);
            proof {
                assert(deep(parts@) =~= prior.push(part@));
                assert(other@.take(i + 1) =~= other@.take(i as int).push(other@[i as int]));
                assert(deep(parts@) =~= self@ + other@.take(i + 1));
            }
            i += 1;
        }
        proof {
            assert(other@.take(i as int) =~= other@);
        }
        UrlPath { parts }
    }

    /// The path below the site's base URL.
    pub fn to_absolute(&self, config: &Config) -> (r: UrlPath)
        ensures
            r@ == site_base(config.base_view()) + self@,
    {
        match &config.output_url {
            Some(base) => base.join(self),
            None => {
                let r = self.clone();
                assert(Seq::<Seq<char>>::empty() + self@ =~= self@);
                r
            },
}
    }

    /// Whether the path begins with the segments of `prefix`.
    pub fn starts_with(&self, prefix: &UrlPath) -> (r: bool)
        ensures
            r == has_prefix(self@, prefix@),
    {
        if prefix.parts.len() > self.parts.len() {
            return false;
        }
        let mut i: usize = 0;
        while i < prefix.parts.len()
            invariant
                0 <= i <= prefix.parts.len() <= self.parts.len(),
                self@.subrange(0, i as int) == prefix@.take(i as int),
            decreases prefix.parts.len() - i,
        {
            if !same_chars(&self.parts[i], &prefix.parts[i]) {
                proof {
                    assert(self@.subrange(0, prefix@.len() as int)[i as int] =~= self@[i as int]);
                    assert(self@[i as int] != prefix@[i as int]);
                }
                return false;
            }
            proof {
                assert(self@.subrange(0, i + 1) =~= self@.subrange(0, i as int).push(
                    self@[i as int],
                ));
                assert(prefix@.take(i + 1) =~= prefix@.take(i as int).push(prefix@[i as int]));
            }
            i += 1;
        }
        proof {
            assert(prefix@.take(i as int) =~= prefix@);
        }
        true
    }

    /// The path without `prefix` in front, where it has it.
    pub fn strip_prefix(&self, prefix: &UrlPath) -> (r: UrlPath)
        ensures
            r@ == without_prefix(self@, prefix@),
    {
        proof {
            use_type_invariant(self);
        }
        if !self.starts_with(prefix) {
            return self.clone();
        }
        let mut parts: Vec<Vec<char>> = Vec::new();
        let start: usize = prefix.parts.len();
        let mut i: usize = start;
        while i < self.parts.len()
            invariant
                start <= i <= self.parts.len(),
                deep(parts@) == self@.subrange(start as int, i as int),
                valid_segments(self@),
            decreases self.parts.len() - i,
        {
            let part = copy_chars(&self.parts[i]);
            proof {
                assert(part@ == self@[i as int]);
                lemma_deep_push(parts@, part);
                assert(self@.subrange(start as int, i + 1) =~= self@.subrange(
                    start as int,
                    i as int,
                ).push(self@[i as int]));
            }
            parts.push(part);
            i += 1;
        }
        proof {
            assert(self@.subrange(start as int, self@.len() as int) =~= without_prefix(self@, prefix@));
        }
        UrlPath { parts }
    }

    /// The path without `ext` at the end of its last segment.
    pub fn remove_extension(&self, ext: &str) -> (r: UrlPath)
        ensures
            r@ == without_extension(self@, ext@),
    {
        proof {
            use_type_invariant(self);
        }
        let ext_chars = chars_of(ext);
        let mut parts = self.clone_parts();
        let n: usize = parts.len();
        if n == 0 || ext_chars.len() == 0 {
            return UrlPath { parts };
        }
        let last_len: usize = parts[n - 1].len();
        proof {
            assert(self@.last() == parts@[n - 1]@);
        }
        if last_len > ext_chars.len() && matches_at(
            &parts[n - 1],
            last_len - ext_chars.len(),
            &ext_chars,
        ) {
            let mut last = parts.pop().unwrap();
            let ghost whole = last@;
            last.truncate(last_len - ext_chars.len());
            proof {
                assert(last@ =~= whole.subrange(0, whole.len() - ext_chars@.len()));
                assert(deep(parts@) =~= self@.drop_last());
                assert(valid_segment(whole));
            }
            let ghost prior = deep(parts@);
            parts.push(last);
            proof {
                assert(deep(parts@) =~= prior.push(last@));
            }
            UrlPath { parts }
        } else {
            UrlPath { parts }
        }
    }

    /// The path with `suffix` written behind its last segment.
    pub fn append_to_last(&self, suffix: &str) -> (r: UrlPath)
        ensures
            r@ == with_suffix(self@, suffix@),
    {
        proof {
            use_type_invariant(self);
        }
        let suffix_chars = chars_of(suffix);
        let mut parts = self.clone_parts();
        if parts.len() == 0 {
            push_runs(&mut parts, &suffix_chars);
            proof {
                lemma_segments_valid(suffix@);
                assert(self@ + runs(suffix@, slash()) =~= runs(suffix@, slash()));
            }
            return UrlPath { parts };
        }
        let mut last = parts.pop().unwrap();
        proof {
            assert(deep(parts@) =~= self@.drop_last());
            assert(last@ == self@.last());
            assert(self@.last() + suffix_chars@.take(0) =~= self@.last());
        }
        let mut k: usize = 0;
        while k < suffix_chars.len()
            invariant
                0 <= k <= suffix_chars.len(),
                last@ == self@.last() + suffix_chars@.take(k as int),
            decreases suffix_chars.len() - k,
        {
            last.push(suffix_chars[k]);
            proof {
                assert(suffix_chars@.take(k + 1) =~= suffix_chars@.take(k as int).push(
                    suffix_chars@[k as int],
                ));
            }
            k += 1;
        }
        proof {
            assert(suffix_chars@.take(k as int) =~= suffix_chars@);
            lemma_segments_valid(last@);
        }
        push_runs(&mut parts, &last);
        UrlPath { parts }
    }

    /// The path as text, each segment as it is.
    pub fn to_unencoded_string(&self) -> (r: String)
        ensures
            r@ == path_text(self@),
    {
        let mut out: Vec<char> = Vec::new();
        if self.parts.len() == 0 {
            out.push('/');
            assert(out@ == seq!['/']);
            return string_of(&out);
        }
        let mut i: usize = 0;
        while i < self.parts.len()
            invariant
                0 <= i <= self.parts.len(),
                out@ == prefixed_concat(self@.take(i as int), seq!['/']),
            decreases self.parts.len() - i,
        {
            let ghost prior = out@;
            out.push('/');
            let part = &self.parts[i];
            let mut k: usize = 0;
            while k < part.len()
                invariant
                    0 <= k <= part.len(),
                    out@ == prior + seq!['/'] + part@.take(k as int),
                decreases part.len() - k,
            {
                out.push(part[k]);
                proof {
                    assert(part@.take(k + 1) =~= part@.take(k as int).push(part@[k as int]));
                }
                k += 1;
            }
            proof {
                assert(part@.take(k as int) =~= part@);
                assert(self@.take(i + 1).drop_last() =~= self@.take(i as int));
                assert(self@.take(i + 1).last() =~= part@);
            }
            i += 1;
        }
        proof {
            assert(self@.take(i as int) =~= self@);
        }
        string_of(&out)
    }

    /// Whether this path comes before `other` in the order of paths.
    pub fn precedes(&self, other: &UrlPath) -> (r: bool)
        ensures
            r == path_before(self@, other@),
    {
        let mut i: usize = 0;
        proof {
            assert(self@.skip(0) =~= self@);
            assert(other@.skip(0) =~= other@);
        }
        loop
            invariant
                0 <= i <= self.parts.len(),
                i <= other.parts.len(),
                path_before(self@, other@) == path_before(
                    self@.skip(i as int),
                    other@.skip(i as int),
                ),
            decreases self.parts.len() - i,
        {
            if i == other.parts.len() {
                return false;
            }
            if i == self.parts.len() {
                return true;
            }
            proof {
                assert(self@.skip(i as int)[0] == self.parts@[i as int]@);
                assert(other@.skip(i as int)[0] == other.parts@[i as int]@);
                assert(self@.skip(i as int).drop_first() =~= self@.skip(i + 1));
                assert(other@.skip(i as int).drop_first() =~= other@.skip(i + 1));
            }
            if !same_chars(&self.parts[i], &other.parts[i]) {
                return chars_before(&self.parts[i], &other.parts[i]);
            }
            i += 1;
        }
    }

    /// Whether the two paths have the same segments.
    pub fn equals(&self, other: &UrlPath) -> (r: bool)
        ensures
            r == (self@ == other@),
    {
        if self.parts.len() != other.parts.len() {
            return false;
        }
        let r = self.starts_with(other);
        proof {
            assert(other@.subrange(0, other@.len() as int) =~= other@);
            assert(self@.subrange(0, self@.len() as int) =~= self@);
        }
        r
    }
}

/// Whether `a` comes before `b` in the order of texts: character by
/// character, a text before every text that it starts.
pub open spec fn text_before(a: Seq<char>, b: Seq<char>) -> bool
    decreases a.len(),
{
    if b.len() == 0 {
        false
    } else if a.len() == 0 {
        true
    } else if a[0] != b[0] {
        (a[0] as int) < (b[0] as int)
    } else {
        text_before(a.drop_first(), b.drop_first())
    }
}

/// Whether `p` comes before `q` in the order of paths: segment by segment, a
/// path before every path that it starts.
pub open spec fn path_before(p: Seq<Seq<char>>, q: Seq<Seq<char>>) -> bool
    decreases p.len(),
{
    if q.len() == 0 {
        false
    } else if p.len() == 0 {
        true
    } else if p[0] != q[0] {
        text_before(p[0], q[0])
    } else {
        path_before(p.drop_first(), q.drop_first())
    }
}

/// Whether `a` comes before `b` in the order of texts.
pub fn chars_before(a: &Vec<char>, b: &Vec<char>) -> (r: bool)
    ensures
        r == text_before(a@, b@),
{
    let mut i: usize = 0;
    proof {
        assert(a@.skip(0) =~= a@);
        assert(b@.skip(0) =~= b@);
    }
    loop
        invariant
            0 <= i <= a.len(),
            i <= b.len(),
            text_before(a@, b@) == text_before(a@.skip(i as int), b@.skip(i as int)),
        decreases a.len() - i,
    {
        if i == b.len() {
            return false;
        }
        if i == a.len() {
            return true;
        }
        proof {
            assert(a@.skip(i as int)[0] == a@[i as int]);
            assert(b@.skip(i as int)[0] == b@[i as int]);
            assert(a@.skip(i as int).drop_first() =~= a@.skip(i + 1));
            assert(b@.skip(i as int).drop_first() =~= b@.skip(i + 1));
        }
        if a[i] != b[i] {
            return a[i] < b[i];
        }
        i += 1;
    }
}

/// The first two of the paths that are the same path, if any two are.
pub open spec fn repeated(urls: Seq<Seq<Seq<char>>>, i: int, j: int) -> bool {
    0 <= i < j < urls.len() && urls[i] == urls[j]
}

/// Looks for two of the paths that are the same path. `None` says that the
/// paths are pairwise distinct.
pub fn find_repeated(urls: &Vec<UrlPath>) -> (r: Option<(usize, usize)>)
    ensures
        match r {
            Some((i, j)) => repeated(paths_of(urls@), i as int, j as int),
            None => forall|i: int, j: int| !repeated(paths_of(urls@), i, j),
        },
{
    let mut j: usize = 0;
    while j < urls.len()
        invariant
            0 <= j <= urls.len(),
            forall|a: int, b: int| 0 <= a < b < j ==> paths_of(urls@)[a] != paths_of(urls@)[b],
        decreases urls.len() - j,
    {
        let mut i: usize = 0;
        while i < j
            invariant
                0 <= i <= j < urls.len(),
                forall|a: int| 0 <= a < i ==> paths_of(urls@)[a] != paths_of(urls@)[j as int],
            decreases j - i,
        {
            if urls[i].equals(&urls[j]) {
                return Some((i, j));
            }
            i += 1;
        }
        j += 1;
    }
    None
}

/// What each path of a vector holds.
pub open spec fn paths_of(urls: Seq<UrlPath>) -> Seq<Seq<Seq<char>>> {
    urls.map_values(|u: UrlPath| u@)
}

/// Whether two texts hold the same characters.
pub fn same_chars(a: &Vec<char>, b: &Vec<char>) -> (r: bool)
    ensures
        r == (a@ == b@),
{
    if a.len() != b.len() {
        return false;
    }
    let r = matches_at(a, 0, b);
    proof {
        assert(a@.subrange(0, a@.len() as int) =~= a@);
    }
    r
}

} // verus!
