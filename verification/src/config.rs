//! What a run is configured with.

use crate::text::{
    append_chars, chars_of, lemma_texts_of_push, prefixed_concat, string_of, texts_of,
};
use crate::url::UrlPath;
use vstd::prelude::*;

verus! {

/// `regex_lite::Regex`: a compiled pattern.
#[verifier::external_type_specification]
#[verifier::external_body]
pub struct ExRegex(regex_lite::Regex);

/// `regex_lite::Error`: why a pattern was refused.
#[verifier::external_type_specification]
#[verifier::external_body]
pub struct ExRegexError(regex_lite::Error);

/// Whether `regex_lite` accepts a pattern: whether it parses, and compiles
/// within the default size limit. The limit counts the bytes of the compiled
/// program, so the answer is that of the target the library is built for.
pub uninterp spec fn regex_compiles(pattern: Seq<char>) -> bool;

/// `regex_lite::Regex::new`: whether a pattern is accepted depends on the
/// pattern alone, and is named by `regex_compiles`.
pub assume_specification[ regex_lite::Regex::new ](pattern: &str) -> (r: Result<
    regex_lite::Regex,
    regex_lite::Error,
>)
    ensures
        r.is_ok() == regex_compiles(pattern@),
;

/// The message of a `regex_lite::Error`, as its `Display` writes it.
#[verifier::external_body]
fn regex_error_message(error: &regex_lite::Error) -> String {
    error.to_string()
}

/// A compiled pattern of the configuration.
pub struct MyRegex(pub regex_lite::Regex);

impl MyRegex {
    /// Compiles a pattern; the error is the compiler's message.
    pub fn new(pattern: &str) -> (r: Result<MyRegex, String>)
        ensures
            r.is_ok() == regex_compiles(pattern@),
    {
        match regex_lite::Regex::new(pattern) {
            Ok(regex) => Ok(MyRegex(regex)),
            Err(error) => Err(regex_error_message(&error)),
        }
    }

    /// The compiled pattern.
    pub fn regex(&self) -> (r: &regex_lite::Regex)
        ensures
            *r == self.0,
    {
        &self.0
    }
}

impl std::ops::Deref for MyRegex {
    type Target = regex_lite::Regex;

    fn deref(&self) -> (r: &regex_lite::Regex)
        ensures
            *r == self.0,
    {
        &self.0
    }
}

/// A script or a style sheet that is copied to the site.
pub struct Script {
    pub name: String,
    pub content: String,
}

/// A first-party root as the configuration file gives it: the files are
/// still patterns.
pub struct RawSource {
    pub name: String,
    pub dir: UrlPath,
    pub includes: Vec<String>,
    pub exclude: Vec<String>,
    pub exists_online: bool,
}

/// One first-party root of the code base.
#[derive(Debug)]
pub struct Source {
    pub name: String,
    pub dir: UrlPath,
    /// The header files of the root.
    pub includes: Vec<String>,
    /// Whether the root can be browsed in the project's repository.
    pub exists_online: bool,
}

/// A library whose declarations are documented elsewhere.
pub struct ExternalLib {
    pub pattern: String,
    pub repository: String,
}

/// Patterns that pick declarations: by qualified name, or by name alone.
pub struct RegexPattern {
    pub patterns_full: Vec<MyRegex>,
    pub patterns_name: Vec<MyRegex>,
}

/// The project that is documented.
pub struct Project {
    pub name: String,
    pub version: String,
    pub repository: Option<String>,
    pub tree: Option<String>,
    pub icon: Option<String>,
}

/// Where the tutorials and their assets are.
pub struct Tutorials {
    pub dir: String,
    pub assets: Vec<String>,
}

/// Commands to run before the analysis.
pub struct Run {
    pub prebuild: Vec<String>,
}

/// How the analyzer is called.
pub struct Analysis {
    pub compile_args: Vec<String>,
}

/// How the build system is asked for compiler arguments.
pub struct CMake {
    pub config_args: Vec<String>,
    pub build_args: Vec<String>,
    pub build: bool,
    pub build_dir: String,
    pub infer_args_from: String,
}

/// The page templates, each with its named slots.
pub struct Templates {
    pub class: String,
    pub struct_: String,
    pub function: String,
    pub head: String,
    pub nav: String,
    pub file: String,
    pub page: String,
    pub tutorial: String,
    pub tutorial_index: String,
}

/// The style sheets and scripts of the site.
pub struct Scripts {
    pub css: Vec<Script>,
    pub js: Vec<Script>,
}

/// Everything a run is configured with.
pub struct Config {
    pub project: Project,
    pub tutorials: Option<Tutorials>,
    pub sources: Vec<Source>,
    pub run: Option<Run>,
    pub analysis: Analysis,
    pub cmake: Option<CMake>,
    pub templates: Templates,
    pub scripts: Scripts,
    pub external_libs: Vec<ExternalLib>,
    pub ignore: Option<RegexPattern>,
    pub matching: Option<RegexPattern>,
    pub input_dir: String,
    pub output_dir: String,
    pub output_url: Option<UrlPath>,
}

/// The paths of `found` that are not among `excluded`, in order.
pub open spec fn kept_paths(found: Seq<Seq<char>>, excluded: Seq<Seq<char>>) -> Seq<Seq<char>>
    decreases found.len(),
{
    if found.len() == 0 {
        Seq::empty()
    } else if excluded.contains(found.last()) {
        kept_paths(found.drop_last(), excluded)
    } else {
        kept_paths(found.drop_last(), excluded).push(found.last())
    }
}

/// A pattern of a root as the file system sees it: below the root's
/// directory, unless it starts at the root of the file system or the
/// directory is empty.
pub open spec fn pattern_below(dir: Seq<Seq<char>>, pattern: Seq<char>) -> Seq<char> {
    if dir.len() == 0 || (pattern.len() > 0 && pattern[0] == '/') {
        pattern
    } else {
        prefixed_concat(dir, seq!['/']).drop_first() + seq!['/'] + pattern
    }
}

/// The header files of every root, in the order of the roots.
pub open spec fn includes_of(sources: Seq<Source>) -> Seq<Seq<char>>
    decreases sources.len(),
{
    if sources.len() == 0 {
        Seq::empty()
    } else {
        includes_of(sources.drop_last()) + texts_of(sources.last().includes@)
    }
}

/// Whether `path` is among `paths`.
pub fn holds_path(paths: &Vec<String>, path: &String) -> (r: bool)
    ensures
        r == texts_of(paths@).contains(path@),
{
    let mut i: usize = 0;
    while i < paths.len()
        invariant
            0 <= i <= paths.len(),
            forall|k: int| 0 <= k < i ==> texts_of(paths@)[k] != path@,
        decreases paths.len() - i,
    {
        if paths[i] == *path {
            assert(texts_of(paths@)[i as int] == path@);
            return true;
        }
        i += 1;
    }
    false
}

/// Writes a pattern of a root as the file system sees it.
pub fn glob_pattern(dir: &UrlPath, pattern: &str) -> (r: String)
    ensures
        r@ == pattern_below(dir@, pattern@),
{
    let chars = chars_of(pattern);
    if dir.is_empty() || (chars.len() > 0 && chars[0] == '/') {
        return string_of(&chars);
    }
    let whole = chars_of(dir.to_unencoded_string().as_str());
    let mut out: Vec<char> = crate::text::slice_chars(&whole, 1, whole.len());
    out.push('/');
    append_chars(&mut out, &chars);
    proof {
        assert(out@ =~= pattern_below(dir@, pattern@));
    }
    string_of(&out)
}

impl RawSource {
    fn patterns(&self, patterns: &Vec<String>) -> (r: Vec<String>)
        ensures
            r@.len() == patterns@.len(),
            forall|i: int|
                0 <= i < r@.len() ==> (#[trigger] r@[i])@ == pattern_below(
                    self.dir@,
                    patterns@[i]@,
                ),
    {
        let mut out: Vec<String> = Vec::new();
        let mut i: usize = 0;
        while i < patterns.len()
            invariant
                0 <= i <= patterns.len(),
                out@.len() == i,
                forall|k: int|
                    0 <= k < i ==> (#[trigger] out@[k])@ == pattern_below(
                        self.dir@,
                        patterns@[k]@,
                    ),
            decreases patterns.len() - i,
        {
            out.push(glob_pattern(&self.dir, patterns[i].as_str()));
            i += 1;
        }
        out
    }

    /// The patterns of the files that belong to the root, as the file system
    /// sees them.
    pub fn include_patterns(&self) -> (r: Vec<String>)
        ensures
            r@.len() == self.includes@.len(),
            forall|i: int|
                0 <= i < r@.len() ==> (#[trigger] r@[i])@ == pattern_below(
                    self.dir@,
                    self.includes@[i]@,
                ),
    {
        self.patterns(&self.includes)
    }

    /// The patterns of the files that are left out.
    pub fn exclude_patterns(&self) -> (r: Vec<String>)
        ensures
            r@.len() == self.exclude@.len(),
            forall|i: int|
                0 <= i < r@.len() ==> (#[trigger] r@[i])@ == pattern_below(
                    self.dir@,
                    self.exclude@[i]@,
                ),
    {
        self.patterns(&self.exclude)
    }
}

impl Source {
    /// The root with its files resolved: `found` is what the patterns of
    /// `include_patterns` match, `excluded` what those of `exclude_patterns`
    /// match. A file that is excluded is left out.
    pub fn from_raw(src: RawSource, found: Vec<String>, excluded: Vec<String>) -> (r: Result<
        Source,
        String,
    >)
        ensures
            r.is_ok(),
            r.unwrap().name == src.name,
            r.unwrap().dir == src.dir,
            r.unwrap().exists_online == src.exists_online,
            texts_of(r.unwrap().includes@) == kept_paths(texts_of(found@), texts_of(excluded@)),
    {
        let mut found = found;
        let ghost all = texts_of(found@);
        let mut kept_reversed: Vec<String> = Vec::new();
        // The paths are taken from the back, and then put in order.
        let ghost mut taken: Seq<Seq<char>> = Seq::empty();
        while found.len() > 0
            invariant
                texts_of(found@) =~= all.take(found@.len() as int),
                found@.len() <= all.len(),
                taken == all.subrange(found@.len() as int, all.len() as int),
                kept_paths(all.take(found@.len() as int), texts_of(excluded@)) + texts_of(
                    kept_reversed@,
                ).reverse() == kept_paths(all, texts_of(excluded@)),
            decreases found.len(),
        {
            let ghost n = found@.len();
            let ghost before = texts_of(found@);
            let path = found.pop().unwrap();
            proof {
                assert(before.last() == path@);
                assert(all.take(n as int).drop_last() =~= all.take(n - 1));
                assert(all.take(n as int).last() == path@);
                assert(texts_of(found@) =~= all.take(n - 1));
                taken = all.subrange(n - 1, all.len() as int);
            }
            if !holds_path(&excluded, &path) {
                proof {
                    lemma_texts_of_push(kept_reversed@, path);
                    let head = kept_paths(all.take(n - 1), texts_of(excluded@));
                    let tail = texts_of(kept_reversed@).reverse();
                    assert(texts_of(kept_reversed@).push(path@).reverse() =~= seq![path@] + tail);
                    assert(head.push(path@) + tail =~= head + (seq![path@] + tail));
                }
                kept_reversed.push(path);
            }
        }
        proof {
            assert(all.take(0) =~= Seq::empty());
            assert(Seq::<Seq<char>>::empty() + texts_of(kept_reversed@).reverse() =~= texts_of(
                kept_reversed@,
            ).reverse());
        }
        let ghost target = kept_paths(all, texts_of(excluded@));
        let mut includes: Vec<String> = Vec::new();
        while kept_reversed.len() > 0
            invariant
                texts_of(includes@) + texts_of(kept_reversed@).reverse() == target,
            decreases kept_reversed.len(),
        {
            let ghost before = texts_of(kept_reversed@);
            let path = kept_reversed.pop().unwrap();
            proof {
                assert(before.last() == path@);
                assert(before.reverse() =~= seq![path@] + texts_of(kept_reversed@).reverse());
                lemma_texts_of_push(includes@, path);
                assert(texts_of(includes@).push(path@) + texts_of(kept_reversed@).reverse()
                    =~= texts_of(includes@) + (seq![path@] + texts_of(kept_reversed@).reverse()));
            }
            includes.push(path);
        }
        proof {
            assert(texts_of(includes@) + Seq::<Seq<char>>::empty() =~= texts_of(includes@));
            assert(texts_of(kept_reversed@).reverse() =~= Seq::<Seq<char>>::empty());
        }
        Ok(Source { name: src.name, dir: src.dir, includes, exists_online: src.exists_online })
    }
}

impl Config {
    /// The segments of the configured base URL, if there is one.
    pub open spec fn base_view(&self) -> Option<Seq<Seq<char>>> {
        match self.output_url {
            Some(base) => Some(base@),
            None => None,
        }
    }

    /// The configuration of a run: what the configuration file holds, as the
    /// caller has read it, with the directories and the base URL of the run.
    pub fn parse(
        file: Config,
        input_dir: String,
        output_dir: String,
        output_url: Option<UrlPath>,
    ) -> (r: Result<Config, String>)
        ensures
            r == Ok::<Config, String>(Config { input_dir, output_dir, output_url, ..file }),
    {
        let mut config = file;
        config.input_dir = input_dir;
        config.output_dir = output_dir;
        config.output_url = output_url;
        Ok(config)
    }

    /// The header files of every root.
    pub fn all_includes(&self) -> (r: Vec<String>)
        ensures
            texts_of(r@) == includes_of(self.sources@),
    {
        let mut out: Vec<String> = Vec::new();
        let mut i: usize = 0;
        assert(texts_of(out@) =~= Seq::empty());
        while i < self.sources.len()
            invariant
                0 <= i <= self.sources.len(),
                texts_of(out@) == includes_of(self.sources@.take(i as int)),
            decreases self.sources.len() - i,
        {
            let source = &self.sources[i];
            let ghost before = texts_of(out@);
            let mut k: usize = 0;
            while k < source.includes.len()
                invariant
                    0 <= k <= source.includes.len(),
                    texts_of(out@) == before + texts_of(source.includes@).take(k as int),
                decreases source.includes.len() - k,
            {
                let path = source.includes[k].clone();
                proof {
                    lemma_texts_of_push(out@, path);
                    assert(texts_of(source.includes@).take(k + 1) =~= texts_of(
                        source.includes@,
                    ).take(k as int).push(path@));
                }
                out.push(path);
                k += 1;
            }
            proof {
                assert(texts_of(source.includes@).take(k as int) =~= texts_of(source.includes@));
                assert(self.sources@.take(i + 1).drop_last() =~= self.sources@.take(i as int));
                assert(self.sources@.take(i + 1).last() == *source);
            }
            i += 1;
        }
        proof {
            assert(self.sources@.take(i as int) =~= self.sources@);
        }
        out
    }
}

} // verus!
