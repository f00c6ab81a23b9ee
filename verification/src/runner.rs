//! The rules of a parse run over many files: which paths are taken, where
//! the run starts when none was given, and how the results add up.

use vstd::prelude::*;
use vstd::string::StringSliceAdditionalSpecFns;
use ignore::gitignore::Gitignore;
use crate::parser::{parse_source, parsed, Parsed, ParserReturn};
use crate::source::{source_type_from_path, SourceType};
use crate::state::Config;

verus! {

/// A path given to the run, with what the file system says of it.
#[derive(Clone, Debug, PartialEq, Eq)]
pub struct PathEntry {
    pub path: String,
    pub is_dir: bool,
}

/// How ignore files bear on the run.
#[derive(Clone, Debug, PartialEq, Eq)]
pub struct IgnoreOptions {
    pub no_ignore: bool,
    pub ignore_path: String,
}

/// The options of a run.
#[derive(Clone, Debug, PartialEq, Eq)]
pub struct FormatOptions {
    pub paths: Vec<PathEntry>,
    pub ignore_options: IgnoreOptions,
}

/// The figures of a finished run; times are in nanoseconds.
#[derive(Clone, Copy, Debug, PartialEq, Eq, Structural)]
pub struct ParseResult {
    pub parse_duration: u128,
    pub duration: u128,
    pub number_of_files: usize,
}

/// How a run ended.
#[derive(Clone, Debug, PartialEq, Eq)]
pub enum CliRunResult {
    InvalidOptions { message: String },
    ParseResult(ParseResult),
}

#[verifier::external_type_specification]
#[verifier::external_body]
pub struct ExGitignore(Gitignore);

/// Asks `ignore::gitignore::Gitignore::matched` whether the matcher ignores
/// the file at `path`. Trusted, and nothing is claimed of the answer: it
/// depends on the patterns that the matcher was built from.
#[verifier::external_body]
fn is_ignored(ignore: &Gitignore, path: &str) -> (r: bool) {
    ignore.matched(path, false).is_ignore()
}

/// The entries that stay when `ignored[i]` tells whether the `i`-th is
/// ignored: every directory, and every file that is not ignored, in the
/// order given.
pub open spec fn kept(entries: Seq<PathEntry>, ignored: Seq<bool>) -> Seq<PathEntry>
    recommends
        entries.len() == ignored.len(),
    decreases entries.len(),
{
    if entries.len() == 0 {
        Seq::empty()
    } else {
        let rest = kept(entries.drop_last(), ignored.drop_last());
        if entries.last().is_dir || !ignored.last() {
            rest.push(entries.last())
        } else {
            rest
        }
    }
}

/// Drops the ignored files from `entries`.
pub fn retain_unignored(entries: &Vec<PathEntry>, ignored: &Vec<bool>) -> (r: Vec<PathEntry>)
    requires
        entries@.len() == ignored@.len(),
    ensures
        r@ == kept(entries@, ignored@),
{
    let mut out: Vec<PathEntry> = Vec::new();
    let mut i: usize = 0;
    while i < entries.len()
        invariant
            i <= entries@.len(),
            entries@.len() == ignored@.len(),
            out@ == kept(entries@.take(i as int), ignored@.take(i as int)),
        decreases entries@.len() - i,
    {
        proof {
            assert(entries@.take(i + 1).drop_last() =~= entries@.take(i as int));
            assert(ignored@.take(i + 1).drop_last() =~= ignored@.take(i as int));
        }
        if entries[i].is_dir || !ignored[i] {
            out.push(PathEntry { path: entries[i].path.clone(), is_dir: entries[i].is_dir });
        }
        i += 1;
    }
    proof {
        assert(entries@.take(i as int) =~= entries@);
        assert(ignored@.take(i as int) =~= ignored@);
    }
    out
}

/// The sum of `durations`.
pub open spec fn total(durations: Seq<u128>) -> nat
    decreases durations.len(),
{
    if durations.len() == 0 {
        0
    } else {
        total(durations.drop_last()) + durations.last() as nat
    }
}

/// The total of two lists laid end to end is the sum of their totals.
pub proof fn lemma_total_concat(a: Seq<u128>, b: Seq<u128>)
    ensures
        total(a + b) == total(a) + total(b),
    decreases b.len(),
{
    if b.len() == 0 {
        assert(a + b =~= a);
    } else {
        assert((a + b).drop_last() =~= a + b.drop_last());
        lemma_total_concat(a, b.drop_last());
    }
}

/// The total does not depend on which of two batches of results comes
/// first, nor on how three batches are grouped.
pub proof fn lemma_total_order_independent(a: Seq<u128>, b: Seq<u128>, c: Seq<u128>)
    ensures
        total(a + b) == total(b + a),
        total((a + b) + c) == total(a + (b + c)),
{
    lemma_total_concat(a, b);
    lemma_total_concat(b, a);
    assert((a + b) + c =~= a + (b + c));
}

/// Adds up the parse times of the files. `None` where the sum does not fit.
pub fn total_duration(durations: &Vec<u128>) -> (r: Option<u128>)
    ensures
        r == (if total(durations@) <= u128::MAX {
            Some(total(durations@) as u128)
        } else {
            None
        }),
{
    let mut sum: u128 = 0;
    let mut i: usize = 0;
    while i < durations.len()
        invariant
            i <= durations@.len(),
            sum == total(durations@.take(i as int)),
        decreases durations@.len() - i,
    {
        proof {
            assert(durations@.take(i + 1).drop_last() =~= durations@.take(i as int));
            lemma_total_concat(durations@.take(i + 1), durations@.skip(i + 1));
            assert(durations@.take(i + 1) + durations@.skip(i + 1) =~= durations@);
        }
        match sum.checked_add(durations[i]) {
            Some(s) => {
                sum = s;
            },
            None => {
                return None;
            },
        }
        i += 1;
    }
    proof {
        assert(durations@.take(i as int) =~= durations@);
    }
    Some(sum)
}

/// A parse run: its options, and the decisions taken on them.
pub struct ParseRunner {
    options: FormatOptions,
}

impl ParseRunner {
    /// The options the runner holds.
    pub closed spec fn options(&self) -> FormatOptions {
        self.options
    }

    /// The paths the runner will walk.
    pub open spec fn paths(&self) -> Seq<PathEntry> {
        self.options().paths@
    }

    /// A runner for `options`.
    pub fn new(options: FormatOptions) -> (r: ParseRunner)
        ensures
            r.options() == options,
    {
        ParseRunner { options }
    }

    /// Whether the paths given are to be held against the ignore file first:
    /// they are unless none was given or ignoring is switched off.
    pub fn uses_ignore_file(&self) -> (b: bool)
        ensures
            b == (self.paths().len() > 0 && !self.options().ignore_options.no_ignore),
    {
        self.options.paths.len() > 0 && !self.options.ignore_options.no_ignore
    }

    /// Holds the paths given against the matcher of the ignore file. An
    /// explicit path is taken only if it is a directory or the matcher lets
    /// it pass; whatever the matcher says, the paths that stay are `kept`
    /// under some verdict per path, and the options are otherwise as before.
    pub fn prefilter(&mut self, ignore: &Gitignore)
        ensures
            final(self).options().ignore_options == old(self).options().ignore_options,
            exists|ignored: Seq<bool>|
                ignored.len() == old(self).paths().len() && final(self).paths() == kept(
                    old(self).paths(),
                    ignored,
                ),
    {
        let mut ignored: Vec<bool> = Vec::new();
        let mut i: usize = 0;
        while i < self.options.paths.len()
            invariant
                i <= self.options.paths@.len(),
                ignored@.len() == i,
                *self == *old(self),
            decreases self.options.paths@.len() - i,
        {
            let verdict = if self.options.paths[i].is_dir {
                false
            } else {
                is_ignored(ignore, self.options.paths[i].path.as_str())
            };
            ignored.push(verdict);
            i += 1;
        }
        let kept_paths = retain_unignored(&self.options.paths, &ignored);
        self.options.paths = kept_paths;
        assert(ignored@.len() == old(self).paths().len() && self.paths() == kept(
            old(self).paths(),
            ignored@,
        ));
    }

    /// Hands the paths over and ends the runner.
    pub fn into_paths(self) -> (paths: Vec<PathEntry>)
        ensures
            paths@ == self.paths(),
    {
        self.options.paths
    }

    /// Whether the run has to start from the working directory.
    pub fn needs_working_directory(&self) -> (b: bool)
        ensures
            b == (self.paths().len() == 0),
    {
        self.options.paths.len() == 0
    }

    /// Settles where the run starts. Paths that were given stand. With none
    /// given the working directory is taken, and the run is refused where
    /// there is none to take.
    pub fn settle_roots(&mut self, cwd: Option<String>) -> (r: Result<(), CliRunResult>)
        ensures
            final(self).options().ignore_options == old(self).options().ignore_options,
            old(self).paths().len() > 0 ==> r is Ok && final(self).paths() == old(self).paths(),
            old(self).paths().len() == 0 ==> match cwd {
                Some(dir) => r is Ok && final(self).paths() == seq![
                    PathEntry { path: dir, is_dir: true },
                ],
                None => final(self).paths() == old(self).paths() && (r matches Err(
                    CliRunResult::InvalidOptions { message },
                ) && message@ == "Failed to get current working directory."@),
            },
    {
        if self.options.paths.len() == 0 {
            match cwd {
                Some(dir) => {
                    self.options.paths.push(PathEntry { path: dir, is_dir: true });
                    assert(self.options.paths@ =~= seq![PathEntry { path: dir, is_dir: true }]);
                },
                None => {
                    return Err(
                        CliRunResult::InvalidOptions {
                            message: "Failed to get current working directory.".to_owned(),
                        },
                    );
                },
            }
        }
        Ok(())
    }

    /// The result of a run that parsed `number_of_files` files in
    /// `parse_duration` nanoseconds of parsing and `elapsed` nanoseconds in
    /// all.
    pub fn finish(parse_duration: u128, elapsed: u128, number_of_files: usize) -> (r: CliRunResult)
        ensures
            r == CliRunResult::ParseResult(
                ParseResult { parse_duration, duration: elapsed, number_of_files },
            ),
    {
        CliRunResult::ParseResult(ParseResult { parse_duration, duration: elapsed, number_of_files })
    }
}

/// Why a file was not parsed.
#[derive(Clone, Copy, Debug, PartialEq, Eq, Structural)]
pub enum ParseRefusal {
    /// The path has no file name or no extension of a script.
    UnknownExtension,
    /// The text is longer than 32-bit offsets reach.
    SourceTooLong,
}

/// What parsing a text comes to for a file classified as `source_type`: a
/// file that is no script is refused, and so is a text too long; any other
/// text is parsed with parentheses elided.
pub open spec fn parse_outcome(source_type: Option<SourceType>, source: Seq<u8>) -> Result<
    Parsed,
    ParseRefusal,
> {
    match source_type {
        None => Err(ParseRefusal::UnknownExtension),
        Some(t) => if source.len() > u32::MAX {
            Err(ParseRefusal::SourceTooLong)
        } else {
            Ok(parsed(source, Config { typescript: t.spec_is_typescript(), preserve_parens: false }))
        },
    }
}

/// `r` is the outcome `expected`, as values.
pub open spec fn is_outcome(r: Result<ParserReturn, ParseRefusal>, expected: Result<
    Parsed,
    ParseRefusal,
>) -> bool {
    match expected {
        Ok(p) => r matches Ok(ret) && ret@ == p && ret.program.wf(),
        Err(e) => r == Err::<ParserReturn, ParseRefusal>(e),
    }
}

/// Parses a text as a file of the given classification, if there is one and
/// the text is short enough.
pub fn parse_as(source_type: Option<SourceType>, source_text: &str) -> (r: Result<
    ParserReturn,
    ParseRefusal,
>)
    ensures
        is_outcome(r, parse_outcome(source_type, source_text.spec_bytes())),
{
    match source_type {
        None => Err(ParseRefusal::UnknownExtension),
        Some(t) => {
            if source_text.as_bytes().len() > 0xFFFF_FFFF {
                Err(ParseRefusal::SourceTooLong)
            } else {
                Ok(parse_source(source_text, t, false))
            }
        },
    }
}

impl ParseRunner {
    /// Parses the file at `path`, whose text is `source_text`. The path
    /// decides what the text is taken to be; however it is classified, the
    /// result is the outcome of parsing the text under that classification.
    pub fn parse(path: &str, source_text: &str) -> (r: Result<ParserReturn, ParseRefusal>)
        ensures
            exists|source_type: Option<SourceType>|
                is_outcome(r, #[trigger] parse_outcome(source_type, source_text.spec_bytes())),
    {
        let source_type = source_type_from_path(path);
        let r = parse_as(source_type, source_text);
        assert(is_outcome(r, parse_outcome(source_type, source_text.spec_bytes())));
        r
    }
}

} // verus!
