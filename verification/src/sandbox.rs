//! What tools use to run commands and to reach files.

use std::sync::Arc;

use vstd::prelude::*;
use vstd::string::StringExecFns;

use crate::lists::{at_most, lemma_rank_within, rank};
use crate::text::{lines, lines_of};

verus! {

// ---------------------------------------------------------------------------
// Policy and errors
// ---------------------------------------------------------------------------

/// How commands are confined. Set once, at the start of a session.
#[derive(Debug, Clone, Copy, PartialEq, Eq, Structural)]
pub enum SandboxPolicy {
    /// Commands run directly.
    Off,
    /// Commands run in a sandbox, with network.
    Sandbox,
    /// Commands run in a sandbox, without network.
    Restricted,
}

impl Default for SandboxPolicy {
    fn default() -> (r: SandboxPolicy)
        ensures
            r == SandboxPolicy::Off,
    {
        SandboxPolicy::Off
    }
}

/// Why a sandbox refused or failed.
#[derive(Debug, PartialEq, Eq)]
pub enum SandboxError {
    /// The operating system reported an error.
    Io(String),
    /// The path may not be used.
    PathDenied { path: String, reason: String },
    /// Anything else.
    Backend(String),
}

impl SandboxError {
    /// The error in words.
    pub fn to_text(&self) -> (r: String)
        ensures
            r@ == (match *self {
                SandboxError::Io(m) => "I/O error: "@ + m@,
                SandboxError::PathDenied { path, reason } => "path denied: "@ + path@ + " ("@
                    + reason@ + ")"@,
                SandboxError::Backend(m) => m@,
            }),
    {
        match self {
            SandboxError::Io(m) => {
                let mut out = "I/O error: ".to_owned();
                out.append(m.as_str());
                out
            },
            SandboxError::PathDenied { path, reason } => {
                let mut out = "path denied: ".to_owned();
                out.append(path.as_str());
                out.append(" (");
                out.append(reason.as_str());
                out.append(")");
                out
            },
            SandboxError::Backend(m) => m.clone(),
        }
    }
}

// ---------------------------------------------------------------------------
// Commands
// ---------------------------------------------------------------------------

/// What a command printed, and how it ended.
#[derive(Debug, PartialEq, Eq)]
pub struct CommandOutput {
    pub stdout: String,
    pub stderr: String,
    pub exit_code: i32,
}

/// What `String::from_utf8_lossy` makes of `bytes`.
pub uninterp spec fn lossy(bytes: Seq<u8>) -> Seq<char>;

/// Calls `String::from_utf8_lossy`: valid UTF-8 is decoded as it is, and faults are
/// replaced. The text is a function of the bytes, named by [`lossy`].
#[verifier::external_body]
fn lossy_text(bytes: &[u8]) -> (r: String)
    ensures
        r@ == lossy(bytes@),
        vstd::utf8::valid_utf8(bytes@) ==> r@ == vstd::utf8::decode_utf8(bytes@),
{
    String::from_utf8_lossy(bytes).into_owned()
}

impl CommandOutput {
    /// The output of a command that has ended. `code` is missing where a signal
    /// ended it.
    pub fn from_raw(stdout: &[u8], stderr: &[u8], code: Option<i32>) -> (r: CommandOutput)
        ensures
            r.stdout@ == lossy(stdout@),
            r.stderr@ == lossy(stderr@),
            vstd::utf8::valid_utf8(stdout@) ==> r.stdout@ == vstd::utf8::decode_utf8(stdout@),
            vstd::utf8::valid_utf8(stderr@) ==> r.stderr@ == vstd::utf8::decode_utf8(stderr@),
            r.exit_code == (match code {
                Some(c) => c,
                None => -1i32,
            }),
    {
        let exit_code: i32 = match code {
            Some(c) => c,
            None => -1,
        };
        CommandOutput { stdout: lossy_text(stdout), stderr: lossy_text(stderr), exit_code }
    }
}

/// A program to start, with its arguments.
#[derive(Debug, PartialEq, Eq)]
pub struct CommandPlan {
    pub program: String,
    pub args: Vec<String>,
}

/// Runs commands without a sandbox.
#[derive(Debug, Clone, Copy, PartialEq, Eq, Structural)]
pub struct DirectRunner;

impl DirectRunner {
    /// The program that runs a shell command.
    pub fn plan(&self, command: &str) -> (r: CommandPlan)
        ensures
            r.program@ == "bash"@,
            r.args.deep_view() == seq!["-c"@, command@],
    {
        let mut args: Vec<String> = Vec::new();
        args.push("-c".to_owned());
        args.push(command.to_owned());
        assert(args.deep_view() =~= seq!["-c"@, command@]);
        CommandPlan { program: "bash".to_owned(), args }
    }
}

// ---------------------------------------------------------------------------
// Files
// ---------------------------------------------------------------------------

/// What is known of a file or directory. Times are nanoseconds since the epoch, below
/// zero for those before it; permissions are the permission bits alone.
#[derive(Debug, Clone, Copy, PartialEq, Eq, Structural)]
pub struct FileMetadata {
    pub size: u64,
    pub is_dir: bool,
    pub is_symlink: bool,
    pub modified: Option<i128>,
    pub created: Option<i128>,
    pub unix_permissions: Option<u32>,
}

/// The permission bits of a Unix file mode, without those that tell the type of the
/// file.
pub fn permission_bits(mode: u32) -> (r: u32)
    ensures
        r == mode % 4096,
{
    mode % 4096
}

/// An entry of a directory.
#[derive(Debug, PartialEq, Eq)]
pub struct DirEntry {
    pub name: String,
    pub path: String,
    pub metadata: FileMetadata,
}

/// A line that was searched for.
#[derive(Debug, PartialEq, Eq)]
pub struct SearchMatch {
    pub path: String,
    pub line_number: usize,
    pub line: String,
}

/// The model of a [`SearchMatch`].
#[verifier::ext_equal]
pub struct MatchView {
    pub path: Seq<char>,
    pub line_number: int,
    pub line: Seq<char>,
}

impl DeepView for SearchMatch {
    type V = MatchView;

    open spec fn deep_view(&self) -> MatchView {
        MatchView { path: self.path@, line_number: self.line_number as int, line: self.line@ }
    }
}

/// The file system without restrictions.
#[derive(Debug, Clone, Copy, PartialEq, Eq, Structural)]
pub struct DirectFs;

/// Commands and files without a sandbox.
#[derive(Debug)]
pub struct DirectSandbox {
    pub runner: Arc<DirectRunner>,
    pub fs: Arc<DirectFs>,
}

impl DirectSandbox {
    pub fn new() -> (r: DirectSandbox)
        ensures
            *r.runner == DirectRunner,
            *r.fs == DirectFs,
    {
        DirectSandbox { runner: Arc::new(DirectRunner), fs: Arc::new(DirectFs) }
    }

    /// The runner of the sandbox.
    pub fn runner(&self) -> (r: Arc<DirectRunner>)
        ensures
            r == self.runner,
    {
        self.runner.clone()
    }

    /// The file system of the sandbox.
    pub fn fs(&self) -> (r: Arc<DirectFs>)
        ensures
            r == self.fs,
    {
        self.fs.clone()
    }
}

impl Default for DirectSandbox {
    fn default() -> (r: DirectSandbox)
        ensures
            *r.runner == DirectRunner,
            *r.fs == DirectFs,
    {
        DirectSandbox::new()
    }
}

// ---------------------------------------------------------------------------
// Searching in files
// ---------------------------------------------------------------------------

/// `regex::Regex`, carried without looking inside.
#[verifier::external_type_specification]
#[verifier::external_body]
pub struct ExRegex(regex::Regex);

/// The expression that a `regex::Regex` was compiled from.
pub uninterp spec fn regex_source(re: regex::Regex) -> Seq<char>;

/// How `regex::Regex::new` describes its refusal of `pattern`, or `None` where it
/// compiles the pattern.
pub uninterp spec fn regex_fault(pattern: Seq<char>) -> Option<Seq<char>>;

/// Whether an expression matches somewhere in `text`.
pub uninterp spec fn regex_matches(pattern: Seq<char>, text: Seq<char>) -> bool;

/// Whether `c` has a meaning of its own in an expression.
pub open spec fn meta_character(c: char) -> bool {
    "\\.+*?()|[]{}^$#&-~"@.contains(c)
}

/// `pattern` with a backslash before each character that has a meaning of its own.
pub open spec fn regex_escaped(pattern: Seq<char>) -> Seq<char>
    decreases pattern.len(),
{
    if pattern.len() == 0 {
        pattern
    } else {
        let before = regex_escaped(pattern.drop_last());
        if meta_character(pattern.last()) {
            before.push('\\').push(pattern.last())
        } else {
            before.push(pattern.last())
        }
    }
}

/// Whether `text` holds `part` somewhere.
pub open spec fn holds_text(text: Seq<char>, part: Seq<char>) -> bool {
    exists|i: int|
        0 <= i <= text.len() - part.len() && #[trigger] text.subrange(i, i + part.len()) == part
}

/// Calls `regex::Regex::new`. Whether it succeeds, and the words of its error, are
/// functions of the pattern, named by [`regex_fault`].
#[verifier::external_body]
fn compile_regex(pattern: &str) -> (r: Result<regex::Regex, String>)
    ensures
        match r {
            Ok(re) => regex_fault(pattern@) is None && regex_source(re) == pattern@,
            Err(m) => regex_fault(pattern@) == Some(m@),
        },
{
    match regex::Regex::new(pattern) {
        Ok(re) => Ok(re),
        Err(e) => Err(e.to_string()),
    }
}

/// Calls `regex::Regex::is_match`. The answer is a function of the expression and
/// the text, named by [`regex_matches`]. An escaped pattern is a literal: it matches
/// where the text holds the pattern.
#[verifier::external_body]
fn regex_is_match(re: &regex::Regex, text: &str) -> (r: bool)
    ensures
        r == regex_matches(regex_source(*re), text@),
        forall|p: Seq<char>|
            regex_source(*re) == #[trigger] regex_escaped(p) ==> r == holds_text(text@, p),
{
    re.is_match(text)
}

/// Calls `regex::escape`, which puts a backslash before each meta character.
#[verifier::external_body]
fn escape_regex(pattern: &str) -> (r: String)
    ensures
        r@ == regex_escaped(pattern@),
{
    regex::escape(pattern)
}

/// The expression to look for: the pattern itself, or one that matches it as plain
/// text.
pub open spec fn search_expression(pattern: Seq<char>, regex: bool) -> Seq<char> {
    if regex {
        pattern
    } else {
        regex_escaped(pattern)
    }
}

/// What a search looks for: an expression, or plain text.
#[verifier::ext_equal]
pub enum Needle {
    Expression(Seq<char>),
    Text(Seq<char>),
}

/// Whether `line` is looked for.
pub open spec fn found_in(needle: Needle, line: Seq<char>) -> bool {
    match needle {
        Needle::Expression(expression) => regex_matches(expression, line),
        Needle::Text(text) => holds_text(line, text),
    }
}

/// The lines that are looked for, with their numbers, counted from one.
pub open spec fn matching_lines(
    needle: Needle,
    path: Seq<char>,
    text_lines: Seq<Seq<char>>,
) -> Seq<MatchView>
    decreases text_lines.len(),
{
    if text_lines.len() == 0 {
        Seq::empty()
    } else {
        let before = matching_lines(needle, path, text_lines.drop_last());
        if found_in(needle, text_lines.last()) {
            before.push(
                MatchView { path, line_number: text_lines.len() as int, line: text_lines.last() },
            )
        } else {
            before
        }
    }
}

proof fn lemma_matching_grows(
    needle: Needle,
    path: Seq<char>,
    text_lines: Seq<Seq<char>>,
    n: int,
)
    requires
        0 <= n <= text_lines.len(),
    ensures
        matching_lines(needle, path, text_lines.take(n)).len() <= matching_lines(
            needle,
            path,
            text_lines,
        ).len(),
        matching_lines(needle, path, text_lines).take(
            matching_lines(needle, path, text_lines.take(n)).len() as int,
        ) == matching_lines(needle, path, text_lines.take(n)),
    decreases text_lines.len(),
{
    let all = matching_lines(needle, path, text_lines);
    if n == text_lines.len() {
        assert(text_lines.take(n) =~= text_lines);
        assert(all.take(all.len() as int) =~= all);
    } else {
        lemma_matching_grows(needle, path, text_lines.drop_last(), n);
        assert(text_lines.drop_last().take(n) =~= text_lines.take(n));
        let k = matching_lines(needle, path, text_lines.take(n)).len() as int;
        assert(all.take(k) =~= matching_lines(needle, path, text_lines.drop_last()).take(k));
    }
}

/// A search through files.
#[derive(Debug)]
pub struct FileSearch {
    pub re: regex::Regex,
    pub limit: usize,
    pub results: Vec<SearchMatch>,
}

impl FileSearch {
    /// What is looked for.
    pub open spec fn expression(&self) -> Seq<char> {
        regex_source(self.re)
    }

    /// Begins a search for `pattern`, as an expression or as plain text.
    pub fn new(pattern: &str, regex: bool, limit: usize) -> (r: Result<FileSearch, SandboxError>)
        ensures
            match regex_fault(search_expression(pattern@, regex)) {
                None => r matches Ok(s) && s.expression() == search_expression(pattern@, regex)
                    && s.limit == limit && s.results.deep_view() == Seq::<MatchView>::empty(),
                Some(m) => r matches Err(SandboxError::Backend(e)) && e@ == "invalid regex: "@ + m,
            },
    {
        let compiled = if regex {
            compile_regex(pattern)
        } else {
            compile_regex(escape_regex(pattern).as_str())
        };
        match compiled {
            Ok(re) => {
                let s = FileSearch { re, limit, results: Vec::new() };
                assert(s.results.deep_view() =~= Seq::empty());
                Ok(s)
            },
            Err(m) => {
                let mut message = "invalid regex: ".to_owned();
                message.append(m.as_str());
                Err(SandboxError::Backend(message))
            },
        }
    }

    /// Whether to look into another file of a directory.
    pub fn wants_more(&self) -> (r: bool)
        ensures
            r == (self.results@.len() < self.limit),
    {
        self.results.len() < self.limit
    }

    /// How many lines may still be added.
    pub open spec fn room(&self) -> int {
        if self.results@.len() < self.limit {
            self.limit - self.results@.len()
        } else {
            0
        }
    }

    /// Looks through one file. Where the expression is escaped text, the lines that
    /// hold the text are taken.
    pub fn add_file(&mut self, path: &str, content: &str)
        ensures
            final(self).results.deep_view() == old(self).results.deep_view() + at_most(
                matching_lines(
                    Needle::Expression(old(self).expression()),
                    path@,
                    lines_of(content@),
                ),
                old(self).room(),
            ),
            forall|text: Seq<char>|
                old(self).expression() == #[trigger] regex_escaped(text)
                    ==> final(self).results.deep_view() == old(self).results.deep_view() + at_most(
                    matching_lines(Needle::Text(text), path@, lines_of(content@)),
                    old(self).room(),
                ),
            final(self).re == old(self).re,
            final(self).limit == old(self).limit,
    {
        if self.results.len() >= self.limit {
            assert(self.results.deep_view() =~= self.results.deep_view() + Seq::empty());
            return;
        }
        let all = lines(content);
        let ghost views = all.deep_view();
        let ghost start = self.results.deep_view();
        let ghost re = self.expression();
        let ghost needle = Needle::Expression(re);
        assert(self.results.deep_view() =~= start + matching_lines(needle, path@, views.take(0)));
        for i in 0..all.len()
            invariant
                views == all.deep_view(),
                views == lines_of(content@),
                re == self.expression(),
                needle == Needle::Expression(re),
                start == old(self).results.deep_view(),
                self.re == old(self).re,
                self.limit == old(self).limit,
                self.results.deep_view() == start + matching_lines(
                    needle,
                    path@,
                    views.take(i as int),
                ),
                forall|text: Seq<char>|
                    re == #[trigger] regex_escaped(text) ==> matching_lines(
                        Needle::Text(text),
                        path@,
                        views.take(i as int),
                    ) == matching_lines(needle, path@, views.take(i as int)),
                self.results@.len() < self.limit,
        {
            let ghost found = matching_lines(needle, path@, views.take(i as int));
            assert(views.take(i + 1).drop_last() =~= views.take(i as int));
            assert(views.take(i + 1).last() == all@[i as int]@);
            if regex_is_match(&self.re, all[i].as_str()) {
                let ghost before = self.results.deep_view();
                let m = SearchMatch {
                    path: path.to_owned(),
                    line_number: i + 1,
                    line: all[i].clone(),
                };
                self.results.push(m);
                assert(self.results.deep_view() =~= before.push(m.deep_view()));
                assert(self.results.deep_view() =~= start + found.push(m.deep_view()));
                if self.results.len() >= self.limit {
                    proof {
                        lemma_matching_grows(needle, path@, views, i + 1);
                        assert forall|text: Seq<char>|
                            re == #[trigger] regex_escaped(text) implies at_most(
                            matching_lines(Needle::Text(text), path@, views),
                            old(self).room(),
                        ) == found.push(m.deep_view()) by {
                            lemma_matching_grows(Needle::Text(text), path@, views, i + 1);
                        }
                    }
                    return;
                }
            }
        }
        assert(views.take(views.len() as int) =~= views);
    }
}

/// The matches of a run of files, each with its path and its text.
pub open spec fn matches_in(needle: Needle, files: Seq<(Seq<char>, Seq<char>)>) -> Seq<
    MatchView,
>
    decreases files.len(),
{
    if files.len() == 0 {
        Seq::empty()
    } else {
        matches_in(needle, files.drop_last()) + matching_lines(
            needle,
            files.last().0,
            lines_of(files.last().1),
        )
    }
}

/// The results after a run of files, each looked at only while more is wanted.
pub open spec fn results_after(
    needle: Needle,
    limit: int,
    files: Seq<(Seq<char>, Seq<char>)>,
) -> Seq<MatchView>
    decreases files.len(),
{
    if files.len() == 0 {
        Seq::empty()
    } else {
        let before = results_after(needle, limit, files.drop_last());
        if before.len() < limit {
            before + at_most(
                matching_lines(needle, files.last().0, lines_of(files.last().1)),
                limit - before.len(),
            )
        } else {
            before
        }
    }
}

/// A search through a directory finds the first matches of all its files, in the
/// order of the files, and never more than the limit.
pub proof fn law_search_stops_at_the_limit(
    needle: Needle,
    limit: int,
    files: Seq<(Seq<char>, Seq<char>)>,
)
    requires
        0 <= limit,
    ensures
        results_after(needle, limit, files) == at_most(matches_in(needle, files), limit),
        results_after(needle, limit, files).len() <= limit,
    decreases files.len(),
{
    if files.len() > 0 {
        law_search_stops_at_the_limit(needle, limit, files.drop_last());
        let found = matching_lines(needle, files.last().0, lines_of(files.last().1));
        let all = matches_in(needle, files.drop_last());
        assert(results_after(needle, limit, files) =~= at_most(all + found, limit));
    }
}

// ---------------------------------------------------------------------------
// Glob patterns
// ---------------------------------------------------------------------------

/// `globset::Glob`, carried without looking inside.
#[verifier::external_type_specification]
#[verifier::external_body]
pub struct ExGlob(globset::Glob);

/// `globset::GlobSet`, carried without looking inside.
#[verifier::external_type_specification]
#[verifier::external_body]
pub struct ExGlobSet(globset::GlobSet);

/// The pattern that a `globset::Glob` was made from.
pub uninterp spec fn glob_text(glob: globset::Glob) -> Seq<char>;

/// The pattern of the one glob that a `globset::GlobSet` was made from.
pub uninterp spec fn glob_source(set: globset::GlobSet) -> Seq<char>;

/// How `globset::Glob::new` describes its refusal of `pattern`, or `None` where it
/// takes the pattern.
pub uninterp spec fn glob_fault(pattern: Seq<char>) -> Option<Seq<char>>;

/// How `globset::GlobSetBuilder::build` describes its refusal of the glob for
/// `pattern`, or `None` where it compiles the glob.
pub uninterp spec fn glob_set_fault(pattern: Seq<char>) -> Option<Seq<char>>;

/// Whether a glob pattern matches a path.
pub uninterp spec fn glob_matches(pattern: Seq<char>, path: Seq<char>) -> bool;

/// Why a pattern is refused, if it is.
pub open spec fn pattern_fault(pattern: Seq<char>) -> Option<Seq<char>> {
    match glob_fault(pattern) {
        Some(m) => Some(m),
        None => glob_set_fault(pattern),
    }
}

/// Calls `globset::Glob::new`. Whether it succeeds, and the words of its error, are
/// functions of the pattern, named by [`glob_fault`].
#[verifier::external_body]
fn read_glob(pattern: &str) -> (r: Result<globset::Glob, String>)
    ensures
        match r {
            Ok(glob) => glob_fault(pattern@) is None && glob_text(glob) == pattern@,
            Err(m) => glob_fault(pattern@) == Some(m@),
        },
{
    match globset::Glob::new(pattern) {
        Ok(glob) => Ok(glob),
        Err(e) => Err(e.to_string()),
    }
}

/// Calls `globset::GlobSetBuilder::build` for a set of one glob: a set reports the
/// failure where a glob compiled on its own panics, if the expression behind it grows
/// too large. Whether it succeeds, and the words of its error, are functions of the
/// pattern of the glob, named by [`glob_set_fault`].
#[verifier::external_body]
fn compile_glob(glob: globset::Glob) -> (r: Result<globset::GlobSet, String>)
    ensures
        match r {
            Ok(set) => glob_set_fault(glob_text(glob)) is None && glob_source(set) == glob_text(
                glob,
            ),
            Err(m) => glob_set_fault(glob_text(glob)) == Some(m@),
        },
{
    match globset::GlobSetBuilder::new().add(glob).build() {
        Ok(set) => Ok(set),
        Err(e) => Err(e.to_string()),
    }
}

/// Calls `globset::GlobSet::is_match`. The answer is a function of the pattern and
/// the path, named by [`glob_matches`].
#[verifier::external_body]
fn glob_is_match(set: &globset::GlobSet, path: &str) -> (r: bool)
    ensures
        r == glob_matches(glob_source(*set), path@),
{
    set.is_match(path)
}

/// A glob pattern for files.
#[derive(Debug)]
pub struct FileGlob {
    pub set: globset::GlobSet,
}

impl FileGlob {
    /// The pattern.
    pub open spec fn pattern(&self) -> Seq<char> {
        glob_source(self.set)
    }

    /// Compiles a pattern.
    pub fn new(pattern: &str) -> (r: Result<FileGlob, SandboxError>)
        ensures
            match pattern_fault(pattern@) {
                None => r matches Ok(g) && g.pattern() == pattern@,
                Some(m) => r matches Err(SandboxError::Backend(e)) && e@ == "invalid glob: "@ + m,
            },
    {
        let compiled = match read_glob(pattern) {
            Ok(glob) => compile_glob(glob),
            Err(m) => Err(m),
        };
        match compiled {
            Ok(set) => Ok(FileGlob { set }),
            Err(m) => {
                let mut message = "invalid glob: ".to_owned();
                message.append(m.as_str());
                Err(SandboxError::Backend(message))
            },
        }
    }

    /// Whether the pattern takes a file: by its path or by its name alone.
    pub fn selects(&self, path: &str, name: &str) -> (r: bool)
        ensures
            r == (glob_matches(self.pattern(), path@) || glob_matches(self.pattern(), name@)),
    {
        glob_is_match(&self.set, path) || glob_is_match(&self.set, name)
    }
}

// ---------------------------------------------------------------------------
// Laws of searching
// ---------------------------------------------------------------------------

/// Each line that is looked for is found once, with the path of its file and its
/// number, and no other line is; they come in the order of the file.
pub proof fn law_each_matching_line_is_found(
    needle: Needle,
    path: Seq<char>,
    text_lines: Seq<Seq<char>>,
    i: int,
)
    requires
        0 <= i < text_lines.len(),
    ensures
        ({
            let wanted = |line: Seq<char>| found_in(needle, line);
            let found = matching_lines(needle, path, text_lines);
            let k = rank(text_lines, wanted, i);
            &&& found.len() == rank(text_lines, wanted, text_lines.len() as int)
            &&& found_in(needle, text_lines[i]) ==> 0 <= k < found.len() && found[k].path == path
                && found[k].line_number == i + 1 && found[k].line == text_lines[i]
        }),
    decreases text_lines.len(),
{
    let wanted = |line: Seq<char>| found_in(needle, line);
    let n = text_lines.len() as int;
    let less = text_lines.drop_last();
    assert(less + seq![text_lines.last()] =~= text_lines);
    lemma_rank_within(less, seq![text_lines.last()], wanted, n - 1);
    if n == 1 {
        assert(matching_lines(needle, path, less) =~= Seq::empty());
        assert(rank(text_lines, wanted, 0) == 0);
    } else {
        let j = if i < n - 1 {
            i
        } else {
            0
        };
        law_each_matching_line_is_found(needle, path, less, j);
        lemma_rank_within(less, seq![text_lines.last()], wanted, j);
        assert(less[j] == text_lines[j]);
    }
}

/// What is looked for: an expression is looked for as it is, plain text where the line
/// holds it, and everything else is left out.
pub proof fn law_what_is_looked_for(pattern: Seq<char>, before: Seq<char>, behind: Seq<char>)
    ensures
        search_expression(pattern, true) == pattern,
        search_expression(pattern, false) == regex_escaped(pattern),
        found_in(Needle::Text(pattern), before + pattern + behind),
        found_in(Needle::Expression(pattern), before) == regex_matches(pattern, before),
        before.len() < pattern.len() ==> !found_in(Needle::Text(pattern), before),
{
    let line = before + pattern + behind;
    let at = before.len() as int;
    assert(line.subrange(at, at + pattern.len()) =~= pattern);
}

/// Where a line holds a text, the text stands in it somewhere.
pub proof fn law_held_text_stands_in_the_line(text: Seq<char>, line: Seq<char>) -> (at: int)
    requires
        found_in(Needle::Text(text), line),
    ensures
        0 <= at <= line.len() - text.len(),
        line == line.take(at) + text + line.skip(at + text.len()),
{
    let i = choose|i: int|
        0 <= i <= line.len() - text.len() && #[trigger] line.subrange(i, i + text.len()) == text;
    assert(line =~= line.take(i) + line.subrange(i, i + text.len()) + line.skip(i + text.len()));
    i
}

/// A pattern is refused where it cannot be read, for that reason, and else where it
/// cannot be compiled.
pub proof fn law_refused_patterns(pattern: Seq<char>)
    ensures
        pattern_fault(pattern) is None <==> glob_fault(pattern) is None && glob_set_fault(
            pattern,
        ) is None,
        glob_fault(pattern) is Some ==> pattern_fault(pattern) == glob_fault(pattern),
        glob_fault(pattern) is None ==> pattern_fault(pattern) == glob_set_fault(pattern),
{
}

/// There is room for as many more as the limit leaves.
pub proof fn law_room(s: FileSearch)
    ensures
        s.results@.len() <= s.limit ==> s.room() + s.results@.len() == s.limit,
        s.results@.len() >= s.limit ==> s.room() == 0,
{
}

/// The model of a match holds what it holds.
pub proof fn law_models_hold_the_fields(m: SearchMatch)
    ensures
        m.deep_view().path == m.path@,
        m.deep_view().line_number == m.line_number,
        m.deep_view().line == m.line@,
{
}

/// The characters that have a meaning of their own are escaped, and no others.
pub proof fn law_escaping(a: Seq<char>, c: char)
    ensures
        regex_escaped(Seq::<char>::empty()) == Seq::<char>::empty(),
        "\\.+*?()|[]{}^$#&-~"@.contains(c) ==> regex_escaped(a.push(c)) == regex_escaped(a).push(
            '\\',
        ).push(c),
        !"\\.+*?()|[]{}^$#&-~"@.contains(c) ==> regex_escaped(a.push(c)) == regex_escaped(a).push(
            c,
        ),
{
    assert(a.push(c).drop_last() =~= a);
}

} // verus!
