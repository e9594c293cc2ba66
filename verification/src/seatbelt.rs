//! Profiles for the macOS sandbox.
//!
//! A profile is a list of rules, of which the last that matches an operation
//! decides: everything is denied first, then single things are allowed.

use vstd::prelude::*;
use vstd::string::StringExecFns;

use crate::sandbox::SandboxPolicy;
use crate::text::{join, joined, push_char, to_chars};

verus! {

// ---------------------------------------------------------------------------
// Quoting
// ---------------------------------------------------------------------------

/// How `c` is written inside double quotes.
pub open spec fn escaped_char(c: char) -> Seq<char> {
    if c == '\\' {
        seq!['\\', '\\']
    } else if c == '"' {
        seq!['\\', '"']
    } else if c == '\n' {
        seq!['\\', 'n']
    } else if c == '\r' {
        seq!['\\', 'r']
    } else if c == '\t' {
        seq!['\\', 't']
    } else {
        seq![c]
    }
}

/// How `s` is written inside double quotes.
pub open spec fn escaped(s: Seq<char>) -> Seq<char>
    decreases s.len(),
{
    if s.len() == 0 {
        Seq::empty()
    } else {
        escaped(s.drop_last()) + escaped_char(s.last())
    }
}

/// Writes `s` as it stands inside double quotes.
pub fn escape_sbpl(s: &str) -> (r: String)
    ensures
        r@ == escaped(s@),
{
    let chars = to_chars(s);
    let mut out = String::new();
    for i in 0..chars.len()
        invariant
            chars@ == s@,
            out@ == escaped(s@.take(i as int)),
    {
        assert(s@.take(i + 1).drop_last() =~= s@.take(i as int));
        let ghost before = out@;
        let c = chars[i];
        if c == '\\' {
            push_char(&mut out, '\\');
            push_char(&mut out, '\\');
        } else if c == '"' {
            push_char(&mut out, '\\');
            push_char(&mut out, '"');
        } else if c == '\n' {
            push_char(&mut out, '\\');
            push_char(&mut out, 'n');
        } else if c == '\r' {
            push_char(&mut out, '\\');
            push_char(&mut out, 'r');
        } else if c == '\t' {
            push_char(&mut out, '\\');
            push_char(&mut out, 't');
        } else {
            push_char(&mut out, c);
        }
        assert(out@ =~= before + escaped_char(c));
    }
    assert(s@.take(s@.len() as int) =~= s@);
    out
}

/// The character that a backslash and `c` stand for.
pub open spec fn unescaped_char(c: char) -> char {
    if c == 'n' {
        '\n'
    } else if c == 'r' {
        '\r'
    } else if c == 't' {
        '\t'
    } else {
        c
    }
}

/// Reads what stands before the first quote that no backslash protects: the text,
/// and what follows the quote. `None` where there is no such quote.
pub open spec fn read_quoted(t: Seq<char>) -> Option<(Seq<char>, Seq<char>)>
    decreases t.len(),
{
    if t.len() == 0 {
        None
    } else if t[0] == '"' {
        Some((Seq::empty(), t.skip(1)))
    } else if t[0] == '\\' {
        if t.len() == 1 {
            None
        } else {
            match read_quoted(t.skip(2)) {
                Some((text, rest)) => Some((seq![unescaped_char(t[1])] + text, rest)),
                None => None,
            }
        }
    } else {
        match read_quoted(t.skip(1)) {
            Some((text, rest)) => Some((seq![t[0]] + text, rest)),
            None => None,
        }
    }
}

proof fn lemma_escaped_front(s: Seq<char>)
    requires
        s.len() > 0,
    ensures
        escaped(s) == escaped_char(s.first()) + escaped(s.drop_first()),
    decreases s.len(),
{
    if s.len() == 1 {
        assert(s.drop_last() =~= Seq::empty());
        assert(s.drop_first() =~= Seq::empty());
        assert(escaped(s) =~= escaped_char(s.first()) + escaped(s.drop_first()));
    } else {
        lemma_escaped_front(s.drop_last());
        assert(s.drop_last().drop_first() =~= s.drop_first().drop_last());
        assert(escaped(s) =~= escaped_char(s.first()) + escaped(s.drop_first()));
    }
}

/// No path can leave its quotes: whatever it holds, reading what was written gives
/// the path back and stops at the quote that closes it.
pub proof fn law_quoting_is_undone(s: Seq<char>, rest: Seq<char>)
    ensures
        read_quoted(escaped(s) + seq!['"'] + rest) == Some((s, rest)),
    decreases s.len(),
{
    let t = escaped(s) + seq!['"'] + rest;
    if s.len() == 0 {
        assert(t =~= seq!['"'] + rest);
        assert(t.skip(1) =~= rest);
        assert(s =~= Seq::empty());
    } else {
        lemma_escaped_front(s);
        let tail = s.drop_first();
        law_quoting_is_undone(tail, rest);
        let after = escaped(tail) + seq!['"'] + rest;
        let first = escaped_char(s.first());
        assert(t =~= first + after);
        if first.len() == 2 {
            assert(t.skip(2) =~= after);
        } else {
            assert(t.skip(1) =~= after);
        }
        assert(seq![s.first()] + tail =~= s);
    }
}

/// A quoted path stays on its line, and one without anything special is written as it
/// is.
pub proof fn law_quoted_stays_on_its_line(s: Seq<char>)
    ensures
        forall|k: int|
            0 <= k < escaped(s).len() ==> {
                &&& (#[trigger] escaped(s)[k]) != '\n'
                &&& escaped(s)[k] != '\r'
                &&& escaped(s)[k] != '\t'
            },
        (forall|k: int|
            0 <= k < s.len() ==> {
                &&& (#[trigger] s[k]) != '\\'
                &&& s[k] != '"'
                &&& s[k] != '\n'
                &&& s[k] != '\r'
                &&& s[k] != '\t'
            }) ==> escaped(s) == s,
    decreases s.len(),
{
    if s.len() > 0 {
        let before = s.drop_last();
        law_quoted_stays_on_its_line(before);
        assert forall|k: int| 0 <= k < escaped(s).len() implies {
            &&& (#[trigger] escaped(s)[k]) != '\n'
            &&& escaped(s)[k] != '\r'
            &&& escaped(s)[k] != '\t'
        } by {
            if k < escaped(before).len() {
                assert(escaped(s)[k] == escaped(before)[k]);
            } else {
                assert(escaped(s)[k] == escaped_char(s.last())[k - escaped(before).len()]);
            }
        }
        if forall|k: int|
            0 <= k < s.len() ==> {
                &&& (#[trigger] s[k]) != '\\'
                &&& s[k] != '"'
                &&& s[k] != '\n'
                &&& s[k] != '\r'
                &&& s[k] != '\t'
            } {
            assert forall|k: int| 0 <= k < before.len() implies {
                &&& (#[trigger] before[k]) != '\\'
                &&& before[k] != '"'
                &&& before[k] != '\n'
                &&& before[k] != '\r'
                &&& before[k] != '\t'
            } by {
                assert(before[k] == s[k]);
            }
            assert(s[s.len() - 1] == s.last());
            assert(escaped(s) =~= s);
        }
    } else {
        assert(escaped(s) =~= s);
    }
}

// ---------------------------------------------------------------------------
// Rules
// ---------------------------------------------------------------------------

/// The system paths that hold no secrets of the user and that tools need.
pub open spec fn system_paths() -> Seq<Seq<char>> {
    seq![
        "/usr"@,
        "/bin"@,
        "/sbin"@,
        "/etc"@,
        "/private/etc"@,
        "/tmp"@,
        "/private/tmp"@,
        "/private/var"@,
        "/var"@,
        "/opt"@,
        "/System"@,
        "/Library"@,
        "/Applications"@,
        "/Developer"@,
    ]
}

fn list_system_paths() -> (r: Vec<String>)
    ensures
        r.deep_view() == system_paths(),
{
    let mut out: Vec<String> = Vec::new();
    out.push("/usr".to_owned());
    out.push("/bin".to_owned());
    out.push("/sbin".to_owned());
    out.push("/etc".to_owned());
    out.push("/private/etc".to_owned());
    out.push("/tmp".to_owned());
    out.push("/private/tmp".to_owned());
    out.push("/private/var".to_owned());
    out.push("/var".to_owned());
    out.push("/opt".to_owned());
    out.push("/System".to_owned());
    out.push("/Library".to_owned());
    out.push("/Applications".to_owned());
    out.push("/Developer".to_owned());
    assert(out.deep_view() =~= system_paths());
    out
}

/// The device nodes that shells and tools expect.
pub open spec fn device_nodes() -> Seq<Seq<char>> {
    seq![
        "/dev/null"@,
        "/dev/zero"@,
        "/dev/random"@,
        "/dev/urandom"@,
        "/dev/tty"@,
        "/dev/dtracehelper"@,
    ]
}

fn list_device_nodes() -> (r: Vec<String>)
    ensures
        r.deep_view() == device_nodes(),
{
    let mut out: Vec<String> = Vec::new();
    out.push("/dev/null".to_owned());
    out.push("/dev/zero".to_owned());
    out.push("/dev/random".to_owned());
    out.push("/dev/urandom".to_owned());
    out.push("/dev/tty".to_owned());
    out.push("/dev/dtracehelper".to_owned());
    assert(out.deep_view() =~= device_nodes());
    out
}

/// A rule that allows `operation` on what `filter` says of `path`.
pub open spec fn allow_rule(operation: Seq<char>, filter: Seq<char>, path: Seq<char>) -> Seq<char> {
    "(allow "@ + operation + " ("@ + filter + " \""@ + escaped(path) + "\"))"@
}

/// A rule for each of `paths`.
pub open spec fn allow_rules(
    operation: Seq<char>,
    filter: Seq<char>,
    paths: Seq<Seq<char>>,
) -> Seq<Seq<char>> {
    paths.map_values(|p: Seq<char>| allow_rule(operation, filter, p))
}

/// Appends a rule for each of `paths`.
fn add_rules(rules: &mut Vec<String>, operation: &str, filter: &str, paths: &Vec<String>)
    ensures
        final(rules).deep_view() == old(rules).deep_view() + allow_rules(
            operation@,
            filter@,
            paths.deep_view(),
        ),
{
    let ghost start = rules.deep_view();
    let ghost all = allow_rules(operation@, filter@, paths.deep_view());
    assert(rules.deep_view() =~= start + all.take(0));
    for i in 0..paths.len()
        invariant
            all == allow_rules(operation@, filter@, paths.deep_view()),
            rules.deep_view() == start + all.take(i as int),
    {
        let ghost before = rules.deep_view();
        let mut rule = "(allow ".to_owned();
        rule.append(operation);
        rule.append(" (");
        rule.append(filter);
        rule.append(" \"");
        rule.append(escape_sbpl(paths[i].as_str()).as_str());
        rule.append("\"))");
        assert(all[i as int] == rule@);
        rules.push(rule);
        assert(rules.deep_view() =~= before.push(rule@));
        assert(rules.deep_view() =~= start + all.take(i + 1));
    }
    assert(all.take(all.len() as int) =~= all);
}

/// A runner of commands under a profile.
#[derive(Debug)]
pub struct SeatbeltRunner {
    /// Directories that may be written.
    pub allowed_write_roots: Vec<String>,
    /// Directories that may be read, but neither written nor executed from.
    pub extra_read_roots: Vec<String>,
    /// Directories of tools.
    pub tool_roots: Vec<String>,
    pub policy: SandboxPolicy,
}

/// The model of a [`SeatbeltRunner`].
#[verifier::ext_equal]
pub struct SeatbeltView {
    pub allowed_write_roots: Seq<Seq<char>>,
    pub extra_read_roots: Seq<Seq<char>>,
    pub tool_roots: Seq<Seq<char>>,
    pub policy: SandboxPolicy,
}

impl DeepView for SeatbeltRunner {
    type V = SeatbeltView;

    open spec fn deep_view(&self) -> SeatbeltView {
        SeatbeltView {
            allowed_write_roots: self.allowed_write_roots.deep_view(),
            extra_read_roots: self.extra_read_roots.deep_view(),
            tool_roots: self.tool_roots.deep_view(),
            policy: self.policy,
        }
    }
}

/// The rules before those for the caller's extra read roots.
pub open spec fn rules_before_extra(r: SeatbeltView) -> Seq<Seq<char>> {
    seq![
        "(deny default)"@,
        "(allow file-read-metadata)"@,
        "(allow file-read-data (literal \"/\"))"@,
        "(allow sysctl-read)"@,
    ] + allow_rules("file-read-data"@, "subpath"@, system_paths()) + allow_rules(
        "file-read-data"@,
        "subpath"@,
        r.allowed_write_roots,
    ) + allow_rules("file-read-data"@, "subpath"@, r.tool_roots)
}

/// The rules behind those for the caller's extra read roots.
pub open spec fn rules_after_extra(r: SeatbeltView, config_files: Seq<Seq<char>>) -> Seq<
    Seq<char>,
> {
    allow_rules("file-read-data"@, "literal"@, config_files) + allow_rules(
        "process-exec"@,
        "subpath"@,
        system_paths(),
    ) + allow_rules("process-exec"@, "subpath"@, r.allowed_write_roots) + allow_rules(
        "process-exec"@,
        "subpath"@,
        r.tool_roots,
    ) + seq!["(allow process-fork)"@, "(allow signal)"@, "(allow mach-lookup)"@] + allow_rules(
        "file-write*"@,
        "subpath"@,
        r.allowed_write_roots,
    ) + seq![
        "(allow file-write* (subpath \"/tmp\"))"@,
        "(allow file-write* (subpath \"/private/tmp\"))"@,
        "(allow file-write* (subpath \"/var/folders\"))"@,
        "(allow file-write* (subpath \"/private/var/folders\"))"@,
    ] + allow_rules("file-read* file-write*"@, "literal"@, device_nodes()) + seq![
        "(allow file-read* file-write* (subpath \"/dev/fd\"))"@,
    ] + seq![
        match r.policy {
            SandboxPolicy::Restricted => "(deny network*)"@,
            _ => "(allow network*)"@,
        },
    ]
}

/// The rules of a profile, in order.
pub open spec fn profile_rules(r: SeatbeltView, config_files: Seq<Seq<char>>) -> Seq<Seq<char>> {
    rules_before_extra(r) + allow_rules("file-read-data"@, "subpath"@, r.extra_read_roots)
        + rules_after_extra(r, config_files)
}

impl SeatbeltRunner {
    /// A runner that allows writes under `allowed_write_roots`, and reads there,
    /// under `extra_read_roots` and under `tool_roots`.
    pub fn new(
        allowed_write_roots: Vec<String>,
        extra_read_roots: Vec<String>,
        policy: SandboxPolicy,
        tool_roots: Vec<String>,
    ) -> (r: SeatbeltRunner)
        ensures
            r.allowed_write_roots == allowed_write_roots,
            r.extra_read_roots == extra_read_roots,
            r.tool_roots == tool_roots,
            r.policy == policy,
    {
        SeatbeltRunner { allowed_write_roots, extra_read_roots, tool_roots, policy }
    }

    /// Writes the profile. `config_files` are single files of the user that hold
    /// no secrets.
    pub fn generate_profile(&self, config_files: &Vec<String>) -> (r: String)
        requires
            self.policy != SandboxPolicy::Off,
        ensures
            r@ == "(version 1)\n"@ + joined(
                profile_rules(self.deep_view(), config_files.deep_view()),
                "\n"@,
            ) + "\n"@,
    {
        let ghost view = self.deep_view();
        let system = list_system_paths();
        let mut rules: Vec<String> = Vec::new();
        rules.push("(deny default)".to_owned());
        rules.push("(allow file-read-metadata)".to_owned());
        rules.push("(allow file-read-data (literal \"/\"))".to_owned());
        rules.push("(allow sysctl-read)".to_owned());
        assert(rules.deep_view() =~= seq![
            "(deny default)"@,
            "(allow file-read-metadata)"@,
            "(allow file-read-data (literal \"/\"))"@,
            "(allow sysctl-read)"@,
        ]);
        add_rules(&mut rules, "file-read-data", "subpath", &system);
        add_rules(&mut rules, "file-read-data", "subpath", &self.allowed_write_roots);
        add_rules(&mut rules, "file-read-data", "subpath", &self.tool_roots);
        assert(rules.deep_view() =~= rules_before_extra(view));
        add_rules(&mut rules, "file-read-data", "subpath", &self.extra_read_roots);
        let ghost start = rules.deep_view();
        add_rules(&mut rules, "file-read-data", "literal", config_files);
        add_rules(&mut rules, "process-exec", "subpath", &system);
        add_rules(&mut rules, "process-exec", "subpath", &self.allowed_write_roots);
        add_rules(&mut rules, "process-exec", "subpath", &self.tool_roots);
        let ghost g1 = rules.deep_view();
        rules.push("(allow process-fork)".to_owned());
        rules.push("(allow signal)".to_owned());
        rules.push("(allow mach-lookup)".to_owned());
        assert(rules.deep_view() =~= g1 + seq![
            "(allow process-fork)"@,
            "(allow signal)"@,
            "(allow mach-lookup)"@,
        ]);
        add_rules(&mut rules, "file-write*", "subpath", &self.allowed_write_roots);
        let ghost g2 = rules.deep_view();
        rules.push("(allow file-write* (subpath \"/tmp\"))".to_owned());
        rules.push("(allow file-write* (subpath \"/private/tmp\"))".to_owned());
        rules.push("(allow file-write* (subpath \"/var/folders\"))".to_owned());
        rules.push("(allow file-write* (subpath \"/private/var/folders\"))".to_owned());
        assert(rules.deep_view() =~= g2 + seq![
            "(allow file-write* (subpath \"/tmp\"))"@,
            "(allow file-write* (subpath \"/private/tmp\"))"@,
            "(allow file-write* (subpath \"/var/folders\"))"@,
            "(allow file-write* (subpath \"/private/var/folders\"))"@,
        ]);
        add_rules(&mut rules, "file-read* file-write*", "literal", &list_device_nodes());
        let ghost g3 = rules.deep_view();
        rules.push("(allow file-read* file-write* (subpath \"/dev/fd\"))".to_owned());
        match self.policy {
            SandboxPolicy::Restricted => rules.push("(deny network*)".to_owned()),
            _ => rules.push("(allow network*)".to_owned()),
        }
        assert(rules.deep_view() =~= g3 + seq![
            "(allow file-read* file-write* (subpath \"/dev/fd\"))"@,
        ] + seq![
            match view.policy {
                SandboxPolicy::Restricted => "(deny network*)"@,
                _ => "(allow network*)"@,
            },
        ]);
        assert(rules.deep_view() =~= start + rules_after_extra(view, config_files.deep_view()));
        assert(rules.deep_view() =~= profile_rules(view, config_files.deep_view()));
        let mut profile = "(version 1)\n".to_owned();
        profile.append(join(&rules, "\n").as_str());
        profile.append("\n");
        profile
    }
}

// ---------------------------------------------------------------------------
// Laws
// ---------------------------------------------------------------------------

/// An extra read root may be read and nothing else: the profile with it holds the
/// rules of the profile without it, in the same order, and besides them only one
/// that allows reading file data under the root.
pub proof fn law_extra_read_roots_are_read_only(r: SeatbeltView, config_files: Seq<Seq<char>>)
    ensures
        ({
            let without = SeatbeltView { extra_read_roots: Seq::empty(), ..r };
            let n = rules_before_extra(r).len() as int;
            let m = r.extra_read_roots.len() as int;
            let all = profile_rules(r, config_files);
            &&& profile_rules(without, config_files) == all.take(n) + all.skip(n + m)
            &&& forall|i: int|
                0 <= i < m ==> #[trigger] all[n + i] == allow_rule(
                    "file-read-data"@,
                    "subpath"@,
                    r.extra_read_roots[i],
                )
        }),
{
    let without = SeatbeltView { extra_read_roots: Seq::empty(), ..r };
    let n = rules_before_extra(r).len() as int;
    let m = r.extra_read_roots.len() as int;
    let all = profile_rules(r, config_files);
    assert(all.take(n) =~= rules_before_extra(r));
    assert(all.skip(n + m) =~= rules_after_extra(r, config_files));
    assert(rules_before_extra(without) =~= rules_before_extra(r));
    assert(rules_after_extra(without, config_files) =~= rules_after_extra(r, config_files));
    assert(profile_rules(without, config_files) =~= all.take(n) + all.skip(n + m));
}

/// Everything is denied before anything is allowed, and the last rule decides on
/// the network: it is denied exactly under the restricted policy.
pub proof fn law_default_first_network_last(r: SeatbeltView, config_files: Seq<Seq<char>>)
    ensures
        profile_rules(r, config_files).first() == "(deny default)"@,
        profile_rules(r, config_files).last() == (if r.policy == SandboxPolicy::Restricted {
            "(deny network*)"@
        } else {
            "(allow network*)"@
        }),
{
}

/// Whether `line` is `prefix`, a quoted text that reads as `path`, and what closes the
/// rule.
pub open spec fn speaks_of(line: Seq<char>, prefix: Seq<char>, path: Seq<char>) -> bool {
    exists|quoted: Seq<char>|
        line == prefix + quoted && #[trigger] read_quoted(quoted) == Some((path, "))"@))
}

/// Whether `line` allows reading the data of the files under `path`.
pub open spec fn lets_read(line: Seq<char>, path: Seq<char>) -> bool {
    speaks_of(line, "(allow file-read-data (subpath \""@, path)
}

/// Whether `line` allows running the programs under `path`.
pub open spec fn lets_run(line: Seq<char>, path: Seq<char>) -> bool {
    speaks_of(line, "(allow process-exec (subpath \""@, path)
}

/// Whether `line` allows writing under `path`.
pub open spec fn lets_write(line: Seq<char>, path: Seq<char>) -> bool {
    speaks_of(line, "(allow file-write* (subpath \""@, path)
}

/// Whether `line` allows reading the data of the single file `path`.
pub open spec fn lets_read_file(line: Seq<char>, path: Seq<char>) -> bool {
    speaks_of(line, "(allow file-read-data (literal \""@, path)
}

/// Whether `line` allows reading and writing the device `path`.
pub open spec fn lets_use_device(line: Seq<char>, path: Seq<char>) -> bool {
    speaks_of(line, "(allow file-read* file-write* (literal \""@, path)
}

/// Whether `path` is a directory of the system that tools need.
pub open spec fn of_the_system(path: Seq<char>) -> bool {
    ||| path == "/usr"@
    ||| path == "/bin"@
    ||| path == "/sbin"@
    ||| path == "/etc"@
    ||| path == "/private/etc"@
    ||| path == "/tmp"@
    ||| path == "/private/tmp"@
    ||| path == "/private/var"@
    ||| path == "/var"@
    ||| path == "/opt"@
    ||| path == "/System"@
    ||| path == "/Library"@
    ||| path == "/Applications"@
    ||| path == "/Developer"@
}

/// Whether `path` is a device that shells and tools expect.
pub open spec fn a_device(path: Seq<char>) -> bool {
    ||| path == "/dev/null"@
    ||| path == "/dev/zero"@
    ||| path == "/dev/random"@
    ||| path == "/dev/urandom"@
    ||| path == "/dev/tty"@
    ||| path == "/dev/dtracehelper"@
}

/// Whether `line` is a rule of every profile, or the one that decides on the network.
pub open spec fn always_there(line: Seq<char>, policy: SandboxPolicy) -> bool {
    ||| line == "(deny default)"@
    ||| line == "(allow file-read-metadata)"@
    ||| line == "(allow file-read-data (literal \"/\"))"@
    ||| line == "(allow sysctl-read)"@
    ||| line == "(allow process-fork)"@
    ||| line == "(allow signal)"@
    ||| line == "(allow mach-lookup)"@
    ||| line == "(allow file-write* (subpath \"/tmp\"))"@
    ||| line == "(allow file-write* (subpath \"/private/tmp\"))"@
    ||| line == "(allow file-write* (subpath \"/var/folders\"))"@
    ||| line == "(allow file-write* (subpath \"/private/var/folders\"))"@
    ||| line == "(allow file-read* file-write* (subpath \"/dev/fd\"))"@
    ||| policy == SandboxPolicy::Restricted && line == "(deny network*)"@
    ||| policy != SandboxPolicy::Restricted && line == "(allow network*)"@
}

proof fn lemma_in_sum(a: Seq<Seq<char>>, b: Seq<Seq<char>>, x: Seq<char>)
    ensures
        (a + b).contains(x) <==> a.contains(x) || b.contains(x),
{
    if a.contains(x) {
        let k = choose|k: int| 0 <= k < a.len() && a[k] == x;
        assert((a + b)[k] == x);
    }
    if b.contains(x) {
        let k = choose|k: int| 0 <= k < b.len() && b[k] == x;
        assert((a + b)[a.len() + k] == x);
    }
    if (a + b).contains(x) {
        let k = choose|k: int| 0 <= k < (a + b).len() && (a + b)[k] == x;
        if k < a.len() {
            assert(a[k] == x);
        } else {
            assert(b[k - a.len()] == x);
        }
    }
}

proof fn lemma_system_paths(p: Seq<char>)
    ensures
        system_paths().contains(p) <==> of_the_system(p),
        device_nodes().contains(p) <==> a_device(p),
{
    let s = system_paths();
    assert(s[0] == "/usr"@ && s[1] == "/bin"@ && s[2] == "/sbin"@ && s[3] == "/etc"@ && s[4]
        == "/private/etc"@ && s[5] == "/tmp"@ && s[6] == "/private/tmp"@ && s[7]
        == "/private/var"@ && s[8] == "/var"@ && s[9] == "/opt"@ && s[10] == "/System"@ && s[11]
        == "/Library"@ && s[12] == "/Applications"@ && s[13] == "/Developer"@);
    let d = device_nodes();
    assert(d[0] == "/dev/null"@ && d[1] == "/dev/zero"@ && d[2] == "/dev/random"@ && d[3]
        == "/dev/urandom"@ && d[4] == "/dev/tty"@ && d[5] == "/dev/dtracehelper"@);
}

/// A list of rules holds one for each path, which says so.
proof fn lemma_rule_is_there(
    operation: Seq<char>,
    filter: Seq<char>,
    prefix: Seq<char>,
    paths: Seq<Seq<char>>,
    p: Seq<char>,
)
    requires
        prefix == "(allow "@ + operation + " ("@ + filter + " \""@,
        paths.contains(p),
    ensures
        speaks_of(allow_rule(operation, filter, p), prefix, p),
        allow_rules(operation, filter, paths).contains(allow_rule(operation, filter, p)),
{
    let k = choose|k: int| 0 <= k < paths.len() && paths[k] == p;
    assert(allow_rules(operation, filter, paths)[k] == allow_rule(operation, filter, p));
    law_quoting_is_undone(p, "))"@);
    let quoted = escaped(p) + seq!['"'] + "))"@;
    reveal_strlit("\"))");
    reveal_strlit("))");
    assert(allow_rule(operation, filter, p) =~= prefix + quoted);
    assert(read_quoted(quoted) == Some((p, "))"@)));
}

/// A rule of such a list is there for one of the paths.
proof fn lemma_rule_has_a_path(
    operation: Seq<char>,
    filter: Seq<char>,
    prefix: Seq<char>,
    paths: Seq<Seq<char>>,
    x: Seq<char>,
) -> (p: Seq<char>)
    requires
        prefix == "(allow "@ + operation + " ("@ + filter + " \""@,
        allow_rules(operation, filter, paths).contains(x),
    ensures
        paths.contains(p),
        speaks_of(x, prefix, p),
{
    let all = allow_rules(operation, filter, paths);
    let k = choose|k: int| 0 <= k < all.len() && all[k] == x;
    assert(paths.contains(paths[k]));
    lemma_rule_is_there(operation, filter, prefix, paths, paths[k]);
    paths[k]
}

proof fn lemma_prefixes()
    ensures
        "(allow file-read-data (subpath \""@ == "(allow "@ + "file-read-data"@ + " ("@ + "subpath"@
            + " \""@,
        "(allow process-exec (subpath \""@ == "(allow "@ + "process-exec"@ + " ("@ + "subpath"@
            + " \""@,
        "(allow file-write* (subpath \""@ == "(allow "@ + "file-write*"@ + " ("@ + "subpath"@
            + " \""@,
        "(allow file-read-data (literal \""@ == "(allow "@ + "file-read-data"@ + " ("@ + "literal"@
            + " \""@,
        "(allow file-read* file-write* (literal \""@ == "(allow "@ + "file-read* file-write*"@
            + " ("@ + "literal"@ + " \""@,
{
    reveal_strlit("(allow file-read-data (subpath \"");
    reveal_strlit("(allow process-exec (subpath \"");
    reveal_strlit("(allow file-write* (subpath \"");
    reveal_strlit("(allow file-read-data (literal \"");
    reveal_strlit("(allow file-read* file-write* (literal \"");
    reveal_strlit("(allow ");
    reveal_strlit("file-read-data");
    reveal_strlit("process-exec");
    reveal_strlit("file-write*");
    reveal_strlit("file-read* file-write*");
    reveal_strlit(" (");
    reveal_strlit("subpath");
    reveal_strlit("literal");
    reveal_strlit(" \"");
    assert("(allow file-read-data (subpath \""@ =~= "(allow "@ + "file-read-data"@ + " ("@
        + "subpath"@ + " \""@);
    assert("(allow process-exec (subpath \""@ =~= "(allow "@ + "process-exec"@ + " ("@ + "subpath"@
        + " \""@);
    assert("(allow file-write* (subpath \""@ =~= "(allow "@ + "file-write*"@ + " ("@ + "subpath"@
        + " \""@);
    assert("(allow file-read-data (literal \""@ =~= "(allow "@ + "file-read-data"@ + " ("@
        + "literal"@ + " \""@);
    assert("(allow file-read* file-write* (literal \""@ =~= "(allow "@ + "file-read* file-write*"@
        + " ("@ + "literal"@ + " \""@);
}

/// The pieces that a profile is made of.
proof fn lemma_profile_pieces(r: SeatbeltView, config_files: Seq<Seq<char>>, x: Seq<char>)
    ensures
        profile_rules(r, config_files).contains(x) <==> {
            ||| always_there(x, r.policy)
            ||| allow_rules("file-read-data"@, "subpath"@, system_paths()).contains(x)
            ||| allow_rules("file-read-data"@, "subpath"@, r.allowed_write_roots).contains(x)
            ||| allow_rules("file-read-data"@, "subpath"@, r.tool_roots).contains(x)
            ||| allow_rules("file-read-data"@, "subpath"@, r.extra_read_roots).contains(x)
            ||| allow_rules("file-read-data"@, "literal"@, config_files).contains(x)
            ||| allow_rules("process-exec"@, "subpath"@, system_paths()).contains(x)
            ||| allow_rules("process-exec"@, "subpath"@, r.allowed_write_roots).contains(x)
            ||| allow_rules("process-exec"@, "subpath"@, r.tool_roots).contains(x)
            ||| allow_rules("file-write*"@, "subpath"@, r.allowed_write_roots).contains(x)
            ||| allow_rules("file-read* file-write*"@, "literal"@, device_nodes()).contains(x)
        },
{
    let a1 = seq![
        "(deny default)"@,
        "(allow file-read-metadata)"@,
        "(allow file-read-data (literal \"/\"))"@,
        "(allow sysctl-read)"@,
    ];
    let a2 = allow_rules("file-read-data"@, "subpath"@, system_paths());
    let a3 = allow_rules("file-read-data"@, "subpath"@, r.allowed_write_roots);
    let a4 = allow_rules("file-read-data"@, "subpath"@, r.tool_roots);
    let extra = allow_rules("file-read-data"@, "subpath"@, r.extra_read_roots);
    let b1 = allow_rules("file-read-data"@, "literal"@, config_files);
    let b2 = allow_rules("process-exec"@, "subpath"@, system_paths());
    let b3 = allow_rules("process-exec"@, "subpath"@, r.allowed_write_roots);
    let b4 = allow_rules("process-exec"@, "subpath"@, r.tool_roots);
    let b5 = seq!["(allow process-fork)"@, "(allow signal)"@, "(allow mach-lookup)"@];
    let b6 = allow_rules("file-write*"@, "subpath"@, r.allowed_write_roots);
    let b7 = seq![
        "(allow file-write* (subpath \"/tmp\"))"@,
        "(allow file-write* (subpath \"/private/tmp\"))"@,
        "(allow file-write* (subpath \"/var/folders\"))"@,
        "(allow file-write* (subpath \"/private/var/folders\"))"@,
    ];
    let b8 = allow_rules("file-read* file-write*"@, "literal"@, device_nodes());
    let b9 = seq!["(allow file-read* file-write* (subpath \"/dev/fd\"))"@];
    let net = match r.policy {
        SandboxPolicy::Restricted => "(deny network*)"@,
        _ => "(allow network*)"@,
    };
    let b10 = seq![net];
    assert(a1[0] == "(deny default)"@ && a1[1] == "(allow file-read-metadata)"@ && a1[2]
        == "(allow file-read-data (literal \"/\"))"@ && a1[3] == "(allow sysctl-read)"@);
    assert(b5[0] == "(allow process-fork)"@ && b5[1] == "(allow signal)"@ && b5[2]
        == "(allow mach-lookup)"@);
    assert(b7[0] == "(allow file-write* (subpath \"/tmp\"))"@ && b7[1]
        == "(allow file-write* (subpath \"/private/tmp\"))"@ && b7[2]
        == "(allow file-write* (subpath \"/var/folders\"))"@ && b7[3]
        == "(allow file-write* (subpath \"/private/var/folders\"))"@);
    assert(b9[0] == "(allow file-read* file-write* (subpath \"/dev/fd\"))"@);
    assert(b10[0] == net);
    lemma_in_sum(a1, a2, x);
    lemma_in_sum(a1 + a2, a3, x);
    lemma_in_sum(a1 + a2 + a3, a4, x);
    lemma_in_sum(b1, b2, x);
    lemma_in_sum(b1 + b2, b3, x);
    lemma_in_sum(b1 + b2 + b3, b4, x);
    lemma_in_sum(b1 + b2 + b3 + b4, b5, x);
    lemma_in_sum(b1 + b2 + b3 + b4 + b5, b6, x);
    lemma_in_sum(b1 + b2 + b3 + b4 + b5 + b6, b7, x);
    lemma_in_sum(b1 + b2 + b3 + b4 + b5 + b6 + b7, b8, x);
    lemma_in_sum(b1 + b2 + b3 + b4 + b5 + b6 + b7 + b8, b9, x);
    lemma_in_sum(b1 + b2 + b3 + b4 + b5 + b6 + b7 + b8 + b9, b10, x);
    assert(rules_before_extra(r) =~= a1 + a2 + a3 + a4);
    assert(rules_after_extra(r, config_files) =~= b1 + b2 + b3 + b4 + b5 + b6 + b7 + b8 + b9
        + b10);
    lemma_in_sum(rules_before_extra(r), extra, x);
    lemma_in_sum(rules_before_extra(r) + extra, rules_after_extra(r, config_files), x);
}

/// Every root is good for what it is meant for. Programs can be read and run in the
/// directories of the system, in write roots and in tool roots; write roots can be
/// written; extra read roots and the given files can be read; devices can be used; and
/// what every profile allows is allowed.
pub proof fn law_roots_are_usable(r: SeatbeltView, config_files: Seq<Seq<char>>, path: Seq<char>)
    ensures
        of_the_system(path) || r.allowed_write_roots.contains(path) || r.tool_roots.contains(path)
            ==> {
            &&& exists|x: Seq<char>| #[trigger]
                profile_rules(r, config_files).contains(x) && lets_read(x, path)
            &&& exists|x: Seq<char>| #[trigger]
                profile_rules(r, config_files).contains(x) && lets_run(x, path)
        },
        r.allowed_write_roots.contains(path) ==> exists|x: Seq<char>| #[trigger]
            profile_rules(r, config_files).contains(x) && lets_write(x, path),
        r.extra_read_roots.contains(path) ==> exists|x: Seq<char>| #[trigger]
            profile_rules(r, config_files).contains(x) && lets_read(x, path),
        config_files.contains(path) ==> exists|x: Seq<char>| #[trigger]
            profile_rules(r, config_files).contains(x) && lets_read_file(x, path),
        a_device(path) ==> exists|x: Seq<char>| #[trigger]
            profile_rules(r, config_files).contains(x) && lets_use_device(x, path),
        forall|x: Seq<char>|
            always_there(x, r.policy) ==> #[trigger] profile_rules(r, config_files).contains(x),
{
    lemma_prefixes();
    lemma_system_paths(path);
    let reads = "(allow file-read-data (subpath \""@;
    let runs = "(allow process-exec (subpath \""@;
    let read = allow_rule("file-read-data"@, "subpath"@, path);
    let run = allow_rule("process-exec"@, "subpath"@, path);
    lemma_profile_pieces(r, config_files, read);
    lemma_profile_pieces(r, config_files, run);
    if of_the_system(path) {
        lemma_rule_is_there("file-read-data"@, "subpath"@, reads, system_paths(), path);
        lemma_rule_is_there("process-exec"@, "subpath"@, runs, system_paths(), path);
        assert(lets_read(read, path) && lets_run(run, path));
    }
    if r.tool_roots.contains(path) {
        lemma_rule_is_there("file-read-data"@, "subpath"@, reads, r.tool_roots, path);
        lemma_rule_is_there("process-exec"@, "subpath"@, runs, r.tool_roots, path);
        assert(lets_read(read, path) && lets_run(run, path));
    }
    if r.extra_read_roots.contains(path) {
        lemma_rule_is_there("file-read-data"@, "subpath"@, reads, r.extra_read_roots, path);
        assert(lets_read(read, path));
    }
    if r.allowed_write_roots.contains(path) {
        let write = allow_rule("file-write*"@, "subpath"@, path);
        lemma_profile_pieces(r, config_files, write);
        lemma_rule_is_there("file-read-data"@, "subpath"@, reads, r.allowed_write_roots, path);
        lemma_rule_is_there("process-exec"@, "subpath"@, runs, r.allowed_write_roots, path);
        lemma_rule_is_there(
            "file-write*"@,
            "subpath"@,
            "(allow file-write* (subpath \""@,
            r.allowed_write_roots,
            path,
        );
        assert(lets_read(read, path) && lets_run(run, path) && lets_write(write, path));
    }
    if config_files.contains(path) {
        let file = allow_rule("file-read-data"@, "literal"@, path);
        lemma_profile_pieces(r, config_files, file);
        lemma_rule_is_there(
            "file-read-data"@,
            "literal"@,
            "(allow file-read-data (literal \""@,
            config_files,
            path,
        );
        assert(lets_read_file(file, path));
    }
    if a_device(path) {
        let device = allow_rule("file-read* file-write*"@, "literal"@, path);
        lemma_profile_pieces(r, config_files, device);
        lemma_rule_is_there(
            "file-read* file-write*"@,
            "literal"@,
            "(allow file-read* file-write* (literal \""@,
            device_nodes(),
            path,
        );
        assert(lets_use_device(device, path));
    }
    assert forall|x: Seq<char>| always_there(x, r.policy) implies #[trigger] profile_rules(
        r,
        config_files,
    ).contains(x) by {
        lemma_profile_pieces(r, config_files, x);
    }
}

/// Nothing else is allowed: every rule is one of every profile, or lets a directory of
/// the system, a write root or a tool root be read or run, a write root be written, an
/// extra read root or a given file be read, or a device be used.
pub proof fn law_nothing_else_is_allowed(
    r: SeatbeltView,
    config_files: Seq<Seq<char>>,
    x: Seq<char>,
)
    requires
        profile_rules(r, config_files).contains(x),
    ensures
        ({
            ||| always_there(x, r.policy)
            ||| exists|p: Seq<char>|
                {
                    &&& of_the_system(p) || r.allowed_write_roots.contains(p)
                        || r.tool_roots.contains(p) || r.extra_read_roots.contains(p)
                    &&& #[trigger] lets_read(x, p)
                }
            ||| exists|p: Seq<char>|
                {
                    &&& of_the_system(p) || r.allowed_write_roots.contains(p)
                        || r.tool_roots.contains(p)
                    &&& #[trigger] lets_run(x, p)
                }
            ||| exists|p: Seq<char>| r.allowed_write_roots.contains(p) && #[trigger] lets_write(x, p)
            ||| exists|p: Seq<char>| config_files.contains(p) && #[trigger] lets_read_file(x, p)
            ||| exists|p: Seq<char>| a_device(p) && #[trigger] lets_use_device(x, p)
        }),
{
    lemma_prefixes();
    lemma_profile_pieces(r, config_files, x);
    let reads = "(allow file-read-data (subpath \""@;
    let runs = "(allow process-exec (subpath \""@;
    let writes = "(allow file-write* (subpath \""@;
    let files = "(allow file-read-data (literal \""@;
    let devices = "(allow file-read* file-write* (literal \""@;
    if allow_rules("file-read-data"@, "subpath"@, system_paths()).contains(x) {
        let p = lemma_rule_has_a_path("file-read-data"@, "subpath"@, reads, system_paths(), x);
        lemma_system_paths(p);
        assert(lets_read(x, p));
    } else if allow_rules("file-read-data"@, "subpath"@, r.allowed_write_roots).contains(x) {
        let p = lemma_rule_has_a_path("file-read-data"@, "subpath"@, reads, r.allowed_write_roots, x);
        assert(lets_read(x, p));
    } else if allow_rules("file-read-data"@, "subpath"@, r.tool_roots).contains(x) {
        let p = lemma_rule_has_a_path("file-read-data"@, "subpath"@, reads, r.tool_roots, x);
        assert(lets_read(x, p));
    } else if allow_rules("file-read-data"@, "subpath"@, r.extra_read_roots).contains(x) {
        let p = lemma_rule_has_a_path("file-read-data"@, "subpath"@, reads, r.extra_read_roots, x);
        assert(lets_read(x, p));
    } else if allow_rules("file-read-data"@, "literal"@, config_files).contains(x) {
        let p = lemma_rule_has_a_path("file-read-data"@, "literal"@, files, config_files, x);
        assert(lets_read_file(x, p));
    } else if allow_rules("process-exec"@, "subpath"@, system_paths()).contains(x) {
        let p = lemma_rule_has_a_path("process-exec"@, "subpath"@, runs, system_paths(), x);
        lemma_system_paths(p);
        assert(lets_run(x, p));
    } else if allow_rules("process-exec"@, "subpath"@, r.allowed_write_roots).contains(x) {
        let p = lemma_rule_has_a_path("process-exec"@, "subpath"@, runs, r.allowed_write_roots, x);
        assert(lets_run(x, p));
    } else if allow_rules("process-exec"@, "subpath"@, r.tool_roots).contains(x) {
        let p = lemma_rule_has_a_path("process-exec"@, "subpath"@, runs, r.tool_roots, x);
        assert(lets_run(x, p));
    } else if allow_rules("file-write*"@, "subpath"@, r.allowed_write_roots).contains(x) {
        let p = lemma_rule_has_a_path("file-write*"@, "subpath"@, writes, r.allowed_write_roots, x);
        assert(lets_write(x, p));
    } else if allow_rules("file-read* file-write*"@, "literal"@, device_nodes()).contains(x) {
        let p = lemma_rule_has_a_path("file-read* file-write*"@, "literal"@, devices, device_nodes(), x);
        lemma_system_paths(p);
        assert(lets_use_device(x, p));
    }
}

/// The model of a runner holds what it holds.
pub proof fn law_models_hold_the_fields(r: SeatbeltRunner, i: int)
    ensures
        r.deep_view().allowed_write_roots.len() == r.allowed_write_roots@.len(),
        0 <= i < r.allowed_write_roots@.len() ==> r.deep_view().allowed_write_roots[i]
            == r.allowed_write_roots@[i]@,
        r.deep_view().extra_read_roots.len() == r.extra_read_roots@.len(),
        0 <= i < r.extra_read_roots@.len() ==> r.deep_view().extra_read_roots[i]
            == r.extra_read_roots@[i]@,
        r.deep_view().tool_roots.len() == r.tool_roots@.len(),
        0 <= i < r.tool_roots@.len() ==> r.deep_view().tool_roots[i] == r.tool_roots@[i]@,
        r.deep_view().policy == r.policy,
{
}

} // verus!
