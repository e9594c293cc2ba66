use sweet::bubblewrap::{system_mounts, BubblewrapRunner, Host};
use sweet::paths::{climb, file_name, join_path, split_components, starts_with};
use sweet::restricted_fs::{
    nearest_ancestor, system_read_paths, Ancestor, FsOp, MissingPart, PathProbe, RestrictedFs,
    RootProbe,
};
use sweet::sandbox::{
    permission_bits, CommandOutput, DirEntry, DirectRunner, DirectSandbox, FileGlob, FileMetadata, FileSearch,
    SandboxError, SandboxPolicy,
};
use sweet::seatbelt::{escape_sbpl, SeatbeltRunner};
use sweet::walk::{TreeWalk, WalkKind, WalkStep};

fn strings(list: &[&str]) -> Vec<String> {
    list.iter().map(|s| s.to_string()).collect()
}

#[test]
fn profile_uses_no_unsupported_network_filters() {
    for policy in [SandboxPolicy::Sandbox, SandboxPolicy::Restricted] {
        let runner = SeatbeltRunner::new(strings(&["/work"]), vec![], policy, vec![]);
        let profile = runner.generate_profile(&vec![]);
        assert!(
            !profile.contains("(host "),
            "profile must not contain (host ...) keyword:\n{profile}"
        );
        for line in profile.lines() {
            if line.contains("network-outbound") || line.contains("network-inbound") {
                assert!(
                    !line.contains("(remote ip \"")
                        && !line.contains("(remote tcp \"")
                        && !line.contains("(remote udp \""),
                    "profile uses unsupported remote host filter: {line}"
                );
            }
        }
    }
}

#[test]
fn extra_read_roots_emit_read_only_rules() {
    let p = "/some/ancestor/.cargo";
    let runner = SeatbeltRunner::new(
        strings(&["/work"]),
        strings(&[p]),
        SandboxPolicy::Sandbox,
        vec![],
    );
    let profile = runner.generate_profile(&vec![]);
    assert!(
        profile.contains(&format!("(allow file-read-data (subpath \"{p}\"))")),
        "extra read root must get a read-data allow:\n{profile}"
    );
    assert!(
        !profile.contains(&format!("file-write* (subpath \"{p}\")")),
        "extra read root must not be writable:\n{profile}"
    );
    assert!(
        !profile.contains(&format!("(allow process-exec (subpath \"{p}\"))")),
        "extra read root must not be executable:\n{profile}"
    );
}

#[test]
fn profile_is_written_rule_by_rule() {
    let runner = SeatbeltRunner::new(
        strings(&["/w"]),
        strings(&["/x"]),
        SandboxPolicy::Restricted,
        strings(&["/t"]),
    );
    let profile = runner.generate_profile(&strings(&["/h/.gitconfig"]));
    let lines: Vec<&str> = profile.lines().collect();
    assert!(profile.ends_with("(deny network*)\n"));
    assert_eq!(lines[0], "(version 1)");
    assert_eq!(lines[1], "(deny default)");
    assert_eq!(lines[5], "(allow file-read-data (subpath \"/usr\"))");
    assert_eq!(lines[19], "(allow file-read-data (subpath \"/w\"))");
    assert_eq!(lines[20], "(allow file-read-data (subpath \"/t\"))");
    assert_eq!(lines[21], "(allow file-read-data (subpath \"/x\"))");
    assert_eq!(lines[22], "(allow file-read-data (literal \"/h/.gitconfig\"))");
    assert_eq!(lines[23], "(allow process-exec (subpath \"/usr\"))");
    assert!(lines.contains(&"(allow file-write* (subpath \"/w\"))"));
    assert!(lines.contains(&"(allow file-read* file-write* (literal \"/dev/null\"))"));
    assert!(!profile.contains("process-exec (subpath \"/x\")"));
    let open = SeatbeltRunner::new(vec![], vec![], SandboxPolicy::Sandbox, vec![]);
    assert!(open.generate_profile(&vec![]).ends_with("(allow network*)\n"));
}

#[test]
fn quotes_cannot_be_left() {
    assert_eq!(escape_sbpl("a\"b\\c\nd\re\tf"), "a\\\"b\\\\c\\nd\\re\\tf");
    assert_eq!(escape_sbpl("plain"), "plain");
}

fn host(runner: &BubblewrapRunner, home: Option<&str>) -> Host {
    Host {
        home: home.map(str::to_string),
        system_paths_exist: system_mounts()
            .iter()
            .map(|p| p == "/usr" || p == "/etc")
            .collect(),
        config_files: strings(&["/home/u/.gitconfig"]),
        config_files_exist: vec![true],
        tool_roots_exist: vec![true; runner.tool_roots.len()],
        read_roots_exist: vec![true; runner.extra_read_roots.len()],
        write_roots_exist: vec![true; runner.allowed_write_roots.len()],
    }
}

#[test]
fn bwrap_arguments_come_in_order() {
    let runner = BubblewrapRunner::new(
        true,
        strings(&["/home/u/p"]),
        strings(&["/home/u/.cargo"]),
        SandboxPolicy::Restricted,
        strings(&["/home/u/tools", "/home/u/gone"]),
    )
    .unwrap();
    let mut h = host(&runner, Some("/home/u"));
    h.tool_roots_exist[1] = false;
    let args = runner.build_args("ls -l", &Some("/home/u/p".to_string()), &h);
    assert_eq!(
        args,
        strings(&[
            "--ro-bind", "/usr", "/usr",
            "--ro-bind", "/etc", "/etc",
            "--tmpfs", "/home/u",
            "--ro-bind", "/home/u/tools", "/home/u/tools",
            "--ro-bind", "/home/u/.gitconfig", "/home/u/.gitconfig",
            "--ro-bind", "/home/u/.cargo", "/home/u/.cargo",
            "--bind", "/home/u/p", "/home/u/p",
            "--tmpfs", "/tmp",
            "--dev", "/dev",
            "--proc", "/proc",
            "--unshare-net",
            "--die-with-parent",
            "--chdir", "/home/u/p",
            "--", "bash", "-c", "ls -l",
        ])
    );
}

#[test]
fn bwrap_shares_the_network_unless_restricted() {
    let runner =
        BubblewrapRunner::new(true, vec![], vec![], SandboxPolicy::Sandbox, vec![]).unwrap();
    let mut h = host(&runner, None);
    h.config_files_exist = vec![false];
    let args = runner.build_args("true", &Some("relative".to_string()), &h);
    assert_eq!(
        args,
        strings(&[
            "--ro-bind", "/usr", "/usr", "--ro-bind", "/etc", "/etc", "--tmpfs", "/tmp",
            "--dev", "/dev", "--proc", "/proc",
            "--die-with-parent", "--", "bash", "-c", "true",
        ])
    );
}

#[test]
fn the_host_as_a_whole_is_not_mounted() {
    let runner = BubblewrapRunner::new(
        true,
        strings(&["/home/u/p"]),
        strings(&["/home/u/.cargo"]),
        SandboxPolicy::Sandbox,
        strings(&["/home/u/tools"]),
    )
    .unwrap();
    let mut h = host(&runner, Some("/home/u"));
    h.system_paths_exist = vec![true; system_mounts().len()];
    let args = runner.build_args("true", &None, &h);
    let mut known = system_mounts();
    known.extend(strings(&[
        "/home/u/p",
        "/home/u/.cargo",
        "/home/u/tools",
        "/home/u/.gitconfig",
    ]));
    let mut binds = 0;
    for (i, arg) in args.iter().enumerate() {
        if arg == "--ro-bind" || arg == "--bind" {
            binds += 1;
            assert!(known.contains(&args[i + 1]), "{}", args[i + 1]);
            assert_eq!(args[i + 1], args[i + 2]);
        }
    }
    assert_eq!(binds, known.len());
    assert!(!known.contains(&"/".to_string()));
}

#[test]
fn missing_bwrap_is_explained() {
    match BubblewrapRunner::new(false, vec![], vec![], SandboxPolicy::Sandbox, vec![]) {
        Err(SandboxError::Backend(m)) => {
            assert!(m.starts_with("bwrap not found on $PATH. Install it with:\n\nDebian/Ubuntu: apt"));
            assert!(m.ends_with("Or run without --sandbox to disable sandboxing."));
        }
        _ => panic!(),
    }
}

#[test]
fn paths_are_compared_by_component() {
    assert!(starts_with("/home/user/.gitconfig", "/home/user/.gitconfig"));
    assert!(!starts_with("/home/user/.gitconfig_backup", "/home/user/.gitconfig"));
    assert!(starts_with("/a//b/./c", "/a/b/"));
    assert!(starts_with("/a", "/"));
    assert!(!starts_with("/", "/a"));
    assert!(!starts_with("a/b", "/a"));
    assert!(starts_with("/a", ""));
    for (path, root) in [("/a//b/./c", "/a/b"), ("./a", "."), ("a/.", "a"), ("/..", "/"), ("a", "./a")] {
        assert_eq!(
            starts_with(path, root),
            std::path::Path::new(path).starts_with(root),
            "{path} under {root}"
        );
    }
    assert_eq!(split_components("/a/./b//c/"), strings(&["/", "a", "b", "c"]));
    assert_eq!(split_components("./a/."), strings(&[".", "a"]));
}

#[test]
fn names_and_joins_follow_the_standard_library() {
    for path in ["/a/b.txt", "/", "", "a/..", ".", "x/.", "/a/"] {
        let expected = std::path::Path::new(path)
            .file_name()
            .map(|n| n.to_str().unwrap())
            .unwrap_or_default();
        assert_eq!(file_name(path), expected, "{path}");
    }
    for (dir, name) in [("/a", "b"), ("/a/", "b"), ("", "b"), ("/a", "/b"), ("a", "")] {
        let expected = std::path::Path::new(dir).join(name);
        assert_eq!(join_path(dir, name), expected.to_str().unwrap());
    }
}

fn fs() -> RestrictedFs {
    RestrictedFs::new(
        vec![RootProbe {
            path: "/link".to_string(),
            canonical: Some("/project".to_string()),
        }],
        &vec![Some("/usr".to_string()), None],
        &vec![Some("/reads".to_string()), None],
        &vec![Some("/home/u/.gitconfig".to_string())],
    )
}

fn exists_at(canonical: &str) -> PathProbe {
    PathProbe {
        direct: Some(canonical.to_string()),
        link: None,
        name: None,
        parent: None,
    }
}

fn new_in(parent: &str, name: &str) -> PathProbe {
    PathProbe {
        direct: None,
        link: None,
        name: Some(name.to_string()),
        parent: Some(parent.to_string()),
    }
}

fn link_in(parent: &str, name: &str, target: PathProbe) -> PathProbe {
    PathProbe {
        link: Some(Box::new(target)),
        ..new_in(parent, name)
    }
}

fn unresolved() -> PathProbe {
    PathProbe {
        direct: None,
        link: None,
        name: Some("x".to_string()),
        parent: None,
    }
}

#[test]
fn roots_are_taken_as_they_resolve() {
    let fs = fs();
    assert_eq!(fs.canonical_write_roots, strings(&["/project"]));
    assert_eq!(
        fs.canonical_read_roots,
        strings(&["/usr", "/project", "/reads", "/home/u/.gitconfig"])
    );
    let raw = RestrictedFs::new(
        vec![RootProbe {
            path: "/missing".to_string(),
            canonical: None,
        }],
        &vec![],
        &vec![],
        &vec![],
    );
    assert_eq!(raw.canonical_write_roots, strings(&["/missing"]));
    let plan = RestrictedFs::with_local_fs_and_reads_and_writes(
        "/p".to_string(),
        strings(&["/r"]),
        strings(&["/w"]),
        strings(&["/t"]),
    );
    assert_eq!(plan.write_roots, strings(&["/p", "/w"]));
    assert_eq!(plan.extra_read_roots, strings(&["/t", "/r"]));
    let plan = RestrictedFs::with_local_fs("/p".to_string(), strings(&["/t"]));
    assert_eq!(plan.write_roots, strings(&["/p"]));
    assert_eq!(plan.extra_read_roots, strings(&["/t"]));
    assert_eq!(system_read_paths(false).len(), 10);
    assert_eq!(system_read_paths(true).len(), 15);
}

#[test]
fn reads_and_writes_stay_under_their_roots() {
    let fs = fs();
    assert!(fs.authorize(FsOp::Write, "a", &new_in("/project", "a")).is_ok());
    assert!(fs.authorize(FsOp::Read, "a", &exists_at("/project/a")).is_ok());
    assert!(fs.authorize(FsOp::ReadToString, "p", &exists_at("/reads/plan.md")).is_ok());
    assert!(fs.authorize(FsOp::Exists, "h", &exists_at("/usr/bin/ls")).is_ok());
    assert!(fs.authorize(FsOp::Metadata, "c", &exists_at("/home/u/.gitconfig")).is_ok());
    assert!(fs
        .authorize(FsOp::Metadata, "c", &exists_at("/home/u/.gitconfig_backup"))
        .is_err());
    match fs.authorize(FsOp::Write, "p", &new_in("/reads", "new.md")) {
        Err(SandboxError::PathDenied { path, reason }) => {
            assert_eq!(path, "p");
            assert_eq!(reason, "path resolves outside writable roots: /reads/new.md");
        }
        _ => panic!(),
    }
    match fs.check_read_allowed("../s", &exists_at("/root/s")) {
        Err(e) => assert_eq!(
            e.to_text(),
            "path denied: ../s (path resolves outside readable roots: /root/s)"
        ),
        _ => panic!(),
    }
    match fs.check_write_allowed("q", &unresolved()) {
        Err(SandboxError::PathDenied { reason, .. }) => assert_eq!(
            reason,
            "path could not be canonicalized (intermediate component may not exist)"
        ),
        _ => panic!(),
    }
}

#[test]
fn renames_need_both_ends() {
    let fs = fs();
    let inside = exists_at("/project/a");
    let outside = exists_at("/root/b");
    let target = new_in("/project", "c");
    assert!(fs.authorize_rename("a", &inside, "c", &target).is_ok());
    assert!(matches!(
        fs.authorize_rename("b", &outside, "c", &target),
        Err(SandboxError::PathDenied { path, .. }) if path == "b"
    ));
    assert!(matches!(
        fs.authorize_rename("a", &inside, "d", &new_in("/root", "d")),
        Err(SandboxError::PathDenied { path, .. }) if path == "d"
    ));
    // A file cannot be moved out of a root that may only be read.
    match fs.authorize_rename("plan", &exists_at("/reads/plan.md"), "c", &target) {
        Err(SandboxError::PathDenied { path, reason }) => {
            assert_eq!(path, "plan");
            assert_eq!(reason, "path resolves outside writable roots: /reads/plan.md");
        }
        _ => panic!(),
    }
}

#[test]
fn links_do_not_lead_out_of_the_roots() {
    let fs = fs();
    let out = link_in("/project", "l", new_in("/root", "evil"));
    match fs.authorize(FsOp::Write, "l", &out) {
        Err(SandboxError::PathDenied { path, reason }) => {
            assert_eq!(path, "l");
            assert_eq!(reason, "path resolves outside writable roots: /root/evil");
        }
        _ => panic!(),
    }
    let twice = link_in("/project", "m", link_in("/project", "l", new_in("/root", "e")));
    assert!(fs.authorize(FsOp::Write, "m", &twice).is_err());
    let nowhere = link_in("/project", "n", unresolved());
    match fs.authorize(FsOp::Write, "n", &nowhere) {
        Err(SandboxError::PathDenied { reason, .. }) => assert_eq!(
            reason,
            "path could not be canonicalized (intermediate component may not exist)"
        ),
        _ => panic!(),
    }
    let within = link_in("/project", "k", new_in("/project/sub", "new"));
    assert!(fs.authorize(FsOp::Write, "k", &within).is_ok());
    let part = nearest_ancestor(&vec![ancestor(Some("project"), true)]);
    let project = Some("/project".to_string());
    assert!(fs
        .check_write_allowed_for_creation("l", &out, &project, &part)
        .is_err());
    assert!(fs
        .check_write_allowed_for_creation("n", &nowhere, &project, &part)
        .is_err());
}

#[test]
fn entries_outside_the_write_roots_stay() {
    let fs = fs();
    // A link in a root that may only be read, to a file that may be written.
    let link = PathProbe {
        direct: Some("/project/a".to_string()),
        ..new_in("/reads", "l")
    };
    assert!(fs.authorize(FsOp::Write, "l", &link).is_ok());
    match fs.authorize(FsOp::RemoveFile, "l", &link) {
        Err(SandboxError::PathDenied { reason, .. }) => {
            assert_eq!(reason, "path resolves outside writable roots: /reads/l");
        }
        _ => panic!(),
    }
    assert!(fs.authorize(FsOp::RemoveDirAll, "l", &link).is_err());
    let own = PathProbe {
        direct: Some("/project/a".to_string()),
        ..new_in("/project", "a")
    };
    assert!(fs.authorize(FsOp::RemoveFile, "a", &own).is_ok());
}

fn ancestor(name: Option<&str>, exists: bool) -> Ancestor {
    Ancestor {
        name: name.map(str::to_string),
        exists,
    }
}

#[test]
fn directories_are_made_under_existing_ancestors() {
    let fs = fs();
    let part = nearest_ancestor(&vec![
        ancestor(Some("nested"), false),
        ancestor(Some("sub"), false),
        ancestor(Some("project"), true),
    ]);
    assert_eq!(part.passed, 2);
    assert_eq!(part.climbs, 0);
    assert_eq!(part.suffix, "sub/nested/");
    let create = |ancestor: Option<&str>, part: &MissingPart| {
        let ancestor = ancestor.map(str::to_string);
        fs.check_write_allowed_for_creation("sub/nested", &unresolved(), &ancestor, part)
    };
    assert!(create(Some("/project"), &part).is_ok());
    match create(Some("/root"), &part) {
        Err(SandboxError::PathDenied { reason, .. }) => {
            assert_eq!(
                reason,
                "path resolves outside writable roots: /root/sub/nested/"
            );
        }
        _ => panic!(),
    }
    match create(None, &part) {
        Err(SandboxError::PathDenied { reason, .. }) => {
            assert_eq!(reason, "no existing ancestor could be canonicalized");
        }
        _ => panic!(),
    }
    assert!(fs
        .check_write_allowed_for_creation("d", &exists_at("/project/d"), &None, &part)
        .is_ok());
    let only = nearest_ancestor(&vec![ancestor(None, false)]);
    assert_eq!((only.passed, only.climbs), (0, 0));
    assert_eq!(only.suffix, "");
}

#[test]
fn directories_are_not_made_above_the_roots() {
    let fs = fs();
    // no_such/../../evil, below the project
    let part = nearest_ancestor(&vec![
        ancestor(Some("evil"), false),
        ancestor(None, false),
        ancestor(None, false),
        ancestor(Some("no_such"), false),
        ancestor(Some("project"), true),
    ]);
    assert_eq!((part.passed, part.climbs), (4, 1));
    assert_eq!(part.suffix, "evil/");
    let project = Some("/project".to_string());
    match fs.check_write_allowed_for_creation("e", &unresolved(), &project, &part) {
        Err(SandboxError::PathDenied { reason, .. }) => {
            assert_eq!(reason, "path resolves outside writable roots: /evil/");
        }
        _ => panic!(),
    }
    // no_such/../good, below the project
    let part = nearest_ancestor(&vec![
        ancestor(Some("good"), false),
        ancestor(None, false),
        ancestor(Some("no_such"), false),
        ancestor(Some("project"), true),
    ]);
    assert_eq!((part.passed, part.climbs), (3, 0));
    assert_eq!(part.suffix, "good/");
    assert!(fs
        .check_write_allowed_for_creation("g", &unresolved(), &project, &part)
        .is_ok());
    assert_eq!(climb("/a/b/c", 2), "/a");
    assert_eq!(climb("/a", 3), "/");
}

#[test]
fn search_finds_lines_by_number() {
    let mut s = FileSearch::new("match", false, 10).unwrap();
    s.add_file("hello.txt", "line one\nmatch here\nline three\n");
    assert_eq!(s.results.len(), 1);
    assert_eq!(s.results[0].line_number, 2);
    assert_eq!(s.results[0].line, "match here");
    assert_eq!(s.results[0].path, "hello.txt");
}

#[test]
fn search_takes_patterns_as_text_or_expression() {
    let text = "a.c\nabc\na.c again";
    let mut plain = FileSearch::new("a.c", false, 10).unwrap();
    plain.add_file("f", text);
    assert_eq!(plain.results.len(), 2);
    let mut regex = FileSearch::new("a.c", true, 10).unwrap();
    regex.add_file("f", text);
    assert_eq!(regex.results.len(), 3);
    match FileSearch::new("(", true, 1) {
        Err(SandboxError::Backend(m)) => {
            assert!(m.starts_with("invalid regex: regex parse error"), "{m}");
        }
        _ => panic!(),
    }
    assert!(FileSearch::new("(", false, 1).is_ok());
}

#[test]
fn search_stops_at_the_limit() {
    let mut s = FileSearch::new("x", false, 3).unwrap();
    let mut looked = 0;
    for file in ["a", "b", "c"] {
        if !s.wants_more() {
            break;
        }
        looked += 1;
        s.add_file(file, "x\r\nx");
    }
    assert_eq!(looked, 2);
    assert_eq!(s.results.len(), 3);
    assert_eq!(s.results[2].path, "b");
    let mut none = FileSearch::new("x", false, 0).unwrap();
    assert!(!none.wants_more());
    none.add_file("a", "x\nx");
    assert!(none.results.is_empty());
}

fn entry(path: &str, is_dir: bool) -> DirEntry {
    DirEntry {
        name: file_name(path),
        path: path.to_string(),
        metadata: FileMetadata {
            size: 0,
            is_dir,
            is_symlink: false,
            modified: None,
            created: None,
            unix_permissions: None,
        },
    }
}

fn walk(kind: WalkKind) -> Vec<String> {
    let mut walk = TreeWalk::new(
        kind,
        vec![
            entry("/r/a.rs", false),
            entry("/r/sub", true),
            entry("/r/z.txt", false),
        ],
    );
    loop {
        match walk.next() {
            WalkStep::Done => break,
            WalkStep::List(dir) => match dir.as_str() {
                "/r/sub" => walk.enter(vec![
                    entry("/r/sub/b.rs", false),
                    entry("/r/sub/deep", true),
                    entry("/r/sub/c.rs", false),
                ]),
                "/r/sub/deep" => walk.enter(vec![]),
                other => panic!("{other}"),
            },
        }
    }
    walk.found.into_iter().map(|e| e.path).collect()
}

#[test]
fn walks_go_depth_first() {
    assert_eq!(
        walk(WalkKind::Entries),
        strings(&[
            "/r/a.rs",
            "/r/sub",
            "/r/sub/b.rs",
            "/r/sub/deep",
            "/r/sub/c.rs",
            "/r/z.txt"
        ])
    );
    assert_eq!(
        walk(WalkKind::Files(FileGlob::new("*.rs").unwrap())),
        strings(&["/r/a.rs", "/r/sub/b.rs", "/r/sub/c.rs"])
    );
    assert_eq!(
        walk(WalkKind::Files(FileGlob::new("b.rs").unwrap())),
        strings(&["/r/sub/b.rs"])
    );
}

#[test]
fn globs_match_paths_or_names() {
    let g = FileGlob::new("sub/*.rs").unwrap();
    assert!(g.selects("sub/c.rs", "c.rs"));
    assert!(!g.selects("a.rs", "a.rs"));
    let g = FileGlob::new("*.rs").unwrap();
    assert!(g.selects("a.rs", "a.rs"));
    assert!(!g.selects("b.txt", "b.txt"));
    match FileGlob::new("a[") {
        Err(SandboxError::Backend(m)) => assert!(m.starts_with("invalid glob: "), "{m}"),
        _ => panic!(),
    }
}

#[test]
fn commands_run_directly_without_a_sandbox() {
    let sandbox = DirectSandbox::new();
    assert_eq!(*sandbox.runner(), DirectRunner);
    let plan = sandbox.runner().plan("echo hello");
    assert_eq!(plan.program, "bash");
    assert_eq!(plan.args, strings(&["-c", "echo hello"]));
    assert_eq!(SandboxPolicy::default(), SandboxPolicy::Off);
    assert_eq!(*DirectSandbox::default().fs(), *sandbox.fs());
}

#[test]
fn command_output_is_decoded() {
    let out = CommandOutput::from_raw(b"ok\n", b"a\xFFb", Some(42));
    assert_eq!(out.stdout, "ok\n");
    assert_eq!(out.stderr, "a\u{FFFD}b");
    assert_eq!(out.exit_code, 42);
    assert_eq!(CommandOutput::from_raw(b"", b"", None).exit_code, -1);
    assert_eq!(SandboxError::Io("x".to_string()).to_text(), "I/O error: x");
    assert_eq!(SandboxError::Backend("y".to_string()).to_text(), "y");
}

#[test]
fn permissions_leave_out_the_file_type() {
    assert_eq!(permission_bits(0o100644), 0o644);
    assert_eq!(permission_bits(0o040755), 0o755);
    assert_eq!(permission_bits(0o104755), 0o4755);
}
