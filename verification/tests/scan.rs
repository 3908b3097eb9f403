use desktop_scout::args::Args;
use desktop_scout::check::Probe;
use desktop_scout::report::{Finding, Status};
use desktop_scout::scan::{
    inspect_one, read_descriptor, settle_early, status_of_exec, unreadable_finding, Descriptor,
    Request,
};

fn args(include_hidden: bool, check_script_args: bool) -> Args {
    Args {
        json: false,
        no_default: false,
        no_log: false,
        include_hidden,
        extra_dirs: Vec::new(),
        no_common_extras: false,
        check_script_args,
        jobs: None,
    }
}

/// Runs an inspection of `/apps/x.desktop` against a made-up disk.
fn inspect(content: Result<&str, &str>, a: &Args, executables: &[&str], existing: &[&str]) -> (Finding, Vec<Request>) {
    let mut inspection = inspect_one("/apps/x.desktop", "/usr/bin:/bin", a);
    let mut asked = Vec::new();
    while let Some(request) = inspection.pending() {
        inspection = match &request {
            Request::Read(path) => {
                assert_eq!(path, "/apps/x.desktop");
                inspection.read(content.map(|s| s.to_string()).map_err(|e| e.to_string()))
            }
            Request::Probe(Probe::ExecutableFile(p)) => inspection.answer(executables.contains(&p.as_str())),
            Request::Probe(Probe::Exists(p)) => inspection.answer(existing.contains(&p.as_str())),
        };
        asked.push(request);
    }
    match inspection.into_finding() {
        Ok(finding) => (finding, asked),
        Err(_) => panic!("an inspection without a request has its finding"),
    }
}

fn broken(reason: &str) -> Status {
    Status::Broken { reason: reason.to_string() }
}

fn healthy(path: &str) -> Status {
    Status::Healthy { resolved_executable: Some(path.to_string()) }
}

const DISK: [&str; 3] = ["/bin/sh", "/usr/bin/myapp", "/usr/bin/python3"];

#[test]
fn hidden_entry_is_skipped_by_default() {
    let text = "[Desktop Entry]\nName=App\nHidden=true\nExec=myapp\n";
    let (finding, asked) = inspect(Ok(text), &args(false, false), &DISK, &[]);
    assert_eq!(
        finding.status,
        Status::Skipped { reason: "Hidden=true or NoDisplay=true (use --include-hidden to scan these)".to_string() }
    );
    assert!(finding.hidden);
    assert!(!finding.no_display);
    assert_eq!(asked.len(), 1);

    let (finding, _) = inspect(Ok(text), &args(true, false), &DISK, &[]);
    assert_eq!(finding.status, healthy("/usr/bin/myapp"));
    assert!(finding.hidden);
}

#[test]
fn no_display_entry_is_skipped_by_default() {
    let text = "[Desktop Entry]\nNoDisplay=YES\nExec=/nonexistent\n";
    let (finding, _) = inspect(Ok(text), &args(false, false), &DISK, &[]);
    assert!(matches!(finding.status, Status::Skipped { .. }));
    assert!(finding.no_display);
    let (finding, _) = inspect(Ok(text), &args(true, false), &DISK, &[]);
    assert_eq!(finding.status, broken("Exec does not resolve"));
}

#[test]
fn other_types_are_skipped() {
    let text = "[Desktop Entry]\nType=Link\nExec=myapp\n";
    let (finding, asked) = inspect(Ok(text), &args(false, false), &DISK, &[]);
    assert_eq!(
        finding.status,
        Status::Skipped { reason: "Type=Link (only Type=Application is checked)".to_string() }
    );
    assert_eq!(asked.len(), 1);
    let (finding, _) = inspect(Ok("[Desktop Entry]\nType= Application \nExec=myapp\n"), &args(false, false), &DISK, &[]);
    assert_eq!(finding.status, healthy("/usr/bin/myapp"));
}

#[test]
fn bus_activated_entry_needs_no_exec() {
    let (finding, asked) = inspect(Ok("[Desktop Entry]\nDBusActivatable=true\nTryExec=/nonexistent\n"), &args(false, false), &DISK, &[]);
    assert_eq!(finding.status, Status::Healthy { resolved_executable: None });
    assert_eq!(asked.len(), 1);
    let (finding, _) = inspect(Ok("[Desktop Entry]\nDBusActivatable=true\nExec=/nonexistent\n"), &args(false, false), &DISK, &[]);
    assert_eq!(finding.status, broken("Exec does not resolve"));
}

#[test]
fn entry_without_executable_is_broken() {
    for text in ["[Desktop Entry]\nName=App\n", "", "Exec=myapp\n", "[Other]\nExec=myapp\n"] {
        let (finding, _) = inspect(Ok(text), &args(false, false), &DISK, &[]);
        assert_eq!(finding.status, broken("No Exec key found (and not DBusActivatable)"), "{:?}", text);
    }
}

#[test]
fn exec_must_resolve_even_if_try_exec_does() {
    let text = "[Desktop Entry]\nTryExec=/bin/sh\nExec=/nonexistent/prog %f\n";
    let (finding, asked) = inspect(Ok(text), &args(false, false), &DISK, &[]);
    assert_eq!(finding.status, broken("Exec does not resolve (even though TryExec does)"));
    assert_eq!(finding.try_exec, Some("/bin/sh".to_string()));
    assert_eq!(finding.exec_line, Some("/nonexistent/prog %f".to_string()));
    assert_eq!(
        asked[1..],
        [
            Request::Probe(Probe::ExecutableFile("/bin/sh".to_string())),
            Request::Probe(Probe::ExecutableFile("/nonexistent/prog".to_string())),
        ]
    );
}

#[test]
fn try_exec_that_does_not_resolve_is_final() {
    let text = "[Desktop Entry]\nTryExec=gone\nExec=myapp\n";
    let (finding, asked) = inspect(Ok(text), &args(false, false), &DISK, &[]);
    assert_eq!(finding.status, broken("TryExec does not resolve: gone"));
    assert_eq!(asked.len(), 3);
}

#[test]
fn try_exec_alone_gives_its_path() {
    let (finding, _) = inspect(Ok("[Desktop Entry]\nTryExec=sh\n"), &args(false, false), &DISK, &[]);
    assert_eq!(finding.status, healthy("/bin/sh"));
}

#[test]
fn exec_path_wins_over_try_exec_path() {
    let (finding, _) = inspect(Ok("[Desktop Entry]\nTryExec=sh\nExec=myapp %U\n"), &args(false, false), &DISK, &[]);
    assert_eq!(finding.status, healthy("/usr/bin/myapp"));
}

#[test]
fn exec_problems_are_reported_with_their_text() {
    let (finding, _) = inspect(Ok("[Desktop Entry]\nExec=sh -c \"oops\n"), &args(false, false), &DISK, &[]);
    assert_eq!(finding.status, broken("Exec check failed: Failed to shell-split Exec"));
    let (finding, _) = inspect(Ok("[Desktop Entry]\nTryExec=sh\nExec=env A=1\n"), &args(false, false), &DISK, &[]);
    assert_eq!(finding.status, broken("Exec check failed: Could not extract executable from Exec"));
    let (finding, _) = inspect(Ok("[Desktop Entry]\nExec=python3 /opt/x.py\n"), &args(false, true), &DISK, &[]);
    assert_eq!(
        finding.status,
        broken("Exec check failed: Interpreter python3 exists, but script/path argument is missing: /opt/x.py")
    );
    let (finding, _) = inspect(Ok("[Desktop Entry]\nExec=python3 /opt/x.py\n"), &args(false, false), &DISK, &[]);
    assert_eq!(finding.status, healthy("/usr/bin/python3"));
    let (finding, _) = inspect(Ok("[Desktop Entry]\nExec=python3 /opt/x.py\n"), &args(false, true), &DISK, &["/opt/x.py"]);
    assert_eq!(finding.status, healthy("/usr/bin/python3"));
}

#[test]
fn field_code_exec_does_not_resolve() {
    let (finding, asked) = inspect(Ok("[Desktop Entry]\nExec=%f\n"), &args(false, false), &DISK, &[]);
    assert_eq!(finding.status, broken("Exec does not resolve"));
    assert_eq!(asked.len(), 1);
}

#[test]
fn working_directory_resolves_relative_paths() {
    let disk = ["/opt/app/bin/run"];
    let (finding, _) = inspect(Ok("[Desktop Entry]\nPath=/opt/app\nExec=bin/run --x\n"), &args(false, false), &disk, &[]);
    assert_eq!(finding.status, healthy("/opt/app/bin/run"));
    assert_eq!(finding.path_key, Some("/opt/app".to_string()));
    let (finding, _) = inspect(Ok("[Desktop Entry]\nExec=bin/run --x\n"), &args(false, false), &disk, &[]);
    assert_eq!(finding.status, broken("Exec does not resolve"));
}

#[test]
fn unreadable_file_gives_a_broken_finding() {
    let (finding, asked) = inspect(Err("No such file or directory (os error 2)"), &args(false, false), &DISK, &[]);
    assert_eq!(
        finding,
        Finding {
            desktop_file: "/apps/x.desktop".to_string(),
            name: None,
            exec_line: None,
            try_exec: None,
            path_key: None,
            hidden: false,
            no_display: false,
            status: broken("Failed to read/parse file: No such file or directory (os error 2)"),
        }
    );
    assert_eq!(asked, vec![Request::Read("/apps/x.desktop".to_string())]);
    assert_eq!(unreadable_finding("/apps/x.desktop".to_string(), "No such file or directory (os error 2)"), finding);
}

#[test]
fn finding_carries_the_fields_of_the_entry() {
    let text = "[Desktop Entry]\nName=My App\nExec=myapp\nTryExec=sh\nPath=/opt\nHidden=false\nNoDisplay=no\n";
    let (finding, _) = inspect(Ok(text), &args(false, false), &DISK, &[]);
    assert_eq!(finding.desktop_file, "/apps/x.desktop");
    assert_eq!(finding.name, Some("My App".to_string()));
    assert_eq!(finding.exec_line, Some("myapp".to_string()));
    assert_eq!(finding.try_exec, Some("sh".to_string()));
    assert_eq!(finding.path_key, Some("/opt".to_string()));
    assert!(!finding.hidden && !finding.no_display);
    assert!(!finding.status.is_broken());
}

#[test]
fn only_the_first_desktop_entry_section_counts() {
    let text = "Exec=before\n[Desktop Entry]\nExec=myapp\n[Desktop Action x]\nExec=/nonexistent\n[Desktop Entry]\nExec=/late\n";
    let d = read_descriptor(text);
    assert_eq!(d.exec_line, Some("myapp".to_string()));
}

#[test]
fn descriptor_holds_what_an_inspection_reads() {
    let d = read_descriptor("[Desktop Entry]\nType=Application\nDBusActivatable=1\nName=N\n");
    assert_eq!(
        d,
        Descriptor {
            name: Some("N".to_string()),
            exec_line: None,
            try_exec: None,
            path_key: None,
            hidden: false,
            no_display: false,
            kind: Some("Application".to_string()),
            bus_activatable: true,
        }
    );
    assert_eq!(settle_early(&d, false), Some(Status::Healthy { resolved_executable: None }));
}

#[test]
fn the_skip_rules_come_in_order() {
    let d = read_descriptor("[Desktop Entry]\nType=Link\nHidden=true\n");
    assert!(matches!(settle_early(&d, false), Some(Status::Skipped { reason }) if reason.starts_with("Hidden")));
    assert!(matches!(settle_early(&d, true), Some(Status::Skipped { reason }) if reason.starts_with("Type=Link")));
    let d = read_descriptor("[Desktop Entry]\nExec=x\n");
    assert_eq!(settle_early(&d, false), None);
    let d = read_descriptor("[Desktop Entry]\nTryExec=x\n");
    assert_eq!(settle_early(&d, false), None);
}

#[test]
fn status_follows_the_verdict_on_exec() {
    assert_eq!(status_of_exec(Ok(Some("/bin/sh".to_string())), true), healthy("/bin/sh"));
    assert_eq!(status_of_exec(Ok(None), false), broken("Exec does not resolve"));
    assert_eq!(status_of_exec(Ok(None), true), broken("Exec does not resolve (even though TryExec does)"));
    assert_eq!(status_of_exec(Err("why".to_string()), false), broken("Exec check failed: why"));
    assert!(broken("x").is_broken());
    assert!(!healthy("x").is_broken());
}

#[test]
fn answers_out_of_turn_change_nothing() {
    let a = args(false, false);
    let inspection = inspect_one("/apps/x.desktop", "/bin", &a).answer(true);
    assert_eq!(inspection.pending(), Some(Request::Read("/apps/x.desktop".to_string())));
    let inspection = inspection.read(Ok("[Desktop Entry]\nExec=sh\n".to_string()));
    let inspection = inspection.read(Err("late".to_string()));
    assert_eq!(inspection.pending(), Some(Request::Probe(Probe::ExecutableFile("/bin/sh".to_string()))));
    let inspection = match inspection.into_finding() {
        Ok(_) => panic!("the inspection has a question pending"),
        Err(unfinished) => unfinished,
    };
    let inspection = inspection.answer(true);
    assert_eq!(inspection.pending(), None);
    let inspection = inspection.answer(false).read(Ok(String::new()));
    assert_eq!(inspection.into_finding().ok().map(|f| f.status), Some(healthy("/bin/sh")));
}

#[test]
fn concluding_gives_the_finding_of_a_run() {
    let texts = [
        "[Desktop Entry]\nExec=myapp\n",
        "[Desktop Entry]\nTryExec=sh\nExec=gone\n",
        "[Desktop Entry]\nTryExec=gone\n",
        "[Desktop Entry]\nHidden=1\nExec=myapp\n",
        "[Desktop Entry]\nType=Directory\n",
        "[Desktop Entry]\nExec=python3 /opt/x.py\n",
        "",
    ];
    let disk = desktop_scout::check::Snapshot {
        executables: DISK.iter().map(|s| s.to_string()).collect(),
        existing: Vec::new(),
    };
    for text in texts {
        for hidden in [false, true] {
            for check in [false, true] {
                let a = args(hidden, check);
                let (expected, _) = inspect(Ok(text), &a, &DISK, &[]);
                let finding = inspect_one("/apps/x.desktop", "/usr/bin:/bin", &a).conclude(Ok(text.to_string()), &disk);
                assert_eq!(finding, expected, "{:?}", text);
            }
        }
    }
    let a = args(false, false);
    let finding = inspect_one("/apps/x.desktop", "/usr/bin:/bin", &a).conclude(Err("denied".to_string()), &disk);
    assert_eq!(finding.status, broken("Failed to read/parse file: denied"));
}
