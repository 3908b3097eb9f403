use desktop_scout::args::Args;
use desktop_scout::report::{Finding, Status};
use desktop_scout::schedule::{effective_jobs, inspect_files_concurrently, jobs_for, Scheduler};

fn strings(items: &[&str]) -> Vec<String> {
    items.iter().map(|s| s.to_string()).collect()
}

fn args(jobs: Option<usize>) -> Args {
    Args {
        json: false,
        no_default: false,
        no_log: false,
        include_hidden: false,
        extra_dirs: Vec::new(),
        no_common_extras: false,
        check_script_args: false,
        jobs,
    }
}

fn finding(path: &str, reason: &str) -> Finding {
    Finding {
        desktop_file: path.to_string(),
        name: None,
        exec_line: None,
        try_exec: None,
        path_key: None,
        hidden: false,
        no_display: false,
        status: Status::Broken { reason: reason.to_string() },
    }
}

#[test]
fn default_jobs_are_four_per_processor_and_at_least_eight() {
    assert_eq!(jobs_for(None, 0), 8);
    assert_eq!(jobs_for(None, 1), 8);
    assert_eq!(jobs_for(None, 2), 8);
    assert_eq!(jobs_for(None, 3), 12);
    assert_eq!(jobs_for(None, 16), 64);
    assert_eq!(jobs_for(None, usize::MAX), usize::MAX);
    assert_eq!(jobs_for(None, usize::MAX / 4 + 1), usize::MAX);
    assert_eq!(jobs_for(Some(3), 16), 3);
    assert_eq!(jobs_for(Some(0), 16), 0);
}

#[test]
fn jobs_come_from_the_options_or_the_machine() {
    assert_eq!(effective_jobs(&args(Some(5))), 5);
    assert_eq!(effective_jobs(&args(None)), jobs_for(None, num_cpus::get()));
    assert!(effective_jobs(&args(None)) >= 8);
}

#[test]
fn never_more_running_than_the_limit() {
    let files = strings(&["/a", "/b", "/c", "/d", "/e"]);
    let mut s = inspect_files_concurrently(files.clone(), &args(Some(2)));
    assert_eq!(s.start_next(), Some(0));
    assert_eq!(s.start_next(), Some(1));
    assert_eq!(s.start_next(), None);
    assert!(s.complete(1, finding("/b", "b")));
    assert_eq!(s.start_next(), Some(2));
    assert_eq!(s.start_next(), None);
    assert!(s.complete(0, finding("/a", "a")));
    assert!(s.complete(2, finding("/c", "c")));
    assert_eq!(s.start_next(), Some(3));
    assert_eq!(s.start_next(), Some(4));
    assert_eq!(s.start_next(), None);
    assert!(!s.is_finished());
    assert!(s.complete(4, finding("/e", "e")));
    assert!(s.complete(3, finding("/d", "d")));
    assert_eq!(s.start_next(), None);
    assert!(s.is_finished());
    let findings = s.into_findings().ok().unwrap();
    assert_eq!(findings.len(), files.len());
    for (i, f) in findings.iter().enumerate() {
        assert_eq!(f.desktop_file, files[i]);
    }
}

#[test]
fn one_finding_per_file_whatever_fails() {
    let files = strings(&["/a", "/b", "/c"]);
    let mut s = Scheduler::new(files.clone(), 8);
    while let Some(i) = s.start_next() {
        let path = s.file(i).unwrap();
        assert_eq!(path, files[i]);
    }
    assert!(s.complete(2, finding("/c", "Failed to read/parse file: gone")));
    assert!(s.complete(0, finding("/a", "x")));
    assert!(s.complete(1, finding("/b", "y")));
    let findings = s.into_findings().ok().unwrap();
    for path in &files {
        assert_eq!(findings.iter().filter(|f| &f.desktop_file == path).count(), 1);
    }
}

#[test]
fn a_second_or_foreign_finding_is_refused() {
    let mut s = Scheduler::new(strings(&["/a", "/b"]), 1);
    assert!(!s.complete(0, finding("/a", "too early")));
    assert_eq!(s.start_next(), Some(0));
    assert!(!s.complete(0, finding("/b", "wrong file")));
    assert!(!s.complete(1, finding("/b", "not started")));
    assert!(!s.complete(7, finding("/a", "no such file")));
    assert_eq!(s.start_next(), None);
    assert!(s.complete(0, finding("/a", "first")));
    assert!(!s.complete(0, finding("/a", "second")));
    assert_eq!(s.start_next(), Some(1));
    assert!(s.complete(1, finding("/b", "b")));
    let findings = s.into_findings().ok().unwrap();
    assert_eq!(findings, vec![finding("/a", "first"), finding("/b", "b")]);
}

#[test]
fn an_unfinished_run_hands_itself_back() {
    let mut s = Scheduler::new(strings(&["/a"]), 4);
    s = match s.into_findings() {
        Ok(_) => panic!("nothing has been inspected yet"),
        Err(unfinished) => unfinished,
    };
    assert_eq!(s.start_next(), Some(0));
    s = match s.into_findings() {
        Ok(_) => panic!("the inspection is still running"),
        Err(unfinished) => unfinished,
    };
    assert!(s.complete(0, finding("/a", "a")));
    assert_eq!(s.into_findings().ok(), Some(vec![finding("/a", "a")]));
}

#[test]
fn no_files_is_finished_at_once() {
    let mut s = Scheduler::new(Vec::new(), 4);
    assert!(s.is_finished());
    assert_eq!(s.start_next(), None);
    assert_eq!(s.file(0), None);
    assert_eq!(s.into_findings().ok(), Some(Vec::new()));
}

#[test]
fn a_limit_of_zero_starts_nothing() {
    let mut s = Scheduler::new(strings(&["/a"]), 0);
    assert_eq!(s.start_next(), None);
    assert!(!s.is_finished());
}
