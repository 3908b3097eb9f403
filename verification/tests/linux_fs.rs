use desktop_scout::args::Args;
use desktop_scout::linux_fs::{application_dirs, collect_application_dirs};

fn strings(items: &[&str]) -> Vec<String> {
    items.iter().map(|s| s.to_string()).collect()
}

fn args(no_default: bool, no_common_extras: bool, extra_dirs: &[&str]) -> Args {
    Args {
        json: false,
        no_default,
        no_log: false,
        include_hidden: false,
        extra_dirs: strings(extra_dirs),
        no_common_extras,
        check_script_args: false,
        jobs: None,
    }
}

#[test]
fn defaults_and_extras_are_sorted_together() {
    let dirs = application_dirs(
        Some("/home/u/.local/share".to_string()),
        strings(&["/usr/local/share", "/usr/share"]),
        &args(false, false, &["/opt/apps", "/usr/share/applications"]),
    );
    assert_eq!(
        dirs,
        strings(&[
            "/home/u/.local/share/applications",
            "/home/u/.local/share/flatpak/exports/share/applications",
            "/opt/apps",
            "/usr/local/share/applications",
            "/usr/share/applications",
            "/var/lib/flatpak/exports/share/applications",
            "/var/lib/snapd/desktop/applications",
        ])
    );
}

#[test]
fn common_extras_can_be_switched_off() {
    let dirs = application_dirs(
        Some("/home/u/.local/share".to_string()),
        strings(&["/usr/share"]),
        &args(false, true, &[]),
    );
    assert_eq!(dirs, strings(&["/home/u/.local/share/applications", "/usr/share/applications"]));
}

#[test]
fn without_a_home_only_the_system_remains() {
    let dirs = application_dirs(None, strings(&["/usr/share/"]), &args(false, false, &[]));
    assert_eq!(
        dirs,
        strings(&[
            "/usr/share/applications",
            "/var/lib/flatpak/exports/share/applications",
            "/var/lib/snapd/desktop/applications",
        ])
    );
}

#[test]
fn without_defaults_only_the_given_directories_remain() {
    let a = args(true, false, &["/b", "/a", "/b"]);
    let dirs = application_dirs(Some("/home/u".to_string()), strings(&["/usr/share"]), &a);
    assert_eq!(dirs, strings(&["/a", "/b"]));
    assert_eq!(collect_application_dirs(&a), strings(&["/a", "/b"]));
    assert_eq!(collect_application_dirs(&args(true, true, &[])), Vec::<String>::new());
}

#[test]
fn defaults_come_from_the_base_directories() {
    let a = args(false, false, &["/opt/apps"]);
    let base = xdg::BaseDirectories::new();
    let home = base.get_data_home().map(|p| p.to_string_lossy().into_owned());
    let data: Vec<String> = base.get_data_dirs().iter().map(|p| p.to_string_lossy().into_owned()).collect();
    let dirs = collect_application_dirs(&a);
    assert_eq!(dirs, application_dirs(home, data.clone(), &a));
    assert!(dirs.contains(&"/opt/apps".to_string()));
    assert!(dirs.contains(&"/var/lib/snapd/desktop/applications".to_string()));
    assert!(dirs.len() >= 3 + data.len().min(1));
    for i in 1..dirs.len() {
        assert!(std::path::Path::new(&dirs[i - 1]) < std::path::Path::new(&dirs[i]));
    }
}

#[test]
fn directories_are_ordered_and_told_apart_as_paths() {
    let dirs = application_dirs(None, Vec::new(), &args(true, true, &["/a-b", "/a/b", "/a/./b", "/a-b/"]));
    assert_eq!(dirs, strings(&["/a/b", "/a-b"]));
    let dirs = application_dirs(
        None,
        strings(&["/usr/share/", "/usr/share"]),
        &args(false, true, &["/usr/share/applications/", "/opt/./apps", "/opt/apps"]),
    );
    assert_eq!(dirs, strings(&["/opt/./apps", "/usr/share/applications"]));
}
