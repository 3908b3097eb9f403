use desktop_scout::desktop::{
    extract_executable_from_tokens, parse_bool, parse_desktop_entry_section,
};

fn strings(items: &[&str]) -> Vec<String> {
    items.iter().map(|s| s.to_string()).collect()
}

#[test]
fn parses_keys_of_the_desktop_entry_section() {
    let kv = parse_desktop_entry_section(
        "# comment\n[Other]\nExec=no\n[Desktop Entry]\nName = My App \nExec=myapp --flag %f\r\n;x\nName=Second\n\n[Desktop Action new]\nExec=never\n",
    );
    assert_eq!(kv.len(), 2);
    assert_eq!(kv.get("Name"), Some(&"Second".to_string()));
    assert_eq!(kv.get("Exec"), Some(&"myapp --flag %f".to_string()));
    assert_eq!(kv.get("exec"), None);
}

#[test]
fn extracts_the_command_behind_env() {
    assert_eq!(
        extract_executable_from_tokens(&strings(&["env", "FOO=1", "-i", "myapp", "--flag"])),
        Some("myapp".to_string())
    );
    assert_eq!(
        extract_executable_from_tokens(&strings(&["myapp", "arg"])),
        Some("myapp".to_string())
    );
    assert_eq!(extract_executable_from_tokens(&[]), None);
    assert_eq!(extract_executable_from_tokens(&strings(&["env", "A=b"])), None);
}

#[test]
fn reads_booleans() {
    assert!(parse_bool(Some(&"TRUE".to_string())));
    assert!(!parse_bool(Some(&" true ".to_string())));
    assert!(parse_bool(Some(&"1".to_string())));
    assert!(parse_bool(Some(&"Yes".to_string())));
    assert!(!parse_bool(Some(&"on".to_string())));
    assert!(!parse_bool(None));
}

#[test]
fn whitespace_matches_the_standard_library() {
    let mut c: u32 = 0;
    while c <= 0x10FFFF {
        if let Some(ch) = char::from_u32(c) {
            assert_eq!(desktop_scout::text::is_whitespace_char(ch), ch.is_whitespace());
            assert_eq!(desktop_scout::text::ascii_lower_char(ch), ch.to_ascii_lowercase());
        }
        c += 1;
    }
}

#[test]
fn lines_outside_the_section_are_ignored() {
    let kv = parse_desktop_entry_section("Exec=early\n[Desktop Action a]\nExec=action\n");
    assert_eq!(kv.len(), 0);
    let kv = parse_desktop_entry_section("");
    assert_eq!(kv.len(), 0);
    let kv = parse_desktop_entry_section("[desktop entry]\nExec=x\n");
    assert_eq!(kv.len(), 0);
}

#[test]
fn the_section_ends_at_the_next_header() {
    let kv = parse_desktop_entry_section("[Desktop Entry]\nA=1\n[X]\nB=2\n[Desktop Entry]\nC=3\nA=4\n");
    assert_eq!(kv.len(), 1);
    assert_eq!(kv.get("A"), Some(&"1".to_string()));
    assert_eq!(kv.get("B"), None);
    assert_eq!(kv.get("C"), None);
}

#[test]
fn header_may_be_surrounded_by_whitespace() {
    let kv = parse_desktop_entry_section("  [Desktop Entry]\t\r\nExec=x\r\n");
    assert_eq!(kv.get("Exec"), Some(&"x".to_string()));
}

#[test]
fn key_and_value_split_at_the_first_equals_sign() {
    let kv = parse_desktop_entry_section("[Desktop Entry]\nExec = env A=1 app \n=v\nK=\nnoequals\n [x\n");
    assert_eq!(kv.len(), 3);
    assert_eq!(kv.get("Exec"), Some(&"env A=1 app".to_string()));
    assert_eq!(kv.get(""), Some(&"v".to_string()));
    assert_eq!(kv.get("K"), Some(&String::new()));
}

#[test]
fn comments_and_blank_lines_carry_nothing() {
    let kv = parse_desktop_entry_section("[Desktop Entry]\n#A=1\n ;B=2\n\n   \nC=3 # kept\n");
    assert_eq!(kv.len(), 1);
    assert_eq!(kv.get("C"), Some(&"3 # kept".to_string()));
}

#[test]
fn a_later_line_wins() {
    let kv = parse_desktop_entry_section("[Desktop Entry]\nName=a\nname=b\nName=c\n");
    assert_eq!(kv.len(), 2);
    assert_eq!(kv.get("Name"), Some(&"c".to_string()));
    assert_eq!(kv.get("name"), Some(&"b".to_string()));
}

#[test]
fn a_last_line_without_line_feed_counts() {
    let kv = parse_desktop_entry_section("[Desktop Entry]\nExec=x");
    assert_eq!(kv.get("Exec"), Some(&"x".to_string()));
    let kv = parse_desktop_entry_section("[Desktop Entry]");
    assert_eq!(kv.len(), 0);
}

#[test]
fn booleans_accept_three_words_only() {
    for v in ["true", "True", "TRUE", "1", "yes", "YES", "yEs", "tRuE"] {
        assert!(parse_bool(Some(&v.to_string())), "{:?}", v);
    }
    for v in [
        "", "false", "0", "no", "y", "t", "on", "true1", "tr ue", "1.0", "ｔrue", " true ", " TRUE ",
        "  yes\t", "1 ", " 1", "yes\n", "\ttrue",
    ] {
        assert!(!parse_bool(Some(&v.to_string())), "{:?}", v);
    }
}

#[test]
fn env_arguments_are_options_and_assignments() {
    let at = desktop_scout::desktop::executable_position;
    assert_eq!(at(&strings(&["env", "-u", "X", "app"])), 2);
    assert_eq!(at(&strings(&["env", "A=1", "--", "B=2", "app"])), 4);
    assert_eq!(at(&strings(&["env"])), 1);
    assert_eq!(at(&strings(&["Env", "A=1", "app"])), 0);
    assert_eq!(at(&strings(&["-x", "env"])), 0);
    assert_eq!(at(&[]), 0);
    assert_eq!(
        extract_executable_from_tokens(&strings(&["env", "-u", "X", "app"])),
        Some("X".to_string())
    );
    assert_eq!(
        extract_executable_from_tokens(&strings(&["env", "env", "app"])),
        Some("env".to_string())
    );
}
