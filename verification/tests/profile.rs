use gw::profile::{
    account_from_file, add, config_root, describe, get, list, load, profile_dir,
    profiles_dir, validate_account, validate_name, ConfigEnv, DirProbe, ListedEntry, Problem,
    MANAGEMENT_COMMAND,
};

fn env(xdg: Option<&str>, home: Option<&str>) -> ConfigEnv {
    ConfigEnv {
        xdg_config_home: xdg.map(|s| s.to_string()),
        home: home.map(|s| s.to_string()),
    }
}

fn sandbox() -> ConfigEnv {
    env(Some("/tmp/sb/config"), Some("/tmp/sb"))
}

#[test]
fn accepts_conservative_names() {
    for name in ["personal", "work", "a", "team-1", "team_1", "v0.1", "A9"] {
        assert!(validate_name(name).is_ok(), "{name} should be accepted");
    }
}

#[test]
fn rejects_unsafe_names() {
    for name in [
        "",
        ".",
        "..",
        "../escape",
        "a/b",
        "a\\b",
        "/etc/passwd",
        "-flag",
        ".hidden",
        "with space",
        "new\nline",
        "nul\0byte",
        "esc\u{1b}[0m",
        "café",
        "prof:ile",
    ] {
        assert!(validate_name(name).is_err(), "{name:?} should be rejected");
    }
    assert!(validate_name(&"a".repeat(65)).is_err());
}

#[test]
fn rejects_unsafe_accounts() {
    for account in ["", "no-at-sign", "a b@example.com", "a@example.com\nx"] {
        assert!(
            validate_account(account).is_err(),
            "{account:?} should be rejected"
        );
    }
    assert!(validate_account("user@example.com").is_ok());
}

#[test]
fn name_error_messages() {
    assert_eq!(
        validate_name("").unwrap_err(),
        "profile name must not be empty"
    );
    assert_eq!(
        validate_name(&"a".repeat(65)).unwrap_err(),
        "profile name must be at most 64 characters"
    );
    assert!(validate_name(&"a".repeat(64)).is_ok());
    assert_eq!(
        validate_name("a/b").unwrap_err(),
        "invalid profile name: \"a/b\""
    );
    assert_eq!(
        validate_name("-flag").unwrap_err(),
        "invalid profile name: \"-flag\""
    );
    assert_eq!(
        validate_name("new\nline").unwrap_err(),
        "invalid profile name: \"new\\nline\""
    );
}

#[test]
fn name_length_counts_bytes() {
    // 32 two-byte characters are 64 bytes: the length check passes, the
    // character check refuses them
    let wide = "é".repeat(32);
    assert_eq!(
        validate_name(&wide).unwrap_err(),
        format!("invalid profile name: {wide:?}")
    );
    let wider = "é".repeat(33);
    assert_eq!(
        validate_name(&wider).unwrap_err(),
        "profile name must be at most 64 characters"
    );
}

#[test]
fn account_error_messages() {
    assert_eq!(validate_account("").unwrap_err(), "account must not be empty");
    let long = format!("{}@example.com", "a".repeat(250));
    assert_eq!(
        validate_account(&long).unwrap_err(),
        "account must be at most 254 bytes"
    );
    assert_eq!(
        validate_account("a b@example.com").unwrap_err(),
        "invalid account: \"a b@example.com\""
    );
    assert_eq!(
        validate_account("no-at-sign").unwrap_err(),
        "account must be an email address: \"no-at-sign\""
    );
    assert_eq!(
        validate_account("x\u{a0}@example.com").unwrap_err(),
        "invalid account: \"x\\u{a0}@example.com\""
    );
}

#[test]
fn describe_formats_each_problem() {
    assert_eq!(
        describe(Problem::UnknownProfile, "\"work\""),
        "unknown profile: \"work\""
    );
    assert_eq!(
        describe(Problem::AlreadyExists, "\"x\""),
        "profile already exists: \"x\""
    );
    assert_eq!(
        describe(Problem::ReservedName, ""),
        "profile name \"profile\" is reserved for profile management"
    );
    assert_eq!(
        describe(Problem::HomeNotAbsolute, ""),
        "cannot locate config root: HOME is not absolute"
    );
}

#[test]
fn config_root_prefers_absolute_xdg() {
    assert_eq!(
        config_root(&env(Some("/x/cfg"), Some("/home/u"))).unwrap(),
        "/x/cfg/gw"
    );
    assert_eq!(config_root(&env(Some("/"), None)).unwrap(), "/gw");
    assert_eq!(
        config_root(&env(Some("relative"), Some("/home/u"))).unwrap(),
        "/home/u/.config/gw"
    );
    assert_eq!(
        config_root(&env(None, Some("/home/u/"))).unwrap(),
        "/home/u/.config/gw"
    );
}

#[test]
fn config_root_needs_an_absolute_home() {
    assert_eq!(
        config_root(&env(None, None)).unwrap_err(),
        "cannot locate config root: HOME is not set"
    );
    assert_eq!(
        config_root(&env(Some(""), Some(""))).unwrap_err(),
        "cannot locate config root: HOME is not set"
    );
    assert_eq!(
        config_root(&env(None, Some("home"))).unwrap_err(),
        "cannot locate config root: HOME is not absolute"
    );
}

#[test]
fn profile_dirs_are_direct_children() {
    let e = sandbox();
    assert_eq!(profiles_dir(&e).unwrap(), "/tmp/sb/config/gw/profiles");
    assert_eq!(
        profile_dir(&e, "personal").unwrap(),
        "/tmp/sb/config/gw/profiles/personal"
    );
    for name in ["..", ".", "../../etc", "/etc/passwd", "personal/../work", "personal\\work", ".hidden"] {
        let err = profile_dir(&e, name).unwrap_err();
        assert!(err.contains("invalid profile name"), "{name:?}: {err}");
    }
}

#[test]
fn account_file_is_sanitised() {
    assert_eq!(account_from_file("user@example.com\n"), "user@example.com");
    assert_eq!(account_from_file(""), "");
    assert_eq!(account_from_file("  padded@x  \r\nsecond\n"), "padded@x");
    assert_eq!(
        account_from_file("a\"b\\c\u{1b}[0m@example.com\nsecond line\n"),
        "a\"b\\c[0m@example.com"
    );
    assert_eq!(account_from_file("no newline\r"), "no newline");
    assert_eq!(account_from_file("\u{3000}wide\u{2003}"), "wide");
    assert_eq!(account_from_file("in\u{7}side"), "inside");
}

#[test]
fn load_builds_the_profile() {
    let p = load("work", "/p/work", "work@example.com\n");
    assert_eq!(p.name, "work");
    assert_eq!(p.account, "work@example.com");
    assert_eq!(p.gws_config_dir, "/p/work/gws");
}

#[test]
fn get_needs_an_existing_directory() {
    let e = sandbox();
    let err = get(&e, "work", &DirProbe::NotADirectory).err().unwrap();
    assert_eq!(err, "unknown profile: \"work\"");
    let found = get(
        &e,
        "work",
        &DirProbe::Directory { account_file: "w@example.com\n".to_string() },
    )
    .ok()
    .unwrap();
    assert_eq!(found.gws_config_dir, "/tmp/sb/config/gw/profiles/work/gws");
    assert_eq!(found.account, "w@example.com");
    let bad = get(&e, "../x", &DirProbe::NotADirectory).err().unwrap();
    assert_eq!(bad, "invalid profile name: \"../x\"");
}

fn entry(name: Option<&str>, is_dir: bool, account: &str) -> ListedEntry {
    ListedEntry {
        file_name: name.map(|s| s.to_string()),
        is_dir,
        account_file: account.to_string(),
    }
}

#[test]
fn list_keeps_valid_directories_sorted() {
    let entries = vec![
        entry(Some("work"), true, "work@example.com\n"),
        entry(Some("notes.txt"), false, ""),
        entry(Some(".hidden"), true, "h@example.com\n"),
        entry(None, true, "x@example.com\n"),
        entry(Some("personal"), true, "user@example.com\n"),
        entry(Some("Alpha"), true, ""),
    ];
    let found = list(&sandbox(), &entries).ok().unwrap();
    let names: Vec<&str> = found.iter().map(|p| p.name.as_str()).collect();
    assert_eq!(names, ["Alpha", "personal", "work"]);
    assert_eq!(found[1].account, "user@example.com");
    assert_eq!(found[2].gws_config_dir, "/tmp/sb/config/gw/profiles/work/gws");
    assert!(list(&sandbox(), &Vec::new()).ok().unwrap().is_empty());
    assert!(list(&env(None, None), &entries).is_err());
}

#[test]
fn reserved_management_name_is_refused() {
    let err = add(&sandbox(), MANAGEMENT_COMMAND, "user@example.com", false).err().unwrap();
    assert!(err.contains("reserved"));
}

#[test]
fn add_plans_the_private_layout() {
    let plan = add(&sandbox(), "personal", "user@example.com", false).ok().unwrap();
    assert_eq!(plan.dir, "/tmp/sb/config/gw/profiles/personal");
    assert_eq!(plan.gws_dir, "/tmp/sb/config/gw/profiles/personal/gws");
    assert_eq!(plan.account_path, "/tmp/sb/config/gw/profiles/personal/account");
    assert_eq!(plan.account_line, "user@example.com\n");
    // reading the written file back gives the same account
    let back = load("personal", &plan.dir, &plan.account_line);
    assert_eq!(back.account, "user@example.com");
    assert_eq!(back.gws_config_dir, plan.gws_dir);
}

#[test]
fn add_refuses_unsafe_input() {
    assert_eq!(
        add(&sandbox(), "../escape", "user@example.com", false).err().unwrap(),
        "invalid profile name: \"../escape\""
    );
    assert_eq!(
        add(&sandbox(), "personal", "not-an-email", true).err().unwrap(),
        "account must be an email address: \"not-an-email\""
    );
    // the account is checked before the name
    assert_eq!(
        add(&sandbox(), "../escape", "", true).err().unwrap(),
        "account must not be empty"
    );
}

#[test]
fn existing_profile_is_not_added_again() {
    assert_eq!(
        add(&sandbox(), "personal", "user@example.com", true).err().unwrap(),
        "profile already exists: \"personal\""
    );
    // the reserved name and a bad account are reported before existence
    assert!(add(&sandbox(), "profile", "user@example.com", true)
        .err()
        .unwrap()
        .contains("reserved"));
    assert_eq!(
        add(&env(None, None), "personal", "user@example.com", true).err().unwrap(),
        "cannot locate config root: HOME is not set"
    );
}

#[test]
fn two_profiles_resolve_to_different_dirs() {
    let e = sandbox();
    let a = profile_dir(&e, "personal").unwrap();
    let b = profile_dir(&e, "work").unwrap();
    assert_ne!(a, b);
    assert!(a.ends_with("profiles/personal"));
    assert!(b.ends_with("profiles/work"));
}

fn std_account(file: &str) -> String {
    file.lines()
        .next()
        .unwrap_or_default()
        .trim()
        .chars()
        .filter(|c| !c.is_control())
        .collect()
}

#[test]
fn account_sanitising_agrees_with_std_on_every_bmp_char() {
    for code in 0u32..0x1_0000 {
        let Some(c) = char::from_u32(code) else { continue };
        for file in [
            format!("{c}a{c}"),
            format!("a{c}b\n{c}"),
            format!("{c}\r\nz"),
        ] {
            assert_eq!(account_from_file(&file), std_account(&file), "{code:#x}");
        }
    }
}

#[test]
fn account_character_check_agrees_with_std() {
    for code in 0u32..0x1_0000 {
        let Some(c) = char::from_u32(code) else { continue };
        let account = format!("a{c}@x");
        let std_bad = c.is_control() || c.is_whitespace();
        assert_eq!(
            validate_account(&account).is_err(),
            std_bad,
            "{code:#x}"
        );
    }
}

fn byte_rule(name: &str) -> bool {
    !name.is_empty()
        && name.len() <= 64
        && !name.starts_with('-')
        && !name.starts_with('.')
        && name
            .bytes()
            .all(|b| b.is_ascii_alphanumeric() || matches!(b, b'.' | b'_' | b'-'))
}

#[test]
fn name_check_agrees_with_the_byte_rule() {
    let mut names: Vec<String> = Vec::new();
    for code in 0u32..0x800 {
        if let Some(c) = char::from_u32(code) {
            names.push(format!("{c}"));
            names.push(format!("a{c}"));
            names.push(format!("a{c}b"));
        }
    }
    names.push("x".repeat(64));
    names.push("x".repeat(65));
    for name in &names {
        assert_eq!(validate_name(name).is_ok(), byte_rule(name), "{name:?}");
    }
}
