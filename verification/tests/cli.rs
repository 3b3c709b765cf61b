use gw::cli::{
    child_env, parse_add_args, parse_list_args, parse_show_args, route, route_profile, take_json,
    ProfileRoute, Route, Usage, CONFIG_DIR_VAR,
};
use gw::output::{as_json, render_added, render_list, render_show};
use gw::profile::Profile;

fn args(v: &[&str]) -> Vec<String> {
    v.iter().map(|s| s.to_string()).collect()
}

fn profile(name: &str, account: &str, dir: &str) -> Profile {
    Profile {
        name: name.to_string(),
        account: account.to_string(),
        gws_config_dir: dir.to_string(),
    }
}

#[test]
fn missing_profile_is_an_error() {
    let err = route(None).err().unwrap();
    assert_eq!(err.message, "profile required");
    assert_eq!(err.usage, Usage::Main);
}

#[test]
fn first_argument_routes() {
    assert_eq!(route(Some(Some("-h"))).ok(), Some(Route::Help));
    assert_eq!(route(Some(Some("--help"))).ok(), Some(Route::Help));
    assert_eq!(route(Some(Some("-V"))).ok(), Some(Route::Version));
    assert_eq!(route(Some(Some("--version"))).ok(), Some(Route::Version));
    assert_eq!(route(Some(Some("profile"))).ok(), Some(Route::Manage));
    assert_eq!(route(Some(Some("personal"))).ok(), Some(Route::Run));
    assert_eq!(route(Some(Some(".."))).ok(), Some(Route::Run));
    let err = route(Some(Some("-x"))).err().unwrap();
    assert_eq!(err.message, "unrecognized option: -x");
    assert_eq!(err.usage, Usage::Main);
    let err = route(Some(None)).err().unwrap();
    assert_eq!(err.message, "invalid profile name: not valid UTF-8");
    assert_eq!(err.usage, Usage::Bare);
}

#[test]
fn profile_subcommands_route() {
    assert_eq!(route_profile(Some("add")).ok(), Some(ProfileRoute::Add));
    assert_eq!(route_profile(Some("list")).ok(), Some(ProfileRoute::List));
    assert_eq!(route_profile(Some("show")).ok(), Some(ProfileRoute::Show));
    assert_eq!(route_profile(Some("--help")).ok(), Some(ProfileRoute::Help));
    let err = route_profile(Some("remove")).err().unwrap();
    assert_eq!(err.message, "unknown profile subcommand: remove");
    assert_eq!(err.usage, Usage::Profile);
    assert_eq!(
        route_profile(None).err().unwrap().message,
        "profile subcommand required"
    );
}

#[test]
fn add_arguments() {
    let (n, a) = parse_add_args(&args(&["personal", "--account", "u@x"])).ok().unwrap();
    assert_eq!((n.as_str(), a.as_str()), ("personal", "u@x"));
    let (n, a) = parse_add_args(&args(&["--account=u@x", "work"])).ok().unwrap();
    assert_eq!((n.as_str(), a.as_str()), ("work", "u@x"));
    let (_, a) = parse_add_args(&args(&["w", "--account=a@x", "--account", "b@x"])).ok().unwrap();
    assert_eq!(a, "b@x");
    let e = parse_add_args(&args(&["personal"])).err().unwrap();
    assert_eq!((e.message.as_str(), e.usage), ("--account required", Usage::Profile));
    let e = parse_add_args(&args(&["--account", "u@x"])).err().unwrap();
    assert_eq!((e.message.as_str(), e.usage), ("profile name required", Usage::Profile));
    let e = parse_add_args(&args(&["p", "--account"])).err().unwrap();
    assert_eq!((e.message.as_str(), e.usage), ("--account requires a value", Usage::Bare));
    let e = parse_add_args(&args(&["p", "q"])).err().unwrap();
    assert_eq!(e.message, "unexpected argument: q");
    let e = parse_add_args(&args(&["p", "--force"])).err().unwrap();
    assert_eq!(e.message, "unrecognized option: --force");
    // a dashed value after --account is taken as the value
    let (_, a) = parse_add_args(&args(&["p", "--account", "-odd"])).ok().unwrap();
    assert_eq!(a, "-odd");
}

#[test]
fn json_flag() {
    assert_eq!(take_json(&args(&[]), "list").ok(), Some(false));
    assert_eq!(take_json(&args(&["--json"]), "list").ok(), Some(true));
    assert_eq!(take_json(&args(&["x", "--json"]), "show").ok(), Some(true));
    let e = take_json(&args(&["--yaml"]), "show").err().unwrap();
    assert_eq!(e.message, "unrecognized option for profile show: --yaml");
}

#[test]
fn list_and_show_arguments() {
    assert_eq!(parse_list_args(&args(&["--json"])).ok(), Some(true));
    let e = parse_list_args(&args(&["extra"])).err().unwrap();
    assert_eq!(e.message, "unexpected argument: extra");
    let e = parse_list_args(&args(&["extra", "--bad"])).err().unwrap();
    assert_eq!(e.message, "unrecognized option for profile list: --bad");
    let (n, j) = parse_show_args(&args(&["personal", "--json"])).ok().unwrap();
    assert_eq!((n.as_str(), j), ("personal", true));
    let e = parse_show_args(&args(&[])).err().unwrap();
    assert_eq!(e.message, "profile name required");
    let e = parse_show_args(&args(&["a", "b"])).err().unwrap();
    assert_eq!(e.message, "profile name required");
    let e = parse_show_args(&args(&["a", "--bad"])).err().unwrap();
    assert_eq!(e.message, "unrecognized option for profile show: --bad");
}

#[test]
fn show_json_holds_only_metadata() {
    let p = profile("personal", "user@example.com", "/c/gw/profiles/personal/gws");
    assert_eq!(
        as_json(&p),
        "{\"name\":\"personal\",\"account\":\"user@example.com\",\"gws_config_dir\":\"/c/gw/profiles/personal/gws\"}"
    );
    assert_eq!(render_show(&p, true), format!("{}\n", as_json(&p)));
    assert_eq!(
        render_show(&p, false),
        "name     personal\naccount  user@example.com\ngws-dir  /c/gw/profiles/personal/gws\n"
    );
}

#[test]
fn hostile_account_is_escaped_in_json() {
    let p = profile("personal", "a\"b\\c[0m@example.com", "/d");
    assert!(as_json(&p).contains("\"account\":\"a\\\"b\\\\c[0m@example.com\""));
}

#[test]
fn list_rendering() {
    let ps = vec![
        profile("personal", "user@example.com", "/p/gws"),
        profile("work", "work@example.com", "/w/gws"),
    ];
    assert_eq!(
        render_list(&ps, false),
        "personal  user@example.com\nwork      work@example.com\n"
    );
    assert_eq!(
        render_list(&ps, true),
        "{\"profiles\":[{\"name\":\"personal\",\"account\":\"user@example.com\",\"gws_config_dir\":\"/p/gws\"},{\"name\":\"work\",\"account\":\"work@example.com\",\"gws_config_dir\":\"/w/gws\"}]}\n"
    );
}

#[test]
fn empty_list_rendering() {
    assert_eq!(render_list(&Vec::new(), false), "");
    assert_eq!(render_list(&Vec::new(), true), "{\"profiles\":[]}\n");
}

#[test]
fn added_message() {
    let p = profile("personal", "user@example.com", "/p/gws");
    assert_eq!(
        render_added(&p),
        "added profile personal (user@example.com)\nrun: gw personal auth login   # to authenticate this profile\n"
    );
}

#[test]
fn child_environment_is_isolated() {
    let p = profile("personal", "user@example.com", "/p/gws");
    let env = child_env(&p);
    assert_eq!(
        env.removed,
        [
            "GOOGLE_WORKSPACE_CLI_CONFIG_DIR",
            "GOOGLE_WORKSPACE_CLI_CREDENTIALS_FILE",
            "GOOGLE_WORKSPACE_CLI_TOKEN",
            "GOOGLE_WORKSPACE_CLI_CLIENT_ID",
            "GOOGLE_WORKSPACE_CLI_CLIENT_SECRET",
            "GOOGLE_WORKSPACE_CLI_KEYRING_BACKEND",
        ]
    );
    assert_eq!(env.set_name, CONFIG_DIR_VAR);
    assert_eq!(env.set_value, "/p/gws");
}
