use vstd::prelude::*;
use crate::text::{dashed, has_prefix, is_dashed, str_eq, strip_prefix};

verus! {

/// Which usage text follows an error message.
#[derive(Clone, Copy, Debug, PartialEq, Eq)]
pub enum Usage {
    /// None: the message stands alone.
    Bare,
    /// `usage: gw <profile> <gws arguments...>`.
    Main,
    /// The usage of the `profile` subcommands.
    Profile,
}

/// A refused command line: the message, and which usage to print after it.
pub struct CliError {
    pub message: String,
    pub usage: Usage,
}

pub struct CliErrorView {
    pub message: Seq<char>,
    pub usage: Usage,
}

impl View for CliError {
    type V = CliErrorView;

    open spec fn view(&self) -> CliErrorView {
        CliErrorView { message: self.message@, usage: self.usage }
    }
}

pub open spec fn cli_error(message: Seq<char>, usage: Usage) -> CliErrorView {
    CliErrorView { message, usage }
}

/// What the first argument asks for.
#[derive(Clone, Copy, Debug, PartialEq, Eq)]
pub enum Route {
    /// Print the help text.
    Help,
    /// Print the versions.
    Version,
    /// Manage profiles; the remaining arguments say how.
    Manage,
    /// Run the backend under the profile that the first argument names.
    Run,
}

/// What the first argument asks for. `first` is `None` when there is no
/// argument, `Some(None)` when it is not valid UTF-8.
pub open spec fn route_spec(first: Option<Option<Seq<char>>>) -> Result<Route, CliErrorView> {
    match first {
        None => Err(cli_error("profile required"@, Usage::Main)),
        Some(None) => Err(cli_error("invalid profile name: not valid UTF-8"@, Usage::Bare)),
        Some(Some(a)) => if a == "-h"@ || a == "--help"@ {
            Ok(Route::Help)
        } else if a == "-V"@ || a == "--version"@ {
            Ok(Route::Version)
        } else if a == crate::profile::MANAGEMENT_COMMAND@ {
            Ok(Route::Manage)
        } else if is_dashed(a) {
            Err(cli_error("unrecognized option: "@ + a, Usage::Main))
        } else {
            Ok(Route::Run)
        },
    }
}

pub open spec fn route_view(r: Result<Route, CliError>) -> Result<Route, CliErrorView> {
    match r {
        Ok(x) => Ok(x),
        Err(e) => Err(e@),
    }
}

pub open spec fn arg_view(first: Option<Option<&str>>) -> Option<Option<Seq<char>>> {
    match first {
        None => None,
        Some(None) => Some(None),
        Some(Some(a)) => Some(Some(a@)),
    }
}

/// Decides what the first argument asks for. There is no default profile: a
/// missing first argument is an error.
pub fn route(first: Option<Option<&str>>) -> (r: Result<Route, CliError>)
    ensures
        route_view(r) == route_spec(arg_view(first)),
{
    match first {
        None => Err(CliError { message: String::from_str("profile required"), usage: Usage::Main }),
        Some(None) => Err(
            CliError {
                message: String::from_str("invalid profile name: not valid UTF-8"),
                usage: Usage::Bare,
            },
        ),
        Some(Some(a)) => {
            if str_eq(a, "-h") || str_eq(a, "--help") {
                Ok(Route::Help)
            } else if str_eq(a, "-V") || str_eq(a, "--version") {
                Ok(Route::Version)
            } else if str_eq(a, crate::profile::MANAGEMENT_COMMAND) {
                Ok(Route::Manage)
            } else if dashed(a) {
                Err(
                    CliError {
                        message: String::from_str("unrecognized option: ").concat(a),
                        usage: Usage::Main,
                    },
                )
            } else {
                Ok(Route::Run)
            }
        },
    }
}

/// There is no default profile: the backend only runs when the first argument
/// names one, never when it is missing, is an option, or is the management command.
pub proof fn law_run_needs_explicit_profile(first: Option<Option<Seq<char>>>)
    requires
        route_spec(first) == Ok::<Route, CliErrorView>(Route::Run),
    ensures
        first matches Some(Some(name)) && !is_dashed(name) && name
            != crate::profile::MANAGEMENT_COMMAND@,
{
}

/// A `profile` subcommand.
#[derive(Clone, Copy, Debug, PartialEq, Eq)]
pub enum ProfileRoute {
    Add,
    List,
    Show,
    Help,
}

pub open spec fn route_profile_spec(sub: Option<Seq<char>>) -> Result<ProfileRoute, CliErrorView> {
    match sub {
        None => Err(cli_error("profile subcommand required"@, Usage::Profile)),
        Some(a) => if a == "add"@ {
            Ok(ProfileRoute::Add)
        } else if a == "list"@ {
            Ok(ProfileRoute::List)
        } else if a == "show"@ {
            Ok(ProfileRoute::Show)
        } else if a == "-h"@ || a == "--help"@ {
            Ok(ProfileRoute::Help)
        } else {
            Err(cli_error("unknown profile subcommand: "@ + a, Usage::Profile))
        },
    }
}

pub open spec fn profile_route_view(r: Result<ProfileRoute, CliError>) -> Result<
    ProfileRoute,
    CliErrorView,
> {
    match r {
        Ok(x) => Ok(x),
        Err(e) => Err(e@),
    }
}

pub open spec fn opt_view(o: Option<&str>) -> Option<Seq<char>> {
    match o {
        None => None,
        Some(a) => Some(a@),
    }
}

/// Decides which `profile` subcommand was asked for.
pub fn route_profile(sub: Option<&str>) -> (r: Result<ProfileRoute, CliError>)
    ensures
        profile_route_view(r) == route_profile_spec(opt_view(sub)),
{
    match sub {
        None => Err(
            CliError {
                message: String::from_str("profile subcommand required"),
                usage: Usage::Profile,
            },
        ),
        Some(a) => {
            if str_eq(a, "add") {
                Ok(ProfileRoute::Add)
            } else if str_eq(a, "list") {
                Ok(ProfileRoute::List)
            } else if str_eq(a, "show") {
                Ok(ProfileRoute::Show)
            } else if str_eq(a, "-h") || str_eq(a, "--help") {
                Ok(ProfileRoute::Help)
            } else {
                Err(
                    CliError {
                        message: String::from_str("unknown profile subcommand: ").concat(a),
                        usage: Usage::Profile,
                    },
                )
            }
        },
    }
}

/// The arguments seen as character sequences.
pub open spec fn args_view(args: Seq<String>) -> Seq<Seq<char>> {
    args.map_values(|a: String| a@)
}

/// Reads `profile add` arguments from `i` on, with the name and account found so far.
pub open spec fn scan_add(
    args: Seq<Seq<char>>,
    i: int,
    name: Option<Seq<char>>,
    account: Option<Seq<char>>,
) -> Result<(Option<Seq<char>>, Option<Seq<char>>), CliErrorView>
    decreases args.len() - i,
{
    if i < 0 || i >= args.len() {
        Ok((name, account))
    } else {
        let a = args[i];
        if has_prefix(a, "--account="@) {
            scan_add(args, i + 1, name, Some(a.skip(10)))
        } else if a == "--account"@ {
            if i + 1 < args.len() {
                scan_add(args, i + 2, name, Some(args[i + 1]))
            } else {
                Err(cli_error("--account requires a value"@, Usage::Bare))
            }
        } else if is_dashed(a) {
            Err(cli_error("unrecognized option: "@ + a, Usage::Profile))
        } else if name is None {
            scan_add(args, i + 1, Some(a), account)
        } else {
            Err(cli_error("unexpected argument: "@ + a, Usage::Profile))
        }
    }
}

/// The name and account that `profile add` arguments give.
pub open spec fn add_args_spec(args: Seq<Seq<char>>) -> Result<(Seq<char>, Seq<char>), CliErrorView> {
    match scan_add(args, 0, None, None) {
        Err(e) => Err(e),
        Ok((None, _)) => Err(cli_error("profile name required"@, Usage::Profile)),
        Ok((Some(_), None)) => Err(cli_error("--account required"@, Usage::Profile)),
        Ok((Some(n), Some(a))) => Ok((n, a)),
    }
}

pub open spec fn string_opt_view(o: Option<String>) -> Option<Seq<char>> {
    match o {
        None => None,
        Some(a) => Some(a@),
    }
}

pub open spec fn pair_view(r: Result<(String, String), CliError>) -> Result<
    (Seq<char>, Seq<char>),
    CliErrorView,
> {
    match r {
        Ok((a, b)) => Ok((a@, b@)),
        Err(e) => Err(e@),
    }
}

/// Reads `profile add <name> --account <email>` (or `--account=<email>`):
/// one name, an account, nothing else; a later `--account` wins.
pub fn parse_add_args(args: &Vec<String>) -> (r: Result<(String, String), CliError>)
    ensures
        pair_view(r) == add_args_spec(args_view(args@)),
{
    let ghost all = args_view(args@);
    let mut name: Option<String> = None;
    let mut account: Option<String> = None;
    let mut i: usize = 0;
    while i < args.len()
        invariant
            all == args_view(args@),
            i <= args@.len(),
            scan_add(all, 0, None, None) == scan_add(
                all,
                i as int,
                string_opt_view(name),
                string_opt_view(account),
            ),
        decreases args@.len() - i,
    {
        let a = args[i].as_str();
        assert(all[i as int] == a@);
        proof {
            reveal_strlit("--account=");
        }
        if let Some(value) = strip_prefix(a, "--account=") {
            account = Some(value);
            i = i + 1;
        } else if str_eq(a, "--account") {
            if i + 1 < args.len() {
                account = Some(args[i + 1].clone());
                assert(all[i + 1] == args@[i + 1]@);
                i = i + 2;
            } else {
                return Err(
                    CliError {
                        message: String::from_str("--account requires a value"),
                        usage: Usage::Bare,
                    },
                );
            }
        } else if dashed(a) {
            return Err(
                CliError {
                    message: String::from_str("unrecognized option: ").concat(a),
                    usage: Usage::Profile,
                },
            );
        } else if name.is_none() {
            name = Some(a.to_string());
            i = i + 1;
        } else {
            return Err(
                CliError {
                    message: String::from_str("unexpected argument: ").concat(a),
                    usage: Usage::Profile,
                },
            );
        }
    }
    match (name, account) {
        (None, _) => Err(
            CliError { message: String::from_str("profile name required"), usage: Usage::Profile },
        ),
        (Some(_), None) => Err(
            CliError { message: String::from_str("--account required"), usage: Usage::Profile },
        ),
        (Some(n), Some(a)) => Ok((n, a)),
    }
}

/// The first dashed argument from `i` on that is not `--json`, if any.
pub open spec fn first_bad_option(args: Seq<Seq<char>>, i: int) -> Option<Seq<char>>
    decreases args.len() - i,
{
    if i < 0 || i >= args.len() {
        None
    } else if is_dashed(args[i]) && args[i] != "--json"@ {
        Some(args[i])
    } else {
        first_bad_option(args, i + 1)
    }
}

/// Whether `--json` was given, or the first other option, refused.
pub open spec fn take_json_spec(args: Seq<Seq<char>>, subcommand: Seq<char>) -> Result<
    bool,
    CliErrorView,
> {
    match first_bad_option(args, 0) {
        Some(bad) => Err(
            cli_error(
                "unrecognized option for profile "@ + subcommand + ": "@ + bad,
                Usage::Profile,
            ),
        ),
        None => Ok(args.contains("--json"@)),
    }
}

pub open spec fn flag_view(r: Result<bool, CliError>) -> Result<bool, CliErrorView> {
    match r {
        Ok(b) => Ok(b),
        Err(e) => Err(e@),
    }
}

/// Reads the options of `profile list` or `profile show`: `--json` is the only one.
pub fn take_json(args: &Vec<String>, subcommand: &str) -> (r: Result<bool, CliError>)
    ensures
        flag_view(r) == take_json_spec(args_view(args@), subcommand@),
{
    let ghost all = args_view(args@);
    let mut json = false;
    let mut i: usize = 0;
    while i < args.len()
        invariant
            all == args_view(args@),
            i <= args@.len(),
            first_bad_option(all, 0) == first_bad_option(all, i as int),
            json == all.take(i as int).contains("--json"@),
        decreases args@.len() - i,
    {
        let a = args[i].as_str();
        assert(all[i as int] == a@);
        proof {
            assert(all.take(i + 1) =~= all.take(i as int).push(a@));
            reveal_strlit("--json");
            if a@ == "--json"@ {
                assert(all.take(i + 1)[i as int] == a@);
            } else {
                if all.take(i + 1).contains("--json"@) {
                    let k = choose|k: int| 0 <= k < i + 1 && #[trigger] all.take(i + 1)[k] == "--json"@;
                    assert(all.take(i as int)[k] == "--json"@);
                }
                if all.take(i as int).contains("--json"@) {
                    let k = choose|k: int| 0 <= k < i && #[trigger] all.take(i as int)[k] == "--json"@;
                    assert(all.take(i + 1)[k] == "--json"@);
                }
            }
        }
        if dashed(a) {
            if str_eq(a, "--json") {
                json = true;
            } else {
                let msg = String::from_str("unrecognized option for profile ").concat(
                    subcommand,
                ).concat(": ").concat(a);
                return Err(CliError { message: msg, usage: Usage::Profile });
            }
        }
        i = i + 1;
    }
    proof {
        assert(all.take(i as int) =~= all);
    }
    Ok(json)
}

/// The first argument that is not an option, if any.
pub open spec fn first_positional(args: Seq<Seq<char>>, i: int) -> Option<Seq<char>>
    decreases args.len() - i,
{
    if i < 0 || i >= args.len() {
        None
    } else if !is_dashed(args[i]) {
        Some(args[i])
    } else {
        first_positional(args, i + 1)
    }
}

/// `profile list [--json]`: whether JSON was asked for.
pub open spec fn list_args_spec(args: Seq<Seq<char>>) -> Result<bool, CliErrorView> {
    match take_json_spec(args, "list"@) {
        Err(e) => Err(e),
        Ok(json) => match first_positional(args, 0) {
            Some(extra) => Err(cli_error("unexpected argument: "@ + extra, Usage::Profile)),
            None => Ok(json),
        },
    }
}

/// Reads the arguments of `profile list`.
pub fn parse_list_args(args: &Vec<String>) -> (r: Result<bool, CliError>)
    ensures
        flag_view(r) == list_args_spec(args_view(args@)),
{
    let json = take_json(args, "list")?;
    let ghost all = args_view(args@);
    let mut i: usize = 0;
    while i < args.len()
        invariant
            all == args_view(args@),
            i <= args@.len(),
            first_positional(all, 0) == first_positional(all, i as int),
            take_json_spec(all, "list"@) == Ok::<bool, CliErrorView>(json),
        decreases args@.len() - i,
    {
        let a = args[i].as_str();
        assert(all[i as int] == a@);
        if !dashed(a) {
            return Err(
                CliError {
                    message: String::from_str("unexpected argument: ").concat(a),
                    usage: Usage::Profile,
                },
            );
        }
        i = i + 1;
    }
    Ok(json)
}

/// `profile show <name> [--json]`: exactly one name, and whether JSON was asked for.
pub open spec fn show_args_spec(args: Seq<Seq<char>>) -> Result<(Seq<char>, bool), CliErrorView> {
    let positional = args.filter(|a: Seq<char>| !is_dashed(a));
    if positional.len() != 1 {
        Err(cli_error("profile name required"@, Usage::Profile))
    } else {
        match take_json_spec(args, "show"@) {
            Err(e) => Err(e),
            Ok(json) => Ok((positional[0], json)),
        }
    }
}

pub open spec fn show_view(r: Result<(String, bool), CliError>) -> Result<
    (Seq<char>, bool),
    CliErrorView,
> {
    match r {
        Ok((a, b)) => Ok((a@, b)),
        Err(e) => Err(e@),
    }
}

/// Reads the arguments of `profile show`.
pub fn parse_show_args(args: &Vec<String>) -> (r: Result<(String, bool), CliError>)
    ensures
        show_view(r) == show_args_spec(args_view(args@)),
{
    let ghost all = args_view(args@);
    let mut count: usize = 0;
    let mut found: Option<String> = None;
    let mut i: usize = 0;
    while i < args.len()
        invariant
            all == args_view(args@),
            i <= args@.len(),
            count == all.take(i as int).filter(|a: Seq<char>| !is_dashed(a)).len(),
            count <= i,
            count >= 1 ==> found is Some && found->0@ == all.take(i as int).filter(
                |a: Seq<char>| !is_dashed(a),
            )[0],
        decreases args@.len() - i,
    {
        let a = args[i].as_str();
        assert(all[i as int] == a@);
        proof {
            assert(all.take(i + 1) =~= all.take(i as int).push(a@));
            all.take(i as int).lemma_filter_push(a@, |a: Seq<char>| !is_dashed(a));
        }
        if !dashed(a) {
            if count == 0 {
                found = Some(a.to_string());
            }
            count = count + 1;
        }
        i = i + 1;
    }
    proof {
        assert(all.take(i as int) =~= all);
    }
    if count != 1 {
        return Err(
            CliError { message: String::from_str("profile name required"), usage: Usage::Profile },
        );
    }
    let json = take_json(args, "show")?;
    match found {
        Some(name) => Ok((name, json)),
        None => Err(
            CliError { message: String::from_str("profile name required"), usage: Usage::Profile },
        ),
    }
}

/// The variable that points the backend at a profile's configuration.
pub const CONFIG_DIR_VAR: &'static str = "GOOGLE_WORKSPACE_CLI_CONFIG_DIR";

/// The identity-bearing backend variables that never pass from the ambient
/// environment to the child.
pub open spec fn isolated_env() -> Seq<Seq<char>> {
    seq![
        CONFIG_DIR_VAR@,
        "GOOGLE_WORKSPACE_CLI_CREDENTIALS_FILE"@,
        "GOOGLE_WORKSPACE_CLI_TOKEN"@,
        "GOOGLE_WORKSPACE_CLI_CLIENT_ID"@,
        "GOOGLE_WORKSPACE_CLI_CLIENT_SECRET"@,
        "GOOGLE_WORKSPACE_CLI_KEYRING_BACKEND"@,
    ]
}

/// How the child's environment differs from ours: the variables to remove,
/// then the one variable to set.
pub struct ChildEnv {
    pub removed: Vec<String>,
    pub set_name: String,
    pub set_value: String,
}

/// The environment changes for running the backend under `profile`: every
/// identity-bearing variable removed, and only the configuration directory set.
pub fn child_env(profile: &crate::profile::Profile) -> (env: ChildEnv)
    ensures
        args_view(env.removed@) == isolated_env(),
        env.set_name@ == CONFIG_DIR_VAR@,
        env.set_value@ == profile.gws_config_dir@,
{
    let mut removed: Vec<String> = Vec::new();
    removed.push(String::from_str(CONFIG_DIR_VAR));
    removed.push(String::from_str("GOOGLE_WORKSPACE_CLI_CREDENTIALS_FILE"));
    removed.push(String::from_str("GOOGLE_WORKSPACE_CLI_TOKEN"));
    removed.push(String::from_str("GOOGLE_WORKSPACE_CLI_CLIENT_ID"));
    removed.push(String::from_str("GOOGLE_WORKSPACE_CLI_CLIENT_SECRET"));
    removed.push(String::from_str("GOOGLE_WORKSPACE_CLI_KEYRING_BACKEND"));
    proof {
        assert(args_view(removed@) =~= isolated_env());
    }
    ChildEnv {
        removed,
        set_name: String::from_str(CONFIG_DIR_VAR),
        set_value: profile.gws_config_dir.clone(),
    }
}

/// Both spellings of help, and nothing else, ask for help; `--version` and
/// `-V`, and nothing else, for the versions; `profile`, and nothing else, for
/// profile management.
pub proof fn law_route_words(a: Seq<char>)
    ensures
        route_spec(Some(Some(a))) == Ok::<Route, CliErrorView>(Route::Help) <==> (a == "-h"@ || a
            == "--help"@),
        route_spec(Some(Some(a))) == Ok::<Route, CliErrorView>(Route::Version) <==> (a == "-V"@
            || a == "--version"@),
        route_spec(Some(Some(a))) == Ok::<Route, CliErrorView>(Route::Manage) <==> a
            == crate::profile::MANAGEMENT_COMMAND@,
        route_spec(Some(Some(a))) is Err <==> (is_dashed(a) && a != "-h"@ && a != "--help"@ && a
            != "-V"@ && a != "--version"@),
{
    reveal_strlit("-h");
    reveal_strlit("--help");
    reveal_strlit("-V");
    reveal_strlit("--version");
    reveal_strlit("profile");
    if a == crate::profile::MANAGEMENT_COMMAND@ {
        assert(a[0] == 'p');
    }
    if a == "-V"@ {
        assert(a[1] == 'V');
        assert("-h"@[1] == 'h');
    }
    if a == "--version"@ {
        assert(a.len() == 9);
    }
}

/// Each `profile` subcommand word routes to its own subcommand, and exactly
/// `-h` and `--help` route to help; any other word is refused.
pub proof fn law_route_profile_words(a: Seq<char>)
    ensures
        route_profile_spec(Some(a)) == Ok::<ProfileRoute, CliErrorView>(ProfileRoute::Help) <==> (a
            == "-h"@ || a == "--help"@),
        route_profile_spec(Some(a)) == Ok::<ProfileRoute, CliErrorView>(ProfileRoute::Add) <==> a
            == "add"@,
        route_profile_spec(Some(a)) == Ok::<ProfileRoute, CliErrorView>(ProfileRoute::List) <==> a
            == "list"@,
        route_profile_spec(Some(a)) == Ok::<ProfileRoute, CliErrorView>(ProfileRoute::Show) <==> a
            == "show"@,
        route_profile_spec(Some(a)) is Err <==> (a != "add"@ && a != "list"@ && a != "show"@ && a
            != "-h"@ && a != "--help"@),
        route_profile_spec(None) is Err,
{
    reveal_strlit("-h");
    reveal_strlit("--help");
    reveal_strlit("add");
    reveal_strlit("list");
    reveal_strlit("show");
    if a == "add"@ || a == "list"@ || a == "show"@ {
        assert(a[0] != '-');
        assert("-h"@[0] == '-');
        assert("--help"@[0] == '-');
    }
}

/// `--json` may stand anywhere: with no other option present, JSON is asked
/// for exactly when some argument is `--json`; any other option is refused,
/// whatever its position.
pub proof fn law_take_json_anywhere(args: Seq<Seq<char>>, subcommand: Seq<char>)
    ensures
        take_json_spec(args, subcommand) is Ok <==> forall|i: int|
            0 <= i < args.len() && is_dashed(#[trigger] args[i]) ==> args[i] == "--json"@,
        take_json_spec(args, subcommand) is Ok ==> (take_json_spec(args, subcommand)->Ok_0
            <==> exists|i: int| 0 <= i < args.len() && #[trigger] args[i] == "--json"@),
{
    lemma_first_bad_option(args, 0);
    if first_bad_option(args, 0) is None {
        if exists|i: int| 0 <= i < args.len() && #[trigger] args[i] == "--json"@ {
            let i = choose|i: int| 0 <= i < args.len() && #[trigger] args[i] == "--json"@;
            assert(args.contains("--json"@));
        }
    }
}

proof fn lemma_first_bad_option(args: Seq<Seq<char>>, i: int)
    requires
        0 <= i <= args.len(),
    ensures
        first_bad_option(args, i) is None <==> forall|j: int|
            i <= j < args.len() && is_dashed(#[trigger] args[j]) ==> args[j] == "--json"@,
    decreases args.len() - i,
{
    if i < args.len() {
        lemma_first_bad_option(args, i + 1);
    }
}

/// `profile show` asks for JSON exactly when `--json` is among its arguments,
/// before or after the name.
pub proof fn law_show_json_anywhere(args: Seq<Seq<char>>)
    ensures
        show_args_spec(args) is Ok ==> (show_args_spec(args)->Ok_0.1 <==> exists|i: int|
            0 <= i < args.len() && #[trigger] args[i] == "--json"@),
{
    law_take_json_anywhere(args, "show"@);
}

/// The forms of `profile add` agree: for any name that is not an option and
/// any account, `<name> --account <a>`, `--account <a> <name>` and
/// `<name> --account=<a>` all give that name and account.
pub proof fn law_add_argument_forms(name: Seq<char>, account: Seq<char>)
    requires
        !is_dashed(name),
    ensures
        add_args_spec(seq![name, "--account"@, account]) == Ok::<
            (Seq<char>, Seq<char>),
            CliErrorView,
        >((name, account)),
        add_args_spec(seq!["--account"@, account, name]) == Ok::<
            (Seq<char>, Seq<char>),
            CliErrorView,
        >((name, account)),
        add_args_spec(seq![name, "--account="@ + account]) == Ok::<
            (Seq<char>, Seq<char>),
            CliErrorView,
        >((name, account)),
{
    reveal_strlit("--account");
    reveal_strlit("--account=");
    assert(!has_prefix(name, "--account="@)) by {
        if has_prefix(name, "--account="@) {
            assert(name.take(10)[0] == name[0]);
        }
    }
    assert(name != "--account"@);
    assert(!has_prefix("--account"@, "--account="@));
    let eq = "--account="@ + account;
    assert(eq.take(10) =~= "--account="@);
    assert(eq.skip(10) =~= account);
    let s1 = seq![name, "--account"@, account];
    assert(scan_add(s1, 3, Some(name), Some(account)) == Ok::<
        (Option<Seq<char>>, Option<Seq<char>>),
        CliErrorView,
    >((Some(name), Some(account))));
    assert(scan_add(s1, 1, Some(name), None) == scan_add(s1, 3, Some(name), Some(account)));
    let s2 = seq!["--account"@, account, name];
    assert(scan_add(s2, 2, None, Some(account)) == scan_add(s2, 3, Some(name), Some(account)));
    let s3 = seq![name, eq];
    assert(scan_add(s3, 1, Some(name), None) == scan_add(s3, 2, Some(name), Some(account)));
}

proof fn lemma_first_positional(args: Seq<Seq<char>>, i: int)
    requires
        0 <= i <= args.len(),
    ensures
        first_positional(args, i) is None <==> forall|j: int|
            i <= j < args.len() ==> is_dashed(#[trigger] args[j]),
    decreases args.len() - i,
{
    if i < args.len() {
        lemma_first_positional(args, i + 1);
    }
}

/// `profile list` takes no name: it is refused whenever some argument is not
/// an option.
pub proof fn law_list_takes_no_name(args: Seq<Seq<char>>)
    ensures
        list_args_spec(args) is Ok ==> forall|i: int|
            0 <= i < args.len() ==> is_dashed(#[trigger] args[i]),
{
    lemma_first_positional(args, 0);
}

/// `profile show` takes exactly one name: it succeeds only when exactly one
/// argument is not an option, and that argument is the name it returns.
pub proof fn law_show_takes_one_name(args: Seq<Seq<char>>)
    ensures
        show_args_spec(args) is Ok ==> {
            let positional = args.filter(|a: Seq<char>| !is_dashed(a));
            &&& positional.len() == 1
            &&& args.contains(show_args_spec(args)->Ok_0.0)
            &&& !is_dashed(show_args_spec(args)->Ok_0.0)
        },
{
    let positional = args.filter(|a: Seq<char>| !is_dashed(a));
    if show_args_spec(args) is Ok {
        args.lemma_filter_pred(|a: Seq<char>| !is_dashed(a), 0);
        assert(positional.contains(positional[0]));
        args.lemma_filter_contains_rev(|a: Seq<char>| !is_dashed(a), positional[0]);
    }
}

} // verus!
