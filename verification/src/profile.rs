use vstd::prelude::*;
use vstd::utf8::encode_utf8;
use crate::text::{
    chars_of, control, debug_quoted, debug_str, is_control, is_whitespace, whitespace,
};

verus! {

broadcast use vstd::seq_lib::group_seq_properties;

/// The first argument that selects profile management instead of a profile.
pub const MANAGEMENT_COMMAND: &'static str = "profile";

/// Longest accepted profile name, in bytes.
pub const MAX_NAME_LEN: usize = 64;

/// Longest accepted account, in bytes.
pub const MAX_ACCOUNT_LEN: usize = 254;

/// Why a request about profiles was refused.
#[derive(Clone, Copy, Debug, PartialEq, Eq)]
pub enum Problem {
    EmptyName,
    NameTooLong,
    InvalidName,
    EmptyAccount,
    AccountTooLong,
    InvalidAccount,
    AccountNotEmail,
    ReservedName,
    UnknownProfile,
    AlreadyExists,
    HomeNotSet,
    HomeNotAbsolute,
}

/// The message for a problem; `quoted` is the offending value as `{:?}` renders it.
pub open spec fn problem_message(p: Problem, quoted: Seq<char>) -> Seq<char> {
    match p {
        Problem::EmptyName => "profile name must not be empty"@,
        Problem::NameTooLong => "profile name must be at most 64 characters"@,
        Problem::InvalidName => "invalid profile name: "@ + quoted,
        Problem::EmptyAccount => "account must not be empty"@,
        Problem::AccountTooLong => "account must be at most 254 bytes"@,
        Problem::InvalidAccount => "invalid account: "@ + quoted,
        Problem::AccountNotEmail => "account must be an email address: "@ + quoted,
        Problem::ReservedName => "profile name \"profile\" is reserved for profile management"@,
        Problem::UnknownProfile => "unknown profile: "@ + quoted,
        Problem::AlreadyExists => "profile already exists: "@ + quoted,
        Problem::HomeNotSet => "cannot locate config root: HOME is not set"@,
        Problem::HomeNotAbsolute => "cannot locate config root: HOME is not absolute"@,
    }
}

/// The message for `p` about a value whose `{:?}` rendering is `quoted`.
pub fn describe(p: Problem, quoted: &str) -> (m: String)
    ensures
        m@ == problem_message(p, quoted@),
{
    match p {
        Problem::EmptyName => String::from_str("profile name must not be empty"),
        Problem::NameTooLong => String::from_str("profile name must be at most 64 characters"),
        Problem::InvalidName => String::from_str("invalid profile name: ").concat(quoted),
        Problem::EmptyAccount => String::from_str("account must not be empty"),
        Problem::AccountTooLong => String::from_str("account must be at most 254 bytes"),
        Problem::InvalidAccount => String::from_str("invalid account: ").concat(quoted),
        Problem::AccountNotEmail => String::from_str("account must be an email address: ").concat(
            quoted,
        ),
        Problem::ReservedName => String::from_str(
            "profile name \"profile\" is reserved for profile management",
        ),
        Problem::UnknownProfile => String::from_str("unknown profile: ").concat(quoted),
        Problem::AlreadyExists => String::from_str("profile already exists: ").concat(quoted),
        Problem::HomeNotSet => String::from_str("cannot locate config root: HOME is not set"),
        Problem::HomeNotAbsolute => String::from_str(
            "cannot locate config root: HOME is not absolute",
        ),
    }
}

/// The message for `p` about `subject`.
pub open spec fn report_spec(p: Problem, subject: Seq<char>) -> Seq<char> {
    problem_message(p, debug_str(subject))
}

fn report(p: Problem, subject: &str) -> (m: String)
    ensures
        m@ == report_spec(p, subject@),
{
    let quoted = debug_quoted(subject);
    describe(p, quoted.as_str())
}

/// The outcome of a check, seen as character sequences.
pub open spec fn check_view(r: Result<(), String>) -> Result<(), Seq<char>> {
    match r {
        Ok(()) => Ok(()),
        Err(m) => Err(m@),
    }
}

/// The outcome of a check that may find `problem` with `subject`.
pub open spec fn check_outcome(problem: Option<Problem>, subject: Seq<char>) -> Result<
    (),
    Seq<char>,
> {
    match problem {
        None => Ok(()),
        Some(p) => Err(report_spec(p, subject)),
    }
}

/// A string result seen as character sequences.
pub open spec fn text_view(r: Result<String, String>) -> Result<Seq<char>, Seq<char>> {
    match r {
        Ok(s) => Ok(s@),
        Err(m) => Err(m@),
    }
}

// ----------------------------------------------------------------------------
// Names and accounts
// ----------------------------------------------------------------------------

/// A character allowed in a profile name: `[A-Za-z0-9._-]`.
pub open spec fn is_name_char(c: char) -> bool {
    ||| 'a' <= c <= 'z'
    ||| 'A' <= c <= 'Z'
    ||| '0' <= c <= '9'
    ||| c == '.'
    ||| c == '_'
    ||| c == '-'
}

/// What is wrong with a profile name, in the order the checks are made.
pub open spec fn name_problem(name: Seq<char>) -> Option<Problem> {
    if name.len() == 0 {
        Some(Problem::EmptyName)
    } else if encode_utf8(name).len() > MAX_NAME_LEN {
        Some(Problem::NameTooLong)
    } else if name[0] == '-' || name[0] == '.' {
        Some(Problem::InvalidName)
    } else if exists|i: int| 0 <= i < name.len() && !is_name_char(#[trigger] name[i]) {
        Some(Problem::InvalidName)
    } else {
        None
    }
}

/// What is wrong with an account, in the order the checks are made.
pub open spec fn account_problem(account: Seq<char>) -> Option<Problem> {
    if account.len() == 0 {
        Some(Problem::EmptyAccount)
    } else if encode_utf8(account).len() > MAX_ACCOUNT_LEN {
        Some(Problem::AccountTooLong)
    } else if exists|i: int|
        0 <= i < account.len() && (is_control(#[trigger] account[i]) || is_whitespace(
            account[i],
        )) {
        Some(Problem::InvalidAccount)
    } else if !account.contains('@') {
        Some(Problem::AccountNotEmail)
    } else {
        None
    }
}

fn name_char(c: char) -> (res: bool)
    ensures
        res == is_name_char(c),
{
    ('a' <= c && c <= 'z') || ('A' <= c && c <= 'Z') || ('0' <= c && c <= '9') || c == '.' || c
        == '_' || c == '-'
}

/// Accepts a profile name that is safe as a single directory name: non-empty,
/// at most 64 bytes, made of `[A-Za-z0-9._-]`, not starting with `-` or `.`.
pub fn validate_name(name: &str) -> (r: Result<(), String>)
    ensures
        check_view(r) == check_outcome(name_problem(name@), name@),
{
    if name.is_empty() {
        return Err(report(Problem::EmptyName, name));
    }
    if name.as_bytes().len() > MAX_NAME_LEN {
        return Err(report(Problem::NameTooLong, name));
    }
    let first = name.get_char(0);
    if first == '-' || first == '.' {
        return Err(report(Problem::InvalidName, name));
    }
    let chars = chars_of(name);
    let mut i: usize = 0;
    while i < chars.len()
        invariant
            chars@ == name@,
            name@.len() > 0,
            encode_utf8(name@).len() <= MAX_NAME_LEN,
            name@[0] != '-' && name@[0] != '.',
            i <= chars@.len(),
            forall|k: int| 0 <= k < i ==> is_name_char(#[trigger] chars@[k]),
        decreases chars@.len() - i,
    {
        if !name_char(chars[i]) {
            proof {
                assert(!is_name_char(name@[i as int]));
            }
            return Err(report(Problem::InvalidName, name));
        }
        i = i + 1;
    }
    Ok(())
}

/// Accepts an account that looks like an email address: non-empty, at most
/// 254 bytes, no control or whitespace characters, and an `@`.
pub fn validate_account(account: &str) -> (r: Result<(), String>)
    ensures
        check_view(r) == check_outcome(account_problem(account@), account@),
{
    if account.is_empty() {
        return Err(report(Problem::EmptyAccount, account));
    }
    if account.as_bytes().len() > MAX_ACCOUNT_LEN {
        return Err(report(Problem::AccountTooLong, account));
    }
    let chars = chars_of(account);
    let mut i: usize = 0;
    let mut has_at = false;
    while i < chars.len()
        invariant
            chars@ == account@,
            account@.len() > 0,
            encode_utf8(account@).len() <= MAX_ACCOUNT_LEN,
            i <= chars@.len(),
            forall|k: int|
                0 <= k < i ==> !is_control(#[trigger] chars@[k]) && !is_whitespace(chars@[k]),
            has_at <==> chars@.take(i as int).contains('@'),
        decreases chars@.len() - i,
    {
        let c = chars[i];
        if control(c) || whitespace(c) {
            proof {
                assert(is_control(account@[i as int]) || is_whitespace(account@[i as int]));
            }
            return Err(report(Problem::InvalidAccount, account));
        }
        proof {
            assert(chars@.take(i + 1) =~= chars@.take(i as int).push(c));
        }
        if c == '@' {
            has_at = true;
        }
        i = i + 1;
    }
    proof {
        assert(chars@.take(i as int) =~= account@);
    }
    if !has_at {
        return Err(report(Problem::AccountNotEmail, account));
    }
    Ok(())
}

// ----------------------------------------------------------------------------
// Paths
// ----------------------------------------------------------------------------

/// A path is absolute when it starts at the root.
pub open spec fn is_absolute(p: Seq<char>) -> bool {
    p.len() > 0 && p[0] == '/'
}

/// A path component that does not start at the root.
pub open spec fn is_relative(c: Seq<char>) -> bool {
    !is_absolute(c)
}

/// `base` with the relative component `comp` appended: a `/` goes between them
/// unless `base` is empty or already ends with one.
pub open spec fn join(base: Seq<char>, comp: Seq<char>) -> Seq<char> {
    if base.len() == 0 || base.last() == '/' {
        base + comp
    } else {
        base + seq!['/'] + comp
    }
}

fn absolute(p: &str) -> (res: bool)
    ensures
        res == is_absolute(p@),
{
    !p.is_empty() && p.get_char(0) == '/'
}

/// Appends a relative component to a path.
fn join_path(base: &str, comp: &str) -> (out: String)
    requires
        is_relative(comp@),
    ensures
        out@ == join(base@, comp@),
{
    let mut out = String::from_str(base);
    if !base.is_empty() && base.get_char(base.unicode_len() - 1) != '/' {
        out.append("/");
        proof {
            reveal_strlit("/");
        }
    }
    out.append(comp);
    out
}

/// The process environment that locates the configuration root.
pub struct ConfigEnv {
    /// `XDG_CONFIG_HOME`, where set.
    pub xdg_config_home: Option<String>,
    /// `HOME`, where set.
    pub home: Option<String>,
}

/// Where profiles live: `$XDG_CONFIG_HOME/gw` when that is absolute, else
/// `$HOME/.config/gw` when `HOME` is set, non-empty and absolute.
pub open spec fn config_root_spec(env: ConfigEnv) -> Result<Seq<char>, Seq<char>> {
    if env.xdg_config_home is Some && is_absolute(env.xdg_config_home->0@) {
        Ok(join(env.xdg_config_home->0@, "gw"@))
    } else {
        match env.home {
            None => Err(problem_message(Problem::HomeNotSet, Seq::empty())),
            Some(h) => if h@.len() == 0 {
                Err(problem_message(Problem::HomeNotSet, Seq::empty()))
            } else if !is_absolute(h@) {
                Err(problem_message(Problem::HomeNotAbsolute, Seq::empty()))
            } else {
                Ok(join(join(h@, ".config"@), "gw"@))
            },
        }
    }
}

/// The directory holding one directory per profile.
pub open spec fn profiles_dir_spec(env: ConfigEnv) -> Result<Seq<char>, Seq<char>> {
    match config_root_spec(env) {
        Ok(root) => Ok(join(root, "profiles"@)),
        Err(e) => Err(e),
    }
}

/// The directory of the profile `name`.
pub open spec fn profile_dir_spec(env: ConfigEnv, name: Seq<char>) -> Result<Seq<char>, Seq<char>> {
    match name_problem(name) {
        Some(p) => Err(report_spec(p, name)),
        None => match profiles_dir_spec(env) {
            Ok(profiles) => Ok(join(profiles, name)),
            Err(e) => Err(e),
        },
    }
}

/// Locates the configuration root from the environment.
pub fn config_root(env: &ConfigEnv) -> (r: Result<String, String>)
    ensures
        text_view(r) == config_root_spec(*env),
{
    proof {
        reveal_strlit("gw");
        reveal_strlit(".config");
    }
    if let Some(dir) = &env.xdg_config_home {
        if absolute(dir.as_str()) {
            return Ok(join_path(dir.as_str(), "gw"));
        }
    }
    match &env.home {
        None => Err(describe(Problem::HomeNotSet, "")),
        Some(home) => {
            if home.as_str().is_empty() {
                Err(describe(Problem::HomeNotSet, ""))
            } else if !absolute(home.as_str()) {
                Err(describe(Problem::HomeNotAbsolute, ""))
            } else {
                let config = join_path(home.as_str(), ".config");
                Ok(join_path(config.as_str(), "gw"))
            }
        },
    }
}

/// The directory that holds one directory per profile.
pub fn profiles_dir(env: &ConfigEnv) -> (r: Result<String, String>)
    ensures
        text_view(r) == profiles_dir_spec(*env),
{
    proof {
        reveal_strlit("profiles");
    }
    let root = config_root(env)?;
    Ok(join_path(root.as_str(), "profiles"))
}

/// `dir` names an entry directly inside `parent`: `parent`, a `/`, then one
/// component that is neither empty, `.`, `..`, nor holds a `/`.
pub open spec fn direct_child(dir: Seq<char>, parent: Seq<char>) -> bool {
    let n = parent.len() as int;
    let rest = dir.skip(n + 1 as int);
    &&& dir.len() > n + 1
    &&& dir.take(n as int) == parent
    &&& dir[n as int] == '/'
    &&& !rest.contains('/')
    &&& rest != seq!['.']
    &&& rest != seq!['.', '.']
}

fn is_direct_child(dir: &str, parent: &str) -> (res: bool)
    ensures
        res == direct_child(dir@, parent@),
{
    let d = chars_of(dir);
    let p = chars_of(parent);
    let n = p.len();
    if d.len() <= n || d.len() - n < 2 {
        return false;
    }
    let mut i: usize = 0;
    while i < n
        invariant
            d@ == dir@,
            p@ == parent@,
            n == p@.len(),
            n < d@.len(),
            i <= n,
            forall|k: int| 0 <= k < i ==> d@[k] == p@[k],
        decreases n - i,
    {
        if d[i] != p[i] {
            proof {
                assert(dir@.take(n as int)[i as int] != parent@[i as int]);
            }
            return false;
        }
        i = i + 1;
    }
    proof {
        assert(dir@.take(n as int) =~= parent@);
    }
    if d[n] != '/' {
        return false;
    }
    let ghost rest = dir@.skip(n + 1 as int);
    let mut j: usize = n + 1;
    while j < d.len()
        invariant
            d@ == dir@,
            n + 1 <= j <= d@.len(),
            n == parent@.len(),
            rest == dir@.skip(n + 1 as int),
            forall|k: int| n + 1 <= k < j ==> d@[k] != '/',
        decreases d@.len() - j,
    {
        if d[j] == '/' {
            proof {
                assert(rest[j - n - 1] == '/');
                assert(rest.contains('/'));
            }
            return false;
        }
        j = j + 1;
    }
    proof {
        assert forall|k: int| 0 <= k < rest.len() implies rest[k] != '/' by {
            assert(rest[k] == d@[k + n + 1]);
        }
    }
    let len = d.len() - n - 1;
    if len == 1 && d[n + 1] == '.' {
        proof {
            assert(rest =~= seq!['.']);
        }
        return false;
    }
    if len == 2 && d[n + 1] == '.' && d[n + 2] == '.' {
        proof {
            assert(rest =~= seq!['.', '.']);
        }
        return false;
    }
    proof {
        assert(rest.len() == len);
        assert(rest[0] == d@[n + 1]);
        if len >= 2 {
            assert(rest[1] == d@[n + 2]);
        }
        assert(rest != seq!['.']);
        assert(rest != seq!['.', '.']);
    }
    true
}

/// A valid name joined to a directory that does not end in `/` is a direct
/// child of that directory.
pub proof fn lemma_valid_name_is_direct_child(parent: Seq<char>, name: Seq<char>)
    requires
        parent.len() > 0,
        parent.last() != '/',
        name_problem(name) is None,
    ensures
        direct_child(join(parent, name), parent),
{
    let dir = join(parent, name);
    let n = parent.len() as int;
    assert(dir.take(n as int) =~= parent);
    assert(dir.skip(n + 1 as int) =~= name);
    assert forall|k: int| 0 <= k < name.len() implies name[k] != '/' by {
        assert(is_name_char(name[k]));
    }
    if name == seq!['.'] || name == seq!['.', '.'] {
        assert(name[0] == '.');
    }
}

/// The directory of a profile: `<profiles>/<name>`, for a valid name only.
pub fn profile_dir(env: &ConfigEnv, name: &str) -> (r: Result<String, String>)
    ensures
        text_view(r) == profile_dir_spec(*env, name@),
{
    validate_name(name)?;
    let profiles = profiles_dir(env)?;
    let dir = join_path(profiles.as_str(), name);
    proof {
        reveal_strlit("profiles");
        assert(profiles@.last() == 's');
        lemma_valid_name_is_direct_child(profiles@, name@);
    }
    if !is_direct_child(dir.as_str(), profiles.as_str()) {
        return Err(report(Problem::InvalidName, name));
    }
    Ok(dir)
}

// ----------------------------------------------------------------------------
// Account metadata
// ----------------------------------------------------------------------------

/// The number of characters before the first `\n` (all of them if none).
pub open spec fn line_len(s: Seq<char>) -> nat
    decreases s.len(),
{
    if s.len() == 0 || s[0] == '\n' {
        0
    } else {
        1 + line_len(s.drop_first())
    }
}

/// The first line as `str::lines` yields it: up to the first `\n`, without a
/// `\r` just before it; the whole text when there is no `\n`.
pub open spec fn first_line(s: Seq<char>) -> Seq<char> {
    let n = line_len(s);
    let line = s.take(n as int);
    if n < s.len() && n > 0 && line.last() == '\r' {
        line.drop_last()
    } else {
        line
    }
}

/// `s` without leading Unicode white space.
pub open spec fn trim_start(s: Seq<char>) -> Seq<char>
    decreases s.len(),
{
    if s.len() > 0 && is_whitespace(s[0]) {
        trim_start(s.drop_first())
    } else {
        s
    }
}

/// `s` without trailing Unicode white space.
pub open spec fn trim_end(s: Seq<char>) -> Seq<char>
    decreases s.len(),
{
    if s.len() > 0 && is_whitespace(s.last()) {
        trim_end(s.drop_last())
    } else {
        s
    }
}

/// `s` without leading or trailing Unicode white space (`str::trim`).
pub open spec fn trim(s: Seq<char>) -> Seq<char> {
    trim_end(trim_start(s))
}

/// Not a control character.
pub open spec fn not_control(c: char) -> bool {
    !is_control(c)
}

/// The account as read back from an `account` file: its first line, trimmed,
/// with every control character dropped.
pub open spec fn account_from_file_spec(file: Seq<char>) -> Seq<char> {
    trim(first_line(file)).filter(|c: char| not_control(c))
}

proof fn lemma_line_len(s: Seq<char>, i: int)
    requires
        0 <= i <= s.len(),
        forall|k: int| 0 <= k < i ==> s[k] != '\n',
        i == s.len() || s[i] == '\n',
    ensures
        line_len(s) == i,
    decreases i,
{
    if i > 0 {
        lemma_line_len(s.drop_first(), i - 1);
    }
}

proof fn lemma_trim_start(s: Seq<char>, i: int)
    requires
        0 <= i <= s.len(),
        forall|k: int| 0 <= k < i ==> is_whitespace(#[trigger] s[k]),
        i == s.len() || !is_whitespace(s[i]),
    ensures
        trim_start(s) == s.skip(i),
    decreases i,
{
    if i == 0 {
        assert(s.skip(0) =~= s);
    } else {
        assert(is_whitespace(s[0]));
        lemma_trim_start(s.drop_first(), i - 1);
        assert(s.drop_first().skip(i - 1) =~= s.skip(i));
    }
}

proof fn lemma_trim_end(s: Seq<char>, j: int)
    requires
        0 <= j <= s.len(),
        forall|k: int| j <= k < s.len() ==> is_whitespace(#[trigger] s[k]),
        j == 0 || !is_whitespace(s[j - 1]),
    ensures
        trim_end(s) == s.take(j),
    decreases s.len() - j,
{
    if j == s.len() {
        assert(s.take(j) =~= s);
    } else {
        assert(is_whitespace(s.last()));
        lemma_trim_end(s.drop_last(), j);
        assert(s.drop_last().take(j) =~= s.take(j));
    }
}

/// Where the first line of `v` ends, a trailing `\r` before the `\n` excluded.
fn first_line_end(v: &Vec<char>) -> (end: usize)
    ensures
        end <= v@.len(),
        v@.take(end as int) == first_line(v@),
{
    let mut n: usize = 0;
    while n < v.len() && v[n] != '\n'
        invariant
            n <= v@.len(),
            forall|k: int| 0 <= k < n ==> v@[k] != '\n',
        decreases v@.len() - n,
    {
        n = n + 1;
    }
    proof {
        lemma_line_len(v@, n as int);
    }
    if n < v.len() && n > 0 && v[n - 1] == '\r' {
        proof {
            assert(v@.take(n as int).last() == '\r');
            assert(v@.take(n - 1) =~= v@.take(n as int).drop_last());
        }
        n - 1
    } else {
        n
    }
}

/// The bounds of `v[..end]` without leading and trailing white space.
fn trimmed_bounds(v: &Vec<char>, end: usize) -> (r: (usize, usize))
    requires
        end <= v@.len(),
    ensures
        r.0 <= r.1 <= end,
        v@.subrange(r.0 as int, r.1 as int) == trim(v@.take(end as int)),
{
    let ghost line = v@.take(end as int);
    let mut start: usize = 0;
    while start < end && whitespace(v[start])
        invariant
            end <= v@.len(),
            start <= end,
            line == v@.take(end as int),
            forall|k: int| 0 <= k < start ==> is_whitespace(#[trigger] line[k]),
        decreases end - start,
    {
        start = start + 1;
    }
    proof {
        lemma_trim_start(line, start as int);
    }
    let ghost front = line.skip(start as int);
    let mut stop: usize = end;
    while stop > start && whitespace(v[stop - 1])
        invariant
            end <= v@.len(),
            start <= stop <= end,
            line == v@.take(end as int),
            front == line.skip(start as int),
            forall|k: int| stop - start <= k < front.len() ==> is_whitespace(#[trigger] front[k]),
        decreases stop - start,
    {
        stop = stop - 1;
    }
    proof {
        lemma_trim_end(front, stop - start);
        assert(front.take(stop - start) =~= v@.subrange(start as int, stop as int));
    }
    (start, stop)
}

/// Appends the characters of `v[start..stop]` that are not control characters.
fn push_non_control(out: &mut String, v: &Vec<char>, start: usize, stop: usize)
    requires
        start <= stop <= v@.len(),
    ensures
        final(out)@ == old(out)@ + v@.subrange(start as int, stop as int).filter(
            |c: char| not_control(c),
        ),
{
    let ghost kept = v@.subrange(start as int, stop as int);
    let mut i: usize = start;
    proof {
        assert(kept.take(0).filter(|c: char| not_control(c)) =~= Seq::empty());
        assert(out@ =~= old(out)@ + kept.take(0).filter(|c: char| not_control(c)));
    }
    while i < stop
        invariant
            start <= i <= stop <= v@.len(),
            kept == v@.subrange(start as int, stop as int),
            out@ == old(out)@ + kept.take(i - start).filter(|c: char| not_control(c)),
        decreases stop - i,
    {
        let c = v[i];
        proof {
            assert(kept[i - start] == c);
            assert(kept.take(i - start + 1) =~= kept.take(i - start).push(c));
            kept.take(i - start).lemma_filter_push(c, |c: char| not_control(c));
        }
        if !control(c) {
            crate::text::push_char(out, c);
        }
        i = i + 1;
    }
    proof {
        assert(kept.take(stop - start) =~= kept);
    }
}

/// Reads the account out of the contents of an `account` file: the first line,
/// trimmed, with control characters removed. An unreadable file reads as empty.
pub fn account_from_file(file: &str) -> (account: String)
    ensures
        account@ == account_from_file_spec(file@),
{
    let v = chars_of(file);
    let end = first_line_end(&v);
    let (start, stop) = trimmed_bounds(&v, end);
    let mut out = String::new();
    push_non_control(&mut out, &v, start, stop);
    proof {
        assert(out@ =~= v@.subrange(start as int, stop as int).filter(|c: char| not_control(c)));
    }
    out
}

// ----------------------------------------------------------------------------
// Profiles
// ----------------------------------------------------------------------------

/// A profile: its name, the account it is meant for, and the configuration
/// directory handed to the backend.
pub struct Profile {
    pub name: String,
    pub account: String,
    pub gws_config_dir: String,
}

/// A profile seen as character sequences.
pub struct ProfileView {
    pub name: Seq<char>,
    pub account: Seq<char>,
    pub gws_config_dir: Seq<char>,
}

impl View for Profile {
    type V = ProfileView;

    open spec fn view(&self) -> ProfileView {
        ProfileView { name: self.name@, account: self.account@, gws_config_dir: self.gws_config_dir@ }
    }
}

/// The profile `name` whose directory is `dir` and whose `account` file holds `file`.
pub open spec fn load_spec(name: Seq<char>, dir: Seq<char>, file: Seq<char>) -> ProfileView {
    ProfileView {
        name: name,
        account: account_from_file_spec(file),
        gws_config_dir: join(dir, "gws"@),
    }
}

/// Builds the profile `name` stored in `dir`, from the contents of its `account` file.
pub fn load(name: &str, dir: &str, account_file: &str) -> (p: Profile)
    ensures
        p@ == load_spec(name@, dir@, account_file@),
{
    proof {
        reveal_strlit("gws");
    }
    Profile {
        name: name.to_string(),
        account: account_from_file(account_file),
        gws_config_dir: join_path(dir, "gws"),
    }
}

/// A profile result seen as views.
pub open spec fn profile_view(r: Result<Profile, String>) -> Result<ProfileView, Seq<char>> {
    match r {
        Ok(p) => Ok(p@),
        Err(m) => Err(m@),
    }
}

/// What the file system showed at a profile's directory.
pub enum DirProbe {
    /// Nothing, or something other than a directory.
    NotADirectory,
    /// A directory; `account_file` is what its `account` file holds
    /// (empty when that file cannot be read).
    Directory { account_file: String },
}

/// The profile `name`, given what was found at its directory.
pub open spec fn get_spec(env: ConfigEnv, name: Seq<char>, probe: DirProbe) -> Result<
    ProfileView,
    Seq<char>,
> {
    match profile_dir_spec(env, name) {
        Err(e) => Err(e),
        Ok(dir) => match probe {
            DirProbe::NotADirectory => Err(report_spec(Problem::UnknownProfile, name)),
            DirProbe::Directory { account_file } => Ok(load_spec(name, dir, account_file@)),
        },
    }
}

/// Looks up the profile `name`: its directory must be valid and exist.
pub fn get(env: &ConfigEnv, name: &str, probe: &DirProbe) -> (r: Result<Profile, String>)
    ensures
        profile_view(r) == get_spec(*env, name@, *probe),
{
    let dir = profile_dir(env, name)?;
    match probe {
        DirProbe::NotADirectory => Err(report(Problem::UnknownProfile, name)),
        DirProbe::Directory { account_file } => Ok(load(name, dir.as_str(), account_file.as_str())),
    }
}

/// One entry of the profiles directory as the file system reported it.
pub struct ListedEntry {
    /// The entry's file name, when it is valid UTF-8.
    pub file_name: Option<String>,
    /// Whether the entry is a directory.
    pub is_dir: bool,
    /// What the entry's `account` file holds (empty when unreadable or not read).
    pub account_file: String,
}

/// The profile an entry of the directory `profiles` stands for, if any: a
/// directory whose name is a valid profile name.
pub open spec fn listed_profile(profiles: Seq<char>, e: ListedEntry) -> Option<ProfileView> {
    if e.is_dir && e.file_name is Some && name_problem(e.file_name->0@) is None {
        Some(
            load_spec(
                e.file_name->0@,
                join(profiles, e.file_name->0@),
                e.account_file@,
            ),
        )
    } else {
        None
    }
}

/// The profiles that a directory listing holds, in listing order.
pub open spec fn listed_profiles(profiles: Seq<char>, entries: Seq<ListedEntry>) -> Seq<
    ProfileView,
> {
    entries.filter_map(|e: ListedEntry| listed_profile(profiles, e))
}

/// Profiles ordered by the bytes of their names.
pub open spec fn sorted_by_name(s: Seq<ProfileView>) -> bool {
    forall|i: int, j: int|
        0 <= i < j < s.len() ==> crate::text::bytes_le(
            encode_utf8(#[trigger] s[i].name),
            encode_utf8(#[trigger] s[j].name),
        )
}

/// The views of a sequence of profiles.
pub open spec fn views(v: Seq<Profile>) -> Seq<ProfileView> {
    v.map_values(|p: Profile| p@)
}

/// Lists the profiles in a directory listing: the directories with valid
/// names, each loaded, ordered by name.
pub fn list(env: &ConfigEnv, entries: &Vec<ListedEntry>) -> (r: Result<Vec<Profile>, String>)
    ensures
        match profiles_dir_spec(*env) {
            Err(e) => r matches Err(m) && m@ == e,
            Ok(profiles) => r matches Ok(out) && views(out@).to_multiset() == listed_profiles(
                profiles,
                entries@,
            ).to_multiset() && sorted_by_name(views(out@)),
        },
{
    let profiles = profiles_dir(env)?;
    let ghost f = |e: ListedEntry| listed_profile(profiles@, e);
    let mut out: Vec<Profile> = Vec::new();
    let mut i: usize = 0;
    while i < entries.len()
        invariant
            i <= entries@.len(),
            f == (|e: ListedEntry| listed_profile(profiles@, e)),
            views(out@).to_multiset() == entries@.take(i as int).filter_map(f).to_multiset(),
            sorted_by_name(views(out@)),
        decreases entries@.len() - i,
    {
        let ghost prev = entries@.take(i as int).filter_map(f);
        proof {
            entries@.lemma_filter_map_take_succ(f, i as int);
        }
        let e = &entries[i];
        if e.is_dir {
            if let Some(name) = &e.file_name {
                if validate_name(name.as_str()).is_ok() {
                    let dir = join_path(profiles.as_str(), name.as_str());
                    let p = load(name.as_str(), dir.as_str(), e.account_file.as_str());
                    proof {
                        assert(f(entries@[i as int]) == Some(p@));
                        vstd::seq_lib::to_multiset_build(prev, p@);
                        assert(prev + seq![p@] =~= prev.push(p@));
                    }
                    insert_sorted(&mut out, p);
                }
            }
        }
        proof {
            if f(entries@[i as int]) is None {
                assert(entries@.take(i + 1).filter_map(f) =~= prev);
            }
        }
        i = i + 1;
    }
    proof {
        assert(entries@.take(entries@.len() as int) =~= entries@);
    }
    Ok(out)
}

/// Inserts `p` after every profile whose name is not greater, keeping the order.
fn insert_sorted(out: &mut Vec<Profile>, p: Profile)
    requires
        sorted_by_name(views(old(out)@)),
    ensures
        sorted_by_name(views(final(out)@)),
        views(final(out)@).to_multiset() == views(old(out)@).to_multiset().insert(p@),
{
    let mut k: usize = 0;
    while k < out.len() && crate::text::str_le(out[k].name.as_str(), p.name.as_str())
        invariant
            k <= out@.len(),
            out@ == old(out)@,
            forall|j: int|
                0 <= j < k ==> crate::text::bytes_le(
                    encode_utf8(#[trigger] out@[j]@.name),
                    encode_utf8(p@.name),
                ),
        decreases out@.len() - k,
    {
        k = k + 1;
    }
    let ghost before = views(out@);
    let ghost pv = p@;
    proof {
        if k < out@.len() {
            crate::text::lemma_bytes_le_total(
                encode_utf8(before[k as int].name),
                encode_utf8(pv.name),
            );
            assert forall|j: int| k <= j < before.len() implies crate::text::bytes_le(
                encode_utf8(pv.name),
                encode_utf8(before[j].name),
            ) by {
                if j > k {
                    crate::text::lemma_bytes_le_transitive(
                        encode_utf8(pv.name),
                        encode_utf8(before[k as int].name),
                        encode_utf8(before[j].name),
                    );
                }
            }
        }
    }
    out.insert(k, p);
    proof {
        let after = views(out@);
        assert(after =~= before.insert(k as int, pv));
        vstd::seq_lib::to_multiset_insert(before, k as int, pv);
        before.insert_ensures(k as int, pv);
        assert forall|a: int, b: int| 0 <= a < b < after.len() implies crate::text::bytes_le(
            encode_utf8(#[trigger] after[a].name),
            encode_utf8(#[trigger] after[b].name),
        ) by {
            if b < k {
                assert(after[a] == before[a] && after[b] == before[b]);
            } else if b == k {
                assert(after[a] == before[a]);
            } else if a == k {
                assert(after[b] == before[b - 1]);
            } else if a < k {
                assert(after[a] == before[a] && after[b] == before[b - 1]);
                crate::text::lemma_bytes_le_transitive(
                    encode_utf8(before[a].name),
                    encode_utf8(pv.name),
                    encode_utf8(before[b - 1].name),
                );
            } else {
                assert(after[a] == before[a - 1] && after[b] == before[b - 1]);
            }
        }
    }
}

// ----------------------------------------------------------------------------
// Adding a profile
// ----------------------------------------------------------------------------

/// What adding a profile creates: the profile directory, its `gws` directory,
/// and its `account` file with the given contents.
pub struct NewProfile {
    pub dir: String,
    pub gws_dir: String,
    pub account_path: String,
    pub account_line: String,
}

/// A plan for a new profile, seen as character sequences.
pub struct NewProfileView {
    pub dir: Seq<char>,
    pub gws_dir: Seq<char>,
    pub account_path: Seq<char>,
    pub account_line: Seq<char>,
}

impl View for NewProfile {
    type V = NewProfileView;

    open spec fn view(&self) -> NewProfileView {
        NewProfileView {
            dir: self.dir@,
            gws_dir: self.gws_dir@,
            account_path: self.account_path@,
            account_line: self.account_line@,
        }
    }
}

/// What adding the profile `name` for `account` will create, or why it is
/// refused; `dir_exists` says whether the profile's directory already exists.
pub open spec fn add_spec(
    env: ConfigEnv,
    name: Seq<char>,
    account: Seq<char>,
    dir_exists: bool,
) -> Result<
    NewProfileView,
    Seq<char>,
> {
    if name == MANAGEMENT_COMMAND@ {
        Err(problem_message(Problem::ReservedName, Seq::empty()))
    } else if account_problem(account) is Some {
        Err(report_spec(account_problem(account)->0, account))
    } else {
        match profile_dir_spec(env, name) {
            Err(e) => Err(e),
            Ok(dir) => if dir_exists {
                Err(report_spec(Problem::AlreadyExists, name))
            } else {
                Ok(
                NewProfileView {
                    dir: dir,
                    gws_dir: join(dir, "gws"@),
                    account_path: join(dir, "account"@),
                    account_line: account.push('\n'),
                },
            )
            },
        }
    }
}

/// A plan result seen as views.
pub open spec fn new_profile_view(r: Result<NewProfile, String>) -> Result<
    NewProfileView,
    Seq<char>,
> {
    match r {
        Ok(p) => Ok(p@),
        Err(m) => Err(m@),
    }
}

/// Checks a request to add the profile `name` for `account` and says what to
/// create. The name of the management command is reserved, and an existing
/// profile is never overwritten: `dir_exists` is whether the file system holds
/// anything at the profile's directory (`profile_dir(env, name)`, when that is Ok).
pub fn add(env: &ConfigEnv, name: &str, account: &str, dir_exists: bool) -> (r: Result<
    NewProfile,
    String,
>)
    ensures
        new_profile_view(r) == add_spec(*env, name@, account@, dir_exists),
{
    proof {
        reveal_strlit("gws");
        reveal_strlit("account");
    }
    if crate::text::str_eq(name, MANAGEMENT_COMMAND) {
        return Err(describe(Problem::ReservedName, ""));
    }
    validate_account(account)?;
    let dir = profile_dir(env, name)?;
    if dir_exists {
        return Err(report(Problem::AlreadyExists, name));
    }
    let gws_dir = join_path(dir.as_str(), "gws");
    let account_path = join_path(dir.as_str(), "account");
    let mut account_line = account.to_string();
    crate::text::push_char(&mut account_line, '\n');
    Ok(NewProfile { dir, gws_dir, account_path, account_line })
}

// ----------------------------------------------------------------------------
// Laws
// ----------------------------------------------------------------------------

/// A valid profile name is a safe single path component: 1 to 64 ASCII
/// characters, no `/` or `\`, no control or white space character, not `.` or
/// `..`, and it cannot be mistaken for an option.
pub proof fn law_valid_name_is_safe_component(name: Seq<char>)
    requires
        name_problem(name) is None,
    ensures
        1 <= name.len() <= MAX_NAME_LEN,
        encode_utf8(name).len() == name.len(),
        forall|i: int|
            0 <= i < name.len() ==> {
                &&& (#[trigger] name[i]) as u32 <= 0x7f
                &&& name[i] != '/'
                &&& name[i] != '\\'
                &&& !is_control(name[i])
                &&& !is_whitespace(name[i])
            },
        name != seq!['.'],
        name != seq!['.', '.'],
        name[0] != '-',
{
    assert forall|i: int| 0 <= i < name.len() implies {
        &&& (#[trigger] name[i]) as u32 <= 0x7f
        &&& name[i] != '/'
        &&& name[i] != '\\'
        &&& !is_control(name[i])
        &&& !is_whitespace(name[i])
    } by {
        assert(is_name_char(name[i]));
    }
    assert(vstd::utf8::is_ascii_chars(name));
    vstd::utf8::is_ascii_chars_encode_utf8(name);
    if name == seq!['.'] || name == seq!['.', '.'] {
        assert(name[0] == '.');
    }
}

/// A profile's directory is always a direct child of the profiles directory,
/// named after the profile: no name can reach outside it.
pub proof fn law_profile_dir_is_direct_child(env: ConfigEnv, name: Seq<char>)
    requires
        profile_dir_spec(env, name) is Ok,
    ensures
        profiles_dir_spec(env) is Ok,
        direct_child(profile_dir_spec(env, name)->Ok_0, profiles_dir_spec(env)->Ok_0),
        profile_dir_spec(env, name)->Ok_0 == profiles_dir_spec(env)->Ok_0 + seq!['/'] + name,
{
    let p = profiles_dir_spec(env)->Ok_0;
    reveal_strlit("profiles");
    assert(p.last() == 's');
    lemma_valid_name_is_direct_child(p, name);
}

/// Two different profiles, in the same environment, never share a
/// configuration directory.
pub proof fn law_profiles_are_isolated(
    env: ConfigEnv,
    a: Seq<char>,
    b: Seq<char>,
    probe_a: DirProbe,
    probe_b: DirProbe,
)
    requires
        get_spec(env, a, probe_a) is Ok,
        get_spec(env, b, probe_b) is Ok,
        a != b,
    ensures
        get_spec(env, a, probe_a)->Ok_0.gws_config_dir != get_spec(
            env,
            b,
            probe_b,
        )->Ok_0.gws_config_dir,
{
    law_profile_dir_is_direct_child(env, a);
    law_profile_dir_is_direct_child(env, b);
    let p = profiles_dir_spec(env)->Ok_0;
    let da = p + seq!['/'] + a;
    let db = p + seq!['/'] + b;
    reveal_strlit("gws");
    let ga = da + seq!['/'] + "gws"@;
    let gb = db + seq!['/'] + "gws"@;
    assert(join(da, "gws"@) == ga);
    assert(join(db, "gws"@) == gb);
    if ga == gb {
        assert(a.len() == b.len());
        assert(a =~= ga.subrange(p.len() + 1int, p.len() + 1 + a.len() as int));
        assert(b =~= gb.subrange(p.len() + 1int, p.len() + 1 + b.len() as int));
    }
}

/// Reading an account back yields no control character, so no line break or
/// terminal escape from the file survives.
pub proof fn law_account_has_no_control(file: Seq<char>)
    ensures
        forall|i: int|
            0 <= i < account_from_file_spec(file).len() ==> !is_control(
                #[trigger] account_from_file_spec(file)[i],
            ),
{
    let t = trim(first_line(file));
    assert forall|i: int| 0 <= i < account_from_file_spec(file).len() implies !is_control(
        #[trigger] account_from_file_spec(file)[i],
    ) by {
        t.lemma_filter_pred(|c: char| not_control(c), i);
    }
}

proof fn lemma_filter_keeps_all(s: Seq<char>)
    requires
        forall|i: int| 0 <= i < s.len() ==> !is_control(#[trigger] s[i]),
    ensures
        s.filter(|c: char| not_control(c)) == s,
    decreases s.len(),
{
    if s.len() > 0 {
        lemma_filter_keeps_all(s.drop_last());
        s.drop_last().lemma_filter_push(s.last(), |c: char| not_control(c));
        assert(s.drop_last().push(s.last()) =~= s);
    } else {
        assert(s.filter(|c: char| not_control(c)) =~= s);
    }
}

/// An account accepted when a profile is added reads back unchanged from the
/// file that adding writes (the account and a newline).
pub proof fn law_account_round_trip(account: Seq<char>)
    requires
        account_problem(account) is None,
    ensures
        account_from_file_spec(account.push('\n')) == account,
{
    let f = account.push('\n');
    assert forall|i: int| 0 <= i < account.len() implies !is_control(#[trigger] account[i])
        && !is_whitespace(account[i]) by {}
    assert forall|k: int| 0 <= k < account.len() implies f[k] != '\n' by {
        assert(f[k] == account[k]);
        assert(!is_control(account[k]));
    }
    lemma_line_len(f, account.len() as int);
    assert(f.take(account.len() as int) =~= account);
    if account.len() > 0 {
        assert(!is_control(account.last()));
    }
    assert(first_line(f) == account);
    lemma_trim_start(account, 0);
    assert(account.skip(0) =~= account);
    lemma_trim_end(account, account.len() as int);
    assert(account.take(account.len() as int) =~= account);
    lemma_filter_keeps_all(account);
}

/// Adding a profile and then looking it up gives back what was added: the
/// same name, the same account, and the configuration directory that adding
/// created.
pub proof fn law_add_then_get(env: ConfigEnv, name: Seq<char>, account: Seq<char>, probe: DirProbe)
    requires
        add_spec(env, name, account, false) is Ok,
        probe matches DirProbe::Directory { account_file } && account_file@ == add_spec(
            env,
            name,
            account,
            false,
        )->Ok_0.account_line,
    ensures
        get_spec(env, name, probe) == Ok::<ProfileView, Seq<char>>(
            ProfileView {
                name: name,
                account: account,
                gws_config_dir: add_spec(env, name, account, false)->Ok_0.gws_dir,
            },
        ),
{
    law_account_round_trip(account);
}

/// The profiles' names are pairwise different.
pub open spec fn distinct_names(s: Seq<ProfileView>) -> bool {
    forall|i: int, j: int| 0 <= i < j < s.len() ==> (#[trigger] s[i]).name != (#[trigger] s[j]).name
}

/// The entries' file names are pairwise different, as in any real directory.
pub open spec fn distinct_file_names(e: Seq<ListedEntry>) -> bool {
    forall|i: int, j: int|
        0 <= i < j < e.len() && (#[trigger] e[i]).file_name is Some && (#[trigger] e[j]).file_name is Some
            ==> e[i].file_name->0@ != e[j].file_name->0@
}

/// Profiles strictly ascending by the bytes of their names.
pub open spec fn strictly_ascending(s: Seq<ProfileView>) -> bool {
    forall|i: int, j: int|
        0 <= i < j < s.len() ==> crate::text::bytes_le(
            encode_utf8((#[trigger] s[i]).name),
            encode_utf8((#[trigger] s[j]).name),
        ) && s[i].name != s[j].name
}

/// Every listed profile is named after one of the entries.
proof fn lemma_listed_names_come_from_entries(profiles: Seq<char>, e: Seq<ListedEntry>, k: int)
    requires
        0 <= k < listed_profiles(profiles, e).len(),
    ensures
        exists|i: int|
            0 <= i < e.len() && (#[trigger] e[i]).file_name is Some && e[i].file_name->0@
                == listed_profiles(profiles, e)[k].name,
    decreases e.len(),
{
    let f = |x: ListedEntry| listed_profile(profiles, x);
    let front = e.drop_last();
    assert(listed_profiles(profiles, e) == e.filter_map(f));
    assert(listed_profiles(profiles, front) == front.filter_map(f));
    if k < front.filter_map(f).len() {
        assert(e.filter_map(f)[k] == front.filter_map(f)[k]);
        lemma_listed_names_come_from_entries(profiles, front, k);
        let i = choose|i: int|
            0 <= i < front.len() && (#[trigger] front[i]).file_name is Some && front[i].file_name->0@
                == listed_profiles(profiles, front)[k].name;
        assert(e[i] == front[i]);
    } else {
        assert(e[e.len() - 1] == e.last());
    }
}

/// Entries with different names list profiles with different names.
proof fn lemma_listed_names_distinct(profiles: Seq<char>, e: Seq<ListedEntry>)
    requires
        distinct_file_names(e),
    ensures
        distinct_names(listed_profiles(profiles, e)),
    decreases e.len(),
{
    if e.len() > 0 {
        let f = |x: ListedEntry| listed_profile(profiles, x);
        let front = e.drop_last();
        assert(distinct_file_names(front)) by {
            assert forall|i: int, j: int|
                0 <= i < j < front.len() && (#[trigger] front[i]).file_name is Some
                    && (#[trigger] front[j]).file_name is Some implies front[i].file_name->0@
                != front[j].file_name->0@ by {
                assert(front[i] == e[i] && front[j] == e[j]);
            }
        }
        lemma_listed_names_distinct(profiles, front);
        let l = listed_profiles(profiles, e);
        let lf = listed_profiles(profiles, front);
        assert(l == e.filter_map(f));
        assert(lf == front.filter_map(f));
        assert forall|i: int, j: int| 0 <= i < j < l.len() implies (#[trigger] l[i]).name
            != (#[trigger] l[j]).name by {
            if j < lf.len() {
                assert(l[i] == lf[i] && l[j] == lf[j]);
            } else {
                assert(l[i] == lf[i]);
                lemma_listed_names_come_from_entries(profiles, front, i);
                let k = choose|k: int|
                    0 <= k < front.len() && (#[trigger] front[k]).file_name is Some
                        && front[k].file_name->0@ == lf[i].name;
                assert(front[k] == e[k]);
                assert(e[e.len() - 1] == e.last());
            }
        }
    }
}

/// Two sequences that hold the same profiles carry the same names.
proof fn lemma_same_multiset_distinct(a: Seq<ProfileView>, b: Seq<ProfileView>)
    requires
        a.to_multiset() == b.to_multiset(),
        distinct_names(a),
    ensures
        distinct_names(b),
{
    broadcast use vstd::seq_lib::group_to_multiset_ensures;

    assert forall|i: int, j: int| 0 <= i < j < b.len() implies (#[trigger] b[i]).name
        != (#[trigger] b[j]).name by {
        if b[i].name == b[j].name {
            assert(b.contains(b[i]));
            assert(b.contains(b[j]));
            assert(a.to_multiset().count(b[i]) > 0);
            assert(a.to_multiset().count(b[j]) > 0);
            let x = choose|x: int| 0 <= x < a.len() && a[x] == b[i];
            let y = choose|y: int| 0 <= y < a.len() && a[y] == b[j];
            if x == y {
                // the same profile twice in `b`, once in `a`
                let r = b.remove(i);
                assert(r.to_multiset() == b.to_multiset().remove(b[i]));
                assert(r[j - 1] == b[j]);
                assert(r.contains(b[i]));
                assert(r.to_multiset().count(b[i]) > 0);
                let ra = a.remove(x);
                assert(ra.to_multiset() == a.to_multiset().remove(a[x]));
                assert(ra.to_multiset().count(a[x]) > 0);
                assert(ra.contains(a[x]));
                let z = choose|z: int| 0 <= z < ra.len() && ra[z] == a[x];
                if z < x {
                    assert(ra[z] == a[z]);
                } else {
                    assert(ra[z] == a[z + 1]);
                }
            } else if x < y {
                assert(a[x].name != a[y].name);
            } else {
                assert(a[y].name != a[x].name);
            }
        }
    }
}

/// Sorted sequences that hold the same profiles, with different names, are equal.
proof fn lemma_sorted_unique(a: Seq<ProfileView>, b: Seq<ProfileView>)
    requires
        a.to_multiset() == b.to_multiset(),
        sorted_by_name(a),
        sorted_by_name(b),
        distinct_names(a),
    ensures
        a == b,
    decreases a.len(),
{
    broadcast use vstd::seq_lib::group_to_multiset_ensures;

    lemma_same_multiset_distinct(a, b);
    if a.len() == 0 {
        vstd::seq_lib::to_multiset_len(a);
        vstd::seq_lib::to_multiset_len(b);
        assert(a =~= b);
    } else {
        vstd::seq_lib::to_multiset_len(a);
        vstd::seq_lib::to_multiset_len(b);
        assert(b.len() == a.len());
        let a0 = a[0];
        let b0 = b[0];
        assert(b.contains(b0));
        assert(a.to_multiset().count(b0) > 0);
        assert(a.contains(a0));
        assert(b.to_multiset().count(a0) > 0);
        let j = choose|j: int| 0 <= j < a.len() && a[j] == b0;
        let k = choose|k: int| 0 <= k < b.len() && b[k] == a0;
        if j != 0 {
            assert(crate::text::bytes_le(encode_utf8(a[0].name), encode_utf8(a[j].name)));
        }
        if k != 0 {
            assert(crate::text::bytes_le(encode_utf8(b[0].name), encode_utf8(b[k].name)));
        }
        if j != 0 && k != 0 {
            crate::text::lemma_bytes_le_antisymmetric(encode_utf8(a0.name), encode_utf8(b0.name));
            vstd::utf8::encode_utf8_decode_utf8(a0.name);
            vstd::utf8::encode_utf8_decode_utf8(b0.name);
            assert(a[0].name == a[j].name);
        }
        assert(a0 == b0);
        let ra = a.remove(0);
        let rb = b.remove(0);
        assert(ra.to_multiset() == a.to_multiset().remove(a0));
        assert(rb.to_multiset() == b.to_multiset().remove(b0));
        assert(sorted_by_name(ra)) by {
            assert forall|x: int, y: int| 0 <= x < y < ra.len() implies crate::text::bytes_le(
                encode_utf8((#[trigger] ra[x]).name),
                encode_utf8((#[trigger] ra[y]).name),
            ) by {
                assert(ra[x] == a[x + 1] && ra[y] == a[y + 1]);
            }
        }
        assert(sorted_by_name(rb)) by {
            assert forall|x: int, y: int| 0 <= x < y < rb.len() implies crate::text::bytes_le(
                encode_utf8((#[trigger] rb[x]).name),
                encode_utf8((#[trigger] rb[y]).name),
            ) by {
                assert(rb[x] == b[x + 1] && rb[y] == b[y + 1]);
            }
        }
        assert(distinct_names(ra)) by {
            assert forall|x: int, y: int| 0 <= x < y < ra.len() implies (#[trigger] ra[x]).name
                != (#[trigger] ra[y]).name by {
                assert(ra[x] == a[x + 1] && ra[y] == a[y + 1]);
            }
        }
        lemma_sorted_unique(ra, rb);
        assert(a =~= seq![a0] + ra);
        assert(b =~= seq![b0] + rb);
    }
}

/// Listing depends on nothing but the directory listing itself, the names,
/// kinds and `account` files of its entries: nothing under a profile's `gws`
/// directory goes in. When the entries' names differ, as in any real directory,
/// every result that `list`'s contract admits is the same sequence, and it is
/// strictly ascending by name.
pub proof fn law_list_is_determined(
    profiles: Seq<char>,
    entries: Seq<ListedEntry>,
    a: Seq<ProfileView>,
    b: Seq<ProfileView>,
)
    requires
        distinct_file_names(entries),
        a.to_multiset() == listed_profiles(profiles, entries).to_multiset(),
        b.to_multiset() == listed_profiles(profiles, entries).to_multiset(),
        sorted_by_name(a),
        sorted_by_name(b),
    ensures
        a == b,
        strictly_ascending(a),
{
    lemma_listed_names_distinct(profiles, entries);
    lemma_same_multiset_distinct(listed_profiles(profiles, entries), a);
    lemma_sorted_unique(a, b);
}

/// The name rule: a name is accepted exactly when it is non-empty, at most 64
/// bytes, does not start with `-` or `.`, and every character is an ASCII
/// letter or digit, `.`, `_` or `-`; an empty name and an over-long one get
/// their own refusals.
pub proof fn law_name_rule(name: Seq<char>)
    ensures
        name_problem(name) is None <==> {
            &&& name.len() >= 1
            &&& encode_utf8(name).len() <= 64
            &&& name[0] != '-' && name[0] != '.'
            &&& forall|i: int|
                0 <= i < name.len() ==> {
                    let c = #[trigger] name[i];
                    ('a' <= c && c <= 'z') || ('A' <= c && c <= 'Z') || ('0' <= c && c <= '9') || c
                        == '.' || c == '_' || c == '-'
                }
        },
        name.len() == 0 ==> name_problem(name) == Some(Problem::EmptyName),
        name.len() > 0 && encode_utf8(name).len() > 64 ==> name_problem(name) == Some(
            Problem::NameTooLong,
        ),
{
    if name_problem(name) is None {
        assert forall|i: int| 0 <= i < name.len() implies {
            let c = #[trigger] name[i];
            ('a' <= c && c <= 'z') || ('A' <= c && c <= 'Z') || ('0' <= c && c <= '9') || c == '.'
                || c == '_' || c == '-'
        } by {
            assert(is_name_char(name[i]));
        }
    }
}

/// The account rule: an account is accepted exactly when it is non-empty, at
/// most 254 bytes, holds no control or white space character, and holds an `@`.
pub proof fn law_account_rule(account: Seq<char>)
    ensures
        account_problem(account) is None <==> {
            &&& account.len() >= 1
            &&& encode_utf8(account).len() <= 254
            &&& forall|i: int|
                0 <= i < account.len() ==> !is_control(#[trigger] account[i]) && !is_whitespace(
                    account[i],
                )
            &&& exists|i: int| 0 <= i < account.len() && #[trigger] account[i] == '@'
        },
{
    if exists|i: int| 0 <= i < account.len() && #[trigger] account[i] == '@' {
        let i = choose|i: int| 0 <= i < account.len() && #[trigger] account[i] == '@';
        assert(account.contains('@'));
    }
}

proof fn lemma_listed_contains_rev(profiles: Seq<char>, e: Seq<ListedEntry>, i: int)
    requires
        0 <= i < e.len(),
        listed_profile(profiles, e[i]) is Some,
    ensures
        listed_profiles(profiles, e).contains(listed_profile(profiles, e[i])->0),
    decreases e.len(),
{
    let f = |x: ListedEntry| listed_profile(profiles, x);
    assert(listed_profiles(profiles, e) == e.filter_map(f));
    let front = e.drop_last();
    assert(listed_profiles(profiles, front) == front.filter_map(f));
    if i == e.len() - 1 {
        assert(e.last() == e[i]);
        let l = e.filter_map(f);
        assert(l[l.len() - 1] == listed_profile(profiles, e[i])->0);
    } else {
        assert(front[i] == e[i]);
        lemma_listed_contains_rev(profiles, front, i);
        let l = front.filter_map(f);
        let k = choose|k: int| 0 <= k < l.len() && l[k] == listed_profile(profiles, e[i])->0;
        assert(e.filter_map(f)[k] == l[k]);
    }
}

/// What the listing holds: a profile is listed exactly when some entry is a
/// directory whose name is valid, and the profile is that entry loaded from
/// `<profiles>/<name>` with the entry's `account` file. Files, invalid names
/// and undecodable names are left out.
pub proof fn law_listed_profiles_membership(
    profiles: Seq<char>,
    e: Seq<ListedEntry>,
    p: ProfileView,
)
    ensures
        listed_profiles(profiles, e).contains(p) <==> exists|i: int|
            0 <= i < e.len() && (#[trigger] e[i]).is_dir && e[i].file_name is Some && name_problem(
                e[i].file_name->0@,
            ) is None && p == load_spec(
                e[i].file_name->0@,
                join(profiles, e[i].file_name->0@),
                e[i].account_file@,
            ),
{
    let f = |x: ListedEntry| listed_profile(profiles, x);
    assert(listed_profiles(profiles, e) == e.filter_map(f));
    if listed_profiles(profiles, e).contains(p) {
        e.lemma_filter_map_contains(f, p);
        let t = choose|t: ListedEntry| #[trigger] e.contains(t) && f(t) == Some(p);
        let i = choose|i: int| 0 <= i < e.len() && e[i] == t;
        assert(e[i].is_dir);
    }
    if exists|i: int|
        0 <= i < e.len() && (#[trigger] e[i]).is_dir && e[i].file_name is Some && name_problem(
            e[i].file_name->0@,
        ) is None && p == load_spec(
            e[i].file_name->0@,
            join(profiles, e[i].file_name->0@),
            e[i].account_file@,
        ) {
        let i = choose|i: int|
            0 <= i < e.len() && (#[trigger] e[i]).is_dir && e[i].file_name is Some && name_problem(
                e[i].file_name->0@,
            ) is None && p == load_spec(
                e[i].file_name->0@,
                join(profiles, e[i].file_name->0@),
                e[i].account_file@,
            );
        lemma_listed_contains_rev(profiles, e, i);
    }
}

/// A listing sorted by name puts every name no later than the names after it
/// in std's `str` order: a name before its extensions, otherwise by the first
/// differing byte.
pub proof fn law_sorted_listing_order(s: Seq<ProfileView>, i: int, j: int)
    requires
        sorted_by_name(s),
        0 <= i < j < s.len(),
    ensures
        ({
            let a = encode_utf8(s[i].name);
            let b = encode_utf8(s[j].name);
            (a.len() <= b.len() && b.take(a.len() as int) == a) || exists|k: int|
                0 <= k < a.len() && k < b.len() && a.take(k) == b.take(k) && #[trigger] a[k] < b[k]
        }),
{
    crate::text::law_bytes_le_is_lexicographic(encode_utf8(s[i].name), encode_utf8(s[j].name));
}

/// Where the configuration root comes from: an absolute `XDG_CONFIG_HOME`
/// decides it alone, whatever `HOME` holds; otherwise only `HOME` counts, and a
/// relative or missing `XDG_CONFIG_HOME` is ignored. A root is always absolute
/// and always ends in the component `gw`.
pub proof fn law_config_root_sources(e1: ConfigEnv, e2: ConfigEnv)
    ensures
        (e1.xdg_config_home is Some && e2.xdg_config_home is Some && e1.xdg_config_home->0@
            == e2.xdg_config_home->0@ && is_absolute(e1.xdg_config_home->0@))
            ==> config_root_spec(e1) == config_root_spec(e2),
        (!(e1.xdg_config_home is Some && is_absolute(e1.xdg_config_home->0@)) && !(
        e2.xdg_config_home is Some && is_absolute(e2.xdg_config_home->0@)) && (e1.home is Some
            <==> e2.home is Some) && (e1.home is Some ==> e1.home->0@ == e2.home->0@))
            ==> config_root_spec(e1) == config_root_spec(e2),
        config_root_spec(e1) is Ok ==> {
            let r = config_root_spec(e1)->Ok_0;
            &&& is_absolute(r)
            &&& r.len() >= 3
            &&& r.skip(r.len() - 3) == seq!['/', 'g', 'w']
        },
{
    reveal_strlit("gw");
    reveal_strlit(".config");
    if config_root_spec(e1) is Ok {
        let r = config_root_spec(e1)->Ok_0;
        if e1.xdg_config_home is Some && is_absolute(e1.xdg_config_home->0@) {
            let x = e1.xdg_config_home->0@;
            if x.last() == '/' {
                assert(x.len() >= 1);
                assert(r.skip(r.len() - 3) =~= seq![x.last(), 'g', 'w']);
            } else {
                assert(r.skip(r.len() - 3) =~= seq!['/', 'g', 'w']);
            }
            assert(r[0] == x[0]);
        } else {
            let h = e1.home->0@;
            let c = join(h, ".config"@);
            assert(c.last() == 'g');
            assert(r.skip(r.len() - 3) =~= seq!['/', 'g', 'w']);
            assert(c[0] == h[0]);
            assert(r[0] == c[0]);
        }
    }
}

} // verus!
