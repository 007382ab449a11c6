//! Paths as texts: joining and comparing them, the standard directories, and
//! the resolution of path patterns.

use crate::context::{var_specs, EnvContext, EnvSpec, PathExpander};
use crate::utils::text::{concat3, replace_all, replaced, str_eq, text_of};
use vstd::prelude::*;
use vstd::string::*;

verus! {

/// The directory, below the system's data and configuration directories,
/// that belongs to this application.
pub const APP_DIR: &'static str = "sonik";

/// Why a standard directory could not be found.
#[derive(Debug, Clone, Copy, PartialEq, Eq, Structural)]
pub enum PathError {
    NoDataDir,
    NoConfigDir,
    NoHomeDir,
}

impl PathError {
    /// The message shown for this error.
    pub fn message(&self) -> (r: &'static str)
        ensures
            r@ == match *self {
                PathError::NoDataDir => "Failed to locate user data directory"@,
                PathError::NoConfigDir => "Failed to locate user config directory"@,
                PathError::NoHomeDir => "Failed to locate user home directory"@,
            },
    {
        match self {
            PathError::NoDataDir => "Failed to locate user data directory",
            PathError::NoConfigDir => "Failed to locate user config directory",
            PathError::NoHomeDir => "Failed to locate user home directory",
        }
    }
}

/// A path with another adjoined, as `std::path::Path::join` gives it.
pub uninterp spec fn joined(base: Seq<char>, rel: Seq<char>) -> Seq<char>;

/// Whether `base` is a prefix of `path` by whole components, as
/// `std::path::Path::starts_with` decides it.
pub uninterp spec fn path_starts_with(path: Seq<char>, base: Seq<char>) -> bool;

/// Whether a path is absolute, as `std::path::Path::is_absolute` decides it.
pub uninterp spec fn is_absolute_path(path: Seq<char>) -> bool;

/// What is left of `path` below `base`, as `std::path::Path::strip_prefix`
/// gives it.
pub uninterp spec fn stripped(path: Seq<char>, base: Seq<char>) -> Option<Seq<char>>;

/// A text with its variable references resolved against the given variables,
/// as `shellexpand::env_with_context_no_errors` gives it.
pub uninterp spec fn env_expanded(input: Seq<char>, vars: Seq<(Seq<char>, Seq<char>)>) -> Seq<char>;

/// `Path::join`: `rel` adjoined to `base`; an absolute `rel` replaces `base`.
/// The result is named, not described.
#[verifier::external_body]
pub(crate) fn join_path(base: &str, rel: &str) -> (r: String)
    ensures
        r@ == joined(base@, rel@),
{
    std::path::Path::new(base).join(rel).to_string_lossy().into_owned()
}

/// `Path::starts_with`: whether `base` is a prefix of `path`, whole
/// components only. The result is named, not described.
#[verifier::external_body]
pub(crate) fn starts_with_path(path: &str, base: &str) -> (r: bool)
    ensures
        r == path_starts_with(path@, base@),
{
    std::path::Path::new(path).starts_with(base)
}

/// `Path::is_absolute`. The result is named, not described.
#[verifier::external_body]
pub(crate) fn is_absolute(path: &str) -> (r: bool)
    ensures
        r == is_absolute_path(path@),
{
    std::path::Path::new(path).is_absolute()
}

/// `Path::strip_prefix`: the rest of `path` below `base`. As documented,
/// there is one exactly when `base` is a prefix of `path` in the sense of
/// `Path::starts_with`. The result itself is named, not described.
#[verifier::external_body]
pub(crate) fn strip_prefix(path: &str, base: &str) -> (r: Option<String>)
    ensures
        opt_path(r) == stripped(path@, base@),
        r is Some <==> path_starts_with(path@, base@),
{
    match std::path::Path::new(path).strip_prefix(base) {
        Ok(rest) => Some(rest.to_string_lossy().into_owned()),
        Err(_) => None,
    }
}

/// The text that an optional path stands for.
pub open spec fn opt_path(p: Option<String>) -> Option<Seq<char>> {
    match p {
        Some(s) => Some(s@),
        None => None,
    }
}

/// `dirs::data_dir`: the user's data directory as the system and the
/// environment give it. Nothing is claimed of the value.
#[verifier::external_body]
pub(crate) fn system_data_dir() -> Option<String> {
    dirs::data_dir().map(|p| p.to_string_lossy().into_owned())
}

/// `dirs::config_dir`: the user's configuration directory as the system and
/// the environment give it. Nothing is claimed of the value.
#[verifier::external_body]
pub(crate) fn system_config_dir() -> Option<String> {
    dirs::config_dir().map(|p| p.to_string_lossy().into_owned())
}

/// `dirs::home_dir`: the user's home directory as the system and the
/// environment give it. Nothing is claimed of the value.
#[verifier::external_body]
pub(crate) fn system_home_dir() -> Option<String> {
    dirs::home_dir().map(|p| p.to_string_lossy().into_owned())
}

/// A directory that the system was asked for: the directory where it gave
/// one, else the error `missing`.
pub fn dir_or(found: Option<String>, missing: PathError) -> (r: Result<String, PathError>)
    ensures
        match found {
            Some(p) => r == Ok::<String, PathError>(p),
            None => r == Err::<String, PathError>(missing),
        },
{
    match found {
        Some(p) => Ok(p),
        None => Err(missing),
    }
}

/// The application's own directory below a directory that the system was
/// asked for, or the error `missing` where the system gave none.
pub fn app_dir_or(found: Option<String>, missing: PathError) -> (r: Result<String, PathError>)
    ensures
        match found {
            Some(base) => r is Ok && r->Ok_0@ == joined(base@, APP_DIR@),
            None => r == Err::<String, PathError>(missing),
        },
{
    match found {
        Some(base) => Ok(join_path(base.as_str(), APP_DIR)),
        None => Err(missing),
    }
}

/// The user's data directory; fails only with `NoDataDir`, where the system
/// knows none.
pub fn data_dir() -> (r: Result<String, PathError>)
    ensures
        r is Err ==> r->Err_0 == PathError::NoDataDir,
{
    dir_or(system_data_dir(), PathError::NoDataDir)
}

/// The user's configuration directory; fails only with `NoConfigDir`, where
/// the system knows none.
pub fn config_dir() -> (r: Result<String, PathError>)
    ensures
        r is Err ==> r->Err_0 == PathError::NoConfigDir,
{
    dir_or(system_config_dir(), PathError::NoConfigDir)
}

/// The user's home directory; fails only with `NoHomeDir`, where the system
/// knows none.
pub fn home_dir() -> (r: Result<String, PathError>)
    ensures
        r is Err ==> r->Err_0 == PathError::NoHomeDir,
{
    dir_or(system_home_dir(), PathError::NoHomeDir)
}

/// The application's data directory: its own directory below the user's
/// data directory. Fails only with `NoDataDir`, where the system knows no
/// data directory.
pub fn app_data_dir() -> (r: Result<String, PathError>)
    ensures
        match r {
            Ok(p) => exists|base: Seq<char>| p@ == #[trigger] joined(base, APP_DIR@),
            Err(e) => e == PathError::NoDataDir,
        },
{
    app_dir_or(system_data_dir(), PathError::NoDataDir)
}

/// The application's configuration directory: its own directory below the
/// user's configuration directory. Fails only with `NoConfigDir`, where the
/// system knows no configuration directory.
pub fn app_config_dir() -> (r: Result<String, PathError>)
    ensures
        match r {
            Ok(p) => exists|base: Seq<char>| p@ == #[trigger] joined(base, APP_DIR@),
            Err(e) => e == PathError::NoConfigDir,
        },
{
    app_dir_or(system_config_dir(), PathError::NoConfigDir)
}

/// The value of a variable: that of the first pair with this name.
pub open spec fn var_value(vars: Seq<(Seq<char>, Seq<char>)>, name: Seq<char>) -> Option<
    Seq<char>,
>
    decreases vars.len(),
{
    if vars.len() == 0 {
        None
    } else if vars.first().0 == name {
        Some(vars.first().1)
    } else {
        var_value(vars.drop_first(), name)
    }
}

/// Looks a variable up by its name.
pub fn lookup_var(vars: &Vec<(String, String)>, name: &str) -> (r: Option<String>)
    ensures
        opt_path(r) == var_value(var_specs(vars@), name@),
{
    let ghost all = var_specs(vars@);
    let mut i: usize = 0;
    assert(all.skip(0) =~= all);
    while i < vars.len()
        invariant
            i <= vars.len(),
            all == var_specs(vars@),
            var_value(all, name@) == var_value(all.skip(i as int), name@),
        decreases vars.len() - i,
    {
        proof {
            assert(all.skip(i as int).drop_first() =~= all.skip(i + 1));
            assert(all.skip(i as int).first() == all[i as int]);
        }
        if str_eq(vars[i].0.as_str(), name) {
            return Some(vars[i].1.clone());
        }
        i += 1;
    }
    None
}

/// `shellexpand::env_with_context_no_errors`: `input` with each reference
/// to a variable (`$NAME`, `${NAME}`, `${NAME:-default}`) resolved by
/// [`lookup_var`] in `vars`; a reference to an unknown variable stays as it
/// is. The result is named, not described.
#[verifier::external_body]
fn expand_variables(input: &str, vars: &Vec<(String, String)>) -> (r: String)
    ensures
        r@ == env_expanded(input@, var_specs(vars@)),
{
    shellexpand::env_with_context_no_errors(input, |name: &str| lookup_var(vars, name)).into_owned()
}

/// A pattern with a leading `~/` replaced by the home directory and a slash.
pub open spec fn tilde_expanded(home: Seq<char>, input: Seq<char>) -> Seq<char> {
    if input.len() >= 2 && input[0] == '~' && input[1] == '/' {
        home + seq!['/'] + input.skip(2)
    } else {
        input
    }
}

/// A text with the placeholders `{home}`, `{user}`, `{uid}` and `{device}`
/// replaced, one after the other in this order.
pub open spec fn placeholders_filled(env: EnvSpec, s: Seq<char>, device: Seq<char>) -> Seq<char> {
    replaced(
        replaced(replaced(replaced(s, "{home}"@, env.home), "{user}"@, env.user), "{uid}"@, env.uid),
        "{device}"@,
        device,
    )
}

/// The path that a pattern stands for: a leading `~/` becomes the home
/// directory, variable references are resolved, the placeholders are filled
/// in, and a path that is then still relative is taken from the home
/// directory.
pub open spec fn expanded_path(env: EnvSpec, input: Seq<char>, device: Seq<char>) -> Seq<char> {
    let filled = placeholders_filled(
        env,
        env_expanded(tilde_expanded(env.home, input), env.vars),
        device,
    );
    if is_absolute_path(filled) {
        filled
    } else {
        joined(env.home, filled)
    }
}

impl PathExpander {
    /// An expander for the environment `ctx`.
    pub fn new(ctx: EnvContext) -> (r: Self)
        ensures
            r.ctx == ctx,
    {
        PathExpander { ctx }
    }

    fn expand_tilde(&self, input: &str) -> (r: String)
        ensures
            r@ == tilde_expanded(self.ctx.home@, input@),
    {
        let n = input.unicode_len();
        if n >= 2 && input.get_char(0) == '~' && input.get_char(1) == '/' {
            let rest = input.substring_char(2, n);
            proof {
                reveal_strlit("/");
                assert("/"@ =~= seq!['/']);
                assert(input@.subrange(2, n as int) =~= input@.skip(2));
            }
            concat3(self.ctx.home.as_str(), "/", rest)
        } else {
            text_of(input)
        }
    }

    /// Resolves the pattern `input` for the device named `device`.
    pub fn expand(&self, input: &str, device: &str) -> (r: String)
        ensures
            r@ == expanded_path(self.ctx@, input@, device@),
    {
        let out = self.expand_tilde(input);
        let out = expand_variables(out.as_str(), &self.ctx.vars);
        let out = replace_all(out.as_str(), "{home}", self.ctx.home.as_str());
        let out = replace_all(out.as_str(), "{user}", self.ctx.user.as_str());
        let out = replace_all(out.as_str(), "{uid}", self.ctx.uid.as_str());
        let out = replace_all(out.as_str(), "{device}", device);
        if is_absolute(out.as_str()) {
            out
        } else {
            join_path(self.ctx.home.as_str(), out.as_str())
        }
    }
}

} // verus!
