//! What the engine knows of the machine it runs on: the user's environment,
//! the standard directories and the configuration.

use crate::config::{AppConfig, DeviceConfig};
use crate::utils::paths::{
    app_dir_or, dir_or, expanded_path, joined, system_config_dir, system_data_dir, system_home_dir,
    PathError, APP_DIR,
};
use vstd::prelude::*;

verus! {

/// The user's environment: home directory, user name, user id, and the
/// environment variables as they stood when it was gathered.
#[derive(Debug)]
pub struct EnvContext {
    pub home: String,
    pub user: String,
    pub uid: String,
    /// The environment variables, name and value.
    pub vars: Vec<(String, String)>,
}

/// The environment as contracts see it.
pub struct EnvSpec {
    pub home: Seq<char>,
    pub user: Seq<char>,
    pub uid: Seq<char>,
    pub vars: Seq<(Seq<char>, Seq<char>)>,
}

/// The variables that a sequence of name and value pairs stands for.
pub open spec fn var_specs(vars: Seq<(String, String)>) -> Seq<(Seq<char>, Seq<char>)> {
    vars.map_values(|v: (String, String)| (v.0@, v.1@))
}

impl View for EnvContext {
    type V = EnvSpec;

    open spec fn view(&self) -> EnvSpec {
        EnvSpec { home: self.home@, user: self.user@, uid: self.uid@, vars: var_specs(self.vars@) }
    }
}

impl Clone for EnvContext {
    fn clone(&self) -> (r: Self)
        ensures
            r@ == self@,
    {
        let mut vars: Vec<(String, String)> = Vec::new();
        let mut i: usize = 0;
        while i < self.vars.len()
            invariant
                i <= self.vars.len(),
                vars.len() == i,
                forall|k: int|
                    0 <= k < i ==> vars[k].0@ == self.vars[k].0@ && vars[k].1@ == self.vars[k].1@,
            decreases self.vars.len() - i,
        {
            vars.push((self.vars[i].0.clone(), self.vars[i].1.clone()));
            i += 1;
        }
        assert(var_specs(vars@) =~= var_specs(self.vars@));
        EnvContext {
            home: self.home.clone(),
            user: self.user.clone(),
            uid: self.uid.clone(),
            vars,
        }
    }
}

/// Resolves path patterns against an environment.
#[derive(Debug)]
pub struct PathExpander {
    pub ctx: EnvContext,
}

impl Clone for PathExpander {
    fn clone(&self) -> (r: Self)
        ensures
            r.ctx@ == self.ctx@,
    {
        PathExpander { ctx: self.ctx.clone() }
    }
}

/// The standard directories of the user and of the application.
#[derive(Debug)]
pub struct Paths {
    pub home: String,
    pub data: String,
    pub conf: String,
}

impl Clone for Paths {
    fn clone(&self) -> (r: Self)
        ensures
            r.home@ == self.home@,
            r.data@ == self.data@,
            r.conf@ == self.conf@,
    {
        Paths { home: self.home.clone(), data: self.data.clone(), conf: self.conf.clone() }
    }
}

impl Paths {
    /// The standard directories from what the system gave for the user's
    /// home, data and configuration directories: the home directory as it
    /// is, the application's own directory below each of the other two.
    /// Fails with the first of them, in this order, that is missing.
    pub fn from_dirs(home: Option<String>, data: Option<String>, conf: Option<String>) -> (r:
        Result<Paths, PathError>)
        ensures
            match (home, data, conf) {
                (Some(h), Some(d), Some(c)) => r is Ok && r->Ok_0.home == h && r->Ok_0.data@
                    == joined(d@, APP_DIR@) && r->Ok_0.conf@ == joined(c@, APP_DIR@),
                (None, _, _) => r == Err::<Paths, PathError>(PathError::NoHomeDir),
                (Some(_), None, _) => r == Err::<Paths, PathError>(PathError::NoDataDir),
                (Some(_), Some(_), None) => r == Err::<Paths, PathError>(PathError::NoConfigDir),
            },
    {
        let home = match dir_or(home, PathError::NoHomeDir) {
            Ok(p) => p,
            Err(e) => {
                return Err(e);
            },
        };
        let data = match app_dir_or(data, PathError::NoDataDir) {
            Ok(p) => p,
            Err(e) => {
                return Err(e);
            },
        };
        let conf = match app_dir_or(conf, PathError::NoConfigDir) {
            Ok(p) => p,
            Err(e) => {
                return Err(e);
            },
        };
        Ok(Paths { home, data, conf })
    }

    /// Asks the system for the user's home, data and configuration
    /// directories and builds the standard directories from them as
    /// [`Paths::from_dirs`] does.
    pub fn locate() -> (r: Result<Paths, PathError>)
        ensures
            r is Ok ==> (exists|d: Seq<char>| r->Ok_0.data@ == #[trigger] joined(d, APP_DIR@)) && (
            exists|c: Seq<char>| r->Ok_0.conf@ == #[trigger] joined(c, APP_DIR@)),
    {
        let home = system_home_dir();
        let data = system_data_dir();
        let conf = system_config_dir();
        Paths::from_dirs(home, data, conf)
    }
}

/// All that a planning pass works from.
#[derive(Debug)]
pub struct ExecutionContext {
    pub config: AppConfig,
    pub env: EnvContext,
    pub expander: PathExpander,
    pub paths: Paths,
}

impl ExecutionContext {
    /// A context for `config` in the environment `env`, with the standard
    /// directories `paths`. Patterns are resolved against `env`.
    pub fn new(config: AppConfig, env: EnvContext, paths: Paths) -> (r: Self)
        ensures
            r.config == config,
            r.env == env,
            r.paths == paths,
            r.expander.ctx@ == env@,
    {
        let expander = PathExpander::new(env.clone());
        ExecutionContext { config, env, expander, paths }
    }

    /// The mount path of a device: its pattern resolved for this device.
    pub fn expand_mount(&self, dev: &DeviceConfig) -> (r: String)
        ensures
            r@ == expanded_path(self.expander.ctx@, dev.mount@, dev.name@),
    {
        self.expander.expand(dev.mount.as_str(), dev.name.as_str())
    }
}

} // verus!
