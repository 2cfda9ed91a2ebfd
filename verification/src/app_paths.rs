//! Where the application keeps its files: configuration, data and state
//! directories, worked out from the environment.
use crate::paths::{camino_join, path_join};
use crate::text::str_eq;
use vstd::prelude::*;

verus! {

/// The application's directories.
pub struct AppPaths {
    config: String,
    codex_home: String,
    data: String,
    home: String,
    state: String,
}

/// The application's directories as plain values.
pub struct AppPathsView {
    pub config: Seq<char>,
    pub codex_home: Seq<char>,
    pub data: Seq<char>,
    pub home: Seq<char>,
    pub state: Seq<char>,
}

/// Why the directories could not be worked out.
pub enum AppPathsError {
    /// `HOME` is not set.
    MissingHome,
}

impl AppPathsError {
    /// The error's message.
    pub fn message(&self) -> (m: String)
        ensures
            m@ == "HOME is not set and no Nanite directory overrides were provided"@,
    {
        "HOME is not set and no Nanite directory overrides were provided".to_owned()
    }
}

/// An environment as a list of variables, each a name and a value.
pub open spec fn env_view(env: Seq<(String, String)>) -> Seq<(Seq<char>, Seq<char>)> {
    env.map_values(|e: (String, String)| (e.0@, e.1@))
}

/// The value of the first variable of `env` named `key`.
pub open spec fn env_lookup(env: Seq<(Seq<char>, Seq<char>)>, key: Seq<char>) -> Option<Seq<char>>
    decreases env.len(),
{
    if env.len() == 0 {
        None
    } else if env[0].0 == key {
        Some(env[0].1)
    } else {
        env_lookup(env.drop_first(), key)
    }
}

/// A directory of the application: the override variable's value where it is
/// set; else `nanite` under the XDG directory where that is set; else the
/// fallback under the home directory.
pub open spec fn resolve_dir_spec(
    env: Seq<(Seq<char>, Seq<char>)>,
    override_key: Seq<char>,
    xdg_key: Seq<char>,
    home: Seq<char>,
    fallback_suffix: Seq<char>,
) -> Seq<char> {
    match env_lookup(env, override_key) {
        Some(v) => v,
        None => match env_lookup(env, xdg_key) {
            Some(d) => camino_join(d, "nanite"@),
            None => camino_join(home, fallback_suffix),
        },
    }
}

/// The directories an environment gives, where `HOME` is set.
pub open spec fn app_paths_spec(env: Seq<(Seq<char>, Seq<char>)>) -> Option<AppPathsView> {
    match env_lookup(env, "HOME"@) {
        None => None,
        Some(home) => Some(AppPathsView {
            config: resolve_dir_spec(env, "NANITE_CONFIG_DIR"@, "XDG_CONFIG_HOME"@, home, ".config/nanite"@),
            codex_home: match env_lookup(env, "CODEX_HOME"@) {
                Some(v) => v,
                None => camino_join(home, ".codex"@),
            },
            data: resolve_dir_spec(env, "NANITE_DATA_DIR"@, "XDG_DATA_HOME"@, home, ".local/share/nanite"@),
            home,
            state: resolve_dir_spec(env, "NANITE_STATE_DIR"@, "XDG_STATE_HOME"@, home, ".local/state/nanite"@),
        }),
    }
}

/// The value of the first variable named `key` (see [`env_lookup`]).
fn lookup(env: &Vec<(String, String)>, key: &str) -> (r: Option<String>)
    ensures
        match r {
            Some(v) => env_lookup(env_view(env@), key@) == Some(v@),
            None => env_lookup(env_view(env@), key@) is None,
        },
{
    let ghost ev = env_view(env@);
    let mut k: usize = 0;
    assert(ev.skip(0) =~= ev);
    while k < env.len()
        invariant
            k <= env@.len(),
            ev == env_view(env@),
            env_lookup(ev, key@) == env_lookup(ev.skip(k as int), key@),
        decreases env.len() - k,
    {
        assert(ev.skip(k as int)[0] == (env@[k as int].0@, env@[k as int].1@));
        assert(ev.skip(k as int).drop_first() =~= ev.skip(k + 1));
        if str_eq(env[k].0.as_str(), key) {
            return Some(env[k].1.clone());
        }
        k += 1;
    }
    assert(ev.skip(env@.len() as int) =~= Seq::<(Seq<char>, Seq<char>)>::empty());
    None
}

/// One directory of the application (see [`resolve_dir_spec`]).
fn resolve_dir(env: &Vec<(String, String)>, override_key: &str, xdg_key: &str, home: &str, fallback_suffix: &str) -> (r: String)
    ensures
        r@ == resolve_dir_spec(env_view(env@), override_key@, xdg_key@, home@, fallback_suffix@),
{
    if let Some(value) = lookup(env, override_key) {
        return value;
    }
    if let Some(dir) = lookup(env, xdg_key) {
        return path_join(dir.as_str(), "nanite");
    }
    path_join(home, fallback_suffix)
}

impl AppPaths {
    pub closed spec fn view(&self) -> AppPathsView {
        AppPathsView {
            config: self.config@,
            codex_home: self.codex_home@,
            data: self.data@,
            home: self.home@,
            state: self.state@,
        }
    }

    /// Works out the directories from an environment (see [`app_paths_spec`]);
    /// refused where `HOME` is not set.
    pub fn from_env(env: &Vec<(String, String)>) -> (r: Result<AppPaths, AppPathsError>)
        ensures
            match r {
                Ok(p) => app_paths_spec(env_view(env@)) == Some(p@),
                Err(_) => app_paths_spec(env_view(env@)) is None,
            },
    {
        let home = match lookup(env, "HOME") {
            Some(h) => h,
            None => return Err(AppPathsError::MissingHome),
        };
        let config = resolve_dir(env, "NANITE_CONFIG_DIR", "XDG_CONFIG_HOME", home.as_str(), ".config/nanite");
        let codex_home = match lookup(env, "CODEX_HOME") {
            Some(v) => v,
            None => path_join(home.as_str(), ".codex"),
        };
        let data = resolve_dir(env, "NANITE_DATA_DIR", "XDG_DATA_HOME", home.as_str(), ".local/share/nanite");
        let state = resolve_dir(env, "NANITE_STATE_DIR", "XDG_STATE_HOME", home.as_str(), ".local/state/nanite");
        Ok(AppPaths { config, codex_home, data, home, state })
    }

    /// The configuration directory.
    pub fn config_dir(&self) -> (r: &str)
        ensures
            r@ == self@.config,
    {
        self.config.as_str()
    }

    /// The data directory.
    pub fn data_dir(&self) -> (r: &str)
        ensures
            r@ == self@.data,
    {
        self.data.as_str()
    }

    /// Codex's home directory.
    pub fn codex_home_root(&self) -> (r: &str)
        ensures
            r@ == self@.codex_home,
    {
        self.codex_home.as_str()
    }

    /// Where Codex looks for skills: `skills` under its home directory.
    pub fn codex_skills_root(&self) -> (r: String)
        ensures
            r@ == camino_join(self@.codex_home, "skills"@),
    {
        path_join(self.codex_home.as_str(), "skills")
    }

    /// The home directory.
    pub fn home_dir(&self) -> (r: &str)
        ensures
            r@ == self@.home,
    {
        self.home.as_str()
    }

    /// The state directory.
    pub fn state_dir(&self) -> (r: &str)
        ensures
            r@ == self@.state,
    {
        self.state.as_str()
    }

    /// The configuration file: `config.toml` in the configuration directory.
    pub fn config_file(&self) -> (r: String)
        ensures
            r@ == camino_join(self@.config, "config.toml"@),
    {
        path_join(self.config.as_str(), "config.toml")
    }

    /// The registry file: `registry.json` in the state directory.
    pub fn registry_file(&self) -> (r: String)
        ensures
            r@ == camino_join(self@.state, "registry.json"@),
    {
        path_join(self.state.as_str(), "registry.json")
    }

    /// The search index: `search-index` in the state directory.
    pub fn search_index_root(&self) -> (r: String)
        ensures
            r@ == camino_join(self@.state, "search-index"@),
    {
        path_join(self.state.as_str(), "search-index")
    }

    /// Where skills are rendered for Codex: `rendered/codex` in the data
    /// directory.
    pub fn codex_render_root(&self) -> (r: String)
        ensures
            r@ == camino_join(self@.data, "rendered/codex"@),
    {
        path_join(self.data.as_str(), "rendered/codex")
    }
}

} // verus!
