//! The user's configuration (where the workspace is) and the fixed layout of
//! the workspace.
use crate::app_paths::AppPaths;
use crate::paths::{camino_is_absolute, camino_join, path_is_absolute, path_join};
use crate::text::{has_prefix, push_str, str_eq, str_starts_with};
use vstd::prelude::*;

verus! {

/// The configuration.
pub struct Config {
    pub workspace_root: String,
}

/// The configuration as its file holds it.
pub struct ConfigFile {
    pub workspace_root: String,
}

/// Why no configuration could be had.
pub enum ConfigError {
    /// There is no configuration file yet.
    NotConfigured,
}

impl ConfigError {
    /// The error's message.
    pub fn message(&self) -> (m: String)
        ensures
            m@ == "run 'nanite setup <path>' first"@,
    {
        "run 'nanite setup <path>' first".to_owned()
    }
}

/// A configured path made concrete: `~` is the home directory and a leading
/// `~/` stands for it; a path still relative is taken under the configuration
/// directory.
pub open spec fn expand_path_spec(value: Seq<char>, home: Seq<char>, config_dir: Seq<char>) -> Seq<char> {
    let expanded = if value == "~"@ {
        home
    } else if has_prefix(value, "~/"@) {
        home + "/"@ + value.skip(2)
    } else {
        value
    };
    if camino_is_absolute(expanded) {
        expanded
    } else {
        camino_join(config_dir, expanded)
    }
}

/// Expands a configured path (see [`expand_path_spec`]).
pub fn expand_path(value: &str, paths: &AppPaths) -> (r: String)
    ensures
        r@ == expand_path_spec(value@, paths@.home, paths@.config),
{
    let home = paths.home_dir();
    let expanded = if str_eq(value, "~") {
        home.to_owned()
    } else if str_starts_with(value, "~/") {
        let chars = crate::text::to_chars(value);
        proof {
            reveal_strlit("~/");
        }
        assert(chars@.len() >= 2);
        let rest = crate::text::string_from_range(&chars, 2, chars.len());
        assert(rest@ =~= value@.skip(2));
        let mut e = home.to_owned();
        push_str(&mut e, "/");
        push_str(&mut e, rest.as_str());
        e
    } else {
        value.to_owned()
    };
    if path_is_absolute(expanded.as_str()) {
        return expanded;
    }
    path_join(paths.config_dir(), expanded.as_str())
}

impl Config {
    /// The configuration loaded, or the hint to run setup where there was none.
    pub fn load(loaded: Option<Config>) -> (r: Result<Config, ConfigError>)
        ensures
            match loaded {
                Some(c) => r matches Ok(d) && d.workspace_root@ == c.workspace_root@,
                None => r is Err,
            },
    {
        match loaded {
            Some(c) => Ok(c),
            None => Err(ConfigError::NotConfigured),
        }
    }

    /// The default configuration: the workspace is `development` under the
    /// home directory.
    pub fn default_for(paths: &AppPaths) -> (r: Config)
        ensures
            r.workspace_root@ == camino_join(paths@.home, "development"@),
    {
        Config { workspace_root: path_join(paths.home_dir(), "development") }
    }

    /// The configuration a file holds, its workspace path expanded.
    pub fn from_file(file: &ConfigFile, paths: &AppPaths) -> (r: Config)
        ensures
            r.workspace_root@ == expand_path_spec(file.workspace_root@, paths@.home, paths@.config),
    {
        Config { workspace_root: expand_path(file.workspace_root.as_str(), paths) }
    }

    /// The configuration as its file holds it.
    pub fn to_file(&self) -> (r: ConfigFile)
        ensures
            r.workspace_root@ == self.workspace_root@,
    {
        ConfigFile { workspace_root: self.workspace_root.clone() }
    }

    /// The layout of the configured workspace.
    pub fn workspace_paths(&self) -> (r: WorkspacePaths)
        ensures
            r@ == workspace_layout(self.workspace_root@),
    {
        WorkspacePaths::new(self.workspace_root.clone())
    }
}

/// The fixed layout of a workspace.
pub struct WorkspacePaths {
    root: String,
    repos_root: String,
    skills_root: String,
    templates_root: String,
}

/// The layout of a workspace as plain values: the root, then the `repos`,
/// `skills` and `templates` directories under it.
pub open spec fn workspace_layout(root: Seq<char>) -> (Seq<char>, Seq<char>, Seq<char>, Seq<char>) {
    (root, camino_join(root, "repos"@), camino_join(root, "skills"@), camino_join(root, "templates"@))
}

impl WorkspacePaths {
    pub closed spec fn view(&self) -> (Seq<char>, Seq<char>, Seq<char>, Seq<char>) {
        (self.root@, self.repos_root@, self.skills_root@, self.templates_root@)
    }

    /// The layout of the workspace at `root` (see [`workspace_layout`]).
    pub fn new(root: String) -> (r: WorkspacePaths)
        ensures
            r@ == workspace_layout(root@),
    {
        WorkspacePaths {
            repos_root: path_join(root.as_str(), "repos"),
            skills_root: path_join(root.as_str(), "skills"),
            templates_root: path_join(root.as_str(), "templates"),
            root,
        }
    }

    /// The workspace root.
    pub fn root(&self) -> (r: &str)
        ensures
            r@ == self@.0,
    {
        self.root.as_str()
    }

    /// Where repositories are kept.
    pub fn repos_root(&self) -> (r: &str)
        ensures
            r@ == self@.1,
    {
        self.repos_root.as_str()
    }

    /// Where skills are kept.
    pub fn skills_root(&self) -> (r: &str)
        ensures
            r@ == self@.2,
    {
        self.skills_root.as_str()
    }

    /// Where templates are kept.
    pub fn templates_root(&self) -> (r: &str)
        ensures
            r@ == self@.3,
    {
        self.templates_root.as_str()
    }
}

} // verus!
