use nanite::app_paths::AppPaths;
use nanite::config::{expand_path, Config, ConfigFile, WorkspacePaths};

fn env(pairs: &[(&str, &str)]) -> Vec<(String, String)> {
    pairs.iter().map(|(k, v)| (k.to_string(), v.to_string())).collect()
}

fn test_paths() -> AppPaths {
    AppPaths::from_env(&env(&[("HOME", "/tmp/home")])).ok().unwrap()
}

fn config_file(text: &str) -> ConfigFile {
    let table: toml::Table = toml::from_str(text).unwrap();
    ConfigFile { workspace_root: table["workspace_root"].as_str().unwrap().to_owned() }
}

#[test]
fn prefers_explicit_nanite_overrides() {
    let env = env(&[
        ("CODEX_HOME", "/tmp/codex"),
        ("HOME", "/tmp/home"),
        ("NANITE_CONFIG_DIR", "/tmp/config"),
        ("NANITE_DATA_DIR", "/tmp/data"),
        ("NANITE_STATE_DIR", "/tmp/state"),
    ]);

    let paths = AppPaths::from_env(&env).ok().unwrap();

    assert_eq!(paths.config_dir(), "/tmp/config");
    assert_eq!(paths.codex_home_root(), "/tmp/codex");
    assert_eq!(paths.codex_skills_root().as_str(), "/tmp/codex/skills");
    assert_eq!(paths.data_dir(), "/tmp/data");
    assert_eq!(paths.state_dir(), "/tmp/state");
}

#[test]
fn falls_back_to_xdg_paths() {
    let env = env(&[
        ("HOME", "/tmp/home"),
        ("XDG_CONFIG_HOME", "/tmp/.config"),
        ("XDG_DATA_HOME", "/tmp/.data"),
        ("XDG_STATE_HOME", "/tmp/.state"),
    ]);

    let paths = AppPaths::from_env(&env).ok().unwrap();

    assert_eq!(paths.config_dir(), "/tmp/.config/nanite");
    assert_eq!(paths.codex_home_root(), "/tmp/home/.codex");
    assert_eq!(paths.data_dir(), "/tmp/.data/nanite");
    assert_eq!(paths.state_dir(), "/tmp/.state/nanite");
}

#[test]
fn falls_back_to_home_when_xdg_is_missing() {
    let env = env(&[("HOME", "/tmp/home")]);

    let paths = AppPaths::from_env(&env).ok().unwrap();

    assert_eq!(paths.config_dir(), "/tmp/home/.config/nanite");
    assert_eq!(paths.codex_home_root(), "/tmp/home/.codex");
    assert_eq!(paths.codex_skills_root().as_str(), "/tmp/home/.codex/skills");
    assert_eq!(paths.data_dir(), "/tmp/home/.local/share/nanite");
    assert_eq!(paths.search_index_root().as_str(), "/tmp/home/.local/state/nanite/search-index");
    assert_eq!(paths.state_dir(), "/tmp/home/.local/state/nanite");
}

#[test]
fn missing_home_is_refused() {
    let error = AppPaths::from_env(&env(&[("XDG_CONFIG_HOME", "/tmp/.config")])).err().unwrap();
    assert_eq!(error.message(), "HOME is not set and no Nanite directory overrides were provided");
}

#[test]
fn state_files_sit_under_the_state_directory() {
    let paths = test_paths();
    assert_eq!(paths.config_file().as_str(), "/tmp/home/.config/nanite/config.toml");
    assert_eq!(paths.registry_file().as_str(), "/tmp/home/.local/state/nanite/registry.json");
    assert_eq!(paths.codex_render_root().as_str(), "/tmp/home/.local/share/nanite/rendered/codex");
    assert_eq!(paths.home_dir(), "/tmp/home");
}

#[test]
fn default_config_points_at_the_home_development_directory() {
    let config = Config::default_for(&test_paths());

    assert_eq!(config.workspace_root.as_str(), "/tmp/home/development");
}

#[test]
fn load_errors_when_nanite_is_unconfigured() {
    let error = Config::load(None).err().unwrap();

    assert!(error.message().contains("run 'nanite setup <path>' first"));
}

#[test]
fn loads_the_workspace_root_from_the_config_file() {
    let file = config_file("\nworkspace_root = \"/tmp/home/development\"\n");

    let config = Config::from_file(&file, &test_paths());

    assert_eq!(config.workspace_root.as_str(), "/tmp/home/development");
}

#[test]
fn ignores_settings_left_over_from_older_config_files() {
    let file = config_file("\nworkspace_root = \"/tmp/home/development\"\nagent = \"codex\"\n");

    let config = Config::from_file(&file, &test_paths());

    assert_eq!(config.workspace_root.as_str(), "/tmp/home/development");
}

#[test]
fn expands_a_home_relative_workspace_root() {
    let file = config_file("\nworkspace_root = \"~/development\"\n");

    let config = Config::from_file(&file, &test_paths());

    assert_eq!(config.workspace_root.as_str(), "/tmp/home/development");
}

#[test]
fn relative_and_bare_home_paths_expand() {
    let paths = test_paths();
    assert_eq!(expand_path("~", &paths), "/tmp/home");
    assert_eq!(expand_path("work", &paths), "/tmp/home/.config/nanite/work");
    assert_eq!(expand_path("/srv/work", &paths), "/srv/work");
}

#[test]
fn saves_the_minimal_config() {
    let config = Config { workspace_root: "/tmp/home/development".to_owned() };

    let mut table = toml::Table::new();
    table.insert("workspace_root".to_owned(), toml::Value::String(config.to_file().workspace_root));
    let rendered = toml::to_string_pretty(&table).unwrap();

    assert!(rendered.contains("workspace_root = \"/tmp/home/development\""));
    assert!(!rendered.contains("agent"));
}

#[test]
fn derives_fixed_workspace_layout() {
    let paths = WorkspacePaths::new("/tmp/nanite".to_owned());

    assert_eq!(paths.root(), "/tmp/nanite");
    assert_eq!(paths.templates_root(), "/tmp/nanite/templates");
    assert_eq!(paths.skills_root(), "/tmp/nanite/skills");
    assert_eq!(paths.repos_root(), "/tmp/nanite/repos");
}

#[test]
fn configured_workspace_has_the_fixed_layout() {
    let config = Config { workspace_root: "/w".to_owned() };
    assert_eq!(config.workspace_paths().repos_root(), "/w/repos");
}
