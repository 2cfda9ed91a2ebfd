pub mod agent_command;
pub mod agent_prompt;
pub mod app_paths;
pub mod bundle;
pub mod cli;
pub mod config;
pub mod confirm;
pub mod context;
pub mod frontmatter;
pub mod gitignore;
pub mod license;
pub mod naming;
pub mod paths;
pub mod progress;
pub mod prompting;
pub mod readme;
pub mod registry;
pub mod remote;
pub mod render;
pub mod repository;
pub mod search_index;
pub mod search_query;
pub mod search_server;
pub mod skills;
pub mod sorting;
pub mod template_sources;
pub mod templates;
pub mod text;
pub mod unicode;
pub mod value_map;
pub mod workspace;
