//! Knit: coordinated multi-repo feature work. The library holds the
//! bundle, landing, publishing and sync rules of the `knit` tool.
pub mod bundle_repos;
pub mod capture;
pub mod checks;
pub mod credentials;
pub mod helpers;
pub mod land_check;
pub mod land_display;
pub mod land_exec;
pub mod land_order;
pub mod land_rollback;
pub mod land_plan;
pub mod land_run;
pub mod land_steps;
pub mod land_target;
pub mod land_types;
pub mod land_update;
pub mod log;
pub mod merge;
pub mod merge_checkout;
pub mod merge_push;
pub mod merge_run;
pub mod model;
pub mod order;
pub mod pr_body;
pub mod process_tree;
pub mod project_admin;
pub mod project_cmds;
pub mod project_push;
pub mod project_repos;
pub mod publish_scope;
pub mod publish_sync;
pub mod pull;
pub mod push_force;
pub mod remote;
pub mod remote_auth;
pub mod remote_clone;
pub mod remote_config;
pub mod remote_listing;
pub mod remote_projects;
pub mod remote_pull;
pub mod remote_push;
pub mod remote_repos;
pub mod repo_git;
pub mod reset;
pub mod revert;
pub mod str_map;
pub mod sync;
pub mod text;
