//! Provider configuration, routing decisions and process-ownership bookkeeping for an
//! isolated ChatGPT/Codex host, with every decision stated as a contract and proved.

pub mod lineage;
pub mod lineage_state;
pub mod text;
pub mod digest;
pub mod strings;
pub mod credential;
pub mod mode;
pub mod host;
pub mod compatibility;
pub mod winpath;
pub mod isolation;
pub mod runtime;
pub mod official_host;
pub mod codec;
pub mod renderer_addons;
pub mod continuity;
pub mod goal_sync;
pub mod model_discovery;
pub mod launcher_settings;
pub mod supervisor;
pub mod bootstrap;
pub mod control;
pub mod json;
pub mod rollout;
pub mod cleanup;
pub mod cdp;
pub mod worker;
pub mod protocol;
pub mod direct;
pub mod text_map;
pub mod skill_sync;
pub mod session_sync;
pub mod launcher;
pub mod session_hook;
pub mod model_catalog;
pub mod native_provider;
pub mod inject;
pub mod direct_loop;
pub mod goal_protocol;
pub mod hook_config;
pub mod catalog_entry;
pub mod catalog_json;
pub mod toml_doc;
pub mod provider_config;
pub mod catalog_scan;
pub mod redaction;
pub mod user_scripts;
pub mod owned_root;
pub mod descendant_capture;
