//! Local-first support for a terminal's agents.
//!
//! The library decides; it reads and writes nothing itself. What it needs to
//! know of files, databases and other machines comes in as plain values, and
//! what is to be done comes back as plain values.

pub mod custom_model_routers;
pub mod digest;
pub mod execution_profiles;
pub mod fact_manager;
pub mod fact_pages;
pub mod file_publication;
pub mod harness_availability;
pub mod id_map;
pub mod ids;
pub mod json_text;
pub mod json_tree;
pub mod llm_preferences;
pub mod llms;
pub mod local_agent_registry;
pub mod local_artifacts;
pub mod local_codebase_index;
pub mod local_compaction;
pub mod local_memory;
pub mod local_named_agents;
pub mod memory_views;
pub mod named_agent_repository;
pub mod order;
pub mod paths;
pub mod providers;
pub mod relevant_files;
pub mod router_repository;
pub mod rule_views;
pub mod secrets;
pub mod text;
pub mod tokens;
