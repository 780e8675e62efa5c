//! The core of a desktop agent: tasks, the agents that work on them, what is sent to a model, and
//! what the tools of an agent compute.

pub mod agent;
pub mod agent_loop;
pub mod agents;
pub mod attachments;
pub mod attachments_laws;
pub mod base64;
pub mod bedrock;
pub mod bedrock_laws;
pub mod chat;
pub mod coding;
pub mod config;
pub mod config_laws;
pub mod deep;
pub mod flow;
pub mod flow_laws;
pub mod hash;
pub mod ids;
pub mod json;
pub mod json_model;
pub mod json_text;
pub mod memory;
pub mod memory_laws;
pub mod models;
pub mod name_map;
pub mod number;
pub mod offsets;
pub mod order;
pub mod pairs;
pub mod pairs_laws;
pub mod plan;
pub mod table;
pub mod tasks;
pub mod text;
pub mod text_laws;
pub mod tools;
