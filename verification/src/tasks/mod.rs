//! Tasks: their records, and what happens to them from the request to the answer.

pub mod records;
pub mod parts;
pub mod task;
pub mod task_laws;
pub mod repair;
pub mod prompt;
pub mod message_laws;
pub mod tool_run;
pub mod run;
pub mod run_end;
pub mod run_laws;
pub mod lifecycle;
pub mod settings;
pub mod demo;
pub mod demo_run;
pub mod startup;
pub mod projects;
pub mod outcome_laws;
pub mod step_laws;
