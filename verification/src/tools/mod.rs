//! What the tools of an agent compute: texts that are shown, requests that are sent, and the
//! state that a tool keeps between calls.

pub mod browser;
pub mod browser_laws;
pub mod computer;
pub mod content_laws;
pub mod csv;
pub mod data;
pub mod editor;
pub mod files;
pub mod html;
pub mod http;
pub mod png;
pub mod session;
pub mod session_laws;
pub mod table_laws;
pub mod web_laws;
pub mod websearch;
