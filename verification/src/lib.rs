//! Continuous planning: a durable staged plan, the bounded message protocol of its
//! Supervisor, and the presentation of both.

pub mod attention;
pub mod binding;
pub mod conversation_laws;
pub mod delivery;
pub mod delivery_laws;
pub mod display;
pub mod evidence;
pub mod evidence_laws;
pub mod forecast_laws;
pub mod fragments;
pub mod history;
pub mod json;
pub mod layout;
pub mod lifecycle;
pub mod message;
pub mod message_items;
pub mod message_laws;
pub mod message_parser;
pub mod model;
pub mod model_laws;
pub mod pane;
pub mod plan;
pub mod progress;
pub mod progress_laws;
pub mod protocol;
pub mod render;
pub mod request;
pub mod request_laws;
pub mod runtime;
pub mod runtime_laws;
pub mod screen_laws;
pub mod shown_laws;
pub mod stream_laws;
pub mod supervisor_state;
pub mod text;
pub mod text_laws;
pub mod tool;
pub mod tool_laws;
