//! Tau, a harness for a coding agent.
//!
//! The harness stands between clients, an agent and extensions. What it does is a
//! function from one [`state::State`] to the next; [`harness::Harness`] carries it
//! out, and [`laws`] says what holds of it whatever happens. The other modules hold
//! what the harness is made of and what stands around it: histories, prompts,
//! skills, requests to language models, settings, secrets, and the decisions about
//! files and sockets.
pub mod agent;
pub mod arrival_laws;
pub mod assoc;
pub mod calendar;
pub mod call_laws;
pub mod cbor;
pub mod chat_completions;
pub mod chat_laws;
pub mod clients;
pub mod closing;
pub mod context;
pub mod control_laws;
pub mod conversation_laws;
pub mod counting;
pub mod data_laws;
pub mod debug_log;
pub mod diff;
pub mod dispatch_laws;
pub mod display;
pub mod display_laws;
pub mod discovery;
pub mod error;
pub mod event;
pub mod event_log;
pub mod extension_data;
pub mod handlers;
pub mod harness;
pub mod harness_laws;
pub mod inspect;
pub mod json;
pub mod laws;
pub mod messages;
pub mod minting;
pub mod model_laws;
pub mod models;
pub mod order;
pub mod paths;
pub mod pool;
pub mod pool_laws;
pub mod pool_run;
pub mod prompt;
pub mod prompt_laws;
pub mod provider_cli;
pub mod provider_laws;
pub mod provider_store;
pub mod record_laws;
pub mod report_laws;
pub mod resolve_laws;
pub mod router;
pub mod runtime_dir;
pub mod secret_laws;
pub mod secrets;
pub mod self_knowledge;
pub mod serve;
pub mod serve_laws;
pub mod session;
pub mod session_laws;
pub mod settings;
pub mod setup_laws;
pub mod skill_laws;
pub mod skill_reads;
pub mod skill_tool;
pub mod skills;
pub mod socket;
pub mod startup;
pub mod state;
pub mod text;
pub mod text_laws;
pub mod think_tags;
pub mod tool_turn;
pub mod turn_laws;
pub mod value_laws;
pub mod view_laws;
