//! The verified core of a terminal AI agent built around a ReAct loop: the
//! model proposes one tool call per turn as a JSON object, the user reviews
//! it, the result is fed back as an observation, and the conversation goes
//! on.
//!
//! Everything that decides lives here, with contracts: the session state
//! machine (`state`), the conversation log (`message`), the application
//! state and every event-loop decision (`app`), the tool-call wire format
//! over the crate's own verified JSON codec (`json`, `tool_call`), the
//! safety screens and observation texts (`executor`), the MCP subclient's
//! configuration, framing, request counter and retry rule (`mcp`), provider
//! and model selection (`ai_client`), prompt assembly (`context`), and the
//! version comparison of the update check (`update`). Terminals, processes,
//! and the network stay with the caller, which only performs what the step
//! functions direct.

pub mod ai_client;
pub mod app;
pub mod config;
pub mod context;
pub mod executor;
pub mod json;
pub mod mcp;
pub mod message;
pub mod state;
pub mod text;
pub mod tool_call;
pub mod update;
