//! A chat bot for QQ that answers with a language model.
//!
//! The library holds what the bot decides and computes: which messages are answered
//! (`trigger`, `interject`, `chat`), how a turn runs (`dialogue`), what a request to the
//! model holds and how its answer is read (`context`, `llm`), what is kept of a
//! conversation (`session`, `memory`, `trace`), how replies are cut and cleaned
//! (`outbound`), what NapCat says and is told (`napcat`), the tasks of the helper and
//! their sandboxes (`agent`, `sandbox`), and the state of it all (`runtime`, `events`,
//! `watchdog`, `placement`, `cost`). Every function states what it gives in its
//! contract; what relates several of them is stated by the proof functions whose names
//! begin with `law_`.
//!
//! Files, sockets, processes and floating point are left to the program around it.

pub mod agent;
pub mod botcmd;
pub mod chat;
pub mod clock;
pub mod commands;
pub mod config;
pub mod context;
pub mod cost;
pub mod dialogue;
pub mod estimate;
pub mod events;
pub mod interject;
pub mod json;
pub mod lists;
pub mod llm;
pub mod memory;
pub mod napcat;
pub mod number;
pub mod outbound;
pub mod placement;
pub mod runtime;
pub mod sandbox;
pub mod session;
pub mod text;
pub mod trace;
pub mod trigger;
pub mod watchdog;
