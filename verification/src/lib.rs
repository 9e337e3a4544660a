//! Core logic of a voice-driven command assistant.
//!
//! The crate covers the three risk-bearing pieces of such an assistant:
//! turning a continuous audio stream into a bounded utterance with
//! silence-based endpointing (`endpoint`), the idle/listening/speaking
//! conversation state machine with wake and sleep phrases and cancellable
//! playback (`convo`), and the parsing of free-form language-model replies
//! into either a clean spoken answer or a structured tool invocation,
//! together with the routing of that invocation (`parser`, `router`,
//! `agent`). Audio devices, speech recognition, synthesis, processes and
//! files are outside collaborators; the functions here work on plain
//! values (byte strings and samples) handed in from that boundary.

pub mod agent;
pub mod convo;
pub mod endpoint;
pub mod parser;
pub mod router;
pub mod text;
