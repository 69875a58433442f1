//! Nodos: notes and task lists kept as small markdown documents.
//!
//! The document model ([`nodo`]) is read from a stream of markup events
//! ([`events`], [`reader`]) and written back in one canonical text
//! ([`writer`]); [`markdown`] joins the two to the tokenizer. [`show`] and
//! [`overview`] transform documents for display, [`laws`] states what holds
//! across them (with [`canonical`], the event encoding of a document), and
//! [`util`], [`commands`], [`cli`], [`config`] and [`error`] serve the
//! commands.
pub mod canonical;
pub mod cli;
pub mod commands;
pub mod config;
pub mod dates;
pub mod error;
pub mod events;
pub mod laws;
pub mod markdown;
pub mod nodo;
pub mod overview;
pub mod reader;
pub mod show;
pub mod text;
pub mod util;
pub mod writer;
