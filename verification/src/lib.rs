//! Core of a terminal notebook editor: a round-trippable document model for
//! Jupyter-style notebooks and a modal command system that turns key input
//! into editing commands.

pub mod codec;
pub mod editor_commands;
pub mod event_translator;
pub mod input_mode;
pub mod keys;
pub mod panes;
pub mod session;
pub mod codec_exec;
pub mod json_parse;
pub mod json_round;
pub mod json_ser;
pub mod json_text;
pub mod json_value;
pub mod notebook;
pub mod notebook_round;
pub mod text_util;
