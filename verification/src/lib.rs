//! Verified core of the InkVoice dictation shell: writing modes, voice
//! command matching, keyboard-event planning for text insertion, the
//! recording pill's geometry and text, the shell's hotkey state machine,
//! the microphone thread's retry decisions, and the process-tree walk.

pub mod modes;
pub mod text;
pub mod keys;
pub mod json;
pub mod command_mode;
pub mod text_insert;
pub mod overlay;
pub mod shell;
pub mod process_tree;
pub mod capture;
