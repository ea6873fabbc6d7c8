//! The Normal-mode command interpreter of a modal text editor, with the
//! session state it drives: buffers with a selection and undo history, the
//! repeat-count prefix, the clipboard register and the active mode.

pub mod text;
pub mod buffer;
pub mod key;
pub mod mode;
pub mod normal;
pub mod state;
pub mod laws;
