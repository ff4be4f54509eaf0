//! The core of an interactive command shell: line editing on a model of the
//! terminal, history recall, tab completion, parsing of a finished line into a
//! pipeline of commands, and the decisions taken while that pipeline runs.
//!
//! Nothing here touches the terminal, the file system or the process
//! environment. Callers hand in plain values and perform the actions that the
//! library hands back.
//!
//! - `text`: strings as sequences of characters, and their order.
//! - `screen`: the operations asked of the terminal, and where they leave
//!   its cursor.
//! - `buffer`: the line being typed and the place of its cursor on the
//!   screen.
//! - `display`: what the screen shows once the operations are performed.
//! - `history`: the log of lines entered, and the walk through it.
//! - `autocompletion`: the names that can complete what is being typed.
//! - `editor`: what each key does.
//! - `environment`: the variables of the session.
//! - `pattern`: the regular expressions that the shell relies on.
//! - `parser`: from a finished line to a pipeline of commands.
//! - `executor`: how a pipeline is carried out, step by step.

pub mod text;
pub mod screen;
pub mod buffer;
pub mod display;
pub mod history;
pub mod autocompletion;
pub mod pattern;
pub mod environment;
pub mod parser;
pub mod editor;
pub mod executor;
