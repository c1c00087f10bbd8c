//! Extracts the shell commands of a markdown document's code blocks, adds
//! configured flags to them and renders a container build recipe.

mod error;
mod extract;
mod lines;
mod options;
mod recipe;
mod text;

pub use error::Error;
pub use extract::{commands_from_events, parse_commands, MdEvent};
pub use lines::lines_of;
pub use options::{apply_extra_flags, Options};
pub use recipe::{build_outcome, recipe_from_markdown, Dockerfile};
