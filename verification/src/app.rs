//! The application: which modules are shown and selected, the run session, the
//! state explorer, and what the user is asked to confirm.

pub mod choice_laws;
pub mod command_laws;
pub mod confirm;
pub mod copy_laws;
pub mod explore;
pub mod explorer;
pub mod explorer_laws;
pub mod laws;
pub mod model;
pub mod modules;
pub mod pane;
pub mod question_laws;
pub mod record_laws;
pub mod refresh;
pub mod screen_laws;
pub mod selection;
pub mod session;
pub mod tasks;
pub mod types;
pub mod valid;
