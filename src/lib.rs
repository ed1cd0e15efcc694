//! Core logic of a tracked-music editor: the event timeline model, the
//! algorithms that repair authoring conflicts on it, and the preview mixer.

pub mod event;
pub mod cleanup;
pub mod migrate;
pub mod expansion;
pub mod mixer;
pub mod split;
pub mod ui_state;
