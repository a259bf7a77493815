//! Terminal media viewer logic: media classification, pixel layout, clock and
//! progress-bar text, the key-driven state machines of the gallery, the video
//! player and the search screen, and the text of the shell commands it runs.
pub mod cli;
pub mod clock;
pub mod commands;
pub mod gallery;
pub mod keys;
pub mod media;
pub mod picture;
pub mod player;
pub mod text;
pub mod youtube;
