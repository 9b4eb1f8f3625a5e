//! Media-player control core: the values a player exposes over the session
//! bus, the rules that turn them into playback state and track metadata, and
//! the policy that picks which player a command is aimed at.

pub mod number;
pub mod player;
pub mod selection;
pub mod text;
pub mod value;
