//! My Daily Newspaper: the verified core of a one-reader newspaper.

pub mod adblock;
pub mod desk;
pub mod dates;
pub mod editor;
pub mod grok;
pub mod icon;
pub mod json;
pub mod links;
pub mod model;
pub mod paths;
pub mod pattern;
pub mod pipeline;
pub mod schedule;
pub mod scores;
pub mod prompt;
pub mod properties;
pub mod reader;
pub mod store;
pub mod stream;
pub mod text;
pub mod wire;
pub mod xml;
