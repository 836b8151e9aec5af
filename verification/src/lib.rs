pub mod classify;
pub mod engine;
pub mod highlight;
pub mod lines;
pub mod pattern;
pub mod render;
pub mod scan;
pub mod sniff;
pub mod span;
