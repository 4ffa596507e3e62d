//! Recorded evaluation inputs, their replay, and the result cache over them.
pub mod aterm;
pub mod cache;
pub mod change;
pub mod codec;
pub mod complaint;
pub mod copies;
pub mod course;
pub mod digest;
pub mod filing;
pub mod history;
pub mod host;
pub mod immutable;
pub mod json;
pub mod links;
pub mod model;
pub mod named;
pub mod number;
pub mod ordered;
pub mod pattern;
pub mod purity;
pub mod question;
pub mod ranges;
pub mod readset;
pub mod recorder;
pub mod recording;
pub mod records;
pub mod refusal;
pub mod replay;
pub mod result;
pub mod retained;
pub mod search;
pub mod table;
pub mod task;
pub mod terminal;
pub mod text;
pub mod validity;
pub mod value;
pub mod witness;
