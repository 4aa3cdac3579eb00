pub mod calendar;
pub mod content;
pub mod couple;
pub mod curios;
pub mod dig;
pub mod double;
pub mod fmt;
pub mod laws;
pub mod lexical;
pub mod loader;
pub mod model;
pub mod ordered;
pub mod probe;
pub mod render;
pub mod report;
pub mod schema;
pub mod segment;
pub mod seqs;
pub mod stats;
pub mod story;
pub mod text;
pub mod timeline;
pub mod trend;
pub mod unicode;
