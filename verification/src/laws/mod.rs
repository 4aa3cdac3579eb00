//! What the figures mean, said of the messages themselves: how many messages a count stands for, which
//! message a description is of, and how a result changes when a message is added.

pub mod calendar;
pub mod counting;
pub mod couple;
pub mod curios;
pub mod dig;
pub mod fmt;
pub mod lexical;
pub mod loader;
pub mod names;
pub mod page;
pub mod probe;
pub mod report;
pub mod schema;
pub mod temporal;
pub mod text;
pub mod trend;
pub mod volume;
