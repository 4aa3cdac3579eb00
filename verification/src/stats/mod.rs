//! Statistics over all conversations, gathered table by table.

pub mod temporal;
pub mod volume;
