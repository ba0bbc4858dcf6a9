//! The decisions of the SolidOak IDE: the set of projects and expanded
//! folders it remembers, the ordering of its project tree, the state of its
//! build terminals, and the commands it sends to the embedded editor.

pub mod paths;
pub mod pathset;
pub mod commands;
pub mod state;
pub mod strmap;
pub mod builders;
pub mod events;
pub mod keys;
pub mod tree;
pub mod launch;
