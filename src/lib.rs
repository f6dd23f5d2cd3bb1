//! Synchronisation and log-structured persistence of a wallet's unspent outputs.

pub mod date;
pub mod types;
pub mod lookup;
pub mod state;
pub mod sync;
pub mod laws;
pub mod codec;
pub mod lock;
pub mod text;
pub mod display;
pub mod wallet;
