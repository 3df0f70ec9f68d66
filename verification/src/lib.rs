//! Sender-side TCP building blocks: sequence numbers, a SACK scoreboard and
//! congestion controllers, with their behaviour stated and proved.

pub mod bbr;
pub mod brutal;
pub mod rtt;
pub mod sack;
pub mod seq_number;
pub mod time;
