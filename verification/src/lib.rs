//! Verified core of the Ramen Cup training simulator: stage flow, actions,
//! scenario rules, card pool and deck enumeration, and the decision-record
//! schema shared by the online recorder and the offline replay tools.

pub mod bench;
pub mod card_pool;
pub mod config;
pub mod deck_arg;
pub mod npy;
pub mod plot;
pub mod ramen;
pub mod record;
pub mod recorder;
pub mod replay;
pub mod text;
pub mod watch;
