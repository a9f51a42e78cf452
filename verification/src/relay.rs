//! The relay between the handset's daemon and the gateway: what is queued for
//! either side, what has been answered, and which socket may write.
pub mod actions;
pub mod admission;
pub mod deliveries;
pub mod errors;
pub mod gateway;
pub mod guarantees;
pub mod inbound;
pub mod outcomes;
pub mod records;
pub mod replies;
pub mod restart;
pub mod results;
pub mod retries;
pub mod session;
pub mod snapshots;
pub mod soundness;
pub mod state;
pub mod wording;
