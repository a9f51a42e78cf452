//! The daemon behind the handset's API: what each request is answered, what it
//! changes, and what has to be written before the answer stands.
pub mod answers;
pub mod delivery_api;
pub mod interaction_api;
pub mod lane_api;
pub mod merge;
pub mod message_api;
pub mod meta_api;
pub mod refusals;
pub mod reporting;
pub mod responses;
pub mod speech;
pub mod state;
