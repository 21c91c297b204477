//! Time-boxed giveaway events: creation and configuration, a derived
//! lifecycle status, an open participant roster, a one-shot raffle that
//! assigns every prize a winner, and a claim step that pays each prize out
//! exactly once.
//!
//! Every operation takes the calling account and the current time as plain
//! values; the raffle takes the random seed it draws from. A rejected call
//! changes nothing.
pub mod types;
pub mod status;
pub mod index;
pub mod error;
pub mod utils;
pub mod model;
pub mod invariants;
pub mod contract;
pub mod views;
pub mod laws;

pub use contract::{get_random_event_participant_id, Contract};
pub use error::{ContractError, ErrorKind};
pub use status::{assert_event_owner, assert_event_status, derive_status, get_event_status};
pub use types::{
    AccountId, Event, EventId, EventPrize, EventStatus, JsonEvent, Pagination, Prize, PrizeType,
    TimestampMs, MAX_EVENT_PRIZES, MIN_NEAR_PRIZE_AMOUNT,
};
pub use utils::{
    get_random_number, to_storage_key, unwrap_pagination, DEFAULT_PAGINATION_LIMIT,
    MAX_PAGINATION_LIMIT,
};
pub use views::get_event_json;
