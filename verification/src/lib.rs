//! Core of a single-page build-status viewer: a trigger-driven fetch
//! lifecycle with an explicit not-yet-requested / pending / resolved state
//! machine, a closed error taxonomy separating transport failure from
//! payload decoding failure, codec work for the report's wire schema, and
//! clock-injected time and duration formatting. Transport and rendering live
//! outside; this crate holds the decisions and their proofs.

use vstd::prelude::*;

mod codec;
mod errors;
mod fetch;
mod resource;
mod schema;
mod timefmt;
mod trigger;

pub use codec::dec_report;
pub use codec::decode_report;
pub use codec::enc_report;
pub use codec::encode_report;
pub use codec::lemma_report_roundtrip;
pub use errors::APIErr;
pub use fetch::TransportOutcome;
pub use fetch::get_json;
pub use fetch::get_string;
pub use timefmt::DurationDisplay;
pub use timefmt::TimeDisplay;
pub use timefmt::format_duration;
pub use timefmt::format_time;
pub use timefmt::MAX_FORMAT_SECONDS;
pub use timefmt::MAX_HUMAN_SECONDS;
pub use timefmt::iso_of;
pub use timefmt::lemma_format_time_deterministic;
pub use timefmt::precise_phrase_of;
pub use timefmt::relative_phrase_of;
pub use schema::BuildStatus;
pub use schema::Finish;
pub use schema::FinishV;
pub use schema::Report;
pub use schema::ReportV;
pub use schema::Start;
pub use resource::LazyLoad;
pub use resource::RemoteEvent;
pub use resource::RemoteResource;
pub use resource::ResourceState;
pub use resource::ViewKind;
pub use resource::apply_event;
pub use resource::apply_events;
pub use resource::gate;
pub use resource::last_delivery_for;
pub use resource::lemma_latest_wins;
pub use resource::lemma_settles_to_last_current_delivery;
pub use resource::lemma_stale_resolution_dropped;
pub use resource::resource_wf;
pub use resource::view_kind;
pub use trigger::TriggerCell;

verus! {

} // verus!
