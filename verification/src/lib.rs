//! Calendars from announcements: events found in the documents of configured
//! sources are merged into a durable state, with stable identifiers, revision
//! tracking and inferred cancellations, and written as one iCalendar file for
//! every source and year.
//!
//! The library computes; it reads no file and makes no request. Whoever
//! calls it fetches the documents, hands them over, and writes what the
//! library planned. `merge` holds the merge engine, `laws` what is proved of
//! it, `rebuild` and `ics` the calendars, `events` and `documents` the way
//! from a document to candidate events, and `pipeline` the commands.

pub mod chunks;
pub mod cleanup;
pub mod confidence;
pub mod config;
pub mod custom;
pub mod dates;
pub mod digest;
pub mod documents;
pub mod events;
pub mod fetch;
pub mod harness;
pub mod html;
pub mod ics;
pub mod identity;
pub mod json;
pub mod keyed;
pub mod laws;
pub mod lines;
pub mod links;
pub mod merge;
pub mod model;
pub mod naming;
pub mod numbers;
pub mod oecd;
pub mod pattern;
pub mod pipeline;
pub mod rebuild;
pub mod rules;
pub mod state;
pub mod text;
pub mod time;
pub mod years;
