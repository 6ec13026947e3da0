//! # Client-side read receipts computation
//!
//! A Matrix server has no access to the content of encrypted events, so it can only guess how
//! many events of a room are unread. This library computes the number of unread messages,
//! notifications and highlights of a room on the client.
//!
//! Unread messages are counted by looking at the latest receipt of the current user, and
//! inferring which events are following it, according to the sync ordering. Notifications and
//! highlights follow from the push actions of each event. Not all events are worth marking a room
//! as unread: [`unread`] has the rules.
//!
//! - [`notifications`]: the update of a room's read receipts by a sync;
//! - [`room`]: the read receipts of a room, and the counting of events;
//! - [`selector`]: the selection of the receipt that comes last in sync order;
//! - [`unread`]: which events are worth marking a room as unread;
//! - [`timeline`], [`receipt`], [`provider`]: the events and receipts that a sync brings, and
//!   where earlier events come from;
//! - [`event_id_set`], [`text`]: sets of event ids, and the order of strings;
//! - [`model`]: the mathematical model that the contracts speak of;
//! - [`terms`]: what the terms of that model say of plain values;
//! - [`laws`]: what holds of the computation as a whole.
pub mod event_id_set;
pub mod laws;
pub mod model;
pub mod notifications;
pub mod provider;
pub mod receipt;
pub mod room;
pub mod selector;
pub mod terms;
pub mod text;
pub mod timeline;
pub mod unread;
