//! The decision logic of a QQ group bot: command detection, text parsing,
//! live-stream change tracking, the repeater, the group mute rules and the
//! chat history of the AI responder.

pub mod message;
pub mod text;
pub mod timetable;
pub mod chat;
pub mod clock;
pub mod command;
pub mod config;
pub mod live;
pub mod repeat;
pub mod shutup;
pub mod replies;
