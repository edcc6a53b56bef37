//! Command dispatch, role checks and reminder scheduling for a chat automation agent.
//!
//! Every function here is a plain computation with a contract; the surrounding program
//! performs the network and storage work and hands the library plain values.

pub mod clock;
pub mod commands;
pub mod database;
pub mod duration;
pub mod features;
pub mod notify;
pub mod parse;
pub mod process;
pub mod reminders;
pub mod role;
pub mod snooze;
pub mod text;
pub mod users;
