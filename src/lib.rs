//! A one-way bridge from a chat source to a record-keeping destination:
//! messages are matched against a fixed table of routes, and the text of each
//! matching message is handed to the destination of every route it satisfies.
//!
//! The library holds the decisions: entity extraction, matching, dispatch and
//! the long-poll cursor. Fetching and delivering are left to the caller.
pub mod message;
pub mod matcher;
pub mod route;
pub mod poller;
