//! Searches a timeline-style API page by page and turns the results into a
//! timed comment track in XML.
pub mod text;
pub mod cookie;
pub mod twitter;
pub mod response;
pub mod search;
pub mod clean;
pub mod chat;
pub mod xml;
pub mod config;
