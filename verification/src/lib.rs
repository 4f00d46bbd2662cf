//! Reads the published reports of the Belgian Chamber's commission meetings.
//!
//! A report is an HTML page. [`document`] takes from it the elements that matter, [`meeting`]
//! reads what they tell of the meeting, and [`sections`] finds the questions by their headings.
//! [`question`], [`speakers`] and [`discussion`] read a single question, whose discussion [`json`]
//! writes; [`session`] knows which meetings there are and where, and [`table`] arranges what is kept in columns.
//!
//! Text that comes out of a report is cleaned by a function that the caller brings; the contracts
//! hold for every such function (see [`cleaning`]).

pub mod cleaning;
pub mod commission;
pub mod discussion;
pub mod document;
pub mod error;
pub mod fixes;
pub mod json;
pub mod meeting;
pub mod number;
pub mod page;
pub mod pattern;
pub mod question;
pub mod records;
pub mod sections;
pub mod session;
pub mod speakers;
pub mod table;
pub mod text;
