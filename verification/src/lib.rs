//! A recurrence engine for calendar events: it interprets an RFC 5545–style
//! RRULE together with a start date, explicit extra dates (RDATEs) and
//! explicit excluded dates (EXDATEs), and produces the ordered sequence of
//! dates on which a recurring event occurs.

pub mod configs;
pub mod date;
pub mod event;
pub mod instances;
pub mod iter_helpers;
pub mod printer;
pub mod recurrence_parser;
pub mod roundtrip;
pub mod rule;
pub mod text;
