//! A verified core for an iCalendar RSVP responder: unfolding of folded
//! physical lines into logical property lines, extraction of the fields an
//! RSVP reply needs (UID, ORGANIZER, SEQUENCE, SUMMARY), and construction of
//! the textual VCALENDAR/VEVENT reply object.

pub mod fields;
pub mod laws;
pub mod reply;
pub mod text;
pub mod unfold;
