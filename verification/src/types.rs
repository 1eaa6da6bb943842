//! The calendar as the server reports it.
use vstd::prelude::*;

use crate::moment::Moment;

verus! {

/// The two notifications that an event gets: one ahead of it and one when it starts.
#[derive(Debug, Clone, Copy, PartialEq, Eq, Structural)]
pub enum NotificationType {
    FifteenMinutes,
    EventStart,
}

/// The server's answer to a request for the calendar view.
#[derive(Debug)]
pub struct CalendarResponse {
    pub body: ResponseBody,
}

/// The answer's body: a response code and, if all is well, the events.
#[derive(Debug)]
pub struct ResponseBody {
    pub response_code: String,
    pub items: Vec<CalendarItem>,
}

/// An event.
#[derive(Debug, Clone, PartialEq)]
pub struct CalendarItem {
    pub subject: String,
    pub start: Moment,
    pub end: Moment,
    pub location: Option<Location>,
    pub is_all_day_event: bool,
    pub organizer: Option<Organizer>,
    pub is_cancelled: Option<bool>,
}

/// Where an event takes place.
#[derive(Debug, Clone, PartialEq)]
pub struct Location {
    pub display_name: String,
}

/// Who called an event.
#[derive(Debug, Clone, PartialEq)]
pub struct Organizer {
    pub mailbox: Mailbox,
}

/// A name and its e-mail address.
#[derive(Debug, Clone, PartialEq)]
pub struct Mailbox {
    pub name: String,
    pub email_address: String,
}

impl CalendarItem {
    /// Whether the event's moments can be represented.
    pub open spec fn valid(&self) -> bool {
        self.start.valid() && self.end.valid()
    }

    /// Whether the event is called off. One of which the server says nothing is not.
    pub open spec fn cancelled(&self) -> bool {
        self.is_cancelled == Some(true)
    }

    /// Where the event takes place, in words; nothing where the server names no place.
    pub open spec fn place(&self) -> Seq<char> {
        match self.location {
            Some(l) => l.display_name@,
            None => seq![],
        }
    }

    /// Whether the event's moments can be represented.
    pub fn is_valid(&self) -> (r: bool)
        ensures
            r == self.valid(),
    {
        self.start.is_valid() && self.end.is_valid()
    }

    /// Whether the event is called off.
    pub fn called_off(&self) -> (r: bool)
        ensures
            r == self.cancelled(),
            r == (self.is_cancelled == Some(true)),
    {
        match self.is_cancelled {
            Some(b) => b,
            None => false,
        }
    }

    /// Where the event takes place, in words.
    pub fn place_name(&self) -> (r: String)
        ensures
            r@ == self.place(),
            self.location matches Some(l) ==> r@ == l.display_name@,
            self.location is None ==> r@.len() == 0,
    {
        match &self.location {
            Some(l) => l.display_name.clone(),
            None => String::new(),
        }
    }
}

} // verus!
