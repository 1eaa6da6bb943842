//! What is known of the mailbox between two updates.
use vstd::prelude::*;

verus! {

/// What is known of the mailbox, apart from its events.
#[derive(Debug)]
pub struct Feed {
    /// Whether an update is under way.
    pub is_loading: bool,
    /// What was wrong with the last update that the user asked for and that failed.
    pub error: String,
    /// How many messages were unread at the last update.
    pub unread: Option<u32>,
}

impl Feed {
    /// Nothing is known yet.
    pub fn new() -> (r: Feed)
        ensures
            !r.is_loading,
            r.error@ == Seq::<char>::empty(),
            r.unread is None,
    {
        Feed { is_loading: false, error: String::new(), unread: None }
    }

    /// An update begins.
    pub fn begin(&mut self)
        ensures
            final(self).is_loading,
            final(self).error@ == old(self).error@,
            final(self).unread == old(self).unread,
    {
        self.is_loading = true;
    }

    /// An update ended with `count` unread messages. Says whether the user is to be told of them:
    /// if there are any and their number is not what it was.
    pub fn loaded(&mut self, count: u32) -> (r: bool)
        ensures
            r == (count > 0 && old(self).unread != Some(count)),
            !final(self).is_loading,
            final(self).error@ == old(self).error@,
            final(self).unread == Some(count),
    {
        let news = match self.unread {
            Some(n) => n != count,
            None => true,
        };
        self.is_loading = false;
        self.unread = Some(count);
        news && count > 0
    }

    /// An update failed. What was wrong is kept where the user had asked for it.
    pub fn failed(&mut self, error: &str, asked_for: bool)
        ensures
            !final(self).is_loading,
            final(self).error@ == if asked_for {
                error@
            } else {
                old(self).error@
            },
            final(self).unread == old(self).unread,
    {
        self.is_loading = false;
        if asked_for {
            self.error = error.to_string();
        }
    }

    /// What to show in place of an empty board: nothing while an update is under way, else that
    /// there is no connection, with what was wrong if that is known.
    pub fn empty_board_note(&self, board_is_empty: bool) -> (r: Option<String>)
        ensures
            match r {
                Some(e) => board_is_empty && !self.is_loading && e@ == self.error@,
                None => !board_is_empty || self.is_loading,
            },
    {
        if board_is_empty && !self.is_loading {
            Some(self.error.clone())
        } else {
            None
        }
    }
}

} // verus!
