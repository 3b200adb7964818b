//! Encapsulates the message to show in the status bar.
//!
//! Provides a way to ensure the correct API is used and the string is not
//! randomly edited: messages are only appended, each on a line of its own,
//! or the whole text is cleared.

use vstd::prelude::*;
use vstd::string::StringExecFns;

verus! {

pub struct StatusMsg {
    msg: String,
}

impl View for StatusMsg {
    type V = Seq<char>;

    closed spec fn view(&self) -> Seq<char> {
        self.msg@
    }
}

impl Default for StatusMsg {
    fn default() -> (s: Self)
        ensures
            s@ == Seq::<char>::empty(),
    {
        StatusMsg { msg: String::new() }
    }
}

impl StatusMsg {
    /// Appends a message, on a new line when some text is already shown.
    pub fn add_msg(&mut self, msg: &str)
        ensures
            final(self)@ == (if old(self)@.len() == 0 {
                msg@
            } else {
                old(self)@ + "\n"@ + msg@
            }),
    {
        if !self.msg.as_str().is_empty() {
            self.msg.append("\n");
        }
        self.msg.append(msg);
        proof {
            if old(self)@.len() == 0 {
                assert(final(self)@ =~= msg@);
            }
        }
    }

    /// Appends an error message; shown to the user like any other message.
    pub fn add_err(&mut self, msg: &str)
        ensures
            final(self)@ == (if old(self)@.len() == 0 {
                msg@
            } else {
                old(self)@ + "\n"@ + msg@
            }),
    {
        self.add_msg(msg);
    }

    pub fn get_msg(&self) -> (m: &str)
        ensures
            m@ == self@,
    {
        self.msg.as_str()
    }

    pub fn clear(&mut self)
        ensures
            final(self)@ == Seq::<char>::empty(),
    {
        self.msg = String::new();
    }

    pub fn is_empty(&self) -> (r: bool)
        ensures
            r == (self@.len() == 0),
    {
        self.msg.as_str().is_empty()
    }
}

} // verus!
