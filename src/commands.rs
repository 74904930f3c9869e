use vstd::prelude::*;

use crate::channel::{open_channel, receive_on};

verus! {

/// A command sent to the listener.
pub struct Message(String);

impl View for Message {
    type V = Seq<char>;

    closed spec fn view(&self) -> Seq<char> {
        self.0@
    }
}

impl Message {
    pub fn new(text: &str) -> (r: Message)
        ensures
            r@ == text@,
    {
        Message(text.to_owned())
    }

    pub fn text(&self) -> (r: &str)
        ensures
            r@ == self@,
    {
        self.0.as_str()
    }
}

/// The receiving end of the command channel.
pub struct CommandListener {
    rx: std::sync::mpsc::Receiver<Message>,
}

impl CommandListener {
    /// A listener, and the sender that feeds it.
    pub fn new() -> (std::sync::mpsc::Sender<Message>, CommandListener) {
        let (tx, rx) = open_channel();
        (tx, CommandListener { rx })
    }

    /// Waits for the next message; `None` once every sender is gone.
    pub fn next_message(&self) -> Option<Message> {
        receive_on(&self.rx)
    }
}

} // verus!
