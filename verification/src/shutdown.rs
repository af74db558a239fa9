//! How the parts of a node learn that it is about to stop.

use vstd::prelude::*;

verus! {

/// Whether the node is about to stop. Once it is, it stays so. There is one value
/// for the whole node, and its parts share it.
#[derive(Debug)]
pub struct ShutdownNotifier {
    should_stop: bool,
}

impl ShutdownNotifier {
    /// Whether the notification has come.
    pub closed spec fn stopping(&self) -> bool {
        self.should_stop
    }

    /// A node that is not about to stop.
    pub fn new() -> (res: Self)
        ensures
            !res.stopping(),
    {
        ShutdownNotifier { should_stop: false }
    }

    /// Takes note of the notification.
    pub fn notified(&mut self)
        ensures
            final(self).stopping(),
    {
        self.should_stop = true;
    }

    /// Whether the node is about to stop.
    pub fn should_stop(&self) -> (res: bool)
        ensures
            res == self.stopping(),
    {
        self.should_stop
    }
}

} // verus!
