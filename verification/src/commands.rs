//! The commands a user can address to the coordinator. Recognizing command
//! text is the dispatcher's job outside the library; the coordinator receives
//! the already-classified value.

use vstd::prelude::*;

verus! {

#[derive(Clone, Copy, PartialEq, Eq, Structural, Debug)]
pub enum Command {
    /// Start talking to the bot; no coordinator state is involved.
    Start,
    /// Ask for the identifier of the current chat.
    GetId,
    /// Open a new support ticket.
    Support,
    /// Close the current support ticket.
    Close,
}

} // verus!
