//! The queue of ranges between an evaluation and its workers: an unbounded
//! channel of `(start, end)` pairs, with many receivers.

use crossbeam_channel::{Receiver, Sender};
use vstd::prelude::*;

verus! {

/// `crossbeam_channel::Sender`, the sending end of a channel. The library
/// looks at nothing inside it.
#[verifier::external_type_specification]
#[verifier::external_body]
#[verifier::reject_recursive_types(T)]
pub struct ExSender<T>(Sender<T>);

/// `crossbeam_channel::Receiver`, a receiving end of a channel. The library
/// looks at nothing inside it.
#[verifier::external_type_specification]
#[verifier::external_body]
#[verifier::reject_recursive_types(T)]
pub struct ExReceiver<T>(Receiver<T>);

/// Calls `Sender::send` of crossbeam-channel with the pair `(start, end)`,
/// and says whether the pair was taken. The channel refuses a message once
/// every receiver is gone, which depends on the other threads: nothing is
/// claimed of the answer.
#[verifier::external_body]
pub(crate) fn send_range(sender: &Sender<(u64, u64)>, start: u64, end: u64) -> (sent: bool) {
    sender.send((start, end)).is_ok()
}

/// Calls `Receiver::recv` of crossbeam-channel, which waits until a message
/// is there or the channel is empty and every sender is gone, and hands on
/// the message, or `None` for the closed channel. Which message comes
/// depends on the other threads: nothing is claimed of the answer.
#[verifier::external_body]
pub(crate) fn recv_range(receiver: &Receiver<(u64, u64)>) -> (got: Option<(u64, u64)>) {
    receiver.recv().ok()
}

} // verus!
