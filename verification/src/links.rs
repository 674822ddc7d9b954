//! Channels to the neighbors and to the controller, and the source of the
//! numbers that decide whether a fragment is dropped.
//!
//! What stands here is believed, not proved: the channel types are opaque to
//! the verifier, and the two functions state of the outside calls only what
//! holds of every outcome.

use crossbeam_channel::{Receiver, Sender};
use rand::Rng;
use vstd::prelude::*;

verus! {

/// The sending half of a `crossbeam_channel` channel. Nothing is known of
/// what it holds.
#[verifier::external_type_specification]
#[verifier::external_body]
#[verifier::reject_recursive_types(T)]
pub struct ExSender<T>(Sender<T>);

/// The receiving half of a `crossbeam_channel` channel. Nothing is known of
/// what it holds.
#[verifier::external_type_specification]
#[verifier::external_body]
#[verifier::reject_recursive_types(T)]
pub struct ExReceiver<T>(Receiver<T>);

/// Calls `crossbeam_channel::Sender::try_send`, which never blocks. Whether
/// the message is taken depends on the channel, so nothing is claimed of that;
/// what is claimed is that a refused message comes back as it was handed in,
/// whether the channel was full or disconnected.
#[verifier::external_body]
pub(crate) fn try_send<T>(link: &Sender<T>, message: T) -> (sent: Result<(), T>)
    ensures
        sent matches Err(back) ==> back == message,
{
    match link.try_send(message) {
        Ok(()) => Ok(()),
        Err(refused) => Err(refused.into_inner()),
    }
}

/// Calls `rand::Rng::gen_range` on the thread's generator with the range
/// from 1 to 100, both included. The number differs from call to call; what is
/// claimed is that it lies in that range.
#[verifier::external_body]
pub(crate) fn draw_percent() -> (roll: u8)
    ensures
        1 <= roll <= 100,
{
    rand::thread_rng().gen_range(1u8..=100u8)
}

} // verus!
