//! The in-process channels of `tokio::sync`, as the library uses them.
//!
//! A channel is shared with tasks that the library does not see, so nothing is
//! known of whether a message finds room. What is claimed is only what holds of
//! every outcome. What was sent, and to whom, stands in a [`Record`], so that
//! contracts can speak of it.
use vstd::prelude::*;

use tokio::sync::{broadcast, mpsc, oneshot};

verus! {

#[verifier::external_type_specification]
#[verifier::external_body]
#[verifier::reject_recursive_types(T)]
pub struct ExMpscSender<T>(mpsc::Sender<T>);

#[verifier::external_type_specification]
#[verifier::external_body]
#[verifier::reject_recursive_types(T)]
pub struct ExMpscReceiver<T>(mpsc::Receiver<T>);

#[verifier::external_type_specification]
#[verifier::external_body]
#[verifier::reject_recursive_types(T)]
pub struct ExBroadcastSender<T>(broadcast::Sender<T>);

#[verifier::external_type_specification]
#[verifier::external_body]
#[verifier::reject_recursive_types(T)]
pub struct ExBroadcastReceiver<T>(broadcast::Receiver<T>);

#[verifier::external_type_specification]
#[verifier::external_body]
#[verifier::reject_recursive_types(T)]
pub struct ExOneshotSender<T>(oneshot::Sender<T>);

/// Why a channel did not take a message.
#[derive(Debug, Clone, Copy, PartialEq, Eq, Structural)]
pub enum PushError {
    /// The mailbox holds as many messages as it may.
    Full,
    /// The receiving side is gone.
    Closed,
}

/// A message that was offered to a channel.
#[verifier::reject_recursive_types(T)]
pub struct Offer<T> {
    pub to: mpsc::Sender<T>,
    pub message: T,
    /// What became of it.
    pub outcome: Result<(), PushError>,
}

impl<T> Offer<T> {
    /// The channel took the message.
    pub open spec fn taken(self) -> bool {
        self.outcome is Ok
    }
}

/// What became of each of these offers.
pub open spec fn outcomes<T>(offers: Seq<Offer<T>>) -> Seq<Result<(), PushError>> {
    offers.map_values(|o: Offer<T>| o.outcome)
}

/// The calls of a kind that were made, in order. Only the functions that make such
/// a call write to it. It takes no room in a running program.
#[verifier::reject_recursive_types(E)]
pub struct Record<E> {
    entries: Ghost<Seq<E>>,
}

impl<E> View for Record<E> {
    type V = Seq<E>;

    closed spec fn view(&self) -> Seq<E> {
        self.entries@
    }
}

impl<E> Record<E> {
    /// A record without calls.
    pub fn new() -> (r: Self)
        ensures
            r@ == Seq::<E>::empty(),
    {
        Record { entries: Ghost(Seq::empty()) }
    }
}

/// A channel that was made: its two ends, and how many messages wait in it at
/// most.
#[verifier::reject_recursive_types(T)]
pub struct Ends<T> {
    pub tx: mpsc::Sender<T>,
    pub rx: mpsc::Receiver<T>,
    pub capacity: nat,
}

/// `mpsc::channel`: make a bounded channel. It panics on a capacity of zero or
/// above the number of permits a semaphore may have. The record gets the channel.
#[verifier::external_body]
pub(crate) fn mailbox<T>(made: &mut Record<Ends<T>>, capacity: usize) -> (ends: (
    mpsc::Sender<T>,
    mpsc::Receiver<T>,
))
    requires
        0 < capacity <= 0x1000_0000,
    ensures
        final(made)@ == old(made)@.push(
            Ends { tx: ends.0, rx: ends.1, capacity: capacity as nat },
        ),
{
    mpsc::channel(capacity)
}

/// `mpsc::Sender::try_send`: offer a message to a channel without waiting. Whether
/// the channel takes it depends on the receiving side; the message of a failed
/// call is dropped here. The record gets what was offered, to whom, and what became
/// of it.
#[verifier::external_body]
pub(crate) fn try_push<T>(
    sent: &mut Record<Offer<T>>,
    tx: &mpsc::Sender<T>,
    message: T,
) -> (r: Result<(), PushError>)
    ensures
        final(sent)@ == old(sent)@.push(Offer { to: *tx, message, outcome: r }),
{
    match tx.try_send(message) {
        Ok(()) => Ok(()),
        Err(mpsc::error::TrySendError::Full(_)) => Err(PushError::Full),
        Err(mpsc::error::TrySendError::Closed(_)) => Err(PushError::Closed),
    }
}

/// `mpsc::Sender::clone`: another handle to the same channel.
#[verifier::external_body]
pub(crate) fn same_sender<T>(tx: &mpsc::Sender<T>) -> (r: mpsc::Sender<T>)
    ensures
        r == *tx,
{
    tx.clone()
}

/// A broadcast channel that was made: its sending side, and how many messages a
/// receiver may lag behind.
#[verifier::reject_recursive_types(T)]
pub struct Station<T> {
    pub tx: broadcast::Sender<T>,
    pub capacity: nat,
}

/// `broadcast::Sender::new`: the sending side of a broadcast channel without
/// receivers. It panics on a capacity of zero or above half of `usize::MAX`. The
/// record gets the channel.
#[verifier::external_body]
pub(crate) fn broadcaster<T>(made: &mut Record<Station<T>>, capacity: usize) -> (tx:
    broadcast::Sender<T>)
    requires
        0 < capacity <= 0x1000_0000,
    ensures
        final(made)@ == old(made)@.push(Station { tx, capacity: capacity as nat }),
{
    broadcast::Sender::new(capacity)
}

/// A receiver that was made for a broadcast channel.
#[verifier::reject_recursive_types(T)]
pub struct Listener<T> {
    pub on: broadcast::Sender<T>,
    pub rx: broadcast::Receiver<T>,
}

/// `broadcast::Sender::subscribe`: a receiver of what is sent from now on. The
/// record gets the receiver, and the channel that it was made for.
#[verifier::external_body]
pub(crate) fn listen<T>(
    heard: &mut Record<Listener<T>>,
    tx: &broadcast::Sender<T>,
) -> (rx: broadcast::Receiver<T>)
    ensures
        final(heard)@ == old(heard)@.push(Listener { on: *tx, rx }),
{
    tx.subscribe()
}

/// A message that was sent to the receivers of a broadcast channel.
#[verifier::reject_recursive_types(T)]
pub struct Telling<T> {
    pub on: broadcast::Sender<T>,
    pub message: T,
}

/// `broadcast::Sender::send`: send to every receiver there is. That there may be
/// none is no error here, so the outcome is dropped. The record gets what was
/// sent, and on which channel.
#[verifier::external_body]
pub(crate) fn publish<T>(sent: &mut Record<Telling<T>>, tx: &broadcast::Sender<T>, message: T)
    ensures
        final(sent)@ == old(sent)@.push(Telling { on: *tx, message }),
{
    let _ = tx.send(message);
}

/// A value that was handed to whoever waited for it.
#[verifier::reject_recursive_types(T)]
pub struct Reply<T> {
    pub to: oneshot::Sender<T>,
    pub value: T,
}

/// `oneshot::Sender::send`: hand a value to whoever waits for it. That nobody
/// waits any more is no error here, so the outcome is dropped. The record gets
/// the value, and to whom it went.
#[verifier::external_body]
pub(crate) fn respond<T>(sent: &mut Record<Reply<T>>, tx: oneshot::Sender<T>, value: T)
    ensures
        final(sent)@ == old(sent)@.push(Reply { to: tx, value }),
{
    let _ = tx.send(value);
}

} // verus!
