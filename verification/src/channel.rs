//! The message channels through which a room hands text to its clients.
//!
//! The channels are tokio's unbounded mpsc channels. Each half carries a
//! ghost channel identity, the same on both halves of one channel, and the
//! sending half keeps a ghost log of every text handed to it. Whether a text
//! handed over is then read depends on the task at the receiving end, so the
//! contracts say nothing about delivery.

use vstd::prelude::*;
use tokio::sync::mpsc::{UnboundedReceiver, UnboundedSender};

verus! {

/// The sending half of a tokio channel.
#[verifier::external_type_specification]
#[verifier::external_body]
#[verifier::reject_recursive_types(T)]
pub struct ExUnboundedSender<T>(UnboundedSender<T>);

/// The receiving half of a tokio channel.
#[verifier::external_type_specification]
#[verifier::external_body]
#[verifier::reject_recursive_types(T)]
pub struct ExUnboundedReceiver<T>(UnboundedReceiver<T>);

/// The sending half of a client's channel, with the identity of the channel
/// and the texts handed to it so far, oldest first.
pub struct ClientSender {
    tx: UnboundedSender<String>,
    channel: Ghost<int>,
    log: Ghost<Seq<Seq<char>>>,
}

/// The receiving half of a client's channel, with the identity of the channel.
pub struct ClientReceiver {
    rx: UnboundedReceiver<String>,
    channel: Ghost<int>,
}

impl ClientSender {
    /// The identity of the channel this half belongs to.
    pub closed spec fn channel(&self) -> int {
        self.channel@
    }

    /// The texts handed to this sender so far, oldest first.
    pub closed spec fn handed(&self) -> Seq<Seq<char>> {
        self.log@
    }

    /// The tokio sender inside.
    pub closed spec fn handle(&self) -> UnboundedSender<String> {
        self.tx
    }

    /// This sender once `message` has been handed to it.
    pub closed spec fn after_handing(self, message: Seq<char>) -> ClientSender {
        ClientSender { tx: self.tx, channel: self.channel, log: Ghost(self.log@.push(message)) }
    }

    /// Handing a text over keeps the channel and the tokio sender, and adds
    /// the text to the end of the log.
    pub proof fn lemma_after_handing(self, message: Seq<char>)
        ensures
            self.after_handing(message).channel() == self.channel(),
            self.after_handing(message).handle() == self.handle(),
            self.after_handing(message).handed() == self.handed().push(message),
    {
    }

    /// Hands `message` to the channel with `tokio::sync::mpsc::UnboundedSender::send`,
    /// and tells whether tokio took it. The claim is only that the text is
    /// recorded as handed over and that the sender is otherwise unchanged; tokio
    /// refuses a text only when the receiving half is closed or dropped, which
    /// depends on another task, so nothing is claimed of the result.
    #[verifier::external_body]
    pub(crate) fn send(&mut self, message: String) -> (accepted: bool)
        ensures
            *final(self) == old(self).after_handing(message@),
    {
        self.tx.send(message).is_ok()
    }
}

impl ClientReceiver {
    /// The identity of the channel this half belongs to.
    pub closed spec fn channel(&self) -> int {
        self.channel@
    }

    /// The tokio receiver inside.
    pub closed spec fn handle(&self) -> UnboundedReceiver<String> {
        self.rx
    }

    /// The tokio receiver inside, to read the channel with.
    pub fn into_inner(self) -> (rx: UnboundedReceiver<String>)
        ensures
            rx == self.handle(),
    {
        self.rx
    }
}

/// Opens a fresh channel with `tokio::sync::mpsc::unbounded_channel`. The
/// claim is that both halves belong to the same channel and that nothing has
/// been handed to it yet.
#[verifier::external_body]
pub(crate) fn open_client_channel() -> (halves: (ClientSender, ClientReceiver))
    ensures
        halves.0.channel() == halves.1.channel(),
        halves.0.handed() == Seq::<Seq<char>>::empty(),
{
    let (tx, rx) = tokio::sync::mpsc::unbounded_channel();
    (
        ClientSender { tx, channel: Ghost(0), log: Ghost(Seq::empty()) },
        ClientReceiver { rx, channel: Ghost(0) },
    )
}

} // verus!
