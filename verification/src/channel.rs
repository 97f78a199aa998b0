//! A bounded queue of messages, kept in a channel of `crossbeam_channel`.
//!
//! Both ends of a channel are held together and handed to these functions by
//! exclusive reference, so nothing else can send or receive meanwhile.

use crate::protocol::{Message, MessageView};
use crossbeam_channel::{Receiver, Sender};
use vstd::prelude::*;

verus! {

#[verifier::external_type_specification]
#[verifier::external_body]
#[verifier::reject_recursive_types(T)]
pub struct ExSender<T>(crossbeam_channel::Sender<T>);

#[verifier::external_type_specification]
#[verifier::external_body]
#[verifier::reject_recursive_types(T)]
pub struct ExReceiver<T>(crossbeam_channel::Receiver<T>);

/// The messages that wait in a channel, the first to be received first.
pub uninterp spec fn channel_content(rx: crossbeam_channel::Receiver<Message>) -> Seq<MessageView>;

/// The most messages that may wait in a channel.
pub uninterp spec fn channel_bound(tx: crossbeam_channel::Sender<Message>) -> nat;

/// Whether two ends belong to one channel.
pub uninterp spec fn channel_linked(
    tx: crossbeam_channel::Sender<Message>,
    rx: crossbeam_channel::Receiver<Message>,
) -> bool;

/// `crossbeam_channel::bounded`: the two ends of an empty channel of the given
/// capacity. It panics on a capacity whose slots do not fit the address space; a
/// slot takes fewer than 256 bytes.
#[verifier::external_body]
pub(crate) fn channel_new(capacity: usize) -> (r: (Sender<Message>, Receiver<Message>))
    requires
        capacity <= isize::MAX / 256,
    ensures
        channel_linked(r.0, r.1),
        channel_content(r.1) == Seq::<MessageView>::empty(),
        channel_bound(r.0) == capacity,
{
    crossbeam_channel::bounded(capacity)
}

/// `crossbeam_channel::Sender::try_send` on a channel whose two ends are both
/// held: the message joins the end of the queue exactly where fewer messages
/// wait than the capacity allows; otherwise nothing changes. Since no receiver
/// can be waiting, a channel without capacity never takes a message.
#[verifier::external_body]
pub(crate) fn channel_send(
    tx: &mut Sender<Message>,
    rx: &mut Receiver<Message>,
    message: Message,
) -> (r: bool)
    requires
        channel_linked(*old(tx), *old(rx)),
    ensures
        channel_linked(*final(tx), *final(rx)),
        channel_bound(*final(tx)) == channel_bound(*old(tx)),
        r <==> channel_content(*old(rx)).len() < channel_bound(*old(tx)),
        channel_content(*final(rx)) == (if r {
            channel_content(*old(rx)).push(message@)
        } else {
            channel_content(*old(rx))
        }),
{
    tx.try_send(message).is_ok()
}

/// `crossbeam_channel::Receiver::try_recv` on a channel whose two ends are both
/// held: the message that has waited longest, or nothing where none waits.
#[verifier::external_body]
pub(crate) fn channel_receive(tx: &mut Sender<Message>, rx: &mut Receiver<Message>) -> (r: Option<
    Message,
>)
    requires
        channel_linked(*old(tx), *old(rx)),
    ensures
        channel_linked(*final(tx), *final(rx)),
        channel_bound(*final(tx)) == channel_bound(*old(tx)),
        match r {
            Some(m) => channel_content(*old(rx)).len() > 0 && m@ == channel_content(*old(rx))[0]
                && channel_content(*final(rx)) == channel_content(*old(rx)).skip(1),
            None => channel_content(*old(rx)).len() == 0 && channel_content(*final(rx))
                == channel_content(*old(rx)),
        },
{
    rx.try_recv().ok()
}

/// `crossbeam_channel::Receiver::len`: how many messages wait.
#[verifier::external_body]
pub(crate) fn channel_len(rx: &Receiver<Message>) -> (r: usize)
    ensures
        r == channel_content(*rx).len(),
{
    rx.len()
}

} // verus!
