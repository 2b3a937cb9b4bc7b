//! The queue of messages for the LCD task, and the policy for sending to it:
//! when the queue is full the oldest message is dropped, so that the latest
//! message always gets through.
use vstd::prelude::*;
use embassy_sync::blocking_mutex::raw::CriticalSectionRawMutex;
use embassy_sync::channel::Channel;
use embassy_sync::channel::TrySendError;
use crate::drivers::lcd::LcdMessage;

verus! {

/// How many messages the LCD queue holds.
pub const LCD_QUEUE_LEN: usize = 4;

/// The LCD task's queue: an `embassy_sync` channel of `LCD_QUEUE_LEN`
/// messages guarded by a critical-section mutex.  Verus sees only what
/// `queued` says it holds.
#[verifier::external_body]
pub struct LcdQueue {
    channel: Channel<CriticalSectionRawMutex, LcdMessage, 4>,
}

/// The messages waiting in the LCD queue, oldest first.
pub uninterp spec fn queued(queue: LcdQueue) -> Seq<LcdMessage>;

/// `embassy_sync::channel::Channel::new`: an empty queue.
#[verifier::external_body]
fn queue_new() -> (q: LcdQueue)
    ensures
        queued(q) == Seq::<LcdMessage>::empty(),
{
    LcdQueue { channel: Channel::new() }
}

/// `embassy_sync::channel::Channel::try_send`: appends the message when
/// fewer than `LCD_QUEUE_LEN` are waiting, and otherwise hands it back
/// (`TrySendError::Full`) and leaves the queue as it was.  The queue never
/// holds more than `LCD_QUEUE_LEN` messages.
#[verifier::external_body]
fn queue_try_send(
    queue: &mut LcdQueue,
    msg: LcdMessage,
) -> (r: Result<(), LcdMessage>)
    ensures
        queued(*old(queue)).len() <= LCD_QUEUE_LEN && queued(*final(queue)).len() <= LCD_QUEUE_LEN,
        queued(*old(queue)).len() < LCD_QUEUE_LEN ==> r is Ok && queued(*final(queue)) == queued(
            *old(queue),
        ).push(msg),
        queued(*old(queue)).len() >= LCD_QUEUE_LEN ==> (r matches Err(m) && m == msg && queued(
            *final(queue),
        ) == queued(*old(queue))),
{
    match queue.channel.try_send(msg) {
        Ok(()) => Ok(()),
        Err(TrySendError::Full(m)) => Err(m),
    }
}

/// `embassy_sync::channel::Channel::try_receive`: takes the oldest message,
/// or reports an empty queue (`None`) and leaves it as it was.  The queue
/// never holds more than `LCD_QUEUE_LEN` messages.
#[verifier::external_body]
fn queue_try_receive(
    queue: &mut LcdQueue,
) -> (r: Option<LcdMessage>)
    ensures
        queued(*old(queue)).len() <= LCD_QUEUE_LEN && queued(*final(queue)).len() <= LCD_QUEUE_LEN,
        queued(*old(queue)).len() == 0 ==> r is None && queued(*final(queue)) == queued(*old(queue)),
        queued(*old(queue)).len() > 0 ==> r == Some(queued(*old(queue))[0]) && queued(*final(queue))
            == queued(*old(queue)).drop_first(),
{
    queue.channel.try_receive().ok()
}

impl LcdQueue {
    /// An empty queue.
    pub fn new() -> (q: LcdQueue)
        ensures
            queued(q) == Seq::<LcdMessage>::empty(),
    {
        queue_new()
    }

    /// Takes the oldest waiting message, if any.
    pub fn try_receive(&mut self) -> (r: Option<LcdMessage>)
        ensures
            queued(*old(self)).len() == 0 ==> r is None && queued(*final(self)) == queued(*old(self)),
            queued(*old(self)).len() > 0 ==> r == Some(queued(*old(self))[0]) && queued(*final(self))
                == queued(*old(self)).drop_first(),
    {
        queue_try_receive(self)
    }
}

/// The queue after sending `msg` with the drop-oldest policy.
pub open spec fn after_send(q: Seq<LcdMessage>, msg: LcdMessage) -> Seq<LcdMessage> {
    if q.len() < LCD_QUEUE_LEN {
        q.push(msg)
    } else {
        q.drop_first().push(msg)
    }
}

/// Sends a message to the LCD queue, dropping the oldest entry if full so
/// the latest message always gets through.
pub fn lcd_send(queue: &mut LcdQueue, msg: LcdMessage)
    ensures
        queued(*final(queue)) == after_send(queued(*old(queue)), msg),
{
    match queue_try_send(queue, msg) {
        Ok(()) => {},
        Err(msg) => {
            let _ = queue_try_receive(queue);
            let _ = queue_try_send(queue, msg);
        },
    }
}

/// The latest message always gets through: after a send it is the newest
/// entry, the queue stays within its capacity, and the older entries keep
/// their order, only the oldest being dropped when the queue was full.
pub proof fn lemma_latest_gets_through(q: Seq<LcdMessage>, msg: LcdMessage)
    requires
        q.len() <= LCD_QUEUE_LEN,
    ensures
        after_send(q, msg).last() == msg,
        after_send(q, msg).len() <= LCD_QUEUE_LEN,
        after_send(q, msg).len() >= 1,
        q.len() < LCD_QUEUE_LEN ==> after_send(q, msg).drop_last() == q,
        q.len() == LCD_QUEUE_LEN ==> after_send(q, msg).drop_last() == q.drop_first(),
{
    assert(q.push(msg).drop_last() =~= q);
    assert(q.drop_first().push(msg).drop_last() =~= q.drop_first());
}

} // verus!
