//! The Echo Relay and the Outbound Dispatcher: how an inbound message turns
//! into an outbound item, and how the dispatcher walks the outbound stream
//! without letting one failed send stop it.

use vstd::prelude::*;

use crate::telegram::{Message, ResponseContainer, TelegramError, TelegramRequest};

verus! {

/// The Echo Relay transform: every inbound message is republished, unchanged,
/// to its own sender — the outbound item carries exactly the message's
/// recipient identifier and its text.
pub fn echo_reply(msg: &Message) -> (item: (u64, String))
    ensures
        item.0 == msg.chat.id,
        item.1@ == msg.text@,
{
    (msg.chat.id, msg.text.clone())
}

/// The request one outbound item turns into: a send of exactly that text to
/// exactly that recipient.
pub fn outbound_request(recipient: u64, text: &String) -> (r: TelegramRequest)
    ensures
        r matches TelegramRequest::SendMessage { chat_id, text: t } && chat_id == recipient && t@
            == text@,
{
    TelegramRequest::SendMessage { chat_id: recipient, text: text.clone() }
}

/// Where the dispatcher stands after finishing an item, given what the send
/// returned: always at the next item. No outcome appears on the right-hand
/// side — failures are logged and skipped, never propagated.
pub open spec fn dispatcher_step(
    pos: int,
    outcome: Result<ResponseContainer<Message>, TelegramError>,
) -> int {
    pos + 1
}

/// The Outbound Dispatcher's position in the stream of outbound items it has
/// consumed: how many it has finished with, delivered or not.
pub struct Dispatcher {
    pub pos: usize,
}

impl Dispatcher {
    /// A dispatcher that has consumed nothing yet.
    pub fn new() -> (d: Dispatcher)
        ensures
            d.pos == 0,
    {
        Dispatcher { pos: 0 }
    }

    /// The send request for the item the dispatcher currently stands at, or
    /// nothing once it has consumed the whole batch.
    pub fn current_request(&self, items: &Vec<(u64, String)>) -> (r: Option<TelegramRequest>)
        ensures
            self.pos < items@.len() ==> (r matches Some(req) && (req
                matches TelegramRequest::SendMessage { chat_id, text } && chat_id
                == items@[self.pos as int].0 && text@ == items@[self.pos as int].1@)),
            self.pos >= items@.len() ==> r is None,
    {
        if self.pos < items.len() {
            let item = &items[self.pos];
            Some(outbound_request(item.0, &item.1))
        } else {
            None
        }
    }

    /// Finishes the current item with whatever the send returned and moves to
    /// the next one: a transport or decode failure advances the dispatcher
    /// exactly as a delivered send does.
    pub fn advance(&mut self, outcome: &Result<ResponseContainer<Message>, TelegramError>)
        requires
            old(self).pos < usize::MAX,
        ensures
            final(self).pos == dispatcher_step(old(self).pos as int, *outcome),
    {
        self.pos = self.pos + 1;
    }
}

/// The Dispatcher law: a failed send on one item cannot keep a later item
/// from being processed — whatever two sends return, the dispatcher moves on
/// by exactly one item either way.
pub proof fn lemma_failure_does_not_block(
    pos: int,
    failed: Result<ResponseContainer<Message>, TelegramError>,
    delivered: Result<ResponseContainer<Message>, TelegramError>,
)
    ensures
        dispatcher_step(pos, failed) == dispatcher_step(pos, delivered),
{
}

} // verus!
