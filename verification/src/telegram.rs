//! The data model of the remote messaging API: requests, responses and the
//! errors the transport layer can surface.

use vstd::prelude::*;

verus! {

/// Failure of a call against the remote messaging API: either the transport
/// failed, or the response body could not be decoded.
#[derive(Debug)]
pub enum TelegramError {
    HttpError { msg: String },
    JsonError { msg: String },
}

/// One request to the remote messaging API, one variant per method.
pub enum TelegramRequest {
    Me,
    Updates { offset: Option<i64>, limit: Option<i64>, timeout: u32 },
    SendMessage { chat_id: u64, text: String },
}

/// The conversation a message belongs to; `id` is the recipient identifier
/// used for replies.
#[derive(Debug, PartialEq, Eq)]
pub struct Chat {
    pub id: u64,
    pub first_name: String,
    pub last_name: String,
    pub chat_type: String,
}

/// An inbound or outbound message: its text and the chat it belongs to.
#[derive(Debug, PartialEq, Eq)]
pub struct Message {
    pub text: String,
    pub chat: Chat,
}

/// One update returned by the long-poll endpoint: a strictly increasing
/// identifier together with the message it carries.
#[derive(Debug, PartialEq, Eq)]
pub struct Update {
    pub update_id: i64,
    pub message: Message,
}

/// The envelope every API response arrives in.
#[derive(Debug, PartialEq, Eq)]
pub struct ResponseContainer<T> {
    pub ok: bool,
    pub result: T,
}

/// A handle on the remote messaging API; the token authenticates every call.
pub struct Client {
    pub token: String,
}

/// Mathematical model of a [`Chat`].
pub struct ChatModel {
    pub id: u64,
    pub first_name: Seq<char>,
    pub last_name: Seq<char>,
    pub chat_type: Seq<char>,
}

/// Mathematical model of a [`Message`].
pub struct MessageModel {
    pub text: Seq<char>,
    pub chat: ChatModel,
}

/// Mathematical model of an [`Update`].
pub struct UpdateModel {
    pub update_id: i64,
    pub message: MessageModel,
}

/// Mathematical model of a [`ResponseContainer`], over the model of its payload.
pub struct ResponseModel<V> {
    pub ok: bool,
    pub result: V,
}

impl View for Chat {
    type V = ChatModel;

    open spec fn view(&self) -> ChatModel {
        ChatModel {
            id: self.id,
            first_name: self.first_name@,
            last_name: self.last_name@,
            chat_type: self.chat_type@,
        }
    }
}

impl DeepView for Chat {
    type V = ChatModel;

    open spec fn deep_view(&self) -> ChatModel {
        self.view()
    }
}

impl View for Message {
    type V = MessageModel;

    open spec fn view(&self) -> MessageModel {
        MessageModel { text: self.text@, chat: self.chat@ }
    }
}

impl DeepView for Message {
    type V = MessageModel;

    open spec fn deep_view(&self) -> MessageModel {
        self.view()
    }
}

impl View for Update {
    type V = UpdateModel;

    open spec fn view(&self) -> UpdateModel {
        UpdateModel { update_id: self.update_id, message: self.message@ }
    }
}

impl DeepView for Update {
    type V = UpdateModel;

    open spec fn deep_view(&self) -> UpdateModel {
        self.view()
    }
}

impl<T: DeepView> View for ResponseContainer<T> {
    type V = ResponseModel<T::V>;

    open spec fn view(&self) -> ResponseModel<T::V> {
        ResponseModel { ok: self.ok, result: self.result.deep_view() }
    }
}

impl<T: DeepView> DeepView for ResponseContainer<T> {
    type V = ResponseModel<T::V>;

    open spec fn deep_view(&self) -> ResponseModel<T::V> {
        self.view()
    }
}

impl Clone for Chat {
    fn clone(&self) -> (r: Self)
        ensures
            r@ == self@,
    {
        Chat {
            id: self.id,
            first_name: self.first_name.clone(),
            last_name: self.last_name.clone(),
            chat_type: self.chat_type.clone(),
        }
    }
}

impl Clone for Message {
    fn clone(&self) -> (r: Self)
        ensures
            r@ == self@,
    {
        Message { text: self.text.clone(), chat: self.chat.clone() }
    }
}

impl Clone for Update {
    fn clone(&self) -> (r: Self)
        ensures
            r@ == self@,
    {
        Update { update_id: self.update_id, message: self.message.clone() }
    }
}

} // verus!
