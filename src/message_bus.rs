use vstd::prelude::*;
use vstd::utf8::{decode_utf8, valid_utf8};

use crate::topology::{
    decode_routing_key, MessageBrokerExchanges, MessageBrokerQueues, MessageBrokerRoutingKeys,
};

verus! {

/// The ways an operation on a message bus can fail.
#[derive(Clone, Copy, Debug, PartialEq, Eq, Structural)]
pub enum BusError {
    /// The transport handle could not be established or was lost.
    ConnectionError,
    /// An exchange, a queue or a binding could not be declared.
    DeclarationError,
    /// A published message was not confirmed by the transport.
    PublishError,
    /// A payload was not valid text, or a routing key is unknown.
    DecodingError,
    /// A delivery could not be acknowledged.
    AcknowledgmentError,
    /// The bus was already closed.
    Closed,
}

/// The capability set that every transport offers: publish with confirmation,
/// bind and consume a queue, and close. A transport may say, through the three
/// relations below, what each operation does to it and what it returns; one
/// that says nothing keeps the defaults, which promise nothing.
pub trait MessageBus: Sized {
    /// How a transport in state `before` may end in state `after`, returning
    /// `r`, when `message` is published to `exchange` under `routing_key`.
    open spec fn publish_post(
        before: Self,
        after: Self,
        exchange: MessageBrokerExchanges,
        routing_key: MessageBrokerRoutingKeys,
        message: Seq<u8>,
        r: Result<(), BusError>,
    ) -> bool {
        true
    }

    /// How a transport in state `before` may end in state `after`, returning
    /// `r`, when `queue` is bound to `exchange` for `routing_keys` and consumed.
    open spec fn listen_post(
        before: Self,
        after: Self,
        queue: MessageBrokerQueues,
        exchange: MessageBrokerExchanges,
        routing_keys: Seq<MessageBrokerRoutingKeys>,
        r: Result<(), BusError>,
    ) -> bool {
        true
    }

    /// How a transport in state `before` may end in state `after`, returning
    /// `r`, when it is closed.
    open spec fn close_post(before: Self, after: Self, r: Result<(), BusError>) -> bool {
        true
    }

    /// Publishes `message` to `exchange` under `routing_key`, returning once the
    /// transport has confirmed it.
    fn publish(
        &mut self,
        exchange: MessageBrokerExchanges,
        routing_key: MessageBrokerRoutingKeys,
        message: &[u8],
    ) -> (r: Result<(), BusError>)
        ensures
            Self::publish_post(*old(self), *final(self), exchange, routing_key, message@, r),
    ;

    /// Declares `queue`, binds it to `exchange` for each routing key, and starts
    /// consuming it.
    fn listen(
        &mut self,
        queue: MessageBrokerQueues,
        exchange: MessageBrokerExchanges,
        routing_keys: &Vec<MessageBrokerRoutingKeys>,
    ) -> (r: Result<(), BusError>)
        ensures
            Self::listen_post(*old(self), *final(self), queue, exchange, routing_keys@, r),
    ;

    /// Releases the transport.
    fn close(&mut self) -> (r: Result<(), BusError>)
        ensures
            Self::close_post(*old(self), *final(self), r),
    ;
}

/// What handling a delivery with routing key `key` and payload `payload` gives:
/// the decoded key and text, or a decoding error.
pub open spec fn delivery_outcome(key: Seq<char>, payload: Seq<u8>) -> Result<
    (MessageBrokerRoutingKeys, Seq<char>),
    BusError,
> {
    if valid_utf8(payload) && decode_routing_key(key) is Some {
        Ok((decode_routing_key(key)->0, decode_utf8(payload)))
    } else {
        Err(BusError::DecodingError)
    }
}

/// A handling outcome with its text seen as characters.
pub open spec fn outcome_view(r: Result<(MessageBrokerRoutingKeys, String), BusError>) -> Result<
    (MessageBrokerRoutingKeys, Seq<char>),
    BusError,
> {
    match r {
        Ok((k, t)) => Ok((k, t@)),
        Err(e) => Err(e),
    }
}

/// Relies on std::str::from_utf8: it accepts exactly the valid UTF-8 byte
/// strings and yields the characters they encode.
#[verifier::external_body]
fn text_of(bytes: &[u8]) -> (r: Option<String>)
    ensures
        r is Some <==> valid_utf8(bytes@),
        r is Some ==> r->0@ == decode_utf8(bytes@),
{
    match std::str::from_utf8(bytes) {
        Ok(s) => Some(s.to_owned()),
        Err(_) => None,
    }
}

/// Decides what a delivery is: its payload as text and its routing key as a
/// known key. Either failing is a decoding error for this delivery alone.
pub fn process_delivery(routing_key: &str, payload: &[u8]) -> (r: Result<
    (MessageBrokerRoutingKeys, String),
    BusError,
>)
    ensures
        outcome_view(r) == delivery_outcome(routing_key@, payload@),
{
    let text = match text_of(payload) {
        Some(t) => t,
        None => return Err(BusError::DecodingError),
    };
    match MessageBrokerRoutingKeys::from_str(routing_key) {
        Ok(k) => Ok((k, text)),
        Err(e) => Err(e),
    }
}

} // verus!
