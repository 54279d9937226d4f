use vstd::prelude::*;

use crate::message_bus::{BusError, MessageBus};
use crate::topology::{
    decode_routing_key, MessageBrokerExchanges, MessageBrokerQueues, MessageBrokerRoutingKeys,
};

verus! {

/// Whether every wire name in `keys` is the name of a known routing key.
pub open spec fn all_decode(keys: Seq<&str>) -> bool {
    forall|i: int| 0 <= i < keys.len() ==> (#[trigger] decode_routing_key(keys[i]@)) is Some
}

/// The routing keys that the wire names in `keys` decode to, in order.
pub open spec fn decoded_keys(keys: Seq<&str>) -> Seq<MessageBrokerRoutingKeys> {
    keys.map_values(|s: &str| decode_routing_key(s@)->0)
}

/// Decodes a list of wire routing keys, keeping their order; the first name
/// that no routing key has makes it a decoding error.
pub fn decode_routing_keys(keys: &Vec<&str>) -> (r: Result<Vec<MessageBrokerRoutingKeys>, BusError>)
    ensures
        all_decode(keys@) <==> r is Ok,
        r is Err ==> r == Err::<Vec<MessageBrokerRoutingKeys>, BusError>(BusError::DecodingError),
        r is Ok ==> r->Ok_0@ == decoded_keys(keys@),
{
    let mut out: Vec<MessageBrokerRoutingKeys> = Vec::new();
    let mut i: usize = 0;
    while i < keys.len()
        invariant
            i <= keys@.len(),
            out@.len() == i,
            forall|j: int| 0 <= j < i ==> decode_routing_key(keys@[j]@) == Some(#[trigger] out@[j]),
        decreases keys@.len() - i,
    {
        match MessageBrokerRoutingKeys::from_str(keys[i]) {
            Ok(k) => out.push(k),
            Err(e) => {
                assert(decode_routing_key(keys@[i as int]@) is None);
                return Err(e);
            },
        }
        i = i + 1;
    }
    assert forall|j: int| 0 <= j < keys@.len() implies (#[trigger] decode_routing_key(keys@[j]@)) is Some by {
        assert(decode_routing_key(keys@[j]@) == Some(out@[j]));
    }
    assert(out@ =~= decoded_keys(keys@));
    Ok(out)
}

/// The single entry point for applications: it owns one transport behind the
/// bus capability set and forwards publish, listen and close to it. Once
/// closed, it refuses every further operation with `BusError::Closed`, without
/// reaching the transport.
pub struct MessageBroker<B: MessageBus> {
    bus: B,
    closed: bool,
}

impl<B: MessageBus> MessageBroker<B> {
    /// The transport this broker owns.
    pub closed spec fn spec_bus(&self) -> B {
        self.bus
    }

    /// Whether this broker has been closed.
    pub closed spec fn spec_closed(&self) -> bool {
        self.closed
    }

    /// A broker over `bus`, open.
    pub fn new(bus: B) -> (r: Self)
        ensures
            r.spec_bus() == bus,
            !r.spec_closed(),
    {
        MessageBroker { bus, closed: false }
    }

    /// The transport this broker owns.
    pub fn bus(&self) -> (r: &B)
        ensures
            *r == self.spec_bus(),
    {
        &self.bus
    }

    /// Whether this broker has been closed.
    pub fn is_closed(&self) -> (r: bool)
        ensures
            r == self.spec_closed(),
    {
        self.closed
    }

    /// Publishes `message` to `exchange` under `routing_key` through the
    /// transport, and returns what it returned; success means the transport
    /// confirmed it.
    pub fn publish(
        &mut self,
        exchange: &MessageBrokerExchanges,
        routing_key: &MessageBrokerRoutingKeys,
        message: &[u8],
    ) -> (r: Result<(), BusError>)
        ensures
            old(self).spec_closed() ==> r == Err::<(), BusError>(BusError::Closed) && *final(self) == *old(self),
            !old(self).spec_closed() ==> B::publish_post(
                old(self).spec_bus(),
                final(self).spec_bus(),
                *exchange,
                *routing_key,
                message@,
                r,
            ),
            final(self).spec_closed() == old(self).spec_closed(),
    {
        if self.closed {
            return Err(BusError::Closed);
        }
        self.bus.publish(*exchange, *routing_key, message)
    }

    /// Binds `queue` to `exchange` for each wire routing key in `routing_keys`
    /// and starts consuming it, handing the transport the decoded keys in
    /// their order and returning what it returned. A name that no routing key
    /// has is a decoding error, and then the transport is not reached.
    pub fn listen(
        &mut self,
        queue: &MessageBrokerQueues,
        exchange: &MessageBrokerExchanges,
        routing_keys: &Vec<&str>,
    ) -> (r: Result<(), BusError>)
        ensures
            old(self).spec_closed() ==> r == Err::<(), BusError>(BusError::Closed) && *final(self) == *old(self),
            !old(self).spec_closed() && !all_decode(routing_keys@) ==> r == Err::<(), BusError>(
                BusError::DecodingError,
            ) && *final(self) == *old(self),
            !old(self).spec_closed() && all_decode(routing_keys@) ==> B::listen_post(
                old(self).spec_bus(),
                final(self).spec_bus(),
                *queue,
                *exchange,
                decoded_keys(routing_keys@),
                r,
            ),
            final(self).spec_closed() == old(self).spec_closed(),
    {
        if self.closed {
            return Err(BusError::Closed);
        }
        let keys = match decode_routing_keys(routing_keys) {
            Ok(keys) => keys,
            Err(e) => return Err(e),
        };
        self.bus.listen(*queue, *exchange, &keys)
    }

    /// Releases the transport, returning what it returned. The broker counts as closed once the transport
    /// has closed; closing it again is an error that does not reach the
    /// transport.
    pub fn close(&mut self) -> (r: Result<(), BusError>)
        ensures
            old(self).spec_closed() ==> r == Err::<(), BusError>(BusError::Closed) && *final(self) == *old(self),
            !old(self).spec_closed() ==> B::close_post(old(self).spec_bus(), final(self).spec_bus(), r),
            !old(self).spec_closed() ==> final(self).spec_closed() == r is Ok,
    {
        if self.closed {
            return Err(BusError::Closed);
        }
        let r = self.bus.close();
        if r.is_ok() {
            self.closed = true;
        }
        r
    }
}

} // verus!
