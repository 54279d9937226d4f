use vstd::prelude::*;
use vstd::string::StrSliceExecFns;

use crate::message_bus::BusError;

verus! {

/// Tells whether two strings hold the same characters.
pub fn str_eq(a: &str, b: &str) -> (r: bool)
    ensures
        r == (a@ == b@),
{
    let n = a.unicode_len();
    if n != b.unicode_len() {
        return false;
    }
    let mut i: usize = 0;
    while i < n
        invariant
            n == a@.len(),
            n == b@.len(),
            i <= n,
            forall|j: int| 0 <= j < i ==> a@[j] == b@[j],
        decreases n - i,
    {
        if a.get_char(i) != b.get_char(i) {
            return false;
        }
        i = i + 1;
    }
    proof {
        assert(a@ =~= b@);
    }
    true
}

/// The exchanges known to this library.
#[derive(Clone, Copy, Debug, PartialEq, Eq, Structural)]
pub enum MessageBrokerExchanges {
    TestExchange,
}

/// The wire name of an exchange.
pub open spec fn exchange_name(e: MessageBrokerExchanges) -> Seq<char> {
    match e {
        MessageBrokerExchanges::TestExchange => "test_exchange"@,
    }
}

/// The wire names of every exchange, in declaration order.
pub open spec fn all_exchange_names() -> Seq<Seq<char>> {
    seq![exchange_name(MessageBrokerExchanges::TestExchange)]
}

impl MessageBrokerExchanges {
    /// The wire name of this exchange.
    pub fn as_str(&self) -> (r: &'static str)
        ensures
            r@ == exchange_name(*self),
    {
        match self {
            MessageBrokerExchanges::TestExchange => "test_exchange",
        }
    }

    /// The wire names of every known exchange, in declaration order.
    pub fn all() -> (r: Vec<&'static str>)
        ensures
            r@.len() == all_exchange_names().len(),
            forall|i: int| 0 <= i < r@.len() ==> r@[i]@ == all_exchange_names()[i],
    {
        let mut r: Vec<&'static str> = Vec::new();
        r.push(MessageBrokerExchanges::TestExchange.as_str());
        r
    }
}

/// The routing keys known to this library.
#[derive(Clone, Copy, Debug, PartialEq, Eq, Structural)]
pub enum MessageBrokerRoutingKeys {
    TestTopic,
    TestTopicTwo,
}

/// The wire name of a routing key.
pub open spec fn routing_key_name(k: MessageBrokerRoutingKeys) -> Seq<char> {
    match k {
        MessageBrokerRoutingKeys::TestTopic => "test.topic"@,
        MessageBrokerRoutingKeys::TestTopicTwo => "test.topic_two"@,
    }
}

/// The wire names of every routing key, in declaration order.
pub open spec fn all_routing_key_names() -> Seq<Seq<char>> {
    seq![
        routing_key_name(MessageBrokerRoutingKeys::TestTopic),
        routing_key_name(MessageBrokerRoutingKeys::TestTopicTwo),
    ]
}

/// The routing key whose wire name is `s`, if there is one.
pub open spec fn decode_routing_key(s: Seq<char>) -> Option<MessageBrokerRoutingKeys> {
    if s == routing_key_name(MessageBrokerRoutingKeys::TestTopic) {
        Some(MessageBrokerRoutingKeys::TestTopic)
    } else if s == routing_key_name(MessageBrokerRoutingKeys::TestTopicTwo) {
        Some(MessageBrokerRoutingKeys::TestTopicTwo)
    } else {
        None
    }
}

impl MessageBrokerRoutingKeys {
    /// The wire name of this routing key.
    pub fn as_str(&self) -> (r: &'static str)
        ensures
            r@ == routing_key_name(*self),
    {
        match self {
            MessageBrokerRoutingKeys::TestTopic => "test.topic",
            MessageBrokerRoutingKeys::TestTopicTwo => "test.topic_two",
        }
    }

    /// Decodes a wire name; a name that no routing key has is a decoding error.
    pub fn from_str(routing_key: &str) -> (r: Result<Self, BusError>)
        ensures
            r == (match decode_routing_key(routing_key@) {
                Some(k) => Ok::<Self, BusError>(k),
                None => Err(BusError::DecodingError),
            }),
    {
        if str_eq(routing_key, "test.topic") {
            Ok(MessageBrokerRoutingKeys::TestTopic)
        } else if str_eq(routing_key, "test.topic_two") {
            Ok(MessageBrokerRoutingKeys::TestTopicTwo)
        } else {
            Err(BusError::DecodingError)
        }
    }

    /// The wire names of every known routing key, in declaration order.
    pub fn all() -> (r: Vec<&'static str>)
        ensures
            r@.len() == all_routing_key_names().len(),
            forall|i: int| 0 <= i < r@.len() ==> r@[i]@ == all_routing_key_names()[i],
    {
        let mut r: Vec<&'static str> = Vec::new();
        r.push(MessageBrokerRoutingKeys::TestTopic.as_str());
        r.push(MessageBrokerRoutingKeys::TestTopicTwo.as_str());
        r
    }
}

/// The queues known to this library.
#[derive(Clone, Copy, Debug, PartialEq, Eq, Structural)]
pub enum MessageBrokerQueues {
    TestQueue,
}

/// The wire name of a queue.
pub open spec fn queue_name(q: MessageBrokerQueues) -> Seq<char> {
    match q {
        MessageBrokerQueues::TestQueue => "test_queue"@,
    }
}

impl MessageBrokerQueues {
    /// The wire name of this queue.
    pub fn as_str(&self) -> (r: &'static str)
        ensures
            r@ == queue_name(*self),
    {
        match self {
            MessageBrokerQueues::TestQueue => "test_queue",
        }
    }
}

/// Decoding the wire name of any known routing key gives that key back.
pub proof fn lemma_routing_key_round_trip(k: MessageBrokerRoutingKeys)
    ensures
        decode_routing_key(routing_key_name(k)) == Some(k),
{
    reveal_strlit("test.topic");
    reveal_strlit("test.topic_two");
    match k {
        MessageBrokerRoutingKeys::TestTopic => {},
        MessageBrokerRoutingKeys::TestTopicTwo => {
            assert(routing_key_name(k).len() != routing_key_name(MessageBrokerRoutingKeys::TestTopic).len());
        },
    }
}

/// A wire name that no known routing key has never decodes to a key.
pub proof fn lemma_unknown_routing_key_rejected(s: Seq<char>)
    requires
        forall|k: MessageBrokerRoutingKeys| routing_key_name(k) != s,
    ensures
        decode_routing_key(s) is None,
{
    assert(routing_key_name(MessageBrokerRoutingKeys::TestTopic) != s);
    assert(routing_key_name(MessageBrokerRoutingKeys::TestTopicTwo) != s);
}

} // verus!
