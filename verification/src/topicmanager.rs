use crate::filters::spec_texts;
use crate::publish::Publish;
use crate::publish::PublishView;
use crate::registry::lemma_put;
use crate::registry::spec_distinct_keys;
use crate::registry::spec_has_key;
use crate::registry::spec_key_index;
use crate::registry::spec_lookup;
use crate::registry::spec_put;
use crate::registry::Registry;
use crate::sequence::lemma_remove_first_at;
use crate::sequence::lemma_remove_first_clears;
use crate::sequence::lemma_remove_first_none;
use crate::sequence::spec_any;
use crate::sequence::spec_first_index;
use crate::sequence::spec_is_first;
use crate::sequence::spec_remove_first;
use crate::text::ends_with;
use crate::text::find_byte;
use crate::text::spec_before;
use crate::text::spec_is_byte;
use crate::text::starts_with;
use crate::text::str_eq;
use vstd::prelude::*;
use vstd::utf8::encode_utf8;

verus! {

/// The subscription of one client to one topic.
#[derive(Debug, PartialEq)]
pub struct ClientSubscription {
    /// The client that is subscribed.
    pub client_id: String,
    /// The quality of service that the client was granted.
    pub qos: u8,
}

/// A subscription as a mathematical value.
pub struct ClientSubscriptionView {
    pub client_id: Seq<char>,
    pub qos: u8,
}

impl View for ClientSubscription {
    type V = ClientSubscriptionView;

    open spec fn view(&self) -> ClientSubscriptionView {
        ClientSubscriptionView { client_id: self.client_id@, qos: self.qos }
    }
}

impl Clone for ClientSubscription {
    fn clone(&self) -> (r: ClientSubscription)
        ensures
            r@ == self@,
    {
        ClientSubscription { client_id: self.client_id.clone(), qos: self.qos }
    }
}

impl ClientSubscription {
    /// The subscription of `client_id` with the quality of service `qos`.
    pub fn new(client_id: &str, qos: u8) -> (r: ClientSubscription)
        ensures
            r@ == (ClientSubscriptionView { client_id: client_id@, qos }),
    {
        ClientSubscription { client_id: client_id.to_owned(), qos }
    }
}

/// The last message that was published to a topic with the retain flag set.
#[derive(Debug, PartialEq)]
pub struct RetainedMessage {
    /// The topic that the message was published to.
    pub topic_name: String,
    /// The message.
    pub message: String,
    /// The packet identifier of the publication.
    pub packet_id: u16,
}

/// A retained message as a mathematical value.
pub struct RetainedMessageView {
    pub topic_name: Seq<char>,
    pub message: Seq<char>,
    pub packet_id: u16,
}

impl View for RetainedMessage {
    type V = RetainedMessageView;

    open spec fn view(&self) -> RetainedMessageView {
        RetainedMessageView {
            topic_name: self.topic_name@,
            message: self.message@,
            packet_id: self.packet_id,
        }
    }
}

impl Clone for RetainedMessage {
    fn clone(&self) -> (r: RetainedMessage)
        ensures
            r@ == self@,
    {
        RetainedMessage {
            topic_name: self.topic_name.clone(),
            message: self.message.clone(),
            packet_id: self.packet_id,
        }
    }
}

impl RetainedMessageView {
    /// What a topic retains of a publication.
    pub open spec fn spec_from_publish(packet: PublishView) -> RetainedMessageView {
        RetainedMessageView {
            topic_name: packet.topic_name,
            message: packet.payload,
            packet_id: packet.packet_id,
        }
    }

    /// The retained message as it goes to a new subscriber: with the retain
    /// flag set, not marked as a duplicate.
    pub open spec fn spec_to_publish(self, qos: u8) -> PublishView {
        PublishView {
            topic_name: self.topic_name,
            payload: self.message,
            packet_id: self.packet_id,
            qos,
            retain_flag: 1,
            dup_flag: 0,
        }
    }
}

impl RetainedMessage {
    /// What a topic retains of a publication.
    pub fn from_publish_packet(packet: &Publish) -> (r: RetainedMessage)
        ensures
            r@ == RetainedMessageView::spec_from_publish(packet@),
    {
        RetainedMessage {
            topic_name: packet.topic_name.clone(),
            message: packet.payload.clone(),
            packet_id: packet.packet_id,
        }
    }

    /// The retained message as it goes to a new subscriber, with the
    /// quality of service `qos`.
    pub fn to_publish_packet(&self, qos: u8) -> (r: Publish)
        ensures
            r@ == self@.spec_to_publish(qos),
    {
        Publish {
            topic_name: self.topic_name.clone(),
            payload: self.message.clone(),
            packet_id: self.packet_id,
            qos,
            retain_flag: 1,
            dup_flag: 0,
        }
    }
}

/// The subscriptions that a run of subscriptions holds.
pub open spec fn spec_subscription_views(subscriptions: Seq<ClientSubscription>) -> Seq<
    ClientSubscriptionView,
> {
    Seq::new(subscriptions.len(), |i: int| subscriptions[i]@)
}

/// The retained message that an optional retained message holds.
pub open spec fn spec_retained_view(retained: Option<RetainedMessage>) -> Option<
    RetainedMessageView,
> {
    match retained {
        Some(message) => Some(message@),
        None => None,
    }
}

/// A topic: its name, its subscribers and what it retains.
#[derive(Debug, PartialEq)]
pub struct Topic {
    /// The name of the topic.
    pub name: String,
    /// The subscriptions to the topic, the oldest first.
    pub subscriptions: Vec<ClientSubscription>,
    /// The message that the topic retains, if any.
    pub retained_message: Option<RetainedMessage>,
    /// The quality of service with which the retained message was
    /// published; 0 where the topic retains none.
    pub retained_qos: u8,
}

/// A topic as a mathematical value.
pub struct TopicView {
    pub name: Seq<char>,
    pub subscriptions: Seq<ClientSubscriptionView>,
    pub retained_message: Option<RetainedMessageView>,
    pub retained_qos: u8,
}

impl View for Topic {
    type V = TopicView;

    open spec fn view(&self) -> TopicView {
        TopicView {
            name: self.name@,
            subscriptions: spec_subscription_views(self.subscriptions@),
            retained_message: spec_retained_view(self.retained_message),
            retained_qos: self.retained_qos,
        }
    }
}

impl Topic {
    /// A topic without subscribers and without a retained message.
    pub fn new(name: String) -> (r: Topic)
        ensures
            r@ == TopicView::spec_new(name@),
    {
        let r = Topic {
            name,
            subscriptions: Vec::new(),
            retained_message: None,
            retained_qos: 0,
        };
        assert(r@.subscriptions =~= Seq::<ClientSubscriptionView>::empty());
        r
    }
}

/// The test that a subscription is the one of `client_id`.
pub open spec fn spec_is_client(client_id: Seq<char>) -> spec_fn(ClientSubscriptionView) -> bool {
    |s: ClientSubscriptionView| s.client_id == client_id
}

/// True where no client has two of the subscriptions.
pub open spec fn spec_distinct_clients(subscriptions: Seq<ClientSubscriptionView>) -> bool {
    forall|i: int, j: int|
        0 <= i < j < subscriptions.len() ==> (#[trigger] subscriptions[i]).client_id != (
        #[trigger] subscriptions[j]).client_id
}

/// The subscriptions after a client subscribes: the earlier subscription of
/// the client leaves, and the new one comes last.
pub open spec fn spec_resubscribe(
    subscriptions: Seq<ClientSubscriptionView>,
    subscription: ClientSubscriptionView,
) -> Seq<ClientSubscriptionView> {
    spec_remove_first(subscriptions, spec_is_client(subscription.client_id)).push(subscription)
}

impl TopicView {
    /// A topic without subscribers and without a retained message.
    pub open spec fn spec_new(name: Seq<char>) -> TopicView {
        TopicView {
            name,
            subscriptions: Seq::empty(),
            retained_message: None,
            retained_qos: 0,
        }
    }

    /// The topic after a client subscribes to it.
    pub open spec fn spec_subscribe(self, subscription: ClientSubscriptionView) -> TopicView {
        TopicView {
            name: self.name,
            subscriptions: spec_resubscribe(self.subscriptions, subscription),
            retained_message: self.retained_message,
            retained_qos: self.retained_qos,
        }
    }

    /// The topic after a client unsubscribes from it.
    pub open spec fn spec_unsubscribe(self, client_id: Seq<char>) -> TopicView {
        TopicView {
            name: self.name,
            subscriptions: spec_remove_first(self.subscriptions, spec_is_client(client_id)),
            retained_message: self.retained_message,
            retained_qos: self.retained_qos,
        }
    }

    /// The topic after a publication to it: a publication with the retain
    /// flag 1 takes the place of what the topic retained, whatever its
    /// payload, and any other publication leaves it.
    pub open spec fn spec_update(self, packet: PublishView) -> TopicView {
        if packet.retain_flag == 1 {
            TopicView {
                name: self.name,
                subscriptions: self.subscriptions,
                retained_message: Some(RetainedMessageView::spec_from_publish(packet)),
                retained_qos: packet.qos,
            }
        } else {
            self
        }
    }
}

/// The byte `#`.
pub const HASH: u8 = 35;

/// The byte `+`.
pub const PLUS: u8 = 43;

/// The byte `/`.
pub const SLASH: u8 = 47;

/// True of the topic filters that hold a wildcard, `#` or `+`.
pub open spec fn spec_is_pattern(filter: Seq<u8>) -> bool {
    spec_first_index(filter, spec_is_byte(HASH)) is Some || spec_first_index(
        filter,
        spec_is_byte(PLUS),
    ) is Some
}

/// Whether a topic filter with a wildcard takes in the topic `name`.
///
/// `#` and `/#` take in every topic. Another filter with a `#` takes in the
/// topics that begin with what stands before its first `#`. A filter with a
/// `+` and no `#` takes in the topics that begin with what stands before its
/// first `+` and end with what stands between that `+` and the next one, or
/// the end of the filter.
pub open spec fn spec_pattern_matches(filter: Seq<u8>, name: Seq<u8>) -> bool {
    if filter == seq![HASH] || filter == seq![SLASH, HASH] {
        true
    } else if spec_first_index(filter, spec_is_byte(HASH)) is Some {
        spec_before(filter, HASH).is_prefix_of(name)
    } else {
        let first = spec_before(filter, PLUS);
        let second = spec_before(filter.skip(first.len() + 1 as int), PLUS);
        first.is_prefix_of(name) && second.is_suffix_of(name)
    }
}

/// Whether the topic filter holds a wildcard.
pub fn is_pattern(filter: &[u8]) -> (r: bool)
    ensures
        r == spec_is_pattern(filter@),
{
    assert(filter@.skip(0) =~= filter@);
    find_byte(filter, 0, HASH).is_some() || find_byte(filter, 0, PLUS).is_some()
}

/// Whether the topic filter, which holds a wildcard, takes in the topic
/// `name`.
pub fn pattern_matches(filter: &[u8], name: &[u8]) -> (r: bool)
    requires
        spec_is_pattern(filter@),
    ensures
        r == spec_pattern_matches(filter@, name@),
{
    assert(filter@.skip(0) =~= filter@);
    if filter.len() == 1 && filter[0] == HASH {
        assert(filter@ =~= seq![HASH]);
        return true;
    }
    if filter.len() == 2 && filter[0] == SLASH && filter[1] == HASH {
        assert(filter@ =~= seq![SLASH, HASH]);
        return true;
    }
    assert(filter@ != seq![HASH]) by {
        if filter@ == seq![HASH] {
            assert(filter@.len() == 1 && filter@[0] == HASH);
        }
    }
    assert(filter@ != seq![SLASH, HASH]) by {
        if filter@ == seq![SLASH, HASH] {
            assert(filter@.len() == 2 && filter@[0] == SLASH && filter@[1] == HASH);
        }
    }
    match find_byte(filter, 0, HASH) {
        Some(end) => {
            assert(filter@.subrange(0, end as int) =~= filter@.take(end as int));
            starts_with(name, filter, 0, end)
        },
        None => {
            match find_byte(filter, 0, PLUS) {
                Some(end) => {
                    let from = end + 1;
                    let ghost tail = filter@.skip(from as int);
                    let to = match find_byte(filter, from, PLUS) {
                        Some(next) => {
                            assert(filter@.subrange(from as int, next as int) =~= tail.take(
                                next - from,
                            ));
                            next
                        },
                        None => {
                            assert(filter@.subrange(from as int, filter.len() as int) =~= tail);
                            filter.len()
                        },
                    };
                    assert(filter@.subrange(0, end as int) =~= filter@.take(end as int));
                    starts_with(name, filter, 0, end) && ends_with(name, filter, from, to)
                },
                None => false,
            }
        },
    }
}

/// True of the topics that a topic manager can hold: no name occurs twice,
/// each topic is kept under its own name, and no client has two
/// subscriptions to one topic.
pub open spec fn spec_topics_well_formed(entries: Seq<(Seq<char>, TopicView)>) -> bool {
    &&& spec_distinct_keys(entries)
    &&& forall|i: int|
        0 <= i < entries.len() ==> (#[trigger] entries[i]).1.name == entries[i].0
            && spec_distinct_clients(entries[i].1.subscriptions)
}

/// The topic of the given name: a new one where the name is not known.
pub open spec fn spec_topic(entries: Seq<(Seq<char>, TopicView)>, name: Seq<char>) -> TopicView {
    match spec_lookup(entries, name) {
        Some(topic) => topic,
        None => TopicView::spec_new(name),
    }
}

/// The subscriptions to the topic of the given name: none where the name is
/// not known.
pub open spec fn spec_subscriptions(entries: Seq<(Seq<char>, TopicView)>, name: Seq<char>) -> Seq<
    ClientSubscriptionView,
> {
    spec_topic(entries, name).subscriptions
}

/// The message that the topic of the given name retains, if any.
pub open spec fn spec_retained_message(entries: Seq<(Seq<char>, TopicView)>, name: Seq<char>)
    -> Option<RetainedMessageView> {
    spec_topic(entries, name).retained_message
}

/// The quality of service with which the retained message of the topic of
/// the given name was published; 0 where it retains none.
pub open spec fn spec_retained_qos(entries: Seq<(Seq<char>, TopicView)>, name: Seq<char>) -> u8 {
    spec_topic(entries, name).retained_qos
}

/// The names of the topics, in the order of the entries.
pub open spec fn spec_names(entries: Seq<(Seq<char>, TopicView)>) -> Seq<Seq<char>> {
    Seq::new(entries.len(), |i: int| entries[i].0)
}

/// The names of those among the first `count` topics that `client_id` is
/// subscribed to, in the order of the entries.
pub open spec fn spec_client_topics(
    entries: Seq<(Seq<char>, TopicView)>,
    client_id: Seq<char>,
    count: nat,
) -> Seq<Seq<char>>
    decreases count,
{
    if count == 0 {
        Seq::empty()
    } else {
        let earlier = spec_client_topics(entries, client_id, (count - 1) as nat);
        if spec_any(entries[count - 1].1.subscriptions, spec_is_client(client_id)) {
            earlier.push(entries[count - 1].0)
        } else {
            earlier
        }
    }
}

/// The topics after a client subscribes to the topic of the given name,
/// which comes into being where it is not known.
pub open spec fn spec_subscribe_to_topic(
    entries: Seq<(Seq<char>, TopicView)>,
    name: Seq<char>,
    subscription: ClientSubscriptionView,
) -> Seq<(Seq<char>, TopicView)> {
    spec_put(entries, name, spec_topic(entries, name).spec_subscribe(subscription))
}

/// The topics after a client subscribes to each known topic that the
/// filter, which holds a wildcard, takes in.
pub open spec fn spec_subscribe_to_matching(
    entries: Seq<(Seq<char>, TopicView)>,
    filter: Seq<u8>,
    subscription: ClientSubscriptionView,
) -> Seq<(Seq<char>, TopicView)> {
    Seq::new(
        entries.len(),
        |i: int|
            if spec_pattern_matches(filter, encode_utf8(entries[i].0)) {
                (entries[i].0, entries[i].1.spec_subscribe(subscription))
            } else {
                entries[i]
            },
    )
}

/// The topics after a client subscribes with a topic filter. A filter with
/// a wildcard stands for the topics that are known at that moment and that
/// it takes in; any other filter is the name of one topic.
pub open spec fn spec_subscribe(
    entries: Seq<(Seq<char>, TopicView)>,
    filter: Seq<char>,
    subscription: ClientSubscriptionView,
) -> Seq<(Seq<char>, TopicView)> {
    if spec_is_pattern(encode_utf8(filter)) {
        spec_subscribe_to_matching(entries, encode_utf8(filter), subscription)
    } else {
        spec_subscribe_to_topic(entries, filter, subscription)
    }
}

/// The topics after a client unsubscribes from the topic of the given name.
/// Nothing changes where the name is not known.
pub open spec fn spec_unsubscribe(
    entries: Seq<(Seq<char>, TopicView)>,
    name: Seq<char>,
    client_id: Seq<char>,
) -> Seq<(Seq<char>, TopicView)> {
    if spec_has_key(entries, name) {
        spec_put(entries, name, spec_topic(entries, name).spec_unsubscribe(client_id))
    } else {
        entries
    }
}

/// The topics after a client unsubscribes from every one of them.
pub open spec fn spec_unsubscribe_all(entries: Seq<(Seq<char>, TopicView)>, client_id: Seq<char>)
    -> Seq<(Seq<char>, TopicView)> {
    Seq::new(entries.len(), |i: int| (entries[i].0, entries[i].1.spec_unsubscribe(client_id)))
}

/// The topics after a publication: its topic comes into being where it is
/// not known, and retains the publication where the retain flag is 1.
pub open spec fn spec_update_topic(entries: Seq<(Seq<char>, TopicView)>, packet: PublishView) -> Seq<
    (Seq<char>, TopicView),
> {
    spec_put(entries, packet.topic_name, spec_topic(entries, packet.topic_name).spec_update(packet))
}

/// Taking out the first subscription of a client leaves the other
/// subscriptions as they were, and none of that client where no client had
/// two.
pub proof fn lemma_remove_client(subscriptions: Seq<ClientSubscriptionView>, client_id: Seq<char>)
    requires
        spec_distinct_clients(subscriptions),
    ensures
        spec_distinct_clients(spec_remove_first(subscriptions, spec_is_client(client_id))),
        !spec_any(spec_remove_first(subscriptions, spec_is_client(client_id)), spec_is_client(
            client_id,
        )),
{
    let wanted = spec_is_client(client_id);
    let after = spec_remove_first(subscriptions, wanted);
    lemma_remove_first_clears(subscriptions, wanted);
    if exists|i: int| spec_is_first(subscriptions, wanted, i) {
        let at = choose|i: int| spec_is_first(subscriptions, wanted, i);
        assert forall|i: int, j: int| 0 <= i < j < after.len() implies (#[trigger] after[i]).client_id
            != (#[trigger] after[j]).client_id by {
            let a = if i < at { i } else { i + 1 };
            let b = if j < at { j } else { j + 1 };
            assert(after[i] == subscriptions[a]);
            assert(after[j] == subscriptions[b]);
        }
    }
}

/// After a client subscribes, it has exactly one subscription, the new one,
/// which comes last; no client has two.
pub proof fn lemma_resubscribe(
    subscriptions: Seq<ClientSubscriptionView>,
    subscription: ClientSubscriptionView,
)
    requires
        spec_distinct_clients(subscriptions),
    ensures
        spec_distinct_clients(spec_resubscribe(subscriptions, subscription)),
        spec_resubscribe(subscriptions, subscription).last() == subscription,
        !spec_any(
            spec_resubscribe(subscriptions, subscription).drop_last(),
            spec_is_client(subscription.client_id),
        ),
{
    let wanted = spec_is_client(subscription.client_id);
    let without = spec_remove_first(subscriptions, wanted);
    let after = spec_resubscribe(subscriptions, subscription);
    lemma_remove_client(subscriptions, subscription.client_id);
    assert(after.drop_last() =~= without);
    assert forall|i: int, j: int| 0 <= i < j < after.len() implies (#[trigger] after[i]).client_id
        != (#[trigger] after[j]).client_id by {
        if j == after.len() - 1 {
            assert(after[i] == without[i]);
            assert(!wanted(without[i]));
        } else {
            assert(after[i] == without[i] && after[j] == without[j]);
        }
    }
}

/// Giving one well-formed topic a new value under its own name, with no
/// client twice among its subscribers, leaves the topics well-formed.
pub proof fn lemma_put_topic(entries: Seq<(Seq<char>, TopicView)>, topic: TopicView)
    requires
        spec_topics_well_formed(entries),
        spec_distinct_clients(topic.subscriptions),
    ensures
        spec_topics_well_formed(spec_put(entries, topic.name, topic)),
{
    let after = spec_put(entries, topic.name, topic);
    lemma_put(entries, topic.name, topic, topic.name);
    let at = if spec_has_key(entries, topic.name) {
        spec_key_index(entries, topic.name)
    } else {
        entries.len() as int
    };
    assert forall|i: int| 0 <= i < after.len() implies (#[trigger] after[i]).1.name == after[i].0
        && spec_distinct_clients(after[i].1.subscriptions) by {
        if i != at {
            assert(after[i] == entries[i]);
        }
    }
}

/// The topic of a name carries that name and has no client twice among its
/// subscribers.
pub proof fn lemma_topic(entries: Seq<(Seq<char>, TopicView)>, name: Seq<char>)
    requires
        spec_topics_well_formed(entries),
    ensures
        spec_topic(entries, name).name == name,
        spec_distinct_clients(spec_topic(entries, name).subscriptions),
{
    if spec_has_key(entries, name) {
        let i = spec_key_index(entries, name);
        assert(entries[i].0 == name);
    }
}

/// Subscribing leaves the topics well-formed.
pub proof fn lemma_subscribe_well_formed(
    entries: Seq<(Seq<char>, TopicView)>,
    filter: Seq<char>,
    subscription: ClientSubscriptionView,
)
    requires
        spec_topics_well_formed(entries),
    ensures
        spec_topics_well_formed(spec_subscribe(entries, filter, subscription)),
{
    let after = spec_subscribe(entries, filter, subscription);
    if spec_is_pattern(encode_utf8(filter)) {
        assert forall|i: int| 0 <= i < after.len() implies (#[trigger] after[i]).1.name
            == after[i].0 && spec_distinct_clients(after[i].1.subscriptions) && after[i].0
            == entries[i].0 by {
            assert(entries[i].1.name == entries[i].0);
            lemma_resubscribe(entries[i].1.subscriptions, subscription);
        }
        assert forall|i: int, j: int| 0 <= i < j < after.len() implies (#[trigger] after[i]).0 != (
        #[trigger] after[j]).0 by {
            assert(after[i].0 == entries[i].0 && after[j].0 == entries[j].0);
        }
    } else {
        lemma_topic(entries, filter);
        lemma_resubscribe(spec_topic(entries, filter).subscriptions, subscription);
        lemma_put_topic(entries, spec_topic(entries, filter).spec_subscribe(subscription));
    }
}

/// Unsubscribing leaves the topics well-formed.
pub proof fn lemma_unsubscribe_well_formed(
    entries: Seq<(Seq<char>, TopicView)>,
    name: Seq<char>,
    client_id: Seq<char>,
)
    requires
        spec_topics_well_formed(entries),
    ensures
        spec_topics_well_formed(spec_unsubscribe(entries, name, client_id)),
{
    if spec_has_key(entries, name) {
        lemma_topic(entries, name);
        lemma_remove_client(spec_topic(entries, name).subscriptions, client_id);
        lemma_put_topic(entries, spec_topic(entries, name).spec_unsubscribe(client_id));
    }
}

/// Unsubscribing a client from every topic leaves the topics well-formed,
/// and the client without a subscription.
pub proof fn lemma_unsubscribe_all(entries: Seq<(Seq<char>, TopicView)>, client_id: Seq<char>)
    requires
        spec_topics_well_formed(entries),
    ensures
        spec_topics_well_formed(spec_unsubscribe_all(entries, client_id)),
        forall|i: int|
            0 <= i < entries.len() ==> !spec_any(
                (#[trigger] spec_unsubscribe_all(entries, client_id)[i]).1.subscriptions,
                spec_is_client(client_id),
            ),
{
    let after = spec_unsubscribe_all(entries, client_id);
    assert forall|i: int| 0 <= i < after.len() implies (#[trigger] after[i]).1.name == after[i].0
        && spec_distinct_clients(after[i].1.subscriptions) && !spec_any(
        after[i].1.subscriptions,
        spec_is_client(client_id),
    ) && after[i].0 == entries[i].0 by {
        assert(entries[i].1.name == entries[i].0);
        lemma_remove_client(entries[i].1.subscriptions, client_id);
    }
    assert forall|i: int, j: int| 0 <= i < j < after.len() implies (#[trigger] after[i]).0 != (
    #[trigger] after[j]).0 by {
        assert(after[i].0 == entries[i].0 && after[j].0 == entries[j].0);
    }
}

/// A publication leaves the topics well-formed.
pub proof fn lemma_update_topic_well_formed(
    entries: Seq<(Seq<char>, TopicView)>,
    packet: PublishView,
)
    requires
        spec_topics_well_formed(entries),
    ensures
        spec_topics_well_formed(spec_update_topic(entries, packet)),
{
    lemma_topic(entries, packet.topic_name);
    lemma_put_topic(entries, spec_topic(entries, packet.topic_name).spec_update(packet));
}

/// A client that subscribes to one topic twice has exactly one subscription
/// to it afterwards: the one it made last, with the quality of service that
/// it asked for last.
pub proof fn lemma_subscribe_twice(
    entries: Seq<(Seq<char>, TopicView)>,
    name: Seq<char>,
    first: ClientSubscriptionView,
    second: ClientSubscriptionView,
)
    requires
        spec_topics_well_formed(entries),
        !spec_is_pattern(encode_utf8(name)),
        first.client_id == second.client_id,
    ensures
        ({
            let subscriptions = spec_subscriptions(
                spec_subscribe(spec_subscribe(entries, name, first), name, second),
                name,
            );
            &&& subscriptions.len() > 0
            &&& subscriptions.last() == second
            &&& !spec_any(subscriptions.drop_last(), spec_is_client(second.client_id))
            &&& subscriptions.drop_last() == spec_subscriptions(
                spec_subscribe(entries, name, first),
                name,
            ).drop_last()
        }),
{
    let once = spec_subscribe(entries, name, first);
    let twice = spec_subscribe(once, name, second);
    lemma_subscribe_well_formed(entries, name, first);
    lemma_topic(entries, name);
    let first_topic = spec_topic(entries, name).spec_subscribe(first);
    lemma_put(entries, name, first_topic, name);
    lemma_resubscribe(spec_topic(entries, name).subscriptions, first);
    let second_topic = spec_topic(once, name).spec_subscribe(second);
    lemma_put(once, name, second_topic, name);
    lemma_resubscribe(first_topic.subscriptions, second);
    let wanted = spec_is_client(second.client_id);
    let at = first_topic.subscriptions.len() - 1;
    assert forall|j: int| 0 <= j < at implies !wanted(#[trigger] first_topic.subscriptions[j]) by {
        assert(first_topic.subscriptions.drop_last()[j] == first_topic.subscriptions[j]);
    }
    assert(spec_is_first(first_topic.subscriptions, wanted, at));
    lemma_remove_first_at(first_topic.subscriptions, wanted, at);
    assert(first_topic.subscriptions.remove(at) =~= first_topic.subscriptions.drop_last());
    assert(second_topic.subscriptions.drop_last() =~= first_topic.subscriptions.drop_last());
}

/// A publication without the retain flag leaves what every topic retains as
/// it was.
pub proof fn lemma_update_keeps_retained(
    entries: Seq<(Seq<char>, TopicView)>,
    packet: PublishView,
    name: Seq<char>,
)
    requires
        spec_distinct_keys(entries),
        packet.retain_flag != 1,
    ensures
        spec_retained_message(spec_update_topic(entries, packet), name) == spec_retained_message(
            entries,
            name,
        ),
        spec_retained_qos(spec_update_topic(entries, packet), name) == spec_retained_qos(
            entries,
            name,
        ),
{
    lemma_put(
        entries,
        packet.topic_name,
        spec_topic(entries, packet.topic_name).spec_update(packet),
        name,
    );
}

/// Takes the first subscription of `client_id` out of `subscriptions`.
pub fn remove_client(subscriptions: &mut Vec<ClientSubscription>, client_id: &str)
    ensures
        spec_subscription_views(final(subscriptions)@) == spec_remove_first(
            spec_subscription_views(old(subscriptions)@),
            spec_is_client(client_id@),
        ),
{
    let ghost wanted = spec_is_client(client_id@);
    let ghost before = spec_subscription_views(subscriptions@);
    let mut i: usize = 0;
    while i < subscriptions.len()
        invariant
            i <= subscriptions.len(),
            *subscriptions == *old(subscriptions),
            before == spec_subscription_views(subscriptions@),
            wanted == spec_is_client(client_id@),
            forall|j: int| 0 <= j < i ==> !wanted(#[trigger] before[j]),
        decreases subscriptions.len() - i,
    {
        if str_eq(subscriptions[i].client_id.as_str(), client_id) {
            proof {
                assert(wanted(before[i as int]));
                lemma_remove_first_at(before, wanted, i as int);
            }
            subscriptions.remove(i);
            assert(spec_subscription_views(subscriptions@) =~= before.remove(i as int));
            return ;
        }
        i += 1;
    }
    proof {
        lemma_remove_first_none(before, wanted);
    }
}

/// Whether `client_id` has one of the subscriptions.
pub fn has_client(subscriptions: &Vec<ClientSubscription>, client_id: &str) -> (r: bool)
    ensures
        r == spec_any(spec_subscription_views(subscriptions@), spec_is_client(client_id@)),
{
    let ghost wanted = spec_is_client(client_id@);
    let ghost views = spec_subscription_views(subscriptions@);
    let mut i: usize = 0;
    while i < subscriptions.len()
        invariant
            i <= subscriptions.len(),
            views == spec_subscription_views(subscriptions@),
            wanted == spec_is_client(client_id@),
            forall|j: int| 0 <= j < i ==> !wanted(#[trigger] views[j]),
        decreases subscriptions.len() - i,
    {
        if str_eq(subscriptions[i].client_id.as_str(), client_id) {
            assert(wanted(views[i as int]));
            return true;
        }
        i += 1;
    }
    false
}

/// A copy of the subscriptions.
pub fn clone_subscriptions(subscriptions: &Vec<ClientSubscription>) -> (r: Vec<ClientSubscription>)
    ensures
        spec_subscription_views(r@) == spec_subscription_views(subscriptions@),
{
    let mut copy: Vec<ClientSubscription> = Vec::new();
    let mut i: usize = 0;
    while i < subscriptions.len()
        invariant
            i <= subscriptions.len(),
            copy@.len() == i,
            forall|j: int| 0 <= j < i ==> copy@[j]@ == subscriptions@[j]@,
        decreases subscriptions.len() - i,
    {
        copy.push(subscriptions[i].clone());
        i += 1;
    }
    assert(spec_subscription_views(copy@) =~= spec_subscription_views(subscriptions@));
    copy
}

impl Topic {
    /// Subscribes a client to the topic: the earlier subscription of the
    /// client leaves, and a copy of the new one comes last.
    pub fn subscribe(&mut self, subscription: &ClientSubscription)
        ensures
            final(self)@ == old(self)@.spec_subscribe(subscription@),
    {
        remove_client(&mut self.subscriptions, subscription.client_id.as_str());
        self.subscriptions.push(subscription.clone());
        assert(self@.subscriptions =~= spec_resubscribe(old(self)@.subscriptions, subscription@));
    }

    /// Takes the subscription of `client_id` out of the topic.
    pub fn unsubscribe(&mut self, client_id: &str)
        ensures
            final(self)@ == old(self)@.spec_unsubscribe(client_id@),
    {
        remove_client(&mut self.subscriptions, client_id);
    }

    /// Takes note of a publication to the topic: one with the retain flag 1
    /// is retained in place of what the topic retained.
    pub fn update(&mut self, packet: &Publish)
        ensures
            final(self)@ == old(self)@.spec_update(packet@),
    {
        if packet.retain_flag == 1 {
            self.retained_message = Some(RetainedMessage::from_publish_packet(packet));
            self.retained_qos = packet.qos;
        }
    }
}

/// The topics that the broker knows, each with its subscribers and what it
/// retains.
///
/// The view is the run of entries, each a name with its topic, in the order
/// in which the topics came into being; it is well-formed at all times.
pub struct TopicManager {
    topics: Registry<Topic>,
}

impl View for TopicManager {
    type V = Seq<(Seq<char>, TopicView)>;

    closed spec fn view(&self) -> Seq<(Seq<char>, TopicView)> {
        self.topics@
    }
}

impl TopicManager {
    #[verifier::type_invariant]
    spec fn well_formed(&self) -> bool {
        spec_topics_well_formed(self.topics@)
    }

    /// Takes the topics out and leaves the manager empty.
    fn take_topics(&mut self) -> (r: Registry<Topic>)
        ensures
            r@ == old(self)@,
            spec_topics_well_formed(r@),
    {
        proof {
            use_type_invariant(&*self);
        }
        let mut taken = TopicManager { topics: Registry::new() };
        core::mem::swap(self, &mut taken);
        let TopicManager { topics } = taken;
        topics
    }

    /// A manager that knows no topic.
    pub fn new() -> (r: TopicManager)
        ensures
            r@ == Seq::<(Seq<char>, TopicView)>::empty(),
    {
        TopicManager { topics: Registry::new() }
    }

    /// Subscribes a client with a topic filter. A filter with a wildcard
    /// stands for the topics that are known at this moment and that it
    /// takes in; any other filter is the name of one topic, which comes into
    /// being where it is not known.
    pub fn subscribe(&mut self, topic: &str, subscription: &ClientSubscription)
        ensures
            final(self)@ == spec_subscribe(old(self)@, topic@, subscription@),
            spec_topics_well_formed(final(self)@),
    {
        let filter = topic.as_bytes();
        if is_pattern(filter) {
            let mut topics = self.take_topics();
            let ghost before = topics@;
            let ghost after = spec_subscribe_to_matching(before, filter@, subscription@);
            let count = topics.len();
            let mut i: usize = 0;
            while i < count
                invariant
                    i <= count,
                    count == before.len(),
                    topics@.len() == count,
                    spec_is_pattern(filter@),
                    after == spec_subscribe_to_matching(before, filter@, subscription@),
                    forall|j: int| 0 <= j < i ==> #[trigger] topics@[j] == after[j],
                    forall|j: int| i <= j < count ==> #[trigger] topics@[j] == before[j],
                decreases count - i,
            {
                let matches = pattern_matches(filter, topics.key_at(i).as_str().as_bytes());
                if matches {
                    let mut changed = topics.swap_value_at(i, Topic::new(String::new()));
                    changed.subscribe(subscription);
                    topics.set_value_at(i, changed);
                }
                i += 1;
            }
            proof {
                assert(topics@ =~= after);
                lemma_subscribe_well_formed(before, topic@, subscription@);
            }
            *self = TopicManager { topics };
        } else {
            self.subscribe_to_topic(topic, subscription);
        }
    }

    /// Subscribes a client to the topic of the given name, which comes into
    /// being where it is not known.
    pub fn subscribe_to_topic(&mut self, topic: &str, subscription: &ClientSubscription)
        ensures
            final(self)@ == spec_subscribe_to_topic(old(self)@, topic@, subscription@),
            spec_topics_well_formed(final(self)@),
    {
        let mut topics = self.take_topics();
        let ghost before = topics@;
        match topics.find(topic) {
            Some(i) => {
                let mut changed = topics.swap_value_at(i, Topic::new(String::new()));
                changed.subscribe(subscription);
                topics.set_value_at(i, changed);
                assert(topics@ =~= spec_subscribe_to_topic(before, topic@, subscription@));
            },
            None => {
                let mut added = Topic::new(topic.to_owned());
                added.subscribe(subscription);
                topics.push(topic.to_owned(), added);
            },
        }
        proof {
            lemma_topic(before, topic@);
            lemma_resubscribe(spec_topic(before, topic@).subscriptions, subscription@);
            lemma_put_topic(before, spec_topic(before, topic@).spec_subscribe(subscription@));
        }
        *self = TopicManager { topics };
    }

    /// Whether a topic of the given name is known.
    pub fn has_topic(&self, topic: &str) -> (r: bool)
        ensures
            r == spec_has_key(self@, topic@),
    {
        self.topics.find(topic).is_some()
    }

    /// A copy of the subscriptions to the topic of the given name: none
    /// where the name is not known.
    pub fn get_subscriptions(&self, topic: &str) -> (r: Vec<ClientSubscription>)
        ensures
            spec_subscription_views(r@) == spec_subscriptions(self@, topic@),
            spec_distinct_clients(spec_subscription_views(r@)),
    {
        proof {
            use_type_invariant(self);
            lemma_topic(self@, topic@);
        }
        match self.topics.find(topic) {
            Some(i) => clone_subscriptions(&self.topics.value_at(i).subscriptions),
            None => {
                let none: Vec<ClientSubscription> = Vec::new();
                assert(spec_subscription_views(none@) =~= Seq::<ClientSubscriptionView>::empty());
                none
            },
        }
    }

    /// The names of the topics that `client_id` is subscribed to, in the
    /// order in which the topics came into being.
    pub fn get_client_subscriptions(&self, client_id: &str) -> (r: Vec<String>)
        ensures
            spec_texts(r@) == spec_client_topics(self@, client_id@, self@.len()),
    {
        let mut names: Vec<String> = Vec::new();
        let count = self.topics.len();
        let mut i: usize = 0;
        assert(spec_texts(names@) =~= Seq::<Seq<char>>::empty());
        while i < count
            invariant
                i <= count,
                count == self@.len(),
                spec_texts(names@) == spec_client_topics(self@, client_id@, i as nat),
            decreases count - i,
        {
            let ghost earlier = spec_texts(names@);
            if has_client(&self.topics.value_at(i).subscriptions, client_id) {
                let name = self.topics.key_at(i).clone();
                names.push(name);
                assert(spec_texts(names@) =~= earlier.push(self@[i as int].0));
            }
            i += 1;
        }
        names
    }

    /// Takes the subscription of `client_to_unsubscribe` out of the topic of
    /// the given name. Does nothing where the name is not known.
    pub fn unsubscribe(&mut self, topic: &str, client_to_unsubscribe: &str)
        ensures
            final(self)@ == spec_unsubscribe(old(self)@, topic@, client_to_unsubscribe@),
            spec_topics_well_formed(final(self)@),
    {
        let mut topics = self.take_topics();
        let ghost before = topics@;
        match topics.find(topic) {
            Some(i) => {
                let mut changed = topics.swap_value_at(i, Topic::new(String::new()));
                changed.unsubscribe(client_to_unsubscribe);
                topics.set_value_at(i, changed);
                assert(topics@ =~= spec_unsubscribe(before, topic@, client_to_unsubscribe@));
            },
            None => {},
        }
        proof {
            lemma_unsubscribe_well_formed(before, topic@, client_to_unsubscribe@);
        }
        *self = TopicManager { topics };
    }

    /// Takes the subscriptions of `client_id` out of every topic.
    pub fn unsubscribe_all(&mut self, client_id: &str)
        ensures
            final(self)@ == spec_unsubscribe_all(old(self)@, client_id@),
            spec_topics_well_formed(final(self)@),
    {
        let mut topics = self.take_topics();
        let ghost before = topics@;
        let ghost after = spec_unsubscribe_all(before, client_id@);
        let count = topics.len();
        let mut i: usize = 0;
        while i < count
            invariant
                i <= count,
                count == before.len(),
                topics@.len() == count,
                after == spec_unsubscribe_all(before, client_id@),
                forall|j: int| 0 <= j < i ==> #[trigger] topics@[j] == after[j],
                forall|j: int| i <= j < count ==> #[trigger] topics@[j] == before[j],
            decreases count - i,
        {
            let mut changed = topics.swap_value_at(i, Topic::new(String::new()));
            changed.unsubscribe(client_id);
            topics.set_value_at(i, changed);
            i += 1;
        }
        proof {
            assert(topics@ =~= after);
            lemma_unsubscribe_all(before, client_id@);
        }
        *self = TopicManager { topics };
    }

    /// The names of the known topics, in the order in which they came into
    /// being.
    pub fn get_topics_available(&self) -> (r: Vec<String>)
        ensures
            spec_texts(r@) == spec_names(self@),
    {
        let mut names: Vec<String> = Vec::new();
        let count = self.topics.len();
        let mut i: usize = 0;
        while i < count
            invariant
                i <= count,
                count == self@.len(),
                names@.len() == i,
                forall|j: int| 0 <= j < i ==> (#[trigger] names@[j])@ == self@[j].0,
            decreases count - i,
        {
            let name = self.topics.key_at(i).clone();
            names.push(name);
            i += 1;
        }
        assert(spec_texts(names@) =~= spec_names(self@));
        names
    }

    /// Takes note of a publication: its topic comes into being where it is
    /// not known, and retains the publication where the retain flag is 1. A
    /// publication with another retain flag changes what no topic retains.
    pub fn update_topic(&mut self, msg: &Publish)
        ensures
            final(self)@ == spec_update_topic(old(self)@, msg@),
            spec_topics_well_formed(final(self)@),
            msg.retain_flag != 1 ==> forall|name: Seq<char>|
                #[trigger] spec_retained_message(final(self)@, name) == spec_retained_message(
                    old(self)@,
                    name,
                ),
    {
        let mut topics = self.take_topics();
        let ghost before = topics@;
        match topics.find(msg.topic_name.as_str()) {
            Some(i) => {
                let mut changed = topics.swap_value_at(i, Topic::new(String::new()));
                changed.update(msg);
                topics.set_value_at(i, changed);
                assert(topics@ =~= spec_update_topic(before, msg@));
            },
            None => {
                let mut added = Topic::new(msg.topic_name.clone());
                added.update(msg);
                topics.push(msg.topic_name.clone(), added);
            },
        }
        proof {
            lemma_update_topic_well_formed(before, msg@);
            if msg.retain_flag != 1 {
                assert forall|name: Seq<char>| #[trigger]
                    spec_retained_message(topics@, name) == spec_retained_message(
                        before,
                        name,
                    ) by {
                    lemma_update_keeps_retained(before, msg@, name);
                }
            }
        }
        *self = TopicManager { topics };
    }

    /// The quality of service with which the retained message of the topic
    /// of the given name was published; 0 where it retains none.
    pub fn get_retained_qos(&self, topic: &str) -> (r: u8)
        ensures
            r == spec_retained_qos(self@, topic@),
    {
        match self.topics.find(topic) {
            Some(i) => self.topics.value_at(i).retained_qos,
            None => 0,
        }
    }

    /// A copy of the message that the topic of the given name retains, if
    /// any.
    pub fn get_retained_message(&self, topic: &str) -> (r: Option<RetainedMessage>)
        ensures
            spec_retained_view(r) == spec_retained_message(self@, topic@),
    {
        match self.topics.find(topic) {
            Some(i) => match &self.topics.value_at(i).retained_message {
                Some(message) => Some(message.clone()),
                None => None,
            },
            None => None,
        }
    }
}

} // verus!
