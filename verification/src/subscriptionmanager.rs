use crate::number_map::NumberMap;
use vstd::prelude::*;

verus! {

/// What a client remembers of its requests to subscribe: the topic of each
/// request by its packet identifier, and the count of the subscriptions that
/// it shows.
pub struct SubscriptionManager {
    subscriptions: NumberMap,
    active_subscriptions: i32,
}

/// The words that say that a packet identifier has no topic.
pub open spec fn spec_no_subscription() -> Seq<char> {
    "Error getting the subscription..."@
}

impl SubscriptionManager {
    /// The topic of each request, by packet identifier.
    pub closed spec fn spec_topics(&self) -> Map<u16, Seq<char>> {
        self.subscriptions@
    }

    /// The count that `get_active_subscriptions` gives.
    pub closed spec fn spec_active(&self) -> i32 {
        self.active_subscriptions
    }

    /// A manager without requests, whose count is 1.
    pub fn new() -> (r: SubscriptionManager)
        ensures
            r.spec_topics() == Map::<u16, Seq<char>>::empty(),
            r.spec_active() == 1,
    {
        SubscriptionManager { subscriptions: NumberMap::new(), active_subscriptions: 1 }
    }

    /// Remembers `topic` under `packet_id`, in place of what was there.
    pub fn add_subscription(&mut self, packet_id: u16, topic: &str)
        ensures
            final(self).spec_topics() == old(self).spec_topics().insert(packet_id, topic@),
            final(self).spec_active() == old(self).spec_active(),
    {
        self.subscriptions.insert(packet_id, topic.to_owned());
    }

    /// The topic under `packet_id`; where there is none, the words that say
    /// so.
    pub fn get_packet_topic(&self, packet_id: u16) -> (r: Result<String, String>)
        ensures
            r is Ok <==> self.spec_topics().contains_key(packet_id),
            r is Ok ==> r->Ok_0@ == self.spec_topics()[packet_id],
            r is Err ==> r->Err_0@ == spec_no_subscription(),
    {
        match self.subscriptions.get(packet_id) {
            Some(topic) => Ok(topic.clone()),
            None => Err("Error getting the subscription...".to_owned()),
        }
    }

    /// Whether a topic is remembered under `packet_id`.
    pub fn has_topic(&self, packet_id: u16) -> (r: bool)
        ensures
            r == self.spec_topics().contains_key(packet_id),
    {
        self.subscriptions.contains_key(packet_id)
    }

    /// Forgets what is under `packet_id`.
    pub fn delete_subscription(&mut self, packet_id: u16)
        ensures
            final(self).spec_topics() == old(self).spec_topics().remove(packet_id),
            final(self).spec_active() == old(self).spec_active(),
    {
        self.subscriptions.remove(packet_id);
    }

    /// The count of the subscriptions that are shown.
    pub fn get_active_subscriptions(&self) -> (r: i32)
        ensures
            r == self.spec_active(),
    {
        self.active_subscriptions
    }

    /// Counts one subscription more.
    pub fn add_active_subscription(&mut self)
        requires
            old(self).spec_active() < i32::MAX,
        ensures
            final(self).spec_active() == old(self).spec_active() + 1,
            final(self).spec_topics() == old(self).spec_topics(),
    {
        self.active_subscriptions = self.active_subscriptions + 1;
    }

    /// Counts one subscription less.
    pub fn remove_active_subscription(&mut self)
        requires
            old(self).spec_active() > i32::MIN,
        ensures
            final(self).spec_active() == old(self).spec_active() - 1,
            final(self).spec_topics() == old(self).spec_topics(),
    {
        self.active_subscriptions = self.active_subscriptions - 1;
    }

    /// Forgets every request and sets the count back to 1.
    pub fn delete_all_subscription(&mut self)
        ensures
            final(self).spec_topics() == Map::<u16, Seq<char>>::empty(),
            final(self).spec_active() == 1,
    {
        self.subscriptions.clear();
        self.active_subscriptions = 1;
    }
}

} // verus!
