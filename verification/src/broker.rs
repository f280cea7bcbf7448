use crate::connack::Connack;
use crate::connect::Connect;
use crate::connect::ConnectView;
use crate::filters::spec_texts;
use crate::messagemanager::spec_remove_message;
use crate::puback::Puback;
use crate::messagemanager::spec_queue;
use crate::registry::lemma_delete;
use crate::registry::lemma_put;
use crate::registry::spec_delete;
use crate::registry::spec_distinct_keys;
use crate::registry::spec_has_key;
use crate::sessionmanager::lemma_add_client_well_formed;
use crate::sessionmanager::lemma_delete_well_formed;
use crate::sessionmanager::lemma_replace_stream_well_formed;
use crate::sessionmanager::lemma_unbind_well_formed;
use crate::topicmanager::lemma_subscribe_well_formed;
use crate::topicmanager::lemma_unsubscribe_all;
use crate::topicmanager::lemma_unsubscribe_well_formed;
use crate::topicmanager::lemma_update_topic_well_formed;
use crate::topicmanager::spec_topics_well_formed;
use crate::sessionmanager::LastWillTestament;
use crate::sessionmanager::LastWillTestamentView;
use crate::suback::Suback;
use crate::suback::SubackView;
use crate::subscribe::Subscribe;
use crate::subscribe::SubscribeView;
use crate::topicmanager::spec_client_topics;
use crate::topicmanager::spec_retained_message;
use crate::topicmanager::spec_retained_qos;
use crate::topicmanager::spec_subscribe;
use crate::topicmanager::spec_subscriptions;
use crate::topicmanager::spec_unsubscribe;
use crate::topicmanager::spec_unsubscribe_all;
use crate::topicmanager::spec_update_topic;
use crate::unsuback::Unsuback;
use crate::unsubscribe::Unsubscribe;
use crate::unsubscribe::UnsubscribeView;
use crate::credentialmanager::CredentialManager;
use crate::messagemanager::spec_add_message;
use crate::messagemanager::MessageManager;
use crate::messagemanager::PendingMessage;
use crate::messagemanager::PendingMessageView;
use crate::packet_dispatcher::Packet;
use crate::packet_dispatcher::PacketView;
use crate::publish::Publish;
use crate::publish::PublishView;
use crate::registry::spec_lookup;
use crate::sequence::lemma_remove_first_at;
use crate::sequence::lemma_remove_first_none;
use crate::sequence::spec_remove_first;
use crate::sessionmanager::SessionManager;
use crate::sessionmanager::SessionView;
use crate::sessionmanager::SessionsView;
use crate::topicmanager::ClientSubscription;
use crate::topicmanager::ClientSubscriptionView;
use crate::topicmanager::TopicManager;
use crate::topicmanager::TopicView;
use vstd::prelude::*;

verus! {

/// What the broker asks of the code that holds the connections.
#[derive(Debug, PartialEq)]
pub enum Action {
    /// Write the packet to the connection of the peer.
    Send(u16, Packet),
    /// Close the connection of the peer and scan it no more.
    Drop(u16),
}

/// An action as a mathematical value.
pub enum ActionView {
    Send(u16, PacketView),
    Drop(u16),
}

impl View for Action {
    type V = ActionView;

    open spec fn view(&self) -> ActionView {
        match self {
            Action::Send(peer, packet) => ActionView::Send(*peer, packet@),
            Action::Drop(peer) => ActionView::Drop(*peer),
        }
    }
}

/// The actions that a run of actions holds.
pub open spec fn spec_actions(actions: Seq<Action>) -> Seq<ActionView> {
    Seq::new(actions.len(), |i: int| actions[i]@)
}

/// The test that a peer is `peer`.
pub open spec fn spec_is_peer(peer: u16) -> spec_fn(u16) -> bool {
    |p: u16| p == peer
}

/// The peers of the connections that the broker scans for packets, in the
/// order in which the connections were accepted.
pub struct ActiveConnections {
    peers: Vec<u16>,
}

impl View for ActiveConnections {
    type V = Seq<u16>;

    closed spec fn view(&self) -> Seq<u16> {
        self.peers@
    }
}

impl ActiveConnections {
    /// No connection.
    pub fn new() -> (r: ActiveConnections)
        ensures
            r@ == Seq::<u16>::empty(),
    {
        ActiveConnections { peers: Vec::new() }
    }

    /// Takes note of an accepted connection: its peer comes last.
    pub fn add(&mut self, peer: u16)
        ensures
            final(self)@ == old(self)@.push(peer),
    {
        self.peers.push(peer);
    }

    /// Forgets the first connection of `peer`. Does nothing where there is
    /// none.
    pub fn remove(&mut self, peer: u16)
        ensures
            final(self)@ == spec_remove_first(old(self)@, spec_is_peer(peer)),
    {
        let ghost wanted = spec_is_peer(peer);
        let mut i: usize = 0;
        while i < self.peers.len()
            invariant
                i <= self.peers.len(),
                *self == *old(self),
                wanted == spec_is_peer(peer),
                forall|j: int| 0 <= j < i ==> !wanted(#[trigger] self@[j]),
            decreases self.peers.len() - i,
        {
            if self.peers[i] == peer {
                proof {
                    assert(wanted(self@[i as int]));
                    lemma_remove_first_at(self@, wanted, i as int);
                }
                self.peers.remove(i);
                return ;
            }
            i += 1;
        }
        proof {
            lemma_remove_first_none(self@, wanted);
        }
    }

    /// A copy of the peers.
    pub fn peers(&self) -> (r: Vec<u16>)
        ensures
            r@ == self@,
    {
        self.peers.clone()
    }
}

/// The lesser of two qualities of service.
pub open spec fn spec_min(a: u8, b: u8) -> u8 {
    if a <= b {
        a
    } else {
        b
    }
}

/// The lesser of two qualities of service.
pub fn min_qos(a: u8, b: u8) -> (r: u8)
    ensures
        r == spec_min(a, b),
{
    if a <= b {
        a
    } else {
        b
    }
}

impl PublishView {
    /// The publication as it goes to a subscriber that was granted `qos`:
    /// with the lesser of that and its own quality of service.
    pub open spec fn spec_for_subscriber(self, qos: u8) -> PublishView {
        PublishView {
            topic_name: self.topic_name,
            payload: self.payload,
            packet_id: self.packet_id,
            qos: spec_min(qos, self.qos),
            retain_flag: self.retain_flag,
            dup_flag: self.dup_flag,
        }
    }
}

/// What goes out when a publication is routed to the first `count` of the
/// subscriptions: for each subscriber whose session is bound to a
/// connection, the publication to the peer of that connection, with the
/// lesser quality of service.
pub open spec fn spec_deliveries(
    sessions: SessionsView,
    subscriptions: Seq<ClientSubscriptionView>,
    packet: PublishView,
    count: nat,
) -> Seq<ActionView>
    decreases count,
{
    if count == 0 {
        Seq::empty()
    } else {
        let earlier = spec_deliveries(sessions, subscriptions, packet, (count - 1) as nat);
        let subscription = subscriptions[count - 1];
        match sessions.spec_bound_peer(subscription.client_id) {
            Some(peer) => earlier.push(
                ActionView::Send(
                    peer,
                    PacketView::Publish(packet.spec_for_subscriber(subscription.qos)),
                ),
            ),
            None => earlier,
        }
    }
}

/// The pending messages after a publication is routed to the first `count`
/// of the subscriptions: for each subscriber that has a session and is owed
/// the publication with a quality of service above 0, the publication waits
/// for its acknowledgement, whether the session is bound to a connection or
/// not.
pub open spec fn spec_pending_after(
    messages: Seq<(Seq<char>, Seq<PendingMessageView>)>,
    sessions: Seq<(Seq<char>, SessionView)>,
    subscriptions: Seq<ClientSubscriptionView>,
    packet: PublishView,
    count: nat,
) -> Seq<(Seq<char>, Seq<PendingMessageView>)>
    decreases count,
{
    if count == 0 {
        messages
    } else {
        let earlier = spec_pending_after(
            messages,
            sessions,
            subscriptions,
            packet,
            (count - 1) as nat,
        );
        let subscription = subscriptions[count - 1];
        if spec_lookup(sessions, subscription.client_id) is Some && spec_min(
            subscription.qos,
            packet.qos,
        ) != 0 {
            spec_add_message(
                earlier,
                subscription.client_id,
                PendingMessageView::spec_from_publish(packet),
            )
        } else {
            earlier
        }
    }
}

/// Routes a publication to the subscribers: appends to `actions` what goes
/// out, and makes the publication wait for the acknowledgement of each
/// subscriber that is owed it with a quality of service above 0.
pub fn route(
    sessions: &SessionManager,
    messages: &mut MessageManager,
    subscriptions: &Vec<ClientSubscription>,
    packet: &Publish,
    actions: &mut Vec<Action>,
)
    ensures
        final(messages)@ == spec_pending_after(
            old(messages)@,
            sessions@.sessions,
            crate::topicmanager::spec_subscription_views(subscriptions@),
            packet@,
            subscriptions@.len(),
        ),
        spec_actions(final(actions)@) == spec_actions(old(actions)@) + spec_deliveries(
            sessions@,
            crate::topicmanager::spec_subscription_views(subscriptions@),
            packet@,
            subscriptions@.len(),
        ),
{
    let ghost views = crate::topicmanager::spec_subscription_views(subscriptions@);
    let mut i: usize = 0;
    assert(spec_actions(actions@) =~= spec_actions(old(actions)@) + Seq::<ActionView>::empty());
    while i < subscriptions.len()
        invariant
            i <= subscriptions.len(),
            views == crate::topicmanager::spec_subscription_views(subscriptions@),
            messages@ == spec_pending_after(
                old(messages)@,
                sessions@.sessions,
                views,
                packet@,
                i as nat,
            ),
            spec_actions(actions@) == spec_actions(old(actions)@) + spec_deliveries(
                sessions@,
                views,
                packet@,
                i as nat,
            ),
        decreases subscriptions.len() - i,
    {
        let subscription = &subscriptions[i];
        assert(subscription@ == views[i as int]);
        let ghost earlier = spec_actions(actions@);
        let qos = min_qos(subscription.qos, packet.qos);
        if qos != 0 && sessions.has_client(subscription.client_id.as_str()) {
            let pending = PendingMessage::from_publish_packet(packet);
            messages.add_message(subscription.client_id.as_str(), &pending);
        }
        match sessions.get_bound_peer(subscription.client_id.as_str()) {
            Some(peer) => {
                let publish = Publish {
                    topic_name: packet.topic_name.clone(),
                    payload: packet.payload.clone(),
                    packet_id: packet.packet_id,
                    qos,
                    retain_flag: packet.retain_flag,
                    dup_flag: packet.dup_flag,
                };
                actions.push(Action::Send(peer, Packet::Publish(publish)));
                assert(spec_actions(actions@) =~= earlier.push(
                    ActionView::Send(
                        peer,
                        PacketView::Publish(packet@.spec_for_subscriber(subscription.qos)),
                    ),
                ));
            },
            None => {},
        }
        i += 1;
    }
}

/// The state of a broker: who may connect, the sessions, the topics, the
/// messages that wait for an acknowledgement, and the connections that are
/// scanned for packets.
pub struct Broker {
    pub credentials: CredentialManager,
    pub sessions: SessionManager,
    pub topics: TopicManager,
    pub messages: MessageManager,
    pub active: ActiveConnections,
}

/// The state of a broker as a mathematical value.
pub struct BrokerView {
    pub credentials: Seq<(Seq<char>, Seq<char>)>,
    pub sessions: SessionsView,
    pub topics: Seq<(Seq<char>, TopicView)>,
    pub messages: Seq<(Seq<char>, Seq<PendingMessageView>)>,
    pub active: Seq<u16>,
}

impl View for Broker {
    type V = BrokerView;

    open spec fn view(&self) -> BrokerView {
        BrokerView {
            credentials: self.credentials@,
            sessions: self.sessions@,
            topics: self.topics@,
            messages: self.messages@,
            active: self.active@,
        }
    }
}

/// The return code of a CONNACK that accepts the connection.
pub const CONNECTION_ACCEPTED: u8 = 0;

/// The return code of a CONNACK that refuses the connection for a bad user
/// name or password.
pub const BAD_USERNAME_OR_PASSWORD: u8 = 4;

/// The packet identifier under which the broker publishes a last will.
pub const LAST_WILL_PACKET_ID: u16 = 1;

impl ConnectView {
    /// The last will that the packet holds: one where the will flag is 1.
    pub open spec fn spec_last_will(self) -> Option<LastWillTestamentView> {
        if self.last_will_flag == 1 {
            Some(
                LastWillTestamentView {
                    topic_name: self.last_will_topic,
                    payload: self.last_will_message,
                    qos: self.last_will_qos,
                    retain_flag: self.last_will_retain,
                },
            )
        } else {
            None
        }
    }
}

impl LastWillTestamentView {
    /// The last will as the broker publishes it.
    pub open spec fn spec_to_publish(self) -> PublishView {
        PublishView {
            topic_name: self.topic_name,
            payload: self.payload,
            packet_id: LAST_WILL_PACKET_ID,
            qos: self.qos,
            retain_flag: self.retain_flag,
            dup_flag: 0,
        }
    }
}

/// A CONNACK to the peer.
pub open spec fn spec_connack(peer: u16, return_code: u8, session_present: u8) -> ActionView {
    ActionView::Send(peer, PacketView::Connack(Connack { return_code, session_present }))
}

impl BrokerView {
    /// A broker that knows nothing yet.
    pub open spec fn spec_new() -> BrokerView {
        BrokerView {
            credentials: Seq::empty(),
            sessions: SessionsView::spec_new(),
            topics: Seq::empty(),
            messages: Seq::empty(),
            active: Seq::empty(),
        }
    }

    /// The broker with other sessions, topics and active connections.
    pub open spec fn spec_with(
        self,
        sessions: SessionsView,
        topics: Seq<(Seq<char>, TopicView)>,
        active: Seq<u16>,
    ) -> BrokerView {
        BrokerView {
            credentials: self.credentials,
            sessions,
            topics,
            messages: self.messages,
            active,
        }
    }

    /// The broker after the connection of `peer` is dropped: the connection
    /// is scanned no more, and the peer belongs to nobody. The session that
    /// was bound to it stays.
    pub open spec fn spec_dropped(self, peer: u16) -> BrokerView {
        self.spec_with(
            self.sessions.spec_unbind(peer),
            self.topics,
            spec_remove_first(self.active, spec_is_peer(peer)),
        )
    }

    /// The broker after a CONNECT from `peer`, and what goes out.
    ///
    /// A wrong user name or password is answered with return code 4, and the
    /// connection is dropped. A will flag other than 0 or 1 has the
    /// connection dropped without an answer. Else the client is given a
    /// session: a new one where it has none; its old one, bound to `peer`,
    /// where the packet asks for no clean session; and a new one in place of
    /// the old one, without the subscriptions of the old one, where it asks
    /// for a clean session. The connection that an old session was bound to
    /// is dropped.
    pub open spec fn spec_connect(self, packet: ConnectView, peer: u16) -> (
        BrokerView,
        Seq<ActionView>,
    ) {
        if spec_lookup(self.credentials, packet.username) != Some(packet.password) {
            (
                self.spec_dropped(peer),
                seq![spec_connack(peer, BAD_USERNAME_OR_PASSWORD, 0), ActionView::Drop(peer)],
            )
        } else if packet.last_will_flag > 1 {
            (self.spec_dropped(peer), seq![ActionView::Drop(peer)])
        } else {
            match spec_lookup(self.sessions.sessions, packet.client_id) {
                None => (
                    self.spec_with(
                        self.sessions.spec_add_client(
                            packet.client_id,
                            peer,
                            packet.spec_last_will(),
                        ),
                        self.topics,
                        self.active,
                    ),
                    seq![spec_connack(peer, CONNECTION_ACCEPTED, 0)],
                ),
                Some(session) => {
                    let active = spec_remove_first(self.active, spec_is_peer(session.peer));
                    if packet.clean_session == 0 {
                        (
                            self.spec_with(
                                self.sessions.spec_replace_stream(packet.client_id, peer),
                                self.topics,
                                active,
                            ),
                            seq![
                                spec_connack(peer, CONNECTION_ACCEPTED, 1),
                                ActionView::Drop(session.peer),
                            ],
                        )
                    } else {
                        (
                            self.spec_with(
                                self.sessions.spec_delete(packet.client_id).spec_add_client(
                                    packet.client_id,
                                    peer,
                                    packet.spec_last_will(),
                                ),
                                spec_unsubscribe_all(self.topics, packet.client_id),
                                active,
                            ),
                            seq![
                                spec_connack(peer, CONNECTION_ACCEPTED, 0),
                                ActionView::Drop(session.peer),
                            ],
                        )
                    }
                },
            }
        }
    }

    /// The broker after a publication is routed, and what goes out: the
    /// topic takes note of the publication, each subscriber of the topic
    /// whose session is bound to a connection is sent it, and it waits for
    /// the acknowledgement of each subscriber that is owed it with a quality
    /// of service above 0.
    pub open spec fn spec_route(self, packet: PublishView) -> (BrokerView, Seq<ActionView>) {
        let subscriptions = spec_subscriptions(self.topics, packet.topic_name);
        (
            BrokerView {
                credentials: self.credentials,
                sessions: self.sessions,
                topics: spec_update_topic(self.topics, packet),
                messages: spec_pending_after(
                    self.messages,
                    self.sessions.sessions,
                    subscriptions,
                    packet,
                    subscriptions.len(),
                ),
                active: self.active,
            },
            spec_deliveries(self.sessions, subscriptions, packet, subscriptions.len()),
        )
    }

    /// The broker after a PUBLISH from `peer`, and what goes out. A
    /// publication of quality of service 2 or 3 is passed over. Any other
    /// one is routed, and one of quality of service 1 is acknowledged to
    /// `peer` after that.
    pub open spec fn spec_publish(self, packet: PublishView, peer: u16) -> (
        BrokerView,
        Seq<ActionView>,
    ) {
        if packet.qos >= 2 {
            (self, Seq::empty())
        } else {
            let (after, deliveries) = self.spec_route(packet);
            if packet.qos == 1 {
                (
                    after,
                    deliveries.push(
                        ActionView::Send(
                            peer,
                            PacketView::Puback(
                                Puback { acknowledged_packet_id: packet.packet_id },
                            ),
                        ),
                    ),
                )
            } else {
                (after, deliveries)
            }
        }
    }

    /// The broker after a PUBACK from `peer`: the message that is
    /// acknowledged waits no more. Nothing changes where the peer belongs to
    /// no client.
    pub open spec fn spec_puback(self, packet: Puback, peer: u16) -> BrokerView {
        if self.sessions.peers.contains_key(peer) {
            BrokerView {
                credentials: self.credentials,
                sessions: self.sessions,
                topics: self.topics,
                messages: spec_remove_message(
                    self.messages,
                    self.sessions.peers[peer],
                    packet.acknowledged_packet_id,
                ),
                active: self.active,
            }
        } else {
            self
        }
    }

    /// The broker after a DISCONNECT from `peer`: the session of the client,
    /// its pending messages and its subscriptions are forgotten, and the
    /// connection is scanned no more.
    pub open spec fn spec_disconnect(self, peer: u16) -> BrokerView {
        let active = spec_remove_first(self.active, spec_is_peer(peer));
        if self.sessions.peers.contains_key(peer) {
            let client_id = self.sessions.peers[peer];
            BrokerView {
                credentials: self.credentials,
                sessions: self.sessions.spec_delete(client_id),
                topics: spec_unsubscribe_all(self.topics, client_id),
                messages: spec_delete(self.messages, client_id),
                active,
            }
        } else {
            self.spec_with(self.sessions, self.topics, active)
        }
    }

    /// The last will of the client that `peer` belongs to, if the peer
    /// belongs to a client and that client has a last will.
    pub open spec fn spec_last_will_of(self, peer: u16) -> Option<LastWillTestamentView> {
        if self.sessions.peers.contains_key(peer) {
            match spec_lookup(self.sessions.sessions, self.sessions.peers[peer]) {
                Some(session) => session.last_will_testament,
                None => None,
            }
        } else {
            None
        }
    }

    /// The broker after the connection of `peer` is found broken, and what
    /// goes out: the last will of the client, if it has one, is routed as a
    /// publication, and the connection is dropped. The session stays, bound
    /// to no connection.
    pub open spec fn spec_connection_broken(self, peer: u16) -> (BrokerView, Seq<ActionView>) {
        let (after, deliveries) = match self.spec_last_will_of(peer) {
            Some(will) => self.spec_route(will.spec_to_publish()),
            None => (self, Seq::empty()),
        };
        (after.spec_dropped(peer), deliveries.push(ActionView::Drop(peer)))
    }
}

impl Broker {
    /// A broker that knows nothing yet.
    pub fn new() -> (r: Broker)
        ensures
            r@ == BrokerView::spec_new(),
    {
        Broker {
            credentials: CredentialManager::new(),
            sessions: SessionManager::new(),
            topics: TopicManager::new(),
            messages: MessageManager::new(),
            active: ActiveConnections::new(),
        }
    }

    /// Handles a CONNECT that came from `peer`; hands back what is to go
    /// out.
    pub fn handle_connect(&mut self, packet: &Connect, peer: u16) -> (r: Vec<Action>)
        ensures
            final(self)@ == old(self)@.spec_connect(packet@, peer).0,
            spec_actions(r@) == old(self)@.spec_connect(packet@, peer).1,
    {
        let mut actions: Vec<Action> = Vec::new();
        if !self.credentials.is_valid(packet.username.as_str(), packet.password.as_str()) {
            self.active.remove(peer);
            self.sessions.unbind_peer(peer);
            actions.push(
                Action::Send(
                    peer,
                    Packet::Connack(
                        Connack { return_code: BAD_USERNAME_OR_PASSWORD, session_present: 0 },
                    ),
                ),
            );
            actions.push(Action::Drop(peer));
            assert(spec_actions(actions@) =~= old(self)@.spec_connect(packet@, peer).1);
            return actions;
        }
        if packet.last_will_flag > 1 {
            self.active.remove(peer);
            self.sessions.unbind_peer(peer);
            actions.push(Action::Drop(peer));
            assert(spec_actions(actions@) =~= old(self)@.spec_connect(packet@, peer).1);
            return actions;
        }
        let lwt = if packet.last_will_flag == 1 {
            Some(
                LastWillTestament {
                    topic_name: packet.last_will_topic.clone(),
                    payload: packet.last_will_message.clone(),
                    qos: packet.last_will_qos,
                    retain_flag: packet.last_will_retain,
                },
            )
        } else {
            None
        };
        let client_id = packet.client_id.as_str();
        match self.sessions.get_old_peer(client_id) {
            Err(_) => {
                self.sessions.add_client(client_id, peer, lwt);
                actions.push(
                    Action::Send(
                        peer,
                        Packet::Connack(
                            Connack { return_code: CONNECTION_ACCEPTED, session_present: 0 },
                        ),
                    ),
                );
            },
            Ok(previous_peer) => {
                self.active.remove(previous_peer);
                let session_present: u8 = if packet.clean_session == 0 {
                    self.sessions.replace_stream(client_id, peer);
                    1
                } else {
                    self.sessions.delete(client_id);
                    self.topics.unsubscribe_all(client_id);
                    self.sessions.add_client(client_id, peer, lwt);
                    0
                };
                actions.push(
                    Action::Send(
                        peer,
                        Packet::Connack(
                            Connack { return_code: CONNECTION_ACCEPTED, session_present },
                        ),
                    ),
                );
                actions.push(Action::Drop(previous_peer));
            },
        }
        assert(spec_actions(actions@) =~= old(self)@.spec_connect(packet@, peer).1);
        actions
    }

    /// Routes a publication to the subscribers of its topic, appends to
    /// `actions` what goes out, and has the topic take note of the
    /// publication.
    pub fn route_publication(&mut self, packet: &Publish, actions: &mut Vec<Action>)
        ensures
            final(self)@ == old(self)@.spec_route(packet@).0,
            spec_actions(final(actions)@) == spec_actions(old(actions)@) + old(self)@.spec_route(
                packet@,
            ).1,
    {
        let subscriptions = self.topics.get_subscriptions(packet.topic_name.as_str());
        self.topics.update_topic(packet);
        route(&self.sessions, &mut self.messages, &subscriptions, packet, actions);
    }

    /// Handles a PUBLISH that came from `peer`; hands back what is to go
    /// out.
    pub fn handle_publish(&mut self, packet: &Publish, peer: u16) -> (r: Vec<Action>)
        ensures
            final(self)@ == old(self)@.spec_publish(packet@, peer).0,
            spec_actions(r@) == old(self)@.spec_publish(packet@, peer).1,
    {
        let mut actions: Vec<Action> = Vec::new();
        assert(spec_actions(actions@) =~= Seq::<ActionView>::empty());
        if packet.qos >= 2 {
            return actions;
        }
        self.route_publication(packet, &mut actions);
        assert(spec_actions(actions@) =~= old(self)@.spec_route(packet@).1);
        if packet.qos == 1 {
            let ghost deliveries = spec_actions(actions@);
            actions.push(
                Action::Send(
                    peer,
                    Packet::Puback(Puback { acknowledged_packet_id: packet.packet_id }),
                ),
            );
            assert(spec_actions(actions@) =~= deliveries.push(
                ActionView::Send(
                    peer,
                    PacketView::Puback(Puback { acknowledged_packet_id: packet.packet_id }),
                ),
            ));
        }
        actions
    }

    /// Handles a PUBACK that came from `peer`. Nothing goes out.
    pub fn handle_puback(&mut self, packet: &Puback, peer: u16)
        ensures
            final(self)@ == old(self)@.spec_puback(*packet, peer),
    {
        match self.sessions.get_client_id(&peer) {
            Ok(client_id) => {
                self.messages.remove_message(client_id.as_str(), packet.acknowledged_packet_id);
            },
            Err(_) => {},
        }
    }

    /// Handles a PINGREQ. Nothing changes and nothing goes out.
    pub fn handle_pingreq(&self) -> (r: Vec<Action>)
        ensures
            r@.len() == 0,
    {
        Vec::new()
    }

    /// Handles a DISCONNECT that came from `peer`; hands back what is to go
    /// out: the order to drop the connection.
    pub fn handle_disconnect(&mut self, peer: u16) -> (r: Vec<Action>)
        ensures
            final(self)@ == old(self)@.spec_disconnect(peer),
            spec_actions(r@) == seq![ActionView::Drop(peer)],
    {
        match self.sessions.get_client_id(&peer) {
            Ok(client_id) => {
                self.sessions.delete(client_id.as_str());
                self.messages.delete(client_id.as_str());
                self.topics.unsubscribe_all(client_id.as_str());
            },
            Err(_) => {},
        }
        self.active.remove(peer);
        let mut actions: Vec<Action> = Vec::new();
        actions.push(Action::Drop(peer));
        assert(spec_actions(actions@) =~= seq![ActionView::Drop(peer)]);
        actions
    }

    /// Takes note that the connection of `peer` is broken; hands back what
    /// is to go out: the last will of the client to those who subscribed to
    /// its topic, and the order to drop the connection.
    pub fn connection_broken(&mut self, peer: u16) -> (r: Vec<Action>)
        ensures
            final(self)@ == old(self)@.spec_connection_broken(peer).0,
            spec_actions(r@) == old(self)@.spec_connection_broken(peer).1,
    {
        let mut actions: Vec<Action> = Vec::new();
        assert(spec_actions(actions@) =~= Seq::<ActionView>::empty());
        let session = match self.sessions.get_client_id(&peer) {
            Ok(client_id) => self.sessions.get_client(client_id.as_str()),
            Err(_) => None,
        };
        if let Some(session) = session {
            if let Some(will) = session.last_will_testament {
                let publish = Publish {
                    topic_name: will.topic_name,
                    payload: will.payload,
                    packet_id: LAST_WILL_PACKET_ID,
                    qos: will.qos,
                    retain_flag: will.retain_flag,
                    dup_flag: 0,
                };
                self.route_publication(&publish, &mut actions);
                assert(spec_actions(actions@) =~= old(self)@.spec_route(publish@).1);
            }
        }
        let ghost deliveries = spec_actions(actions@);
        self.active.remove(peer);
        self.sessions.unbind_peer(peer);
        actions.push(Action::Drop(peer));
        assert(spec_actions(actions@) =~= deliveries.push(ActionView::Drop(peer)));
        actions
    }
}

/// What goes out when the retained messages of the first `count` of the
/// named topics are sent to `peer`, which asked for the quality of service
/// `qos`: one publication for each topic that retains a message, with the
/// lesser of `qos` and the quality of service that the message was
/// published with.
pub open spec fn spec_replay(
    topics: Seq<(Seq<char>, TopicView)>,
    names: Seq<Seq<char>>,
    qos: u8,
    peer: u16,
    count: nat,
) -> Seq<ActionView>
    decreases count,
{
    if count == 0 {
        Seq::empty()
    } else {
        let earlier = spec_replay(topics, names, qos, peer, (count - 1) as nat);
        match spec_retained_message(topics, names[count - 1]) {
            Some(message) => earlier.push(
                ActionView::Send(
                    peer,
                    PacketView::Publish(
                        message.spec_to_publish(
                            spec_min(qos, spec_retained_qos(topics, names[count - 1])),
                        ),
                    ),
                ),
            ),
            None => earlier,
        }
    }
}

/// The topics after the client subscribes with the first `count` of the
/// filters, and what goes out: after each filter, the retained message of
/// every topic that the client is subscribed to by then, with the lesser of
/// the quality of service that was asked for that filter and the one that
/// the message was published with.
pub open spec fn spec_subscribe_filters(
    topics: Seq<(Seq<char>, TopicView)>,
    client_id: Seq<char>,
    filters: Seq<Seq<char>>,
    qos: Seq<u8>,
    peer: u16,
    count: nat,
) -> (Seq<(Seq<char>, TopicView)>, Seq<ActionView>)
    decreases count,
{
    if count == 0 {
        (topics, Seq::empty())
    } else {
        let (earlier, sent) = spec_subscribe_filters(
            topics,
            client_id,
            filters,
            qos,
            peer,
            (count - 1) as nat,
        );
        let after = spec_subscribe(
            earlier,
            filters[count - 1],
            ClientSubscriptionView { client_id, qos: qos[count - 1] },
        );
        let names = spec_client_topics(after, client_id, after.len());
        (after, sent + spec_replay(after, names, qos[count - 1], peer, names.len()))
    }
}

/// The topics after the client unsubscribes from the topics that the first
/// `count` of the filters name.
pub open spec fn spec_unsubscribe_filters(
    topics: Seq<(Seq<char>, TopicView)>,
    client_id: Seq<char>,
    filters: Seq<Seq<char>>,
    count: nat,
) -> Seq<(Seq<char>, TopicView)>
    decreases count,
{
    if count == 0 {
        topics
    } else {
        spec_unsubscribe(
            spec_unsubscribe_filters(topics, client_id, filters, (count - 1) as nat),
            filters[count - 1],
            client_id,
        )
    }
}

/// What goes out when the first `count` of the messages are sent to `peer`
/// again: each as a publication that is marked as a duplicate.
pub open spec fn spec_resend_queue(peer: u16, queue: Seq<PendingMessageView>, count: nat) -> Seq<
    ActionView,
>
    decreases count,
{
    if count == 0 {
        Seq::empty()
    } else {
        spec_resend_queue(peer, queue, (count - 1) as nat).push(
            ActionView::Send(peer, PacketView::Publish(queue[count - 1].spec_to_publish())),
        )
    }
}

/// What goes out when the pending messages of the first `count` of the
/// clients are sent again: those of each client whose session is bound to a
/// connection, to the peer of that connection. The messages of any other
/// client wait.
pub open spec fn spec_resend(
    messages: Seq<(Seq<char>, Seq<PendingMessageView>)>,
    sessions: SessionsView,
    count: nat,
) -> Seq<ActionView>
    decreases count,
{
    if count == 0 {
        Seq::empty()
    } else {
        let earlier = spec_resend(messages, sessions, (count - 1) as nat);
        match sessions.spec_bound_peer(messages[count - 1].0) {
            Some(peer) => earlier + spec_resend_queue(
                peer,
                messages[count - 1].1,
                messages[count - 1].1.len(),
            ),
            None => earlier,
        }
    }
}

/// The count of the topic filters of a SUBSCRIBE that come with a quality
/// of service.
pub open spec fn spec_pairs(packet: SubscribeView) -> nat {
    if packet.topic_filters.len() <= packet.requested_qos.len() {
        packet.topic_filters.len()
    } else {
        packet.requested_qos.len()
    }
}

impl BrokerView {
    /// The broker after a SUBSCRIBE from `peer`, and what goes out: the
    /// retained messages, then a SUBACK that grants each quality of service
    /// that was asked for. Where the peer belongs to no client, nothing
    /// changes and the SUBACK holds no return code.
    pub open spec fn spec_subscribe(self, packet: SubscribeView, peer: u16) -> (
        BrokerView,
        Seq<ActionView>,
    ) {
        if self.sessions.peers.contains_key(peer) {
            let (topics, sent) = spec_subscribe_filters(
                self.topics,
                self.sessions.peers[peer],
                packet.topic_filters,
                packet.requested_qos,
                peer,
                spec_pairs(packet),
            );
            (
                self.spec_with(self.sessions, topics, self.active),
                sent.push(
                    ActionView::Send(
                        peer,
                        PacketView::Suback(
                            SubackView {
                                packet_id: packet.packet_id,
                                return_codes: packet.requested_qos.take(spec_pairs(packet) as int),
                            },
                        ),
                    ),
                ),
            )
        } else {
            (
                self,
                seq![
                    ActionView::Send(
                        peer,
                        PacketView::Suback(
                            SubackView { packet_id: packet.packet_id, return_codes: Seq::empty() },
                        ),
                    ),
                ],
            )
        }
    }

    /// The broker after an UNSUBSCRIBE from `peer`: the client is taken out
    /// of each topic that the packet names. Nothing changes where the peer
    /// belongs to no client.
    pub open spec fn spec_unsubscribe(self, packet: UnsubscribeView, peer: u16) -> BrokerView {
        if self.sessions.peers.contains_key(peer) {
            self.spec_with(
                self.sessions,
                spec_unsubscribe_filters(
                    self.topics,
                    self.sessions.peers[peer],
                    packet.topic_filters,
                    packet.topic_filters.len(),
                ),
                self.active,
            )
        } else {
            self
        }
    }

    /// The broker after a packet from `peer`, and what goes out. The packets
    /// that only a broker sends change nothing and have nothing go out.
    pub open spec fn spec_handle(self, packet: PacketView, peer: u16) -> (
        BrokerView,
        Seq<ActionView>,
    ) {
        match packet {
            PacketView::Connect(p) => self.spec_connect(p, peer),
            PacketView::Publish(p) => self.spec_publish(p, peer),
            PacketView::Puback(p) => (self.spec_puback(p, peer), Seq::empty()),
            PacketView::Subscribe(p) => self.spec_subscribe(p, peer),
            PacketView::Unsubscribe(p) => (
                self.spec_unsubscribe(p, peer),
                seq![
                    ActionView::Send(
                        peer,
                        PacketView::Unsuback(Unsuback { packet_id: p.packet_id }),
                    ),
                ],
            ),
            PacketView::Disconnect(_) => (self.spec_disconnect(peer), seq![ActionView::Drop(peer)]),
            _ => (self, Seq::empty()),
        }
    }
}

/// Appends to `actions` the retained message of each of the named topics
/// that retains one, as a publication to `peer` with the lesser of the
/// quality of service `qos` and the one that the message was published with.
pub fn replay_retained(
    topics: &TopicManager,
    names: &Vec<String>,
    qos: u8,
    peer: u16,
    actions: &mut Vec<Action>,
)
    ensures
        spec_actions(final(actions)@) == spec_actions(old(actions)@) + spec_replay(
            topics@,
            spec_texts(names@),
            qos,
            peer,
            names@.len(),
        ),
{
    let ghost texts = spec_texts(names@);
    let mut i: usize = 0;
    assert(spec_actions(actions@) =~= spec_actions(old(actions)@) + Seq::<ActionView>::empty());
    while i < names.len()
        invariant
            i <= names.len(),
            texts == spec_texts(names@),
            spec_actions(actions@) == spec_actions(old(actions)@) + spec_replay(
                topics@,
                texts,
                qos,
                peer,
                i as nat,
            ),
        decreases names.len() - i,
    {
        let ghost earlier = spec_actions(actions@);
        assert(names@[i as int]@ == texts[i as int]);
        match topics.get_retained_message(names[i].as_str()) {
            Some(message) => {
                let granted = min_qos(qos, topics.get_retained_qos(names[i].as_str()));
                let publish = message.to_publish_packet(granted);
                actions.push(Action::Send(peer, Packet::Publish(publish)));
                assert(spec_actions(actions@) =~= earlier.push(
                    ActionView::Send(peer, PacketView::Publish(message@.spec_to_publish(granted))),
                ));
            },
            None => {},
        }
        i += 1;
    }
}

/// Appends to `actions` each of the messages as a publication to `peer`
/// that is marked as a duplicate.
pub fn resend_queue(peer: u16, queue: &Vec<PendingMessage>, actions: &mut Vec<Action>)
    ensures
        spec_actions(final(actions)@) == spec_actions(old(actions)@) + spec_resend_queue(
            peer,
            crate::messagemanager::spec_messages(queue@),
            queue@.len(),
        ),
{
    let ghost views = crate::messagemanager::spec_messages(queue@);
    let mut i: usize = 0;
    assert(spec_actions(actions@) =~= spec_actions(old(actions)@) + Seq::<ActionView>::empty());
    while i < queue.len()
        invariant
            i <= queue.len(),
            views == crate::messagemanager::spec_messages(queue@),
            spec_actions(actions@) == spec_actions(old(actions)@) + spec_resend_queue(
                peer,
                views,
                i as nat,
            ),
        decreases queue.len() - i,
    {
        let ghost earlier = spec_actions(actions@);
        assert(queue@[i as int]@ == views[i as int]);
        let publish = queue[i].to_publish_packet();
        actions.push(Action::Send(peer, Packet::Publish(publish)));
        assert(spec_actions(actions@) =~= earlier.push(
            ActionView::Send(peer, PacketView::Publish(views[i as int].spec_to_publish())),
        ));
        i += 1;
    }
}

impl Broker {
    /// Takes note of an accepted connection: its peer is scanned from now
    /// on.
    pub fn accept(&mut self, peer: u16)
        ensures
            final(self)@ == old(self)@.spec_with(
                old(self)@.sessions,
                old(self)@.topics,
                old(self)@.active.push(peer),
            ),
    {
        self.active.add(peer);
    }

    /// Drops the connection of `peer`, which sent what is no packet; hands
    /// back the order to do so. Sessions, topics and messages stay.
    pub fn drop_connection(&mut self, peer: u16) -> (r: Vec<Action>)
        ensures
            final(self)@ == old(self)@.spec_dropped(peer),
            spec_actions(r@) == seq![ActionView::Drop(peer)],
    {
        self.active.remove(peer);
        self.sessions.unbind_peer(peer);
        let mut actions: Vec<Action> = Vec::new();
        actions.push(Action::Drop(peer));
        assert(spec_actions(actions@) =~= seq![ActionView::Drop(peer)]);
        actions
    }

    /// Handles a SUBSCRIBE that came from `peer`; hands back what is to go
    /// out.
    pub fn handle_subscribe(&mut self, packet: &Subscribe, peer: u16) -> (r: Vec<Action>)
        ensures
            final(self)@ == old(self)@.spec_subscribe(packet@, peer).0,
            spec_actions(r@) == old(self)@.spec_subscribe(packet@, peer).1,
    {
        let mut actions: Vec<Action> = Vec::new();
        let mut return_codes: Vec<u8> = Vec::new();
        assert(spec_actions(actions@) =~= Seq::<ActionView>::empty());
        match self.sessions.get_client_id(&peer) {
            Ok(client_id) => {
                let count = if packet.topic_filters.len() <= packet.requested_qos.len() {
                    packet.topic_filters.len()
                } else {
                    packet.requested_qos.len()
                };
                let ghost filters = packet@.topic_filters;
                let mut i: usize = 0;
                while i < count
                    invariant
                        i <= count,
                        count == spec_pairs(packet@),
                        filters == packet@.topic_filters,
                        self.credentials == old(self).credentials,
                        self.sessions == old(self).sessions,
                        self.messages == old(self).messages,
                        self.active == old(self).active,
                        (self.topics@, spec_actions(actions@)) == spec_subscribe_filters(
                            old(self)@.topics,
                            client_id@,
                            filters,
                            packet@.requested_qos,
                            peer,
                            i as nat,
                        ),
                        return_codes@ == packet@.requested_qos.take(i as int),
                    decreases count - i,
                {
                    let requested = packet.requested_qos[i];
                    let subscription = ClientSubscription::new(client_id.as_str(), requested);
                    assert(packet.topic_filters@[i as int]@ == filters[i as int]);
                    self.topics.subscribe(packet.topic_filters[i].as_str(), &subscription);
                    let names = self.topics.get_client_subscriptions(client_id.as_str());
                    replay_retained(&self.topics, &names, requested, peer, &mut actions);
                    return_codes.push(requested);
                    assert(return_codes@ =~= packet@.requested_qos.take(i + 1));
                    i += 1;
                }
            },
            Err(_) => {
                assert(return_codes@ =~= Seq::<u8>::empty());
            },
        }
        let ghost sent = spec_actions(actions@);
        let suback = Suback { packet_id: packet.packet_id, return_codes };
        actions.push(Action::Send(peer, Packet::Suback(suback)));
        assert(spec_actions(actions@) =~= sent.push(
            ActionView::Send(peer, PacketView::Suback(suback@)),
        ));
        actions
    }

    /// Handles an UNSUBSCRIBE that came from `peer`; hands back what is to
    /// go out: the UNSUBACK.
    pub fn handle_unsubscribe(&mut self, packet: &Unsubscribe, peer: u16) -> (r: Vec<Action>)
        ensures
            final(self)@ == old(self)@.spec_unsubscribe(packet@, peer),
            spec_actions(r@) == seq![
                ActionView::Send(
                    peer,
                    PacketView::Unsuback(Unsuback { packet_id: packet.packet_id }),
                ),
            ],
    {
        match self.sessions.get_client_id(&peer) {
            Ok(client_id) => {
                let ghost filters = packet@.topic_filters;
                let mut i: usize = 0;
                while i < packet.topic_filters.len()
                    invariant
                        i <= packet.topic_filters.len(),
                        filters == packet@.topic_filters,
                        self.credentials == old(self).credentials,
                        self.sessions == old(self).sessions,
                        self.messages == old(self).messages,
                        self.active == old(self).active,
                        self.topics@ == spec_unsubscribe_filters(
                            old(self)@.topics,
                            client_id@,
                            filters,
                            i as nat,
                        ),
                    decreases packet.topic_filters.len() - i,
                {
                    assert(packet.topic_filters@[i as int]@ == filters[i as int]);
                    self.topics.unsubscribe(packet.topic_filters[i].as_str(), client_id.as_str());
                    i += 1;
                }
            },
            Err(_) => {},
        }
        let mut actions: Vec<Action> = Vec::new();
        actions.push(Action::Send(peer, Packet::Unsuback(Unsuback { packet_id: packet.packet_id })));
        assert(spec_actions(actions@) =~= seq![
            ActionView::Send(peer, PacketView::Unsuback(Unsuback { packet_id: packet.packet_id })),
        ]);
        actions
    }

    /// Handles a packet that came from `peer`; hands back what is to go out.
    pub fn handle_packet(&mut self, packet: &Packet, peer: u16) -> (r: Vec<Action>)
        ensures
            final(self)@ == old(self)@.spec_handle(packet@, peer).0,
            spec_actions(r@) == old(self)@.spec_handle(packet@, peer).1,
    {
        match packet {
            Packet::Connect(p) => self.handle_connect(p, peer),
            Packet::Publish(p) => self.handle_publish(p, peer),
            Packet::Puback(p) => {
                self.handle_puback(p, peer);
                let none: Vec<Action> = Vec::new();
                assert(spec_actions(none@) =~= Seq::<ActionView>::empty());
                none
            },
            Packet::Subscribe(p) => self.handle_subscribe(p, peer),
            Packet::Unsubscribe(p) => self.handle_unsubscribe(p, peer),
            Packet::Disconnect(_) => self.handle_disconnect(peer),
            _ => {
                let none: Vec<Action> = Vec::new();
                assert(spec_actions(none@) =~= Seq::<ActionView>::empty());
                none
            },
        }
    }

    /// What is to go out when the messages that wait for an acknowledgement
    /// are sent again. Nothing changes: only a PUBACK ends the wait.
    pub fn retransmit(&self) -> (r: Vec<Action>)
        ensures
            spec_actions(r@) == spec_resend(self@.messages, self@.sessions, self@.messages.len()),
    {
        let mut actions: Vec<Action> = Vec::new();
        let all = self.messages.get_all();
        let mut i: usize = 0;
        assert(spec_actions(actions@) =~= Seq::<ActionView>::empty());
        while i < all.len()
            invariant
                i <= all.len(),
                all@.len() == self@.messages.len(),
                forall|j: int|
                    0 <= j < all@.len() ==> (#[trigger] all@[j]).0@ == self@.messages[j].0
                        && crate::messagemanager::spec_messages(all@[j].1@) == self@.messages[j].1,
                spec_actions(actions@) == spec_resend(self@.messages, self@.sessions, i as nat),
            decreases all.len() - i,
        {
            assert(all@[i as int].0@ == self@.messages[i as int].0);
            match self.sessions.get_bound_peer(all[i].0.as_str()) {
                Some(peer) => {
                    resend_queue(peer, &all[i].1, &mut actions);
                },
                None => {},
            }
            i += 1;
        }
        actions
    }
}

/// What a look at a connection found.
#[derive(Debug, Clone, Copy, PartialEq, Eq, Structural)]
pub enum PeekOutcome {
    /// This many bytes are there to be read.
    Data(usize),
    /// Nothing is there to be read yet.
    WouldBlock,
    /// Nothing came within the time allowed.
    TimedOut,
    /// The look failed in any other way.
    Failed,
}

/// What is to be done with a connection after a look at it.
#[derive(Debug, Clone, Copy, PartialEq, Eq, Structural)]
pub enum ScanDecision {
    /// Leave the connection alone until the next look.
    Skip,
    /// Read one packet from the connection and handle it.
    Read,
    /// Treat the connection as broken.
    Broken,
}

/// What is to be done with a connection after a look at it: a packet is read
/// where bytes are there, the connection is left alone where none are there
/// yet, and it is broken where the look failed in any other way.
pub fn scan_decision(outcome: PeekOutcome) -> (r: ScanDecision)
    ensures
        r == match outcome {
            PeekOutcome::Data(count) => if count > 0 {
                ScanDecision::Read
            } else {
                ScanDecision::Skip
            },
            PeekOutcome::WouldBlock => ScanDecision::Skip,
            PeekOutcome::TimedOut => ScanDecision::Skip,
            PeekOutcome::Failed => ScanDecision::Broken,
        },
{
    match outcome {
        PeekOutcome::Data(count) => if count > 0 {
            ScanDecision::Read
        } else {
            ScanDecision::Skip
        },
        PeekOutcome::WouldBlock => ScanDecision::Skip,
        PeekOutcome::TimedOut => ScanDecision::Skip,
        PeekOutcome::Failed => ScanDecision::Broken,
    }
}

impl BrokerView {
    /// True of the states that a broker can be in: no user name, client or
    /// topic occurs twice, the sessions are well-formed, and so are the
    /// topics.
    pub open spec fn spec_well_formed(self) -> bool {
        &&& spec_distinct_keys(self.credentials)
        &&& self.sessions.spec_well_formed()
        &&& spec_topics_well_formed(self.topics)
        &&& spec_distinct_keys(self.messages)
    }
}

/// Routing a publication leaves no client with two queues of pending
/// messages.
pub proof fn lemma_pending_after_distinct(
    messages: Seq<(Seq<char>, Seq<PendingMessageView>)>,
    sessions: Seq<(Seq<char>, SessionView)>,
    subscriptions: Seq<ClientSubscriptionView>,
    packet: PublishView,
    count: nat,
)
    requires
        spec_distinct_keys(messages),
    ensures
        spec_distinct_keys(spec_pending_after(messages, sessions, subscriptions, packet, count)),
    decreases count,
{
    if count > 0 {
        lemma_pending_after_distinct(
            messages,
            sessions,
            subscriptions,
            packet,
            (count - 1) as nat,
        );
        let earlier = spec_pending_after(
            messages,
            sessions,
            subscriptions,
            packet,
            (count - 1) as nat,
        );
        let client_id = subscriptions[count - 1].client_id;
        lemma_put(
            earlier,
            client_id,
            spec_queue(earlier, client_id).push(PendingMessageView::spec_from_publish(packet)),
            client_id,
        );
    }
}

/// Subscribing with a run of filters leaves the topics well-formed.
pub proof fn lemma_subscribe_filters_well_formed(
    topics: Seq<(Seq<char>, TopicView)>,
    client_id: Seq<char>,
    filters: Seq<Seq<char>>,
    qos: Seq<u8>,
    peer: u16,
    count: nat,
)
    requires
        spec_topics_well_formed(topics),
    ensures
        spec_topics_well_formed(
            spec_subscribe_filters(topics, client_id, filters, qos, peer, count).0,
        ),
    decreases count,
{
    if count > 0 {
        lemma_subscribe_filters_well_formed(
            topics,
            client_id,
            filters,
            qos,
            peer,
            (count - 1) as nat,
        );
        lemma_subscribe_well_formed(
            spec_subscribe_filters(topics, client_id, filters, qos, peer, (count - 1) as nat).0,
            filters[count - 1],
            ClientSubscriptionView { client_id, qos: qos[count - 1] },
        );
    }
}

/// Unsubscribing from a run of topics leaves the topics well-formed.
pub proof fn lemma_unsubscribe_filters_well_formed(
    topics: Seq<(Seq<char>, TopicView)>,
    client_id: Seq<char>,
    filters: Seq<Seq<char>>,
    count: nat,
)
    requires
        spec_topics_well_formed(topics),
    ensures
        spec_topics_well_formed(spec_unsubscribe_filters(topics, client_id, filters, count)),
    decreases count,
{
    if count > 0 {
        lemma_unsubscribe_filters_well_formed(topics, client_id, filters, (count - 1) as nat);
        lemma_unsubscribe_well_formed(
            spec_unsubscribe_filters(topics, client_id, filters, (count - 1) as nat),
            filters[count - 1],
            client_id,
        );
    }
}

/// Routing a publication leaves the broker well-formed.
pub proof fn lemma_route_well_formed(state: BrokerView, packet: PublishView)
    requires
        state.spec_well_formed(),
    ensures
        state.spec_route(packet).0.spec_well_formed(),
{
    let subscriptions = spec_subscriptions(state.topics, packet.topic_name);
    lemma_update_topic_well_formed(state.topics, packet);
    lemma_pending_after_distinct(
        state.messages,
        state.sessions.sessions,
        subscriptions,
        packet,
        subscriptions.len(),
    );
}

/// Whatever packet comes from whatever peer, handling it leaves the broker
/// well-formed: at most one session for each client, each known peer bound
/// to the session of its client, and at most one subscription of each
/// client to each topic.
pub proof fn lemma_handle_well_formed(state: BrokerView, packet: PacketView, peer: u16)
    requires
        state.spec_well_formed(),
    ensures
        state.spec_handle(packet, peer).0.spec_well_formed(),
{
    match packet {
        PacketView::Connect(p) => {
            lemma_unbind_well_formed(state.sessions, peer);
            lemma_add_client_well_formed(state.sessions, p.client_id, peer, p.spec_last_will());
            lemma_replace_stream_well_formed(state.sessions, p.client_id, peer);
            lemma_delete_well_formed(state.sessions, p.client_id);
            lemma_add_client_well_formed(
                state.sessions.spec_delete(p.client_id),
                p.client_id,
                peer,
                p.spec_last_will(),
            );
            lemma_unsubscribe_all(state.topics, p.client_id);
        },
        PacketView::Publish(p) => {
            lemma_route_well_formed(state, p);
        },
        PacketView::Puback(p) => {
            if state.sessions.peers.contains_key(peer) {
                let client_id = state.sessions.peers[peer];
                if spec_has_key(state.messages, client_id) {
                    lemma_put(
                        state.messages,
                        client_id,
                        spec_remove_first(
                            spec_queue(state.messages, client_id),
                            |m: PendingMessageView| m.packet_id == p.acknowledged_packet_id,
                        ),
                        client_id,
                    );
                }
            }
        },
        PacketView::Subscribe(p) => {
            if state.sessions.peers.contains_key(peer) {
                lemma_subscribe_filters_well_formed(
                    state.topics,
                    state.sessions.peers[peer],
                    p.topic_filters,
                    p.requested_qos,
                    peer,
                    spec_pairs(p),
                );
            }
        },
        PacketView::Unsubscribe(p) => {
            if state.sessions.peers.contains_key(peer) {
                lemma_unsubscribe_filters_well_formed(
                    state.topics,
                    state.sessions.peers[peer],
                    p.topic_filters,
                    p.topic_filters.len(),
                );
            }
        },
        PacketView::Disconnect(_) => {
            if state.sessions.peers.contains_key(peer) {
                let client_id = state.sessions.peers[peer];
                lemma_delete_well_formed(state.sessions, client_id);
                lemma_unsubscribe_all(state.topics, client_id);
                lemma_delete(state.messages, client_id, client_id);
            }
        },
        _ => {},
    }
}

/// A broken connection leaves the broker well-formed.
pub proof fn lemma_connection_broken_well_formed(state: BrokerView, peer: u16)
    requires
        state.spec_well_formed(),
    ensures
        state.spec_connection_broken(peer).0.spec_well_formed(),
{
    match state.spec_last_will_of(peer) {
        Some(will) => {
            lemma_route_well_formed(state, will.spec_to_publish());
            lemma_unbind_well_formed(state.spec_route(will.spec_to_publish()).0.sessions, peer);
        },
        None => {
            lemma_unbind_well_formed(state.sessions, peer);
        },
    }
}

} // verus!
