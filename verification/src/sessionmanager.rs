use crate::number_map::NumberMap;
use crate::registry::lemma_delete;
use crate::registry::lemma_put;
use crate::registry::spec_delete;
use crate::registry::spec_distinct_keys;
use crate::registry::spec_has_key;
use crate::registry::spec_key_index;
use crate::registry::spec_lookup;
use crate::registry::spec_put;
use crate::registry::Registry;
use vstd::prelude::*;

verus! {

/// The message that the broker publishes for a client whose connection
/// breaks.
#[derive(Debug, PartialEq)]
pub struct LastWillTestament {
    /// The topic that the message is published to.
    pub topic_name: String,
    /// The message.
    pub payload: String,
    /// The quality of service of the publication.
    pub qos: u8,
    /// The retain flag of the publication.
    pub retain_flag: u8,
}

/// A last will as a mathematical value.
pub struct LastWillTestamentView {
    pub topic_name: Seq<char>,
    pub payload: Seq<char>,
    pub qos: u8,
    pub retain_flag: u8,
}

impl View for LastWillTestament {
    type V = LastWillTestamentView;

    open spec fn view(&self) -> LastWillTestamentView {
        LastWillTestamentView {
            topic_name: self.topic_name@,
            payload: self.payload@,
            qos: self.qos,
            retain_flag: self.retain_flag,
        }
    }
}

impl Clone for LastWillTestament {
    fn clone(&self) -> (r: LastWillTestament)
        ensures
            r@ == self@,
    {
        LastWillTestament {
            topic_name: self.topic_name.clone(),
            payload: self.payload.clone(),
            qos: self.qos,
            retain_flag: self.retain_flag,
        }
    }
}

/// The last will that an optional last will holds.
pub open spec fn spec_will_view(will: Option<LastWillTestament>) -> Option<LastWillTestamentView> {
    match will {
        Some(will) => Some(will@),
        None => None,
    }
}

/// A copy of an optional last will.
pub fn clone_will(will: &Option<LastWillTestament>) -> (r: Option<LastWillTestament>)
    ensures
        spec_will_view(r) == spec_will_view(*will),
{
    match will {
        Some(will) => Some(will.clone()),
        None => None,
    }
}

/// The session of one client: the peer that its connection comes from, and
/// its last will.
#[derive(Debug, PartialEq)]
pub struct Session {
    /// The client that the session belongs to.
    pub client_id: String,
    /// The peer of the connection that the session is bound to.
    pub peer: u16,
    /// The last will of the client, if it has one.
    pub last_will_testament: Option<LastWillTestament>,
}

/// A session as a mathematical value.
pub struct SessionView {
    pub client_id: Seq<char>,
    pub peer: u16,
    pub last_will_testament: Option<LastWillTestamentView>,
}

impl View for Session {
    type V = SessionView;

    open spec fn view(&self) -> SessionView {
        SessionView {
            client_id: self.client_id@,
            peer: self.peer,
            last_will_testament: spec_will_view(self.last_will_testament),
        }
    }
}

impl Clone for Session {
    fn clone(&self) -> (r: Session)
        ensures
            r@ == self@,
    {
        Session {
            client_id: self.client_id.clone(),
            peer: self.peer,
            last_will_testament: clone_will(&self.last_will_testament),
        }
    }
}

/// The sessions of a broker as a mathematical value: the sessions by client,
/// and the clients by the peer of their connection.
pub struct SessionsView {
    /// The run of entries, each a client identifier with its session, in the
    /// order in which the clients came.
    pub sessions: Seq<(Seq<char>, SessionView)>,
    /// The client that each known peer belongs to.
    pub peers: Map<u16, Seq<char>>,
}

impl SessionsView {
    /// True of the sessions that a session manager can hold: no client has
    /// two sessions, each session is kept under its own client, and each
    /// known peer belongs to a client whose session is bound to that peer.
    pub open spec fn spec_well_formed(self) -> bool {
        &&& spec_distinct_keys(self.sessions)
        &&& forall|i: int|
            0 <= i < self.sessions.len() ==> (#[trigger] self.sessions[i]).1.client_id
                == self.sessions[i].0
        &&& forall|peer: u16| #[trigger]
            self.peers.contains_key(peer) ==> spec_lookup(self.sessions, self.peers[peer]) is Some
                && spec_lookup(self.sessions, self.peers[peer])->0.peer == peer
    }

    /// No sessions and no peers.
    pub open spec fn spec_new() -> SessionsView {
        SessionsView { sessions: Seq::empty(), peers: Map::empty() }
    }

    /// The peers without the one that the session of `client_id` is bound
    /// to.
    pub open spec fn spec_peers_without(self, client_id: Seq<char>) -> Map<u16, Seq<char>> {
        match spec_lookup(self.sessions, client_id) {
            Some(session) => self.peers.remove(session.peer),
            None => self.peers,
        }
    }

    /// The sessions after `client_id` is given a session that is bound to
    /// `peer`: the peer of an earlier session of the client is forgotten,
    /// and `peer` belongs to the client from now on.
    pub open spec fn spec_add_client(
        self,
        client_id: Seq<char>,
        peer: u16,
        will: Option<LastWillTestamentView>,
    ) -> SessionsView {
        SessionsView {
            sessions: spec_put(
                self.sessions,
                client_id,
                SessionView { client_id, peer, last_will_testament: will },
            ),
            peers: self.spec_peers_without(client_id).insert(peer, client_id),
        }
    }

    /// The sessions after the session of `client_id` is bound to `peer`: the
    /// peer that it was bound to is forgotten, `peer` belongs to the client
    /// from now on, and the last will stays. Nothing changes where the client
    /// has no session.
    pub open spec fn spec_replace_stream(self, client_id: Seq<char>, peer: u16) -> SessionsView {
        match spec_lookup(self.sessions, client_id) {
            Some(session) => self.spec_add_client(client_id, peer, session.last_will_testament),
            None => self,
        }
    }

    /// The sessions after the connection of `peer` is gone: the peer belongs
    /// to nobody. The session that was bound to it stays.
    pub open spec fn spec_unbind(self, peer: u16) -> SessionsView {
        SessionsView { sessions: self.sessions, peers: self.peers.remove(peer) }
    }

    /// The peer of the connection that the session of `client_id` is bound
    /// to: the peer of the session, where that peer belongs to the client.
    /// Nothing where the client has no session, or where the connection of
    /// its session is gone.
    pub open spec fn spec_bound_peer(self, client_id: Seq<char>) -> Option<u16> {
        match spec_lookup(self.sessions, client_id) {
            Some(session) => if self.peers.contains_key(session.peer) && self.peers[session.peer]
                == client_id {
                Some(session.peer)
            } else {
                None
            },
            None => None,
        }
    }

    /// The sessions after the session of `client_id` ends: the session and
    /// the peer that it was bound to are forgotten. Nothing changes where the
    /// client has no session.
    pub open spec fn spec_delete(self, client_id: Seq<char>) -> SessionsView {
        SessionsView {
            sessions: spec_delete(self.sessions, client_id),
            peers: self.spec_peers_without(client_id),
        }
    }
}

/// Giving a client a session leaves the sessions well-formed.
pub proof fn lemma_add_client_well_formed(
    before: SessionsView,
    client_id: Seq<char>,
    peer: u16,
    will: Option<LastWillTestamentView>,
)
    requires
        before.spec_well_formed(),
    ensures
        before.spec_add_client(client_id, peer, will).spec_well_formed(),
{
    let session = SessionView { client_id, peer, last_will_testament: will };
    let after = before.spec_add_client(client_id, peer, will);
    lemma_put(before.sessions, client_id, session, client_id);
    let at = if spec_has_key(before.sessions, client_id) {
        spec_key_index(before.sessions, client_id)
    } else {
        before.sessions.len() as int
    };
    assert forall|i: int| 0 <= i < after.sessions.len() implies (
    #[trigger] after.sessions[i]).1.client_id == after.sessions[i].0 by {
        if i != at {
            assert(after.sessions[i] == before.sessions[i]);
        }
    }
    assert forall|p: u16| #[trigger] after.peers.contains_key(p) implies spec_lookup(
        after.sessions,
        after.peers[p],
    ) is Some && spec_lookup(after.sessions, after.peers[p])->0.peer == p by {
        if p != peer {
            assert(before.peers.contains_key(p));
            let owner = before.peers[p];
            lemma_put(before.sessions, client_id, session, owner);
        }
    }
}

/// Binding a session to another peer leaves the sessions well-formed.
pub proof fn lemma_replace_stream_well_formed(before: SessionsView, client_id: Seq<char>, peer: u16)
    requires
        before.spec_well_formed(),
    ensures
        before.spec_replace_stream(client_id, peer).spec_well_formed(),
{
    match spec_lookup(before.sessions, client_id) {
        Some(session) => lemma_add_client_well_formed(
            before,
            client_id,
            peer,
            session.last_will_testament,
        ),
        None => {},
    }
}

/// Ending a session leaves the sessions well-formed.
pub proof fn lemma_delete_well_formed(before: SessionsView, client_id: Seq<char>)
    requires
        before.spec_well_formed(),
    ensures
        before.spec_delete(client_id).spec_well_formed(),
{
    let after = before.spec_delete(client_id);
    lemma_delete(before.sessions, client_id, client_id);
    if spec_has_key(before.sessions, client_id) {
        let at = spec_key_index(before.sessions, client_id);
        assert forall|i: int| 0 <= i < after.sessions.len() implies (
        #[trigger] after.sessions[i]).1.client_id == after.sessions[i].0 by {
            if i < at {
                assert(after.sessions[i] == before.sessions[i]);
            } else {
                assert(after.sessions[i] == before.sessions[i + 1]);
            }
        }
        assert forall|p: u16| #[trigger] after.peers.contains_key(p) implies spec_lookup(
            after.sessions,
            after.peers[p],
        ) is Some && spec_lookup(after.sessions, after.peers[p])->0.peer == p by {
            assert(before.peers.contains_key(p));
            let owner = before.peers[p];
            lemma_delete(before.sessions, client_id, owner);
        }
    }
}

/// Forgetting a peer leaves the sessions well-formed.
pub proof fn lemma_unbind_well_formed(before: SessionsView, peer: u16)
    requires
        before.spec_well_formed(),
    ensures
        before.spec_unbind(peer).spec_well_formed(),
{
    let after = before.spec_unbind(peer);
    assert forall|p: u16| #[trigger] after.peers.contains_key(p) implies spec_lookup(
        after.sessions,
        after.peers[p],
    ) is Some && spec_lookup(after.sessions, after.peers[p])->0.peer == p by {
        assert(before.peers.contains_key(p));
    }
}

/// After the session of a client ends, the client has no session and the
/// peer that the session was bound to belongs to nobody.
pub proof fn lemma_delete_forgets(before: SessionsView, client_id: Seq<char>)
    requires
        before.spec_well_formed(),
        spec_lookup(before.sessions, client_id) is Some,
    ensures
        spec_lookup(before.spec_delete(client_id).sessions, client_id) is None,
        !before.spec_delete(client_id).peers.contains_key(
            spec_lookup(before.sessions, client_id)->0.peer,
        ),
{
    lemma_delete(before.sessions, client_id, client_id);
}

/// The sessions of the clients of a broker.
///
/// The view is well-formed at all times.
pub struct SessionManager {
    sessions: Registry<Session>,
    peer_client: NumberMap,
}

impl View for SessionManager {
    type V = SessionsView;

    closed spec fn view(&self) -> SessionsView {
        SessionsView { sessions: self.sessions@, peers: self.peer_client@ }
    }
}

impl SessionManager {
    #[verifier::type_invariant]
    spec fn well_formed(&self) -> bool {
        self@.spec_well_formed()
    }

    /// Takes the sessions and the peers out and leaves the manager empty.
    fn take_apart(&mut self) -> (r: (Registry<Session>, NumberMap))
        ensures
            r.0@ == old(self)@.sessions,
            r.1@ == old(self)@.peers,
            old(self)@.spec_well_formed(),
    {
        proof {
            use_type_invariant(&*self);
        }
        let mut taken = SessionManager::new();
        core::mem::swap(self, &mut taken);
        let SessionManager { sessions, peer_client } = taken;
        (sessions, peer_client)
    }

    /// A manager without sessions.
    pub fn new() -> (r: SessionManager)
        ensures
            r@ == SessionsView::spec_new(),
    {
        SessionManager { sessions: Registry::new(), peer_client: NumberMap::new() }
    }

    /// Gives `client_id` a session that is bound to `peer` and holds the last
    /// will `lwt`. The peer of an earlier session of the client is forgotten.
    pub fn add_client(&mut self, client_id: &str, peer: u16, lwt: Option<LastWillTestament>)
        ensures
            final(self)@ == old(self)@.spec_add_client(client_id@, peer, spec_will_view(lwt)),
            final(self)@.spec_well_formed(),
    {
        let (mut sessions, mut peer_client) = self.take_apart();
        let session = Session {
            client_id: client_id.to_owned(),
            peer,
            last_will_testament: lwt,
        };
        match sessions.find(client_id) {
            Some(i) => {
                peer_client.remove(sessions.value_at(i).peer);
                sessions.set_value_at(i, session);
            },
            None => {
                sessions.push(client_id.to_owned(), session);
            },
        }
        peer_client.insert(peer, client_id.to_owned());
        proof {
            lemma_add_client_well_formed(old(self)@, client_id@, peer, spec_will_view(lwt));
        }
        *self = SessionManager { sessions, peer_client };
    }

    /// Whether `client_id` has a session.
    pub fn has_client(&self, client_id: &str) -> (r: bool)
        ensures
            r == spec_has_key(self@.sessions, client_id@),
            self@.spec_well_formed(),
    {
        proof {
            use_type_invariant(self);
        }
        self.sessions.find(client_id).is_some()
    }

    /// Whether `peer` belongs to a client.
    pub fn has_peer(&self, peer: &u16) -> (r: bool)
        ensures
            r == self@.peers.contains_key(*peer),
            self@.spec_well_formed(),
    {
        proof {
            use_type_invariant(self);
        }
        self.peer_client.contains_key(*peer)
    }

    /// A copy of the session of `client_id`, if it has one.
    pub fn get_client(&self, client_id: &str) -> (r: Option<Session>)
        ensures
            match spec_lookup(self@.sessions, client_id@) {
                Some(session) => r is Some && r->0@ == session && session.client_id == client_id@,
                None => r is None,
            },
            self@.spec_well_formed(),
    {
        proof {
            use_type_invariant(self);
        }
        match self.sessions.find(client_id) {
            Some(i) => Some(self.sessions.value_at(i).clone()),
            None => None,
        }
    }

    /// The client that `peer` belongs to; where it belongs to none, the
    /// words that say so.
    pub fn get_client_id(&self, peer: &u16) -> (r: Result<String, String>)
        ensures
            r is Ok <==> self@.peers.contains_key(*peer),
            r is Ok ==> r->Ok_0@ == self@.peers[*peer] && spec_lookup(self@.sessions, r->Ok_0@)
                is Some,
            r is Err ==> r->Err_0@ == "Failed getting client id..."@,
            self@.spec_well_formed(),
    {
        proof {
            use_type_invariant(self);
        }
        match self.peer_client.get(*peer) {
            Some(client_id) => Ok(client_id.clone()),
            None => Err("Failed getting client id...".to_owned()),
        }
    }

    /// The peer of the connection that the session of `client_id` is bound
    /// to, if the client has a session and its connection is not gone.
    pub fn get_bound_peer(&self, client_id: &str) -> (r: Option<u16>)
        ensures
            r == self@.spec_bound_peer(client_id@),
            self@.spec_well_formed(),
    {
        proof {
            use_type_invariant(self);
        }
        match self.sessions.find(client_id) {
            Some(i) => {
                let peer = self.sessions.value_at(i).peer;
                match self.peer_client.get(peer) {
                    Some(owner) => if crate::text::str_eq(owner.as_str(), client_id) {
                        Some(peer)
                    } else {
                        None
                    },
                    None => None,
                }
            },
            None => None,
        }
    }

    /// Takes note that the connection of `peer` is gone: the peer belongs to
    /// nobody from now on. The session that was bound to it stays.
    pub fn unbind_peer(&mut self, peer: u16)
        ensures
            final(self)@ == old(self)@.spec_unbind(peer),
            final(self)@.spec_well_formed(),
    {
        let (sessions, mut peer_client) = self.take_apart();
        peer_client.remove(peer);
        proof {
            lemma_unbind_well_formed(old(self)@, peer);
        }
        *self = SessionManager { sessions, peer_client };
    }

    /// Ends the session of `client_id`: the session and the peer that it was
    /// bound to are forgotten. Does nothing where the client has no session.
    pub fn delete(&mut self, client_id: &str)
        ensures
            final(self)@ == old(self)@.spec_delete(client_id@),
            final(self)@.spec_well_formed(),
            spec_lookup(final(self)@.sessions, client_id@) is None,
            match spec_lookup(old(self)@.sessions, client_id@) {
                Some(session) => !final(self)@.peers.contains_key(session.peer),
                None => true,
            },
    {
        let (mut sessions, mut peer_client) = self.take_apart();
        match sessions.find(client_id) {
            Some(i) => {
                peer_client.remove(sessions.value_at(i).peer);
                let _ = sessions.remove_at(i);
            },
            None => {},
        }
        proof {
            lemma_delete_well_formed(old(self)@, client_id@);
            lemma_delete(old(self)@.sessions, client_id@, client_id@);
        }
        *self = SessionManager { sessions, peer_client };
    }

    /// Binds the session of `client_id` to `new_peer`: the peer that it was
    /// bound to is forgotten before `new_peer` is given to the client, and
    /// the last will stays. Does nothing where the client has no session.
    pub fn replace_stream(&mut self, client_id: &str, new_peer: u16)
        ensures
            final(self)@ == old(self)@.spec_replace_stream(client_id@, new_peer),
            final(self)@.spec_well_formed(),
    {
        let (mut sessions, mut peer_client) = self.take_apart();
        match sessions.find(client_id) {
            Some(i) => {
                let kept = sessions.swap_value_at(
                    i,
                    Session { client_id: String::new(), peer: 0, last_will_testament: None },
                );
                peer_client.remove(kept.peer);
                peer_client.insert(new_peer, client_id.to_owned());
                sessions.set_value_at(
                    i,
                    Session {
                        client_id: client_id.to_owned(),
                        peer: new_peer,
                        last_will_testament: kept.last_will_testament,
                    },
                );
                assert(sessions@ =~= old(self)@.spec_replace_stream(
                    client_id@,
                    new_peer,
                ).sessions);
            },
            None => {},
        }
        proof {
            lemma_replace_stream_well_formed(old(self)@, client_id@, new_peer);
        }
        *self = SessionManager { sessions, peer_client };
    }

    /// The peer that the session of `client_id` is bound to; where the client
    /// has no session, the words that say so.
    pub fn get_old_peer(&self, client_id: &str) -> (r: Result<u16, String>)
        ensures
            match spec_lookup(self@.sessions, client_id@) {
                Some(session) => r == Ok::<u16, String>(session.peer),
                None => r is Err && r->Err_0@ == "The client id doesn't exist"@,
            },
    {
        match self.sessions.find(client_id) {
            Some(i) => Ok(self.sessions.value_at(i).peer),
            None => Err("The client id doesn't exist".to_owned()),
        }
    }
}

} // verus!
