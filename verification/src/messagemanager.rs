use crate::publish::Publish;
use crate::publish::PublishView;
use crate::registry::spec_delete;
use crate::registry::spec_distinct_keys;
use crate::registry::spec_has_key;
use crate::registry::spec_lookup;
use crate::registry::spec_put;
use crate::registry::Registry;
use crate::sequence::lemma_remove_first_at;
use crate::sequence::lemma_remove_first_none;
use crate::sequence::spec_is_first;
use crate::sequence::spec_remove_first;
use vstd::prelude::*;

verus! {

/// A message that was sent to a client and waits for its acknowledgement.
#[derive(Debug, PartialEq)]
pub struct PendingMessage {
    /// The topic that the message was published to.
    pub topic_name: String,
    /// The message.
    pub payload: String,
    /// The packet identifier under which the acknowledgement will come.
    pub packet_id: u16,
    /// The quality of service of the publication.
    pub qos: u8,
    /// The retain flag of the publication.
    pub retain_flag: u8,
}

/// A pending message as a mathematical value.
pub struct PendingMessageView {
    pub topic_name: Seq<char>,
    pub payload: Seq<char>,
    pub packet_id: u16,
    pub qos: u8,
    pub retain_flag: u8,
}

impl View for PendingMessage {
    type V = PendingMessageView;

    open spec fn view(&self) -> PendingMessageView {
        PendingMessageView {
            topic_name: self.topic_name@,
            payload: self.payload@,
            packet_id: self.packet_id,
            qos: self.qos,
            retain_flag: self.retain_flag,
        }
    }
}

impl Clone for PendingMessage {
    fn clone(&self) -> (r: PendingMessage)
        ensures
            r@ == self@,
    {
        PendingMessage {
            topic_name: self.topic_name.clone(),
            payload: self.payload.clone(),
            packet_id: self.packet_id,
            qos: self.qos,
            retain_flag: self.retain_flag,
        }
    }
}

impl PendingMessageView {
    /// The message as it goes to the client again: marked as a duplicate.
    pub open spec fn spec_to_publish(self) -> PublishView {
        PublishView {
            topic_name: self.topic_name,
            payload: self.payload,
            packet_id: self.packet_id,
            qos: self.qos,
            retain_flag: self.retain_flag,
            dup_flag: 1,
        }
    }

    /// What is kept of a publication until it is acknowledged.
    pub open spec fn spec_from_publish(packet: PublishView) -> PendingMessageView {
        PendingMessageView {
            topic_name: packet.topic_name,
            payload: packet.payload,
            packet_id: packet.packet_id,
            qos: packet.qos,
            retain_flag: packet.retain_flag,
        }
    }
}

impl PendingMessage {
    /// What is kept of a publication until it is acknowledged.
    pub fn from_publish_packet(packet: &Publish) -> (r: PendingMessage)
        ensures
            r@ == PendingMessageView::spec_from_publish(packet@),
    {
        PendingMessage {
            topic_name: packet.topic_name.clone(),
            payload: packet.payload.clone(),
            packet_id: packet.packet_id,
            qos: packet.qos,
            retain_flag: packet.retain_flag,
        }
    }

    /// The message as it goes to the client again: marked as a duplicate.
    pub fn to_publish_packet(&self) -> (r: Publish)
        ensures
            r@ == self@.spec_to_publish(),
    {
        Publish {
            topic_name: self.topic_name.clone(),
            payload: self.payload.clone(),
            packet_id: self.packet_id,
            qos: self.qos,
            retain_flag: self.retain_flag,
            dup_flag: 1,
        }
    }
}

/// The messages that a run of pending messages holds.
pub open spec fn spec_messages(messages: Seq<PendingMessage>) -> Seq<PendingMessageView> {
    Seq::new(messages.len(), |i: int| messages[i]@)
}

/// The pending messages of one client, the oldest first.
pub struct MessageQueue {
    pub messages: Vec<PendingMessage>,
}

impl View for MessageQueue {
    type V = Seq<PendingMessageView>;

    open spec fn view(&self) -> Seq<PendingMessageView> {
        spec_messages(self.messages@)
    }
}

/// A copy of the messages.
pub fn clone_messages(messages: &Vec<PendingMessage>) -> (r: Vec<PendingMessage>)
    ensures
        spec_messages(r@) == spec_messages(messages@),
{
    let mut copy: Vec<PendingMessage> = Vec::new();
    let mut i: usize = 0;
    while i < messages.len()
        invariant
            i <= messages.len(),
            copy@.len() == i,
            forall|j: int| 0 <= j < i ==> copy@[j]@ == messages@[j]@,
        decreases messages.len() - i,
    {
        copy.push(messages[i].clone());
        i += 1;
    }
    assert(spec_messages(copy@) =~= spec_messages(messages@));
    copy
}

/// The messages that wait under `client_id`: none where the client has no
/// entry.
pub open spec fn spec_queue(
    entries: Seq<(Seq<char>, Seq<PendingMessageView>)>,
    client_id: Seq<char>,
) -> Seq<PendingMessageView> {
    match spec_lookup(entries, client_id) {
        Some(queue) => queue,
        None => Seq::empty(),
    }
}

/// The entries after `message` is put last in the queue of `client_id`.
pub open spec fn spec_add_message(
    entries: Seq<(Seq<char>, Seq<PendingMessageView>)>,
    client_id: Seq<char>,
    message: PendingMessageView,
) -> Seq<(Seq<char>, Seq<PendingMessageView>)> {
    spec_put(entries, client_id, spec_queue(entries, client_id).push(message))
}

/// The entries after the first message with `packet_id` has left the queue
/// of `client_id`. Nothing changes where the client has no entry or no such
/// message.
pub open spec fn spec_remove_message(
    entries: Seq<(Seq<char>, Seq<PendingMessageView>)>,
    client_id: Seq<char>,
    packet_id: u16,
) -> Seq<(Seq<char>, Seq<PendingMessageView>)> {
    if spec_has_key(entries, client_id) {
        spec_put(
            entries,
            client_id,
            spec_remove_first(
                spec_queue(entries, client_id),
                |m: PendingMessageView| m.packet_id == packet_id,
            ),
        )
    } else {
        entries
    }
}

/// The messages that wait for an acknowledgement, by client.
///
/// The view is the run of entries, each a client identifier with its queue,
/// in the order in which the clients came; no client occurs twice.
pub struct MessageManager {
    messages: Registry<MessageQueue>,
}

impl View for MessageManager {
    type V = Seq<(Seq<char>, Seq<PendingMessageView>)>;

    closed spec fn view(&self) -> Seq<(Seq<char>, Seq<PendingMessageView>)> {
        self.messages@
    }
}

impl MessageManager {
    /// A store without messages.
    pub fn new() -> (r: MessageManager)
        ensures
            r@ == Seq::<(Seq<char>, Seq<PendingMessageView>)>::empty(),
    {
        MessageManager { messages: Registry::new() }
    }

    /// Puts a copy of `message` last in the queue of `client_id`.
    pub fn add_message(&mut self, client_id: &str, message: &PendingMessage)
        ensures
            final(self)@ == spec_add_message(old(self)@, client_id@, message@),
            spec_distinct_keys(final(self)@),
    {
        match self.messages.find(client_id) {
            Some(i) => {
                let (key, mut queue) = self.messages.remove_at(i);
                queue.messages.push(message.clone());
                proof {
                    assert(queue@ =~= old(self)@[i as int].1.push(message@));
                    assert(!spec_has_key(self.messages@, key@)) by {
                        crate::registry::lemma_delete(old(self)@, key@, key@);
                    }
                }
                self.messages.insert_at(i, key, queue);
                assert(self@ =~= old(self)@.update(
                    i as int,
                    (client_id@, old(self)@[i as int].1.push(message@)),
                ));
            },
            None => {
                let mut queue = MessageQueue { messages: Vec::new() };
                queue.messages.push(message.clone());
                assert(queue@ =~= Seq::<PendingMessageView>::empty().push(message@));
                self.messages.push(client_id.to_owned(), queue);
            },
        }
    }

    /// Whether `client_id` has an entry.
    pub fn _has_client(&self, client_id: &str) -> (r: bool)
        ensures
            r == spec_has_key(self@, client_id@),
    {
        self.messages.find(client_id).is_some()
    }

    /// A copy of the messages that wait under `client_id`.
    pub fn _get_messages(&self, client_id: &str) -> (r: Vec<PendingMessage>)
        ensures
            spec_messages(r@) == spec_queue(self@, client_id@),
    {
        match self.messages.find(client_id) {
            Some(i) => clone_messages(&self.messages.value_at(i).messages),
            None => {
                let none: Vec<PendingMessage> = Vec::new();
                assert(spec_messages(none@) =~= Seq::<PendingMessageView>::empty());
                none
            },
        }
    }

    /// Takes the first message with `packet_id` out of the queue of
    /// `client_id`. Does nothing where there is none.
    pub fn remove_message(&mut self, client_id: &str, packet_id: u16)
        ensures
            final(self)@ == spec_remove_message(old(self)@, client_id@, packet_id),
            spec_distinct_keys(final(self)@),
    {
        let found = self.messages.find(client_id);
        if let Some(i) = found {
            let ghost wanted = |m: PendingMessageView| m.packet_id == packet_id;
            let ghost before = old(self)@[i as int].1;
            let (key, mut queue) = self.messages.remove_at(i);
            let mut at: usize = 0;
            let mut hit: Option<usize> = None;
            while at < queue.messages.len() && hit.is_none()
                invariant
                    at <= queue.messages.len(),
                    queue@ == before,
                    wanted == (|m: PendingMessageView| m.packet_id == packet_id),
                    hit is None ==> forall|j: int| 0 <= j < at ==> !wanted(#[trigger] before[j]),
                    hit is Some ==> spec_is_first(before, wanted, hit->0 as int),
                decreases queue.messages.len() - at + (if hit is None { 1int } else { 0 }),
            {
                if queue.messages[at].packet_id == packet_id {
                    assert(wanted(before[at as int]));
                    hit = Some(at);
                } else {
                    at += 1;
                }
            }
            match hit {
                Some(index) => {
                    queue.messages.remove(index);
                    proof {
                        lemma_remove_first_at(before, wanted, index as int);
                        assert(queue@ =~= before.remove(index as int));
                    }
                },
                None => {
                    proof {
                        lemma_remove_first_none(before, wanted);
                    }
                },
            }
            proof {
                assert(!spec_has_key(self.messages@, key@)) by {
                    crate::registry::lemma_delete(old(self)@, key@, key@);
                }
            }
            self.messages.insert_at(i, key, queue);
            assert(self@ =~= old(self)@.update(
                i as int,
                (client_id@, spec_remove_first(before, wanted)),
            ));
        }
    }

    /// A copy of every entry: each client with its messages, in the order
    /// of the view.
    pub fn get_all(&self) -> (r: Vec<(String, Vec<PendingMessage>)>)
        ensures
            r@.len() == self@.len(),
            forall|i: int|
                0 <= i < r@.len() ==> (#[trigger] r@[i]).0@ == self@[i].0 && spec_messages(
                    r@[i].1@,
                ) == self@[i].1,
            spec_distinct_keys(self@),
    {
        let mut all: Vec<(String, Vec<PendingMessage>)> = Vec::new();
        let count = self.messages.len();
        let mut i: usize = 0;
        while i < count
            invariant
                i <= count,
                count == self@.len(),
                all@.len() == i,
                forall|j: int|
                    0 <= j < i ==> (#[trigger] all@[j]).0@ == self@[j].0 && spec_messages(
                        all@[j].1@,
                    ) == self@[j].1,
            decreases count - i,
        {
            let key = self.messages.key_at(i).clone();
            let queue = clone_messages(&self.messages.value_at(i).messages);
            all.push((key, queue));
            i += 1;
        }
        all
    }

    /// Forgets `client_id` and the messages that wait under it.
    pub fn delete(&mut self, client_id: &str)
        ensures
            final(self)@ == spec_delete(old(self)@, client_id@),
            spec_distinct_keys(final(self)@),
    {
        match self.messages.find(client_id) {
            Some(i) => {
                let _ = self.messages.remove_at(i);
            },
            None => {},
        }
    }
}

} // verus!
