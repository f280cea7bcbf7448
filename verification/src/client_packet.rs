use crate::connackresponse::ConnackResponse;
use crate::idmanager::spec_is_id;
use crate::idmanager::IDManager;
use crate::idmanager::IDManagerView;
use crate::packet_dispatcher::Packet;
use crate::packet_dispatcher::PacketView;
use crate::puback::Puback;
use crate::sequence::spec_remove_first;
use crate::subackresponse::SubackResponse;
use crate::unsubackresponse::UnsubackResponse;
use vstd::prelude::*;
use vstd::string::StringExecFns;

verus! {

/// What a client makes of a packet from the broker.
#[derive(Debug, PartialEq)]
pub enum ClientEvent {
    /// A message came: its topic, a bar, and its payload.
    Message(String),
    /// The broker answered the CONNECT.
    Connected(ConnackResponse),
    /// The broker answered a SUBSCRIBE.
    Subscribed(SubackResponse),
    /// The broker answered an UNSUBSCRIBE.
    Unsubscribed(UnsubackResponse),
    /// The packet is to be written to the broker.
    Reply(Packet),
}

/// A client event as a mathematical value.
pub enum ClientEventView {
    Message(Seq<char>),
    Connected(ConnackResponse),
    Subscribed(Seq<u8>),
    Unsubscribed(UnsubackResponse),
    Reply(PacketView),
}

impl View for ClientEvent {
    type V = ClientEventView;

    open spec fn view(&self) -> ClientEventView {
        match self {
            ClientEvent::Message(text) => ClientEventView::Message(text@),
            ClientEvent::Connected(response) => ClientEventView::Connected(*response),
            ClientEvent::Subscribed(response) => ClientEventView::Subscribed(response@),
            ClientEvent::Unsubscribed(response) => ClientEventView::Unsubscribed(*response),
            ClientEvent::Reply(packet) => ClientEventView::Reply(packet@),
        }
    }
}

/// The events that a run of events holds.
pub open spec fn spec_events(events: Seq<ClientEvent>) -> Seq<ClientEventView> {
    Seq::new(events.len(), |i: int| events[i]@)
}

/// What a client makes of a packet from the broker: a message, followed by
/// its acknowledgement where the quality of service is above 0, of a
/// PUBLISH; the answer of a CONNACK, a SUBACK or an UNSUBACK, which has the
/// status 0 where its packet identifier is above 0 and 1 where not; and
/// nothing of any other packet.
pub open spec fn spec_client_events(packet: PacketView) -> Seq<ClientEventView> {
    match packet {
        PacketView::Publish(p) => {
            let message = ClientEventView::Message(p.topic_name + "|"@ + p.payload);
            if p.qos != 0 {
                seq![
                    message,
                    ClientEventView::Reply(
                        PacketView::Puback(Puback { acknowledged_packet_id: p.packet_id }),
                    ),
                ]
            } else {
                seq![message]
            }
        },
        PacketView::Connack(p) => seq![
            ClientEventView::Connected(ConnackResponse::spec_new(p.return_code, p.session_present)),
        ],
        PacketView::Suback(p) => seq![ClientEventView::Subscribed(p.return_codes)],
        PacketView::Unsuback(p) => seq![
            ClientEventView::Unsubscribed(
                UnsubackResponse::spec_new(
                    p.packet_id,
                    if p.packet_id > 0 {
                        0
                    } else {
                        1
                    },
                ),
            ),
        ],
        _ => Seq::empty(),
    }
}

/// The packet identifiers of a client after a packet from the broker: a
/// PUBACK puts the identifier that it acknowledges out of use.
pub open spec fn spec_client_ids(ids: IDManagerView, packet: PacketView) -> IDManagerView {
    match packet {
        PacketView::Puback(p) => IDManagerView {
            next_id: ids.next_id,
            used_ids: spec_remove_first(ids.used_ids, spec_is_id(p.acknowledged_packet_id)),
            limit: ids.limit,
        },
        _ => ids,
    }
}

/// Handles a packet that a client got from the broker; hands back what the
/// client is to do about it.
pub fn handle_client_packet(packet: &Packet, id_manager: &mut IDManager) -> (r: Vec<ClientEvent>)
    ensures
        spec_events(r@) == spec_client_events(packet@),
        final(id_manager)@ == spec_client_ids(old(id_manager)@, packet@),
{
    let mut events: Vec<ClientEvent> = Vec::new();
    match packet {
        Packet::Publish(p) => {
            let mut message = p.topic_name.clone();
            message.append("|");
            message.append(p.payload.as_str());
            events.push(ClientEvent::Message(message));
            if p.qos != 0 {
                events.push(
                    ClientEvent::Reply(
                        Packet::Puback(Puback { acknowledged_packet_id: p.packet_id }),
                    ),
                );
            }
        },
        Packet::Connack(p) => {
            events.push(
                ClientEvent::Connected(ConnackResponse::new(p.return_code, p.session_present)),
            );
        },
        Packet::Suback(p) => {
            events.push(ClientEvent::Subscribed(SubackResponse::new(p.return_codes.clone())));
        },
        Packet::Unsuback(p) => {
            let status: u8 = if p.packet_id > 0 {
                0
            } else {
                1
            };
            events.push(ClientEvent::Unsubscribed(UnsubackResponse::new(p.packet_id, status)));
        },
        Packet::Puback(p) => {
            id_manager.free_id(p.acknowledged_packet_id);
        },
        _ => {},
    }
    assert(spec_events(events@) =~= spec_client_events(packet@));
    events
}

} // verus!
