use vstd::prelude::*;

verus! {

/// What a client learns from an UNSUBACK.
#[derive(Debug, Clone, Copy, PartialEq, Eq, Structural)]
pub struct UnsubackResponse {
    packet_id: u16,
    status_code: u8,
}

impl UnsubackResponse {
    /// The packet identifier of the response.
    pub closed spec fn spec_packet_id(self) -> u16 {
        self.packet_id
    }

    /// The status code of the response.
    pub closed spec fn spec_status_code(self) -> u8 {
        self.status_code
    }

    /// A response with the given packet identifier and status code.
    pub closed spec fn spec_new(packet_id: u16, status_code: u8) -> UnsubackResponse {
        UnsubackResponse { packet_id, status_code }
    }

    /// A response with the given packet identifier and status code.
    pub fn new(packet_id: u16, status_code: u8) -> (r: UnsubackResponse)
        ensures
            r == UnsubackResponse::spec_new(packet_id, status_code),
            r.spec_packet_id() == packet_id,
            r.spec_status_code() == status_code,
    {
        UnsubackResponse { packet_id, status_code }
    }

    /// The status code: 0 where the UNSUBACK answers a request.
    pub fn get_status_code(&self) -> (r: u8)
        ensures
            r == self.spec_status_code(),
    {
        self.status_code
    }

    /// The packet identifier of the UNSUBSCRIBE that was answered.
    pub fn get_packet_id(&self) -> (r: u16)
        ensures
            r == self.spec_packet_id(),
    {
        self.packet_id
    }
}

} // verus!
