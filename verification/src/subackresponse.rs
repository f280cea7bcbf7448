use vstd::prelude::*;

verus! {

/// What a client learns from a SUBACK.
#[derive(Debug, PartialEq)]
pub struct SubackResponse {
    status_codes: Vec<u8>,
}

impl View for SubackResponse {
    type V = Seq<u8>;

    closed spec fn view(&self) -> Seq<u8> {
        self.status_codes@
    }
}

impl SubackResponse {
    /// A response with the given return codes.
    pub fn new(status_codes: Vec<u8>) -> (r: SubackResponse)
        ensures
            r@ == status_codes@,
    {
        SubackResponse { status_codes }
    }

    /// A copy of the return codes, one for each topic filter that was asked
    /// for.
    pub fn get_status_codes(&self) -> (r: Vec<u8>)
        ensures
            r@ == self@,
    {
        self.status_codes.clone()
    }
}

} // verus!
