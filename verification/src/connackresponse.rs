use vstd::prelude::*;

verus! {

/// What a client learns from a CONNACK.
#[derive(Debug, Clone, Copy, PartialEq, Eq, Structural)]
pub struct ConnackResponse {
    return_code: u8,
    session_present: u8,
}

impl ConnackResponse {
    /// The return code of the response.
    pub closed spec fn spec_return_code(self) -> u8 {
        self.return_code
    }

    /// The session-present flag of the response.
    pub closed spec fn spec_session_present(self) -> u8 {
        self.session_present
    }

    /// A response with the given return code and session-present flag.
    pub closed spec fn spec_new(return_code: u8, session_present: u8) -> ConnackResponse {
        ConnackResponse { return_code, session_present }
    }

    /// A response with the given return code and session-present flag.
    pub fn new(return_code: u8, session_present: u8) -> (r: ConnackResponse)
        ensures
            r == ConnackResponse::spec_new(return_code, session_present),
            r.spec_return_code() == return_code,
            r.spec_session_present() == session_present,
    {
        ConnackResponse { return_code, session_present }
    }

    /// The return code: 0 where the connection was accepted.
    pub fn get_return_code(&self) -> (r: u8)
        ensures
            r == self.spec_return_code(),
    {
        self.return_code
    }

    /// The session-present flag: 1 where the broker kept a session.
    pub fn get_session_present(&self) -> (r: u8)
        ensures
            r == self.spec_session_present(),
    {
        self.session_present
    }
}

} // verus!
