//! The fixed twelve-byte header that precedes every response body.

use vstd::prelude::*;

use crate::protocol::{le32, API_VERSION, STX};

verus! {

/// A decoded response header. `valid` is false when the marker byte or the
/// protocol version differ from the expected values.
#[derive(Debug, Clone, Copy, PartialEq, Eq, Structural)]
pub struct ResponseHeader {
    valid: bool,
    stx: u8,
    version: u8,
    body_len: u32,
    response_type: u8,
    error_code: u8,
    request_id: u32,
}

/// What a response header says, as plain values.
pub struct HeaderView {
    pub valid: bool,
    pub stx: u8,
    pub version: u8,
    pub body_len: u32,
    pub response_type: u8,
    pub error_code: u8,
    pub request_id: u32,
}

/// The header that twelve bytes encode.
pub open spec fn header_of(b: Seq<u8>) -> HeaderView
    recommends
        b.len() >= 12,
{
    HeaderView {
        valid: b[0] == STX && b[1] == API_VERSION,
        stx: b[0],
        version: b[1],
        body_len: le32(b[2], b[3], b[4], b[5]) as u32,
        response_type: b[6],
        error_code: b[7],
        request_id: le32(b[8], b[9], b[10], b[11]) as u32,
    }
}

impl View for ResponseHeader {
    type V = HeaderView;

    closed spec fn view(&self) -> HeaderView {
        HeaderView {
            valid: self.valid,
            stx: self.stx,
            version: self.version,
            body_len: self.body_len,
            response_type: self.response_type,
            error_code: self.error_code,
            request_id: self.request_id,
        }
    }
}

impl ResponseHeader {
    /// Decodes the first twelve bytes of `b`.
    pub fn decode(b: &[u8]) -> (r: ResponseHeader)
        requires
            b@.len() >= 12,
        ensures
            r@ == header_of(b@),
    {
        let body_len = b[2] as u32 + 256 * b[3] as u32 + 65536 * b[4] as u32 + 16777216 * b[5] as u32;
        let request_id = b[8] as u32 + 256 * b[9] as u32 + 65536 * b[10] as u32 + 16777216
            * b[11] as u32;
        ResponseHeader {
            valid: b[0] == STX && b[1] == API_VERSION,
            stx: b[0],
            version: b[1],
            body_len,
            response_type: b[6],
            error_code: b[7],
            request_id,
        }
    }

    pub fn valid(&self) -> (r: bool)
        ensures
            r == self@.valid,
    {
        self.valid
    }

    pub fn stx(&self) -> (r: u8)
        ensures
            r == self@.stx,
    {
        self.stx
    }

    pub fn version(&self) -> (r: u8)
        ensures
            r == self@.version,
    {
        self.version
    }

    pub fn body_len(&self) -> (r: u32)
        ensures
            r == self@.body_len,
    {
        self.body_len
    }

    pub fn response_type(&self) -> (r: u8)
        ensures
            r == self@.response_type,
    {
        self.response_type
    }

    pub fn error_code(&self) -> (r: u8)
        ensures
            r == self@.error_code,
    {
        self.error_code
    }

    pub fn request_id(&self) -> (r: u32)
        ensures
            r == self@.request_id,
    {
        self.request_id
    }
}

/// Converting twelve bytes with `From` decodes them as `decode` does.
pub proof fn lemma_from_bytes(buffer: &[u8; 12])
    ensures
        <ResponseHeader as vstd::std_specs::convert::FromSpec<&[u8; 12]>>::from_spec(buffer)@
            == header_of(buffer@),
{
}

impl From<&[u8; 12]> for ResponseHeader {
    fn from(buffer: &[u8; 12]) -> (r: ResponseHeader) {
        ResponseHeader::decode(buffer.as_slice())
    }
}

impl vstd::std_specs::convert::FromSpecImpl<&[u8; 12]> for ResponseHeader {
    open spec fn obeys_from_spec() -> bool {
        true
    }

    closed spec fn from_spec(buffer: &[u8; 12]) -> ResponseHeader {
        let b = buffer@;
        ResponseHeader {
            valid: b[0] == STX && b[1] == API_VERSION,
            stx: b[0],
            version: b[1],
            body_len: le32(b[2], b[3], b[4], b[5]) as u32,
            response_type: b[6],
            error_code: b[7],
            request_id: le32(b[8], b[9], b[10], b[11]) as u32,
        }
    }
}

} // verus!
