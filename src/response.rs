//! Responses from the monitor and the decoding of their bodies.

use std::collections::HashMap;

use vstd::prelude::*;
use vstd::string::StringSliceAdditionalSpecFns;
use vstd::utf8::{decode_utf8, valid_utf8};

use crate::protocol::{
    le16, TYPE_ADVANCE_INSTRUCTIONS, TYPE_EXIT, TYPE_LOAD, TYPE_PING, TYPE_REGISTERS_AVAILABLE,
    TYPE_REGISTERS_GET, TYPE_RESET, TYPE_RESUMED, TYPE_STOPPED,
};
use crate::response_header::ResponseHeader;

verus! {

broadcast use {
    vstd::std_specs::hash::group_hash_axioms,
    vstd::utf8::encode_utf8_decode_utf8,
    vstd::utf8::encode_utf8_valid_utf8,
};

/// A decoded response, keyed by its message type id.
#[derive(Debug)]
pub enum Response {
    /// Register values: id to value.
    RegistersGet { values: HashMap<u8, u16> },
    /// Register descriptions: id to (size in bits, name).
    RegistersAvailable { descriptions: HashMap<u8, (u8, String)> },
    Stopped { pc: u16 },
    Resumed { pc: u16 },
    AdvanceInstructions,
    Ping,
    Reset,
    Exit,
    /// A load finished.
    Load,
    /// A message type this engine does not handle.
    Invalid { response_type: u8, error_code: u8 },
}

/// A response as plain values.
pub enum ResponseView {
    RegistersGet { values: Map<u8, u16> },
    RegistersAvailable { descriptions: Map<u8, (u8, Seq<char>)> },
    Stopped { pc: u16 },
    Resumed { pc: u16 },
    AdvanceInstructions,
    Ping,
    Reset,
    Exit,
    Load,
    Invalid { response_type: u8, error_code: u8 },
}

/// A map of register descriptions with each name read as characters.
pub open spec fn descriptions_view(m: Map<u8, (u8, String)>) -> Map<u8, (u8, Seq<char>)> {
    Map::new(|k: u8| m.contains_key(k), |k: u8| (m[k].0, m[k].1@))
}

impl View for Response {
    type V = ResponseView;

    open spec fn view(&self) -> ResponseView {
        match self {
            Response::RegistersGet { values } => ResponseView::RegistersGet { values: values@ },
            Response::RegistersAvailable { descriptions } => ResponseView::RegistersAvailable {
                descriptions: descriptions_view(descriptions@),
            },
            Response::Stopped { pc } => ResponseView::Stopped { pc: *pc },
            Response::Resumed { pc } => ResponseView::Resumed { pc: *pc },
            Response::AdvanceInstructions => ResponseView::AdvanceInstructions,
            Response::Ping => ResponseView::Ping,
            Response::Reset => ResponseView::Reset,
            Response::Exit => ResponseView::Exit,
            Response::Load => ResponseView::Load,
            Response::Invalid { response_type, error_code } => ResponseView::Invalid {
                response_type: *response_type,
                error_code: *error_code,
            },
        }
    }
}

/// Name given to a register whose name bytes are not valid UTF-8.
pub open spec fn invalid_name() -> Seq<char> {
    seq!['[', 'I', 'N', 'V', 'A', 'L', 'I', 'D', ']']
}

/// The register name that raw bytes stand for.
pub open spec fn name_of(bytes: Seq<u8>) -> Seq<char> {
    if valid_utf8(bytes) {
        decode_utf8(bytes)
    } else {
        invalid_name()
    }
}

/// The leading count of a body that has one.
pub open spec fn entry_count(body: Seq<u8>) -> nat {
    le16(body[0], body[1]) as nat
}

/// The first `k` register values of a register-values body, where entry `i`
/// takes the four bytes from `2 + 4 * i`: entry size, id, value (two bytes).
pub open spec fn value_entries(body: Seq<u8>, k: nat) -> Map<u8, u16>
    decreases k,
{
    if k == 0 {
        Map::empty()
    } else {
        let p = 2 + 4 * (k - 1);
        value_entries(body, (k - 1) as nat).insert(body[p + 1], le16(body[p + 2], body[p + 3]) as u16)
    }
}

/// Reads `n` register descriptions from `pos` on, adding them to `acc`. An
/// entry holds its size (not counting that byte), the register id, its size
/// in bits, a name length `L`, then `L + 1` name bytes; the next entry follows
/// the size byte by the entry size. `None` when the body ends too early.
pub open spec fn description_entries(
    body: Seq<u8>,
    pos: int,
    n: nat,
    acc: Map<u8, (u8, Seq<char>)>,
) -> Option<Map<u8, (u8, Seq<char>)>>
    decreases n,
{
    if n == 0 {
        Some(acc)
    } else if pos + 4 > body.len() || pos + 5 + body[pos + 3] > body.len() {
        None
    } else {
        description_entries(
            body,
            pos + body[pos] + 1,
            (n - 1) as nat,
            acc.insert(
                body[pos + 1],
                (body[pos + 2], name_of(body.subrange(pos + 4, pos + 5 + body[pos + 3]))),
            ),
        )
    }
}

/// The response that a message type id, error code and body stand for;
/// `None` when the body is shorter than its own fields declare.
pub open spec fn response_of(response_type: u8, error_code: u8, body: Seq<u8>) -> Option<
    ResponseView,
> {
    if response_type == TYPE_REGISTERS_GET {
        if body.len() < 2 || body.len() < 2 + 4 * entry_count(body) {
            None
        } else {
            Some(ResponseView::RegistersGet { values: value_entries(body, entry_count(body)) })
        }
    } else if response_type == TYPE_REGISTERS_AVAILABLE {
        if body.len() < 2 {
            None
        } else {
            match description_entries(body, 2, entry_count(body), Map::empty()) {
                Some(m) => Some(ResponseView::RegistersAvailable { descriptions: m }),
                None => None,
            }
        }
    } else if response_type == TYPE_STOPPED || response_type == TYPE_RESUMED {
        if body.len() < 2 {
            None
        } else if response_type == TYPE_STOPPED {
            Some(ResponseView::Stopped { pc: le16(body[0], body[1]) as u16 })
        } else {
            Some(ResponseView::Resumed { pc: le16(body[0], body[1]) as u16 })
        }
    } else if response_type == TYPE_ADVANCE_INSTRUCTIONS {
        Some(ResponseView::AdvanceInstructions)
    } else if response_type == TYPE_PING {
        Some(ResponseView::Ping)
    } else if response_type == TYPE_RESET {
        Some(ResponseView::Reset)
    } else if response_type == TYPE_EXIT {
        Some(ResponseView::Exit)
    } else if response_type == TYPE_LOAD {
        Some(ResponseView::Load)
    } else {
        Some(ResponseView::Invalid { response_type, error_code })
    }
}

/// Relies on std::str::from_utf8: it accepts exactly the valid UTF-8 byte
/// sequences, and the text it returns has those bytes.
#[verifier::external_body]
fn str_from_utf8(bytes: &[u8]) -> (r: Option<&str>)
    ensures
        r is Some <==> valid_utf8(bytes@),
        r matches Some(s) ==> s.spec_bytes() == bytes@,
{
    std::str::from_utf8(bytes).ok()
}

/// Reads a register name, with a placeholder for bytes that are not UTF-8.
fn decode_name(bytes: &[u8]) -> (r: String)
    ensures
        r@ == name_of(bytes@),
{
    match str_from_utf8(bytes) {
        Some(s) => s.to_owned(),
        None => {
            let r = "[INVALID]".to_owned();
            proof {
                reveal_strlit("[INVALID]");
            }
            assert(r@ =~= invalid_name());
            r
        },
    }
}

/// Reads a little-endian 16-bit value at `pos`.
fn read_le16(body: &[u8], pos: usize) -> (r: u16)
    requires
        pos + 2 <= body@.len(),
    ensures
        r == le16(body@[pos as int], body@[pos + 1]),
{
    body[pos] as u16 + 256 * body[pos + 1] as u16
}

fn decode_values(body: &[u8]) -> (r: Option<HashMap<u8, u16>>)
    ensures
        match r {
            Some(m) => body@.len() >= 2 && body@.len() >= 2 + 4 * entry_count(body@) && m@
                == value_entries(body@, entry_count(body@)),
            None => body@.len() < 2 || body@.len() < 2 + 4 * entry_count(body@),
        },
{
    if body.len() < 2 {
        return None;
    }
    let count = read_le16(body, 0);
    if body.len() < 2 + 4 * count as usize {
        return None;
    }
    let mut registers: HashMap<u8, u16> = HashMap::new();
    let mut k: u16 = 0;
    while k < count
        invariant
            k <= count,
            count == entry_count(body@),
            body@.len() >= 2 + 4 * count,
            registers@ == value_entries(body@, k as nat),
        decreases count - k,
    {
        let p: usize = 2 + 4 * k as usize;
        let id = body[p + 1];
        let value = read_le16(body, p + 2);
        registers.insert(id, value);
        k = k + 1;
    }
    Some(registers)
}

fn decode_descriptions(body: &[u8]) -> (r: Option<HashMap<u8, (u8, String)>>)
    requires
        body@.len() >= 2,
    ensures
        match r {
            Some(m) => description_entries(body@, 2, entry_count(body@), Map::empty()) == Some(
                descriptions_view(m@),
            ),
            None => description_entries(body@, 2, entry_count(body@), Map::empty()) is None,
        },
{
    let count = read_le16(body, 0);
    let mut registers: HashMap<u8, (u8, String)> = HashMap::new();
    let mut pos: usize = 2;
    let mut k: u16 = 0;
    assert(descriptions_view(registers@) =~= Map::empty());
    while k < count
        invariant
            k <= count,
            count == entry_count(body@),
            pos <= body@.len(),
            description_entries(body@, 2, entry_count(body@), Map::empty())
                == description_entries(
                body@,
                pos as int,
                (count - k) as nat,
                descriptions_view(registers@),
            ),
        decreases count - k,
    {
        if body.len() - pos < 4 {
            return None;
        }
        let size = body[pos] as usize;
        let id = body[pos + 1];
        let bits = body[pos + 2];
        let name_len = body[pos + 3] as usize;
        if body.len() - pos - 4 < name_len + 1 {
            return None;
        }
        let name = decode_name(&body[pos + 4..pos + 5 + name_len]);
        let ghost next_pos = pos + size + 1;
        let ghost acc = descriptions_view(registers@).insert(id, (bits, name@));
        assert(body@.subrange(pos + 4, pos + 5 + name_len) == body@.subrange(
            pos + 4,
            pos + 5 + body@[pos + 3],
        ));
        assert(descriptions_view(registers@.insert(id, (bits, name))) =~= acc);
        assert(description_entries(body@, pos as int, (count - k) as nat, descriptions_view(registers@))
            == description_entries(body@, next_pos, (count - k - 1) as nat, acc));
        registers.insert(id, (bits, name));
        k = k + 1;
        if k < count {
            if body.len() - pos <= size {
                assert(description_entries(body@, next_pos, (count - k) as nat, acc) is None);
                return None;
            }
            pos = pos + size + 1;
        }
    }
    Some(registers)
}

impl Response {
    /// Decodes the body of a response according to its header's message type.
    /// Returns `None` when the body is shorter than its own fields declare.
    pub fn decode(header: &ResponseHeader, body: &[u8]) -> (r: Option<Response>)
        ensures
            r matches Some(resp) ==> response_of(
                header@.response_type,
                header@.error_code,
                body@,
            ) == Some(resp@),
            r is None ==> response_of(header@.response_type, header@.error_code, body@) is None,
    {
        let t = header.response_type();
        if t == TYPE_REGISTERS_GET {
            match decode_values(body) {
                Some(values) => Some(Response::RegistersGet { values }),
                None => None,
            }
        } else if t == TYPE_REGISTERS_AVAILABLE {
            if body.len() < 2 {
                None
            } else {
                match decode_descriptions(body) {
                    Some(descriptions) => Some(Response::RegistersAvailable { descriptions }),
                    None => None,
                }
            }
        } else if t == TYPE_STOPPED || t == TYPE_RESUMED {
            if body.len() < 2 {
                None
            } else if t == TYPE_STOPPED {
                Some(Response::Stopped { pc: read_le16(body, 0) })
            } else {
                Some(Response::Resumed { pc: read_le16(body, 0) })
            }
        } else if t == TYPE_ADVANCE_INSTRUCTIONS {
            Some(Response::AdvanceInstructions)
        } else if t == TYPE_PING {
            Some(Response::Ping)
        } else if t == TYPE_RESET {
            Some(Response::Reset)
        } else if t == TYPE_EXIT {
            Some(Response::Exit)
        } else if t == TYPE_LOAD {
            Some(Response::Load)
        } else {
            Some(Response::Invalid { response_type: t, error_code: header.error_code() })
        }
    }
}

} // verus!
