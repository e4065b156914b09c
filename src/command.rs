//! Commands sent to the monitor and their encoding into frames.

use vstd::prelude::*;
use vstd::utf8::{decode_utf8, encode_utf8, valid_utf8};

use crate::error::EngineError;
use crate::response_header::{header_of, HeaderView};
use crate::protocol::{
    le16, le16_bytes, le32_bytes, lemma_le16_round_trip, lemma_le32_round_trip, le32_encode, API_VERSION, STX, TYPE_ADVANCE_INSTRUCTIONS,
    TYPE_EXIT, TYPE_LOAD, TYPE_PING, TYPE_REGISTERS_AVAILABLE, TYPE_REGISTERS_GET, TYPE_RESET,
};

verus! {

broadcast use {vstd::utf8::encode_utf8_decode_utf8, vstd::utf8::encode_utf8_valid_utf8};

/// Body byte of a reset command that asks for a hard reset.
pub const HARD_RESET: u8 = 0x01;

/// A command of the implemented subset of the protocol.
#[derive(Debug, Clone)]
pub enum Command {
    Reset,
    Exit,
    Load { filename: String, autostart: bool },
    RegistersAvailable { memspace: u8 },
    RegistersGet,
    AdvanceInstructions { count: u16 },
    Ping,
}

/// A command as plain values; a file name is its sequence of characters.
pub enum CommandView {
    Reset,
    Exit,
    Load { filename: Seq<char>, autostart: bool },
    RegistersAvailable { memspace: u8 },
    RegistersGet,
    AdvanceInstructions { count: u16 },
    Ping,
}

impl View for Command {
    type V = CommandView;

    open spec fn view(&self) -> CommandView {
        match self {
            Command::Reset => CommandView::Reset,
            Command::Exit => CommandView::Exit,
            Command::Load { filename, autostart } => CommandView::Load {
                filename: filename@,
                autostart: *autostart,
            },
            Command::RegistersAvailable { memspace } => CommandView::RegistersAvailable {
                memspace: *memspace,
            },
            Command::RegistersGet => CommandView::RegistersGet,
            Command::AdvanceInstructions { count } => CommandView::AdvanceInstructions {
                count: *count,
            },
            Command::Ping => CommandView::Ping,
        }
    }
}

/// The message type id of a command.
pub open spec fn command_type(c: CommandView) -> u8 {
    match c {
        CommandView::Reset => TYPE_RESET,
        CommandView::Exit => TYPE_EXIT,
        CommandView::Load { .. } => TYPE_LOAD,
        CommandView::RegistersAvailable { .. } => TYPE_REGISTERS_AVAILABLE,
        CommandView::RegistersGet => TYPE_REGISTERS_GET,
        CommandView::AdvanceInstructions { .. } => TYPE_ADVANCE_INSTRUCTIONS,
        CommandView::Ping => TYPE_PING,
    }
}

/// The body of a command.
pub open spec fn command_body(c: CommandView) -> Seq<u8> {
    match c {
        CommandView::Reset => seq![HARD_RESET],
        CommandView::Load { filename, autostart } => seq![
            if autostart {
                1u8
            } else {
                0u8
            },
            0u8,
            0u8,
            encode_utf8(filename).len() as u8,
        ] + encode_utf8(filename),
        CommandView::RegistersAvailable { memspace } => seq![memspace],
        CommandView::AdvanceInstructions { count } => seq![0u8] + le16_bytes(count),
        _ => Seq::empty(),
    }
}

/// A command can be encoded unless it names a file longer than 255 bytes.
pub open spec fn encodable(c: CommandView) -> bool {
    match c {
        CommandView::Load { filename, .. } => encode_utf8(filename).len() <= 255,
        _ => true,
    }
}

/// A whole frame: header, then body. The length field holds the body length.
pub open spec fn frame_bytes(type_id: u8, request_id: u32, body: Seq<u8>) -> Seq<u8> {
    seq![STX, API_VERSION] + le32_bytes(body.len() as u32) + seq![type_id, 0u8] + le32_bytes(
        request_id,
    ) + body
}

/// The frame that carries command `c` under request id `request_id`.
pub open spec fn command_frame(c: CommandView, request_id: u32) -> Seq<u8> {
    frame_bytes(command_type(c), request_id, command_body(c))
}

/// The command that a message type id and a body stand for, if any.
pub open spec fn command_of(type_id: u8, body: Seq<u8>) -> Option<CommandView> {
    if type_id == TYPE_RESET && body == seq![HARD_RESET] {
        Some(CommandView::Reset)
    } else if type_id == TYPE_EXIT && body.len() == 0 {
        Some(CommandView::Exit)
    } else if type_id == TYPE_PING && body.len() == 0 {
        Some(CommandView::Ping)
    } else if type_id == TYPE_REGISTERS_GET && body.len() == 0 {
        Some(CommandView::RegistersGet)
    } else if type_id == TYPE_REGISTERS_AVAILABLE && body.len() == 1 {
        Some(CommandView::RegistersAvailable { memspace: body[0] })
    } else if type_id == TYPE_ADVANCE_INSTRUCTIONS && body.len() == 3 && body[0] == 0 {
        Some(CommandView::AdvanceInstructions { count: le16(body[1], body[2]) as u16 })
    } else if type_id == TYPE_LOAD && body.len() >= 4 && body[0] <= 1 && body[1] == 0 && body[2]
        == 0 && body[3] == body.len() - 4 && valid_utf8(body.skip(4)) {
        Some(CommandView::Load { filename: decode_utf8(body.skip(4)), autostart: body[0] == 1 })
    } else {
        None
    }
}

/// Decoding the frame of an encodable command gives back a valid header that
/// carries the command's type id, its request id and its body length, and the
/// bytes after the header decode to the same command.
pub proof fn lemma_command_round_trip(c: CommandView, request_id: u32)
    requires
        encodable(c),
    ensures
        command_frame(c, request_id).len() == 12 + command_body(c).len(),
        header_of(command_frame(c, request_id)) == (HeaderView {
            valid: true,
            stx: STX,
            version: API_VERSION,
            body_len: command_body(c).len() as u32,
            response_type: command_type(c),
            error_code: 0,
            request_id,
        }),
        command_frame(c, request_id).skip(12) == command_body(c),
        command_of(command_type(c), command_body(c)) == Some(c),
{
    let body = command_body(c);
    let f = command_frame(c, request_id);
    assert(body.len() <= 259);
    lemma_le32_round_trip(body.len() as u32);
    lemma_le32_round_trip(request_id);
    assert(f.skip(12) =~= body);
    match c {
        CommandView::AdvanceInstructions { count } => {
            lemma_le16_round_trip(count);
        },
        CommandView::Load { filename, autostart } => {
            assert(body.skip(4) =~= encode_utf8(filename));
        },
        _ => {},
    }
}

/// Encodes `cmd` as a frame with request id `request_id`.
pub fn encode_command(cmd: &Command, request_id: u32) -> (r: Result<Vec<u8>, EngineError>)
    ensures
        match r {
            Ok(frame) => encodable(cmd@) && frame@ == command_frame(cmd@, request_id),
            Err(e) => !encodable(cmd@) && e == EngineError::Encoding,
        },
{
    let mut body: Vec<u8> = Vec::new();
    let type_id: u8;
    match cmd {
        Command::Reset => {
            type_id = TYPE_RESET;
            body.push(HARD_RESET);
        },
        Command::Exit => {
            type_id = TYPE_EXIT;
        },
        Command::Load { filename, autostart } => {
            type_id = TYPE_LOAD;
            let name: &[u8] = filename.as_str().as_bytes();
            if name.len() > 255 {
                return Err(EngineError::Encoding);
            }
            body.push(if *autostart { 1u8 } else { 0u8 });
            body.push(0u8);
            body.push(0u8);
            body.push(name.len() as u8);
            let mut i: usize = 0;
            while i < name.len()
                invariant
                    i <= name@.len(),
                    name@.len() <= 255,
                    body@ == seq![
                        if *autostart {
                            1u8
                        } else {
                            0u8
                        },
                        0u8,
                        0u8,
                        name@.len() as u8,
                    ] + name@.take(i as int),
                decreases name@.len() - i,
            {
                body.push(name[i]);
                i = i + 1;
                assert(name@.take(i as int) =~= name@.take(i - 1) + seq![name@[i - 1]]);
            }
            assert(name@.take(i as int) =~= name@);
        },
        Command::RegistersAvailable { memspace } => {
            type_id = TYPE_REGISTERS_AVAILABLE;
            body.push(*memspace);
        },
        Command::RegistersGet => {
            type_id = TYPE_REGISTERS_GET;
        },
        Command::AdvanceInstructions { count } => {
            type_id = TYPE_ADVANCE_INSTRUCTIONS;
            body.push(0u8);
            body.push((*count % 256) as u8);
            body.push((*count / 256) as u8);
        },
        Command::Ping => {
            type_id = TYPE_PING;
        },
    }
    assert(body@ =~= command_body(cmd@));
    assert(type_id == command_type(cmd@));
    Ok(frame(type_id, request_id, &body))
}

/// Puts a header in front of `body`.
pub fn frame(type_id: u8, request_id: u32, body: &Vec<u8>) -> (r: Vec<u8>)
    requires
        body@.len() <= u32::MAX,
    ensures
        r@ == frame_bytes(type_id, request_id, body@),
{
    let len = le32_encode(body.len() as u32);
    let id = le32_encode(request_id);
    let mut r: Vec<u8> = Vec::new();
    r.push(STX);
    r.push(API_VERSION);
    r.push(len[0]);
    r.push(len[1]);
    r.push(len[2]);
    r.push(len[3]);
    r.push(type_id);
    r.push(0u8);
    r.push(id[0]);
    r.push(id[1]);
    r.push(id[2]);
    r.push(id[3]);
    let mut i: usize = 0;
    while i < body.len()
        invariant
            i <= body@.len(),
            r@ == seq![STX, API_VERSION] + le32_bytes(body@.len() as u32) + seq![type_id, 0u8]
                + le32_bytes(request_id) + body@.take(i as int),
        decreases body@.len() - i,
    {
        r.push(body[i]);
        i = i + 1;
        assert(body@.take(i as int) =~= body@.take(i - 1) + seq![body@[i - 1]]);
    }
    assert(body@.take(i as int) =~= body@);
    r
}

} // verus!
