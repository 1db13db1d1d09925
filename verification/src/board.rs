//! The board line protocol: CR+LF-terminated lines to and from the port
//! hardware. Host to board: presence and module snapshot requests, and
//! LED writes as `S` plus four uppercase hex bytes. Board to host: `P` or
//! `M` plus eight `'0'`/`'1'` characters; anything else is an unknown
//! response carried whole.

use vstd::prelude::*;
use crate::text::str_chars;

verus! {

/// A line read from a board, already attributed to the board's serial
/// number by the reader task.
#[derive(Clone, Debug, PartialEq, Eq)]
pub enum SerialPortMessage {
    UnknownResponse { serial_number: String, line: String },
    ModuleUpdate { serial_number: String, present: [bool; 8] },
    PresenceUpdate { serial_number: String, present: [bool; 8] },
}

/// A parsed board reply, before attribution.
#[derive(Debug, PartialEq, Eq)]
pub enum BoardReply {
    Presence([bool; 8]),
    Module([bool; 8]),
    Unknown(String),
}

/// Mathematical mirror of [`BoardReply`].
pub enum BoardReplyV {
    Presence(Seq<bool>),
    Module(Seq<bool>),
    Unknown(Seq<char>),
}

impl View for BoardReply {
    type V = BoardReplyV;

    open spec fn view(&self) -> BoardReplyV {
        match self {
            BoardReply::Presence(p) => BoardReplyV::Presence(p@),
            BoardReply::Module(p) => BoardReplyV::Module(p@),
            BoardReply::Unknown(s) => BoardReplyV::Unknown(s@),
        }
    }
}

/// The eight presence bits following the opening character: character `i`
/// is `'1'` for present.
pub open spec fn spec_bits(s: Seq<char>) -> Seq<bool> {
    Seq::new(8, |i: int| s[1 + i] == '1')
}

/// What a trimmed board line means: a presence or module snapshot when
/// the eight bits are all there, an unknown response for a foreign
/// opening character, nothing for an empty or truncated line.
pub open spec fn spec_parse_board_line(s: Seq<char>) -> Option<BoardReplyV> {
    if s.len() == 0 {
        None
    } else if s[0] == 'P' {
        if s.len() >= 9 {
            Some(BoardReplyV::Presence(spec_bits(s)))
        } else {
            None
        }
    } else if s[0] == 'M' {
        if s.len() >= 9 {
            Some(BoardReplyV::Module(spec_bits(s)))
        } else {
            None
        }
    } else {
        Some(BoardReplyV::Unknown(s))
    }
}

/// Parses one trimmed board line.
pub fn parse_board_line(line: &str) -> (r: Option<BoardReply>)
    ensures
        match r {
            Some(reply) => spec_parse_board_line(line@) == Some(reply@),
            None => spec_parse_board_line(line@) is None,
        },
{
    let chars = str_chars(line);
    if chars.len() == 0 {
        return None;
    }
    let c0 = chars[0];
    if c0 == 'P' || c0 == 'M' {
        if chars.len() < 9 {
            return None;
        }
        let present: [bool; 8] = [
            chars[1] == '1',
            chars[2] == '1',
            chars[3] == '1',
            chars[4] == '1',
            chars[5] == '1',
            chars[6] == '1',
            chars[7] == '1',
            chars[8] == '1',
        ];
        proof {
            assert(present@ =~= spec_bits(line@));
        }
        if c0 == 'P' {
            Some(BoardReply::Presence(present))
        } else {
            Some(BoardReply::Module(present))
        }
    } else {
        Some(BoardReply::Unknown(line.to_owned()))
    }
}

/// The uppercase hex character, as a byte, for a value below sixteen.
pub open spec fn spec_hex_byte(d: int) -> u8 {
    if d < 10 {
        (48 + d) as u8
    } else {
        (55 + d) as u8
    }
}

/// The two uppercase hex bytes of `b`.
pub open spec fn spec_hex2(b: u8) -> Seq<u8> {
    seq![spec_hex_byte(b as int / 16), spec_hex_byte(b as int % 16)]
}

pub fn hex_byte(d: u8) -> (r: u8)
    requires
        d < 16,
    ensures
        r == spec_hex_byte(d as int),
{
    if d < 10 {
        48 + d
    } else {
        55 + d
    }
}

/// The line requesting a presence snapshot: `P` CR LF.
pub fn presence_request_bytes() -> (r: Vec<u8>)
    ensures
        r@ =~= seq![80u8, 13u8, 10u8],
{
    let mut v: Vec<u8> = Vec::new();
    v.push(80);
    v.push(13);
    v.push(10);
    v
}

/// The line requesting a module snapshot: `M` CR LF.
pub fn module_request_bytes() -> (r: Vec<u8>)
    ensures
        r@ =~= seq![77u8, 13u8, 10u8],
{
    let mut v: Vec<u8> = Vec::new();
    v.push(77);
    v.push(13);
    v.push(10);
    v
}

/// The bytes of one LED write: `S`, the port index and the three color
/// channels as uppercase hex pairs, CR LF, then the commit line `F` CR LF.
pub open spec fn spec_led_command(idx: u8, red: u8, green: u8, blue: u8) -> Seq<u8> {
    seq![83u8] + spec_hex2(idx) + spec_hex2(red) + spec_hex2(green) + spec_hex2(blue) + seq![
        13u8,
        10u8,
        70u8,
        13u8,
        10u8,
    ]
}

/// Frames one LED write for the board.
pub fn led_command_bytes(idx: u8, red: u8, green: u8, blue: u8) -> (r: Vec<u8>)
    ensures
        r@ == spec_led_command(idx, red, green, blue),
{
    let mut v: Vec<u8> = Vec::new();
    v.push(83);
    v.push(hex_byte(idx / 16));
    v.push(hex_byte(idx % 16));
    v.push(hex_byte(red / 16));
    v.push(hex_byte(red % 16));
    v.push(hex_byte(green / 16));
    v.push(hex_byte(green % 16));
    v.push(hex_byte(blue / 16));
    v.push(hex_byte(blue % 16));
    v.push(13);
    v.push(10);
    v.push(70);
    v.push(13);
    v.push(10);
    proof {
        assert(v@ =~= spec_led_command(idx, red, green, blue));
    }
    v
}

} // verus!
