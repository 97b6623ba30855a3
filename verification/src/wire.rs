//! The operation encoder: commands as bytes, and back.
//!
//! A command is written as one byte that tells its kind, followed by its
//! fields in order: numbers as eight bytes, lowest first, and strings and
//! addresses behind their length.

use crate::framing::{
    frame, le64, lemma_take_frame_of_frame, lemma_take_frame_sound, lemma_take_text_of_text,
    lemma_take_text_sound, lemma_take_u64_of_le64, lemma_take_u64_sound, put_frame, put_text,
    put_u64, read_frame, read_text, read_u64, tail, take_frame, take_text, take_u64, text,
    EncodingError, MAX_FIELD_LEN,
};
use crate::model::{Address, Command, CommandView, Item, ItemView};
use vstd::prelude::*;
use vstd::utf8::encode_utf8;

verus! {

pub const TAG_CREATE: u8 = 0;

pub const TAG_BID: u8 = 1;

pub const TAG_CLOSE: u8 = 2;

pub const TAG_CANCEL: u8 = 3;

pub const TAG_EXTEND: u8 = 4;

/// The bytes of a command.
pub open spec fn wire(command: CommandView) -> Seq<u8> {
    match command {
        CommandView::Create { item, start_time, end_time } => seq![TAG_CREATE] + (text(item.name)
            + (text(item.description) + (text(item.image_url) + (le64(start_time) + le64(
            end_time,
        ))))),
        CommandView::Bid { auction_id, bidder, amount } => seq![TAG_BID] + (le64(auction_id) + (
        frame(bidder) + le64(amount))),
        CommandView::Close { auction_id } => seq![TAG_CLOSE] + le64(auction_id),
        CommandView::Cancel { auction_id } => seq![TAG_CANCEL] + le64(auction_id),
        CommandView::Extend { auction_id, new_end_time } => seq![TAG_EXTEND] + (le64(auction_id)
            + le64(new_end_time)),
    }
}

/// The length in bytes of the first field of the command that is too long
/// for the wire format, if there is one.
pub open spec fn oversized(command: CommandView) -> Option<nat> {
    match command {
        CommandView::Create { item, .. } => {
            if encode_utf8(item.name).len() > MAX_FIELD_LEN {
                Some(encode_utf8(item.name).len())
            } else if encode_utf8(item.description).len() > MAX_FIELD_LEN {
                Some(encode_utf8(item.description).len())
            } else if encode_utf8(item.image_url).len() > MAX_FIELD_LEN {
                Some(encode_utf8(item.image_url).len())
            } else {
                None
            }
        },
        CommandView::Bid { bidder, .. } => if bidder.len() > MAX_FIELD_LEN {
            Some(bidder.len())
        } else {
            None
        },
        _ => None,
    }
}

/// The commands that have an encoding: no field is too long.
pub open spec fn encodable(command: CommandView) -> bool {
    oversized(command) is None
}

pub open spec fn parse_create(s: Seq<u8>) -> Option<CommandView> {
    match take_text(s) {
        Some((name, s1)) => match take_text(s1) {
            Some((description, s2)) => match take_text(s2) {
                Some((image_url, s3)) => match take_u64(s3) {
                    Some((start_time, s4)) => match take_u64(s4) {
                        Some((end_time, s5)) => if s5.len() == 0 {
                            Some(
                                CommandView::Create {
                                    item: ItemView { name, description, image_url },
                                    start_time,
                                    end_time,
                                },
                            )
                        } else {
                            None
                        },
                        None => None,
                    },
                    None => None,
                },
                None => None,
            },
            None => None,
        },
        None => None,
    }
}

pub open spec fn parse_bid(s: Seq<u8>) -> Option<CommandView> {
    match take_u64(s) {
        Some((auction_id, s1)) => match take_frame(s1) {
            Some((bidder, s2)) => match take_u64(s2) {
                Some((amount, s3)) => if s3.len() == 0 {
                    Some(CommandView::Bid { auction_id, bidder, amount })
                } else {
                    None
                },
                None => None,
            },
            None => None,
        },
        None => None,
    }
}

/// The auction id that is all that follows the kind of a close or a cancel.
pub open spec fn parse_id(s: Seq<u8>) -> Option<u64> {
    match take_u64(s) {
        Some((auction_id, s1)) => if s1.len() == 0 {
            Some(auction_id)
        } else {
            None
        },
        None => None,
    }
}

pub open spec fn parse_extend(s: Seq<u8>) -> Option<CommandView> {
    match take_u64(s) {
        Some((auction_id, s1)) => match take_u64(s1) {
            Some((new_end_time, s2)) => if s2.len() == 0 {
                Some(CommandView::Extend { auction_id, new_end_time })
            } else {
                None
            },
            None => None,
        },
        None => None,
    }
}

/// The command that a byte sequence stands for, if it stands for one.
pub open spec fn parse(s: Seq<u8>) -> Option<CommandView> {
    if s.len() == 0 {
        None
    } else if s[0] == TAG_CREATE {
        parse_create(s.drop_first())
    } else if s[0] == TAG_BID {
        parse_bid(s.drop_first())
    } else if s[0] == TAG_CLOSE {
        match parse_id(s.drop_first()) {
            Some(auction_id) => Some(CommandView::Close { auction_id }),
            None => None,
        }
    } else if s[0] == TAG_CANCEL {
        match parse_id(s.drop_first()) {
            Some(auction_id) => Some(CommandView::Cancel { auction_id }),
            None => None,
        }
    } else if s[0] == TAG_EXTEND {
        parse_extend(s.drop_first())
    } else {
        None
    }
}

/// Decoding undoes encoding: the bytes of a command stand for that command.
pub proof fn lemma_round_trip(command: CommandView)
    requires
        encodable(command),
    ensures
        parse(wire(command)) == Some(command),
{
    let empty = Seq::<u8>::empty();
    let s = wire(command);
    match command {
        CommandView::Create { item, start_time, end_time } => {
            let s4 = le64(end_time);
            let s3 = le64(start_time) + s4;
            let s2 = text(item.image_url) + s3;
            let s1 = text(item.description) + s2;
            let s0 = text(item.name) + s1;
            assert(s.drop_first() == s0);
            assert(s4 == le64(end_time) + empty);
            lemma_take_text_of_text(item.name, s1);
            lemma_take_text_of_text(item.description, s2);
            lemma_take_text_of_text(item.image_url, s3);
            lemma_take_u64_of_le64(start_time, s4);
            lemma_take_u64_of_le64(end_time, empty);
        },
        CommandView::Bid { auction_id, bidder, amount } => {
            let s2 = le64(amount);
            let s1 = frame(bidder) + s2;
            let s0 = le64(auction_id) + s1;
            assert(s.drop_first() == s0);
            assert(s2 == le64(amount) + empty);
            lemma_take_u64_of_le64(auction_id, s1);
            lemma_take_frame_of_frame(bidder, s2);
            lemma_take_u64_of_le64(amount, empty);
        },
        CommandView::Close { auction_id } => {
            assert(s.drop_first() == le64(auction_id));
            assert(le64(auction_id) == le64(auction_id) + empty);
            lemma_take_u64_of_le64(auction_id, empty);
        },
        CommandView::Cancel { auction_id } => {
            assert(s.drop_first() == le64(auction_id));
            assert(le64(auction_id) == le64(auction_id) + empty);
            lemma_take_u64_of_le64(auction_id, empty);
        },
        CommandView::Extend { auction_id, new_end_time } => {
            let s1 = le64(new_end_time);
            let s0 = le64(auction_id) + s1;
            assert(s.drop_first() == s0);
            assert(s1 == le64(new_end_time) + empty);
            lemma_take_u64_of_le64(auction_id, s1);
            lemma_take_u64_of_le64(new_end_time, empty);
        },
    }
}

/// Only encodings are decoded: bytes that stand for a command are the
/// bytes of that command, and the command has an encoding.
pub proof fn lemma_parse_sound(s: Seq<u8>)
    requires
        parse(s) is Some,
    ensures
        encodable(parse(s)->0),
        wire(parse(s)->0) == s,
{
    let body = s.drop_first();
    assert(s == seq![s[0]] + body);
    if s[0] == TAG_CREATE {
        lemma_take_text_sound(body);
        let (_, s1) = take_text(body)->0;
        lemma_take_text_sound(s1);
        let (_, s2) = take_text(s1)->0;
        lemma_take_text_sound(s2);
        let (_, s3) = take_text(s2)->0;
        lemma_take_u64_sound(s3);
        let (_, s4) = take_u64(s3)->0;
        lemma_take_u64_sound(s4);
        let (end_time, s5) = take_u64(s4)->0;
        assert(s4 == le64(end_time)) by {
            assert(s5 == Seq::<u8>::empty());
        }
    } else if s[0] == TAG_BID {
        lemma_take_u64_sound(body);
        let (_, s1) = take_u64(body)->0;
        lemma_take_frame_sound(s1);
        let (_, s2) = take_frame(s1)->0;
        lemma_take_u64_sound(s2);
        let (amount, s3) = take_u64(s2)->0;
        assert(s2 == le64(amount)) by {
            assert(s3 == Seq::<u8>::empty());
        }
    } else if s[0] == TAG_CLOSE || s[0] == TAG_CANCEL {
        lemma_take_u64_sound(body);
        let (auction_id, s1) = take_u64(body)->0;
        assert(body == le64(auction_id)) by {
            assert(s1 == Seq::<u8>::empty());
        }
    } else {
        lemma_take_u64_sound(body);
        let (_, s1) = take_u64(body)->0;
        lemma_take_u64_sound(s1);
        let (new_end_time, s2) = take_u64(s1)->0;
        assert(s1 == le64(new_end_time)) by {
            assert(s2 == Seq::<u8>::empty());
        }
    }
}

/// No two commands share their bytes.
pub proof fn lemma_wire_injective(a: CommandView, b: CommandView)
    requires
        encodable(a),
        encodable(b),
        wire(a) == wire(b),
    ensures
        a == b,
{
    lemma_round_trip(a);
    lemma_round_trip(b);
}

/// Why bytes are not decoded.
#[derive(Clone, Copy, Debug, PartialEq, Eq, Structural)]
pub enum DecodeError {
    /// The first byte names a kind of command that is not known here.
    UnknownKind { tag: u8 },
    /// There are no bytes, or what follows the kind is not exactly the
    /// fields of a command of that kind.
    Malformed,
}

/// The error for bytes that stand for no command.
pub open spec fn decode_failure(s: Seq<u8>) -> DecodeError {
    if s.len() > 0 && s[0] > TAG_EXTEND {
        DecodeError::UnknownKind { tag: s[0] }
    } else {
        DecodeError::Malformed
    }
}

/// Encodes a command. Fails only where a string or an address is longer
/// than [`MAX_FIELD_LEN`] bytes, and then names the length of the first
/// such field.
pub fn encode(command: &Command) -> (r: Result<Vec<u8>, EncodingError>)
    ensures
        r is Ok <==> encodable(command@),
        r matches Ok(bytes) ==> bytes@ == wire(command@) && parse(bytes@) == Some(command@),
        r matches Err(e) ==> oversized(command@) == Some(e->length as nat) && e->length
            > MAX_FIELD_LEN,
{
    let mut out: Vec<u8> = Vec::new();
    match command {
        Command::Create { item, start_time, end_time } => {
            out.push(TAG_CREATE);
            match put_text(&mut out, &item.name) {
                Ok(()) => {},
                Err(e) => {
                    return Err(e);
                },
            }
            match put_text(&mut out, &item.description) {
                Ok(()) => {},
                Err(e) => {
                    return Err(e);
                },
            }
            match put_text(&mut out, &item.image_url) {
                Ok(()) => {},
                Err(e) => {
                    return Err(e);
                },
            }
            put_u64(&mut out, *start_time);
            put_u64(&mut out, *end_time);
        },
        Command::Bid { auction_id, bidder, amount } => {
            out.push(TAG_BID);
            put_u64(&mut out, *auction_id);
            match put_frame(&mut out, bidder.as_bytes().as_slice()) {
                Ok(()) => {},
                Err(e) => {
                    return Err(e);
                },
            }
            put_u64(&mut out, *amount);
        },
        Command::Close { auction_id } => {
            out.push(TAG_CLOSE);
            put_u64(&mut out, *auction_id);
        },
        Command::Cancel { auction_id } => {
            out.push(TAG_CANCEL);
            put_u64(&mut out, *auction_id);
        },
        Command::Extend { auction_id, new_end_time } => {
            out.push(TAG_EXTEND);
            put_u64(&mut out, *auction_id);
            put_u64(&mut out, *new_end_time);
        },
    }
    proof {
        assert(out@ =~= wire(command@));
        lemma_round_trip(command@);
    }
    Ok(out)
}

fn decode_create(bytes: &[u8]) -> (r: Option<Command>)
    requires
        bytes@.len() >= 1,
    ensures
        match r {
            Some(c) => parse_create(tail(bytes@, 1)) == Some(c@),
            None => parse_create(tail(bytes@, 1)) is None,
        },
{
    let (name, after_name) = match read_text(bytes, 1) {
        Some(x) => x,
        None => {
            return None;
        },
    };
    let (description, after_description) = match read_text(bytes, after_name) {
        Some(x) => x,
        None => {
            return None;
        },
    };
    let (image_url, after_image) = match read_text(bytes, after_description) {
        Some(x) => x,
        None => {
            return None;
        },
    };
    let (start_time, after_start) = match read_u64(bytes, after_image) {
        Some(x) => x,
        None => {
            return None;
        },
    };
    let (end_time, end) = match read_u64(bytes, after_start) {
        Some(x) => x,
        None => {
            return None;
        },
    };
    if end != bytes.len() {
        return None;
    }
    Some(Command::Create { item: Item::new(name, description, image_url), start_time, end_time })
}

fn decode_bid(bytes: &[u8]) -> (r: Option<Command>)
    requires
        bytes@.len() >= 1,
    ensures
        match r {
            Some(c) => parse_bid(tail(bytes@, 1)) == Some(c@),
            None => parse_bid(tail(bytes@, 1)) is None,
        },
{
    let (auction_id, after_id) = match read_u64(bytes, 1) {
        Some(x) => x,
        None => {
            return None;
        },
    };
    let (bidder, after_bidder) = match read_frame(bytes, after_id) {
        Some(x) => x,
        None => {
            return None;
        },
    };
    let (amount, end) = match read_u64(bytes, after_bidder) {
        Some(x) => x,
        None => {
            return None;
        },
    };
    if end != bytes.len() {
        return None;
    }
    Some(Command::Bid { auction_id, bidder: Address::new(bidder), amount })
}

fn decode_id(bytes: &[u8]) -> (r: Option<u64>)
    requires
        bytes@.len() >= 1,
    ensures
        r == parse_id(tail(bytes@, 1)),
{
    match read_u64(bytes, 1) {
        Some((auction_id, end)) => if end == bytes.len() {
            Some(auction_id)
        } else {
            None
        },
        None => None,
    }
}

fn decode_extend(bytes: &[u8]) -> (r: Option<Command>)
    requires
        bytes@.len() >= 1,
    ensures
        match r {
            Some(c) => parse_extend(tail(bytes@, 1)) == Some(c@),
            None => parse_extend(tail(bytes@, 1)) is None,
        },
{
    let (auction_id, after_id) = match read_u64(bytes, 1) {
        Some(x) => x,
        None => {
            return None;
        },
    };
    let (new_end_time, end) = match read_u64(bytes, after_id) {
        Some(x) => x,
        None => {
            return None;
        },
    };
    if end != bytes.len() {
        return None;
    }
    Some(Command::Extend { auction_id, new_end_time })
}

/// Decodes a command: the exact inverse of [`encode`]. Bytes are accepted
/// where they are the encoding of a command, that command is returned, and
/// all other bytes are refused.
pub fn decode(bytes: &[u8]) -> (r: Result<Command, DecodeError>)
    ensures
        match r {
            Ok(c) => parse(bytes@) == Some(c@),
            Err(e) => parse(bytes@) is None && e == decode_failure(bytes@),
        },
        r matches Ok(c) ==> encodable(c@) && wire(c@) == bytes@,
        r is Err ==> forall|c: CommandView| encodable(c) ==> #[trigger] wire(c) != bytes@,
{
    if bytes.len() == 0 {
        proof {
            assert forall|c: CommandView| encodable(c) implies #[trigger] wire(c) != bytes@ by {
                lemma_round_trip(c);
            }
        }
        return Err(DecodeError::Malformed);
    }
    let tag = bytes[0];
    proof {
        assert(bytes@.drop_first() == tail(bytes@, 1));
    }
    let parsed = if tag == TAG_CREATE {
        decode_create(bytes)
    } else if tag == TAG_BID {
        decode_bid(bytes)
    } else if tag == TAG_CLOSE {
        match decode_id(bytes) {
            Some(auction_id) => Some(Command::Close { auction_id }),
            None => None,
        }
    } else if tag == TAG_CANCEL {
        match decode_id(bytes) {
            Some(auction_id) => Some(Command::Cancel { auction_id }),
            None => None,
        }
    } else if tag == TAG_EXTEND {
        decode_extend(bytes)
    } else {
        None
    };
    proof {
        if parse(bytes@) is Some {
            lemma_parse_sound(bytes@);
        } else {
            assert forall|c: CommandView| encodable(c) implies #[trigger] wire(c) != bytes@ by {
                lemma_round_trip(c);
            }
        }
    }
    match parsed {
        Some(c) => Ok(c),
        None => if tag > TAG_EXTEND {
            Err(DecodeError::UnknownKind { tag })
        } else {
            Err(DecodeError::Malformed)
        },
    }
}

} // verus!
