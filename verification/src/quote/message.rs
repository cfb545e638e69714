//! The framing of the messages that the server streams over UDP: which
//! message a datagram holds, and the parts that carry no quote. Quotes
//! themselves are encoded by the server.

use crate::parser::bytes::string_from_utf8;
use crate::text::{lemma_ascii_prefix, lemma_encode_utf8_concat, push_chars_of_string, string_eq_str};
use vstd::prelude::*;
use vstd::slice::slice_subrange;
use vstd::string::StringExecFns;
use vstd::utf8::{decode_utf8, encode_utf8, is_ascii_chars, is_char_boundary, valid_utf8};

verus! {

/// The encoding of a message.
#[derive(Clone, Copy, PartialEq, Eq, Structural, Debug)]
pub enum MessageFormat {
    /// A four-byte tag, then the payload.
    Bin,
    /// JSON.
    Json,
    /// Human-readable text.
    Text,
}

/// The kind of a message, as the binary format tags it.
#[derive(Clone, Copy, PartialEq, Eq, Structural, Debug)]
pub enum MessageTag {
    /// The last quotes, on joining: `INIT`.
    Init,
    /// A new quote: `STOC`.
    Stock,
    /// A ticker is closed: `CLOS`.
    Close,
    /// `PONG`.
    Pong,
    /// `PING`.
    Ping,
    /// The stream ends: `DISC`.
    Disconnect,
}

/// The answer to bytes that do not decode.
pub const MSG_ENCODING: &'static str = "Ошибка кодирования";

/// The answer to an unknown tag.
pub const MSG_UNKNOWN_MESSAGE: &'static str = "Неизвестный тип сообщения";

/// The four letters of a tag.
pub open spec fn tag_text(t: MessageTag) -> Seq<char> {
    match t {
        MessageTag::Init => "INIT"@,
        MessageTag::Stock => "STOC"@,
        MessageTag::Close => "CLOS"@,
        MessageTag::Pong => "PONG"@,
        MessageTag::Ping => "PING"@,
        MessageTag::Disconnect => "DISC"@,
    }
}

/// What the first four bytes `head` of a binary message say: bytes that
/// are not UTF-8 cannot be read, and an unknown word is an unknown message.
pub open spec fn spec_read_tag(head: Seq<u8>) -> Result<MessageTag, &'static str> {
    if !valid_utf8(head) {
        Err(MSG_ENCODING)
    } else {
        let w = decode_utf8(head);
        if w == "INIT"@ {
            Ok(MessageTag::Init)
        } else if w == "STOC"@ {
            Ok(MessageTag::Stock)
        } else if w == "CLOS"@ {
            Ok(MessageTag::Close)
        } else if w == "PONG"@ {
            Ok(MessageTag::Pong)
        } else if w == "PING"@ {
            Ok(MessageTag::Ping)
        } else if w == "DISC"@ {
            Ok(MessageTag::Disconnect)
        } else {
            Err(MSG_UNKNOWN_MESSAGE)
        }
    }
}

fn tag_str(t: MessageTag) -> (r: &'static str)
    ensures
        r@ == tag_text(t),
{
    match t {
        MessageTag::Init => "INIT",
        MessageTag::Stock => "STOC",
        MessageTag::Close => "CLOS",
        MessageTag::Pong => "PONG",
        MessageTag::Ping => "PING",
        MessageTag::Disconnect => "DISC",
    }
}

/// The four bytes of a tag.
pub fn tag_bytes(t: MessageTag) -> (r: Vec<u8>)
    ensures
        r@ == encode_utf8(tag_text(t)),
{
    let s = tag_str(t);
    slice_to_vec_u8(s.as_bytes())
}

fn slice_to_vec_u8(b: &[u8]) -> (r: Vec<u8>)
    ensures
        r@ == b@,
{
    vstd::slice::slice_to_vec(b)
}

/// Reads the tag of a binary message (see [`spec_read_tag`]).
pub fn read_tag(data: &[u8]) -> (r: Result<MessageTag, &'static str>)
    requires
        data@.len() >= 4,
    ensures
        r == spec_read_tag(data@.take(4)),
{
    let head = slice_to_vec_u8(slice_subrange(data, 0, 4));
    assert(head@ =~= data@.take(4));
    let w = match string_from_utf8(head) {
        None => return Err(MSG_ENCODING),
        Some(w) => w,
    };
    if string_eq_str(&w, "INIT") {
        Ok(MessageTag::Init)
    } else if string_eq_str(&w, "STOC") {
        Ok(MessageTag::Stock)
    } else if string_eq_str(&w, "CLOS") {
        Ok(MessageTag::Close)
    } else if string_eq_str(&w, "PONG") {
        Ok(MessageTag::Pong)
    } else if string_eq_str(&w, "PING") {
        Ok(MessageTag::Ping)
    } else if string_eq_str(&w, "DISC") {
        Ok(MessageTag::Disconnect)
    } else {
        Err(MSG_UNKNOWN_MESSAGE)
    }
}

/// The binary form of a closing of `ticker`: `CLOS`, then the ticker.
pub fn close_to_bin(ticker: &String) -> (r: Vec<u8>)
    ensures
        r@ == encode_utf8("CLOS"@) + encode_utf8(ticker@),
{
    let mut r = tag_bytes(MessageTag::Close);
    let t = slice_to_vec_u8(ticker.as_str().as_bytes());
    let mut i: usize = 0;
    let ghost start = r@;
    while i < t.len()
        invariant
            i <= t.len(),
            r@ == start + t@.take(i as int),
        decreases t.len() - i,
    {
        r.push(t[i]);
        assert(t@.take(i + 1) =~= t@.take(i as int).push(t@[i as int]));
        i = i + 1;
    }
    assert(t@.take(i as int) =~= t@);
    r
}

/// The ticker of a binary closing: the bytes after the tag, which must be
/// UTF-8 (the server panics otherwise).
pub fn close_from_bin(data: &[u8]) -> (r: String)
    requires
        data@.len() >= 4,
        valid_utf8(data@.skip(4)),
    ensures
        r@ == decode_utf8(data@.skip(4)),
{
    let rest = slice_to_vec_u8(slice_subrange(data, 4, data.len()));
    assert(rest@ =~= data@.skip(4));
    match string_from_utf8(rest) {
        Some(s) => s,
        None => String::new(),
    }
}

/// Reading the tag of a message's bytes gives the message's tag back; a
/// closing reads back its ticker.
pub proof fn lemma_tag_round_trip(t: MessageTag, ticker: Seq<char>)
    ensures
        spec_read_tag(encode_utf8(tag_text(t))) == Ok::<MessageTag, &'static str>(t),
        (encode_utf8("CLOS"@) + encode_utf8(ticker)).take(4) == encode_utf8("CLOS"@),
        valid_utf8((encode_utf8("CLOS"@) + encode_utf8(ticker)).skip(4)),
        decode_utf8((encode_utf8("CLOS"@) + encode_utf8(ticker)).skip(4)) == ticker,
{
    reveal_strlit("INIT");
    reveal_strlit("STOC");
    reveal_strlit("CLOS");
    reveal_strlit("PONG");
    reveal_strlit("PING");
    reveal_strlit("DISC");
    let w = tag_text(t);
    vstd::utf8::encode_utf8_valid_utf8(w);
    vstd::utf8::encode_utf8_decode_utf8(w);
    let c = "CLOS"@;
    assert(is_ascii_chars(c));
    vstd::utf8::is_ascii_chars_encode_utf8(c);
    let b = encode_utf8(c) + encode_utf8(ticker);
    assert(b.take(4) =~= encode_utf8(c));
    assert(b.skip(4) =~= encode_utf8(ticker));
    vstd::utf8::encode_utf8_valid_utf8(ticker);
    vstd::utf8::encode_utf8_decode_utf8(ticker);
    match t {
        MessageTag::Init => {},
        MessageTag::Stock => {
            assert(w[0] != "INIT"@[0]);
        },
        MessageTag::Close => {
            assert(w[0] != "INIT"@[0] && w[0] != "STOC"@[0]);
        },
        MessageTag::Pong => {
            assert(w[0] != "INIT"@[0] && w[0] != "STOC"@[0] && w[0] != "CLOS"@[0]);
        },
        MessageTag::Ping => {
            assert(w[0] != "INIT"@[0] && w[0] != "STOC"@[0] && w[0] != "CLOS"@[0]);
            assert(w[1] != "PONG"@[1]);
        },
        MessageTag::Disconnect => {
            assert(w[0] != "INIT"@[0] && w[0] != "STOC"@[0] && w[0] != "CLOS"@[0]);
            assert(w[0] != "PONG"@[0] && w[0] != "PING"@[0]);
        },
    }
}


/// The text of a closing of `ticker`.
pub fn close_to_text(ticker: &String) -> (r: String)
    ensures
        r@ == "CLOSE STOCK: "@ + ticker@,
{
    let mut r = String::new();
    r.append("CLOSE STOCK: ");
    push_chars_of_string(&mut r, ticker);
    r
}

/// The text of a pong.
pub const PONG_TEXT: &'static str = "PONG";

/// The text of a ping.
pub const PING_TEXT: &'static str = "Ping";

/// The text of the end of a stream.
pub const DISCONNECT_TEXT: &'static str = "DISCONNECT";

/// The first line of the text of the last quotes; a line per quote follows.
pub const WELCOME_TEXT: &'static str = "Welcome! Last stocks (ticker|price|volume|timestamp):";

/// The kind of a message in the text format, named by its first four bytes.
#[derive(Clone, Copy, PartialEq, Eq, Structural, Debug)]
pub enum TextKind {
    /// `Welc`: the last quotes, one per line after the first.
    Welcome,
    /// `CLOS`: a closing; the ticker starts at byte 13.
    Close,
    /// `PONG`.
    Pong,
    /// `PING`.
    Ping,
    /// `DISC`.
    Disconnect,
    /// Anything else: a quote.
    Quote,
}

/// The inputs on which reading a text message slices the text inside a
/// character or past its end (and so panics): a valid text whose first
/// four bytes do not end on a character boundary, or a closing shorter than
/// thirteen bytes or whose thirteenth byte is inside a character.
pub open spec fn text_message_panics(data: Seq<u8>) -> bool {
    valid_utf8(data) && (data.len() < 4 || !is_char_boundary(data, 4) || (decode_utf8(data.take(4))
        == "CLOS"@ && (data.len() < 13 || !is_char_boundary(data, 13))))
}

/// What kind of message the text `data` holds.
pub open spec fn spec_text_kind(data: Seq<u8>) -> Result<TextKind, &'static str> {
    if !valid_utf8(data) {
        Err(MSG_ENCODING)
    } else {
        let w = decode_utf8(data.take(4));
        if w == "Welc"@ {
            Ok(TextKind::Welcome)
        } else if w == "CLOS"@ {
            Ok(TextKind::Close)
        } else if w == "PONG"@ {
            Ok(TextKind::Pong)
        } else if w == "PING"@ {
            Ok(TextKind::Ping)
        } else if w == "DISC"@ {
            Ok(TextKind::Disconnect)
        } else {
            Ok(TextKind::Quote)
        }
    }
}

/// Reads the kind of a text message (see [`spec_text_kind`]).
pub fn read_text_kind(data: &[u8]) -> (r: Result<TextKind, &'static str>)
    requires
        !text_message_panics(data@),
    ensures
        r == spec_text_kind(data@),
{
    let all = slice_to_vec_u8(data);
    match string_from_utf8(all) {
        None => return Err(MSG_ENCODING),
        Some(_) => {},
    }
    proof {
        vstd::utf8::valid_utf8_split(data@, 4);
    }
    let head = slice_to_vec_u8(slice_subrange(data, 0, 4));
    assert(head@ =~= data@.subrange(0, 4));
    assert(data@.take(4) =~= data@.subrange(0, 4));
    let w = match string_from_utf8(head) {
        None => return Err(MSG_ENCODING),
        Some(w) => w,
    };
    if string_eq_str(&w, "Welc") {
        Ok(TextKind::Welcome)
    } else if string_eq_str(&w, "CLOS") {
        Ok(TextKind::Close)
    } else if string_eq_str(&w, "PONG") {
        Ok(TextKind::Pong)
    } else if string_eq_str(&w, "PING") {
        Ok(TextKind::Ping)
    } else if string_eq_str(&w, "DISC") {
        Ok(TextKind::Disconnect)
    } else {
        Ok(TextKind::Quote)
    }
}

/// The ticker of a text closing: the text from byte 13 on.
pub fn close_from_text(data: &[u8]) -> (r: String)
    requires
        valid_utf8(data@),
        data@.len() >= 13,
        is_char_boundary(data@, 13),
    ensures
        r@ == decode_utf8(data@.skip(13)),
{
    proof {
        vstd::utf8::valid_utf8_split(data@, 13);
    }
    let rest = slice_to_vec_u8(slice_subrange(data, 13, data.len()));
    assert(rest@ =~= data@.skip(13));
    assert(data@.skip(13) =~= data@.subrange(13, data@.len() as int));
    match string_from_utf8(rest) {
        Some(s) => s,
        None => String::new(),
    }
}

/// The text of a closing reads back as a closing of the same ticker.
pub proof fn lemma_close_text_round_trip(ticker: Seq<char>)
    ensures
        !text_message_panics(encode_utf8("CLOSE STOCK: "@ + ticker)),
        spec_text_kind(encode_utf8("CLOSE STOCK: "@ + ticker)) == Ok::<TextKind, &'static str>(
            TextKind::Close,
        ),
        encode_utf8("CLOSE STOCK: "@ + ticker).len() >= 13,
        is_char_boundary(encode_utf8("CLOSE STOCK: "@ + ticker), 13),
        decode_utf8(encode_utf8("CLOSE STOCK: "@ + ticker).skip(13)) == ticker,
{
    reveal_strlit("CLOSE STOCK: ");
    reveal_strlit("CLOS");
    reveal_strlit("Welc");
    let p = "CLOSE STOCK: "@;
    let t = p + ticker;
    assert(t.take(13) =~= p);
    assert(t.take(4) =~= "CLOS"@);
    assert(is_ascii_chars(p));
    assert(is_ascii_chars(t.take(4)));
    lemma_ascii_prefix(t, 4);
    lemma_ascii_prefix(t, 13);
    vstd::utf8::encode_utf8_valid_utf8(t);
    lemma_encode_utf8_concat(p, ticker);
    vstd::utf8::is_ascii_chars_encode_utf8(p);
    assert(encode_utf8(t).take(4) =~= encode_utf8(t).subrange(0, 4));
    assert(encode_utf8(t).skip(13) =~= encode_utf8(ticker));
    vstd::utf8::encode_utf8_decode_utf8(ticker);
    assert("CLOS"@[0] != "Welc"@[0]);
}

/// The texts of a pong and of the end of a stream read back as such.
pub proof fn lemma_signal_text_round_trip()
    ensures
        !text_message_panics(encode_utf8(PONG_TEXT@)),
        spec_text_kind(encode_utf8(PONG_TEXT@)) == Ok::<TextKind, &'static str>(TextKind::Pong),
        !text_message_panics(encode_utf8(DISCONNECT_TEXT@)),
        spec_text_kind(encode_utf8(DISCONNECT_TEXT@)) == Ok::<TextKind, &'static str>(
            TextKind::Disconnect,
        ),
{
    reveal_strlit("PONG");
    reveal_strlit("PING");
    reveal_strlit("DISCONNECT");
    reveal_strlit("DISC");
    reveal_strlit("Welc");
    reveal_strlit("CLOS");
    let a = PONG_TEXT@;
    let b = DISCONNECT_TEXT@;
    assert(a.take(4) =~= a);
    assert(is_ascii_chars(a));
    assert(is_ascii_chars(b.take(4)));
    lemma_ascii_prefix(a, 4);
    lemma_ascii_prefix(b, 4);
    vstd::utf8::encode_utf8_valid_utf8(a);
    vstd::utf8::encode_utf8_valid_utf8(b);
    assert(encode_utf8(a).take(4) =~= encode_utf8(a).subrange(0, 4));
    assert(encode_utf8(b).take(4) =~= encode_utf8(b).subrange(0, 4));
    assert(b.take(4) =~= "DISC"@);
    assert(a[0] != "Welc"@[0] && a[0] != "CLOS"@[0]);
    assert("DISC"@[0] != "Welc"@[0] && "DISC"@[0] != "CLOS"@[0] && "DISC"@[0] != "PONG"@[0]);
    assert("DISC"@[0] != "PING"@[0]);
}

} // verus!
