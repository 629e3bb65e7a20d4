//! The wire form of requests and replies.
//!
//! Every message starts with a tag byte naming its variant. Integers are eight
//! little-endian bytes; a string is its UTF-8 byte length followed by those
//! bytes; a list of strings is its element count followed by each string.
//! Request tags and reply tags are disjoint, so one kind is never read as the
//! other.

use vstd::bytes::{
    lemma_auto_spec_u64_to_from_le_bytes, spec_u64_from_le_bytes, spec_u64_to_le_bytes,
    u64_from_le_bytes, u64_to_le_bytes,
};
use vstd::prelude::*;
use vstd::slice::{slice_subrange, slice_to_vec};
use vstd::utf8::{decode_utf8, encode_utf8, valid_utf8};

use crate::message::{
    strings_view, ClientToServer, ProtocolError, ReplyModel, RequestModel, ServerToClient,
};

verus! {

broadcast use vstd::utf8::group_utf8_lib;

pub const TAG_GET_ALL: u8 = 0x01;

pub const TAG_GET_LEN: u8 = 0x02;

pub const TAG_POST: u8 = 0x03;

pub const TAG_CLEAR: u8 = 0x04;

pub const TAG_HELLO: u8 = 0x11;

pub const TAG_MESSAGES: u8 = 0x12;

pub const TAG_MESSAGES_LEN: u8 = 0x13;

pub const TAG_OK: u8 = 0x14;

/// A string whose UTF-8 length can be written in the eight-byte length field.
pub open spec fn string_fits(s: Seq<char>) -> bool {
    encode_utf8(s).len() <= u64::MAX
}

/// Length-prefixed UTF-8 form of a string.
pub open spec fn string_bytes(s: Seq<char>) -> Seq<u8> {
    spec_u64_to_le_bytes(encode_utf8(s).len() as u64) + encode_utf8(s)
}

/// The strings' forms one after another.
pub open spec fn strings_bytes(xs: Seq<Seq<char>>) -> Seq<u8>
    decreases xs.len(),
{
    if xs.len() == 0 {
        Seq::empty()
    } else {
        strings_bytes(xs.drop_last()) + string_bytes(xs.last())
    }
}

impl RequestModel {
    /// Every length in the request fits its length field.
    pub open spec fn wf(self) -> bool {
        match self {
            RequestModel::Post(s) => string_fits(s),
            _ => true,
        }
    }
}

impl ReplyModel {
    /// Every length and count in the reply fits its field.
    pub open spec fn wf(self) -> bool {
        match self {
            ReplyModel::Messages(xs) => xs.len() <= u64::MAX && forall|i: int|
                0 <= i < xs.len() ==> string_fits(#[trigger] xs[i]),
            _ => true,
        }
    }
}

/// The encoding of a request.
pub open spec fn request_bytes(m: RequestModel) -> Seq<u8> {
    match m {
        RequestModel::GetAll => seq![TAG_GET_ALL],
        RequestModel::GetLen => seq![TAG_GET_LEN],
        RequestModel::Post(s) => seq![TAG_POST] + string_bytes(s),
        RequestModel::Clear => seq![TAG_CLEAR],
    }
}

/// The encoding of a reply.
pub open spec fn reply_bytes(m: ReplyModel) -> Seq<u8> {
    match m {
        ReplyModel::Hello => seq![TAG_HELLO],
        ReplyModel::Messages(xs) => seq![TAG_MESSAGES] + spec_u64_to_le_bytes(xs.len() as u64)
            + strings_bytes(xs),
        ReplyModel::MessagesLen(n) => seq![TAG_MESSAGES_LEN] + spec_u64_to_le_bytes(n as u64),
        ReplyModel::OK => seq![TAG_OK],
    }
}

/// The string at the front of `b`, with the number of bytes it takes up.
pub open spec fn parse_string(b: Seq<u8>) -> Option<(Seq<char>, nat)> {
    if b.len() < 8 {
        None
    } else {
        let n = spec_u64_from_le_bytes(b.subrange(0, 8)) as int;
        if n > b.len() - 8 {
            None
        } else if valid_utf8(b.subrange(8, 8 + n)) {
            Some((decode_utf8(b.subrange(8, 8 + n)), (8 + n) as nat))
        } else {
            None
        }
    }
}

/// `count` strings read one after another from the front of `b`, with the
/// number of bytes they take up.
pub open spec fn parse_strings(b: Seq<u8>, count: nat) -> Option<(Seq<Seq<char>>, nat)>
    decreases count,
{
    if count == 0 {
        Some((Seq::empty(), 0))
    } else {
        match parse_strings(b, (count - 1) as nat) {
            None => None,
            Some((xs, k)) => match parse_string(b.subrange(k as int, b.len() as int)) {
                None => None,
                Some((s, j)) => Some((xs.push(s), k + j)),
            },
        }
    }
}

/// The request that `b` encodes, if any; `b` must hold exactly one request.
pub open spec fn parse_request(b: Seq<u8>) -> Option<RequestModel> {
    if b.len() == 0 {
        None
    } else if b[0] == TAG_GET_ALL && b.len() == 1 {
        Some(RequestModel::GetAll)
    } else if b[0] == TAG_GET_LEN && b.len() == 1 {
        Some(RequestModel::GetLen)
    } else if b[0] == TAG_CLEAR && b.len() == 1 {
        Some(RequestModel::Clear)
    } else if b[0] == TAG_POST {
        match parse_string(b.drop_first()) {
            Some((s, k)) => if k == b.len() - 1 {
                Some(RequestModel::Post(s))
            } else {
                None
            },
            None => None,
        }
    } else {
        None
    }
}

/// The reply that `b` encodes, if any; `b` must hold exactly one reply.
pub open spec fn parse_reply(b: Seq<u8>) -> Option<ReplyModel> {
    if b.len() == 0 {
        None
    } else if b[0] == TAG_HELLO && b.len() == 1 {
        Some(ReplyModel::Hello)
    } else if b[0] == TAG_OK && b.len() == 1 {
        Some(ReplyModel::OK)
    } else if b[0] == TAG_MESSAGES_LEN && b.len() == 9 {
        let n = spec_u64_from_le_bytes(b.subrange(1, 9));
        if n <= usize::MAX {
            Some(ReplyModel::MessagesLen(n as usize))
        } else {
            None
        }
    } else if b[0] == TAG_MESSAGES && b.len() >= 9 {
        let count = spec_u64_from_le_bytes(b.subrange(1, 9)) as nat;
        match parse_strings(b.subrange(9, b.len() as int), count) {
            Some((xs, k)) => if k == b.len() - 9 {
                Some(ReplyModel::Messages(xs))
            } else {
                None
            },
            None => None,
        }
    } else {
        None
    }
}

/// A string's form, followed by anything, reads back as that string.
pub proof fn lemma_string_round_trip(s: Seq<char>, rest: Seq<u8>)
    requires
        string_fits(s),
    ensures
        parse_string(string_bytes(s) + rest) == Some((s, string_bytes(s).len())),
{
    lemma_auto_spec_u64_to_from_le_bytes();
    let e = encode_utf8(s);
    let b = string_bytes(s) + rest;
    assert(b.subrange(0, 8) =~= spec_u64_to_le_bytes(e.len() as u64));
    assert(b.subrange(8, 8 + e.len() as int) =~= e);
}

/// Whatever reads as a string is exactly that string's form.
pub proof fn lemma_string_canonical(b: Seq<u8>)
    requires
        parse_string(b) is Some,
    ensures
        ({
            let (s, k) = parse_string(b)->0;
            &&& string_fits(s)
            &&& k <= b.len()
            &&& string_bytes(s) == b.subrange(0, k as int)
        }),
{
    lemma_auto_spec_u64_to_from_le_bytes();
    let n = spec_u64_from_le_bytes(b.subrange(0, 8)) as int;
    let body = b.subrange(8, 8 + n);
    let (s, k) = parse_string(b)->0;
    assert(encode_utf8(s) == body);
    assert(spec_u64_to_le_bytes(spec_u64_from_le_bytes(b.subrange(0, 8))) == b.subrange(0, 8));
    assert(string_bytes(s) =~= b.subrange(0, k as int));
}

/// The forms of a list of strings, followed by anything, read back as that list.
pub proof fn lemma_strings_round_trip(xs: Seq<Seq<char>>, rest: Seq<u8>)
    requires
        forall|i: int| 0 <= i < xs.len() ==> string_fits(#[trigger] xs[i]),
    ensures
        parse_strings(strings_bytes(xs) + rest, xs.len()) == Some((xs, strings_bytes(xs).len())),
    decreases xs.len(),
{
    if xs.len() > 0 {
        let init = xs.drop_last();
        let last = xs.last();
        let b = strings_bytes(xs) + rest;
        assert forall|i: int| 0 <= i < init.len() implies string_fits(#[trigger] init[i]) by {
            assert(init[i] == xs[i]);
        }
        assert(string_fits(xs[xs.len() - 1]));
        assert(b =~= strings_bytes(init) + (string_bytes(last) + rest));
        lemma_strings_round_trip(init, string_bytes(last) + rest);
        let k = strings_bytes(init).len();
        assert(b.subrange(k as int, b.len() as int) =~= string_bytes(last) + rest);
        lemma_string_round_trip(last, rest);
        assert(init.push(last) =~= xs);
    } else {
        assert(xs =~= Seq::<Seq<char>>::empty());
    }
}

/// Whatever reads as a list of strings is exactly the forms of that list.
pub proof fn lemma_strings_canonical(b: Seq<u8>, count: nat)
    requires
        parse_strings(b, count) is Some,
    ensures
        ({
            let (xs, k) = parse_strings(b, count)->0;
            &&& xs.len() == count
            &&& forall|i: int| 0 <= i < xs.len() ==> string_fits(#[trigger] xs[i])
            &&& k <= b.len()
            &&& strings_bytes(xs) == b.subrange(0, k as int)
        }),
    decreases count,
{
    if count == 0 {
        assert(b.subrange(0, 0) =~= Seq::<u8>::empty());
    } else {
        lemma_strings_canonical(b, (count - 1) as nat);
        let (ys, k) = parse_strings(b, (count - 1) as nat)->0;
        let tail = b.subrange(k as int, b.len() as int);
        lemma_string_canonical(tail);
        let (s, j) = parse_string(tail)->0;
        let xs = ys.push(s);
        assert(xs.drop_last() =~= ys);
        assert(xs.last() == s);
        assert forall|i: int| 0 <= i < xs.len() implies string_fits(#[trigger] xs[i]) by {
            if i < ys.len() {
                assert(xs[i] == ys[i]);
            }
        }
        assert(strings_bytes(xs) =~= b.subrange(0, (k + j) as int));
    }
}

/// Once reading a list fails, reading a longer list fails too.
pub proof fn lemma_strings_failure_persists(b: Seq<u8>, count: nat, more: nat)
    requires
        parse_strings(b, count) is None,
        count <= more,
    ensures
        parse_strings(b, more) is None,
    decreases more - count,
{
    if count < more {
        lemma_strings_failure_persists(b, count, (more - 1) as nat);
    }
}

/// Decoding the encoding of a request gives the request back.
pub proof fn lemma_request_round_trip(m: RequestModel)
    requires
        m.wf(),
    ensures
        parse_request(request_bytes(m)) == Some(m),
{
    if let RequestModel::Post(s) = m {
        let b = request_bytes(m);
        lemma_string_round_trip(s, Seq::empty());
        assert(b.drop_first() =~= string_bytes(s) + Seq::<u8>::empty());
    }
}

/// Only the encoding of a request decodes to it: decoding accepts no other bytes.
pub proof fn lemma_request_canonical(b: Seq<u8>)
    requires
        parse_request(b) is Some,
    ensures
        parse_request(b)->0.wf(),
        request_bytes(parse_request(b)->0) == b,
{
    let m = parse_request(b)->0;
    if b[0] == TAG_POST {
        lemma_string_canonical(b.drop_first());
        assert(b.drop_first().subrange(0, b.len() - 1) =~= b.drop_first());
        assert(request_bytes(m) =~= b);
    } else {
        assert(request_bytes(m) =~= b);
    }
}

/// Decoding the encoding of a reply gives the reply back.
pub proof fn lemma_reply_round_trip(m: ReplyModel)
    requires
        m.wf(),
    ensures
        parse_reply(reply_bytes(m)) == Some(m),
{
    lemma_auto_spec_u64_to_from_le_bytes();
    let b = reply_bytes(m);
    match m {
        ReplyModel::Messages(xs) => {
            assert(b.subrange(1, 9) =~= spec_u64_to_le_bytes(xs.len() as u64));
            lemma_strings_round_trip(xs, Seq::empty());
            assert(b.subrange(9, b.len() as int) =~= strings_bytes(xs) + Seq::<u8>::empty());
        },
        ReplyModel::MessagesLen(n) => {
            assert(b.subrange(1, 9) =~= spec_u64_to_le_bytes(n as u64));
        },
        _ => {},
    }
}

/// Only the encoding of a reply decodes to it: decoding accepts no other bytes.
pub proof fn lemma_reply_canonical(b: Seq<u8>)
    requires
        parse_reply(b) is Some,
    ensures
        parse_reply(b)->0.wf(),
        reply_bytes(parse_reply(b)->0) == b,
{
    lemma_auto_spec_u64_to_from_le_bytes();
    let m = parse_reply(b)->0;
    if b.len() >= 9 {
        assert(spec_u64_to_le_bytes(spec_u64_from_le_bytes(b.subrange(1, 9))) == b.subrange(1, 9));
    }
    if b[0] == TAG_MESSAGES && b.len() >= 9 && !(b[0] == TAG_MESSAGES_LEN) {
        let count = spec_u64_from_le_bytes(b.subrange(1, 9)) as nat;
        let tail = b.subrange(9, b.len() as int);
        lemma_strings_canonical(tail, count);
        assert(tail.subrange(0, tail.len() as int) =~= tail);
        assert(reply_bytes(m) =~= b);
    } else {
        assert(reply_bytes(m) =~= b);
    }
}

/// Relies on `std::str::from_utf8`: it accepts exactly the byte strings that
/// are valid UTF-8, and then views them as the characters they encode.
#[verifier::external_body]
fn str_from_utf8(b: &[u8]) -> (r: Option<&str>)
    ensures
        r is Some <==> valid_utf8(b@),
        r matches Some(s) ==> s@ == decode_utf8(b@),
{
    std::str::from_utf8(b).ok()
}

fn write_u64(out: &mut Vec<u8>, v: u64)
    ensures
        final(out)@ == old(out)@ + spec_u64_to_le_bytes(v),
{
    let mut b = u64_to_le_bytes(v);
    out.append(&mut b);
}

fn write_string(out: &mut Vec<u8>, s: &String)
    ensures
        final(out)@ == old(out)@ + string_bytes(s@),
        string_fits(s@),
{
    let bytes = s.as_str().as_bytes();
    let n = bytes.len();
    write_u64(out, n as u64);
    let mut body = slice_to_vec(bytes);
    out.append(&mut body);
}

fn read_u64(b: &[u8], pos: usize) -> (r: u64)
    requires
        pos + 8 <= b.len(),
    ensures
        r == spec_u64_from_le_bytes(b@.subrange(pos as int, pos + 8)),
{
    u64_from_le_bytes(slice_subrange(b, pos, pos + 8))
}

/// Reads the string that starts at `pos`, and gives the position after it.
fn read_string(b: &[u8], pos: usize) -> (r: Option<(String, usize)>)
    requires
        pos <= b@.len(),
    ensures
        match parse_string(b@.subrange(pos as int, b@.len() as int)) {
            None => r is None,
            Some((s, k)) => r matches Some((t, q)) && t@ == s && q == pos + k,
        },
{
    let ghost tail = b@.subrange(pos as int, b@.len() as int);
    if b.len() - pos < 8 {
        return None;
    }
    let n = read_u64(b, pos);
    assert(tail.subrange(0, 8) =~= b@.subrange(pos as int, pos + 8));
    if n > (b.len() - pos - 8) as u64 {
        return None;
    }
    let end = pos + 8 + n as usize;
    let body = slice_subrange(b, pos + 8, end);
    assert(tail.subrange(8, 8 + n) =~= body@);
    match str_from_utf8(body) {
        Some(text) => Some((text.to_owned(), end)),
        None => None,
    }
}

impl ClientToServer {
    /// The wire form of this request.
    pub fn encode(&self) -> (r: Vec<u8>)
        ensures
            r@ == request_bytes(self@),
            self@.wf(),
    {
        let mut out: Vec<u8> = Vec::new();
        match self {
            ClientToServer::GetAll => out.push(TAG_GET_ALL),
            ClientToServer::GetLen => out.push(TAG_GET_LEN),
            ClientToServer::Post { content } => {
                out.push(TAG_POST);
                write_string(&mut out, content);
            },
            ClientToServer::Clear => out.push(TAG_CLEAR),
        }
        assert(out@ =~= request_bytes(self@));
        out
    }

    /// The request that `b` encodes; `MalformedMessage` when `b` is the
    /// encoding of no request.
    pub fn decode(b: &[u8]) -> (r: Result<ClientToServer, ProtocolError>)
        ensures
            match parse_request(b@) {
                Some(m) => r matches Ok(x) && x@ == m,
                None => r == Err::<ClientToServer, ProtocolError>(ProtocolError::MalformedMessage),
            },
    {
        if b.len() == 0 {
            return Err(ProtocolError::MalformedMessage);
        }
        let tag = b[0];
        if tag == TAG_GET_ALL && b.len() == 1 {
            Ok(ClientToServer::GetAll)
        } else if tag == TAG_GET_LEN && b.len() == 1 {
            Ok(ClientToServer::GetLen)
        } else if tag == TAG_CLEAR && b.len() == 1 {
            Ok(ClientToServer::Clear)
        } else if tag == TAG_POST {
            assert(b@.subrange(1, b@.len() as int) =~= b@.drop_first());
            match read_string(b, 1) {
                Some((content, end)) => {
                    if end == b.len() {
                        Ok(ClientToServer::Post { content })
                    } else {
                        Err(ProtocolError::MalformedMessage)
                    }
                },
                None => Err(ProtocolError::MalformedMessage),
            }
        } else {
            Err(ProtocolError::MalformedMessage)
        }
    }
}

impl ServerToClient {
    /// The wire form of this reply.
    pub fn encode(&self) -> (r: Vec<u8>)
        ensures
            r@ == reply_bytes(self@),
            self@.wf(),
    {
        let mut out: Vec<u8> = Vec::new();
        match self {
            ServerToClient::Hello => out.push(TAG_HELLO),
            ServerToClient::Messages(xs) => {
                out.push(TAG_MESSAGES);
                write_u64(&mut out, xs.len() as u64);
                let ghost head = out@;
                let ghost all = strings_view(xs@);
                let mut i: usize = 0;
                while i < xs.len()
                    invariant
                        i <= xs@.len(),
                        all == strings_view(xs@),
                        out@ == head + strings_bytes(all.subrange(0, i as int)),
                        forall|j: int| 0 <= j < i ==> string_fits(#[trigger] all[j]),
                    decreases xs@.len() - i,
                {
                    write_string(&mut out, &xs[i]);
                    assert(all.subrange(0, i + 1).drop_last() =~= all.subrange(0, i as int));
                    i = i + 1;
                }
                assert(all.subrange(0, i as int) =~= all);
            },
            ServerToClient::MessagesLen(n) => {
                out.push(TAG_MESSAGES_LEN);
                write_u64(&mut out, *n as u64);
            },
            ServerToClient::OK => out.push(TAG_OK),
        }
        assert(out@ =~= reply_bytes(self@));
        out
    }

    /// The reply that `b` encodes; `MalformedMessage` when `b` is the
    /// encoding of no reply.
    pub fn decode(b: &[u8]) -> (r: Result<ServerToClient, ProtocolError>)
        ensures
            match parse_reply(b@) {
                Some(m) => r matches Ok(x) && x@ == m,
                None => r == Err::<ServerToClient, ProtocolError>(ProtocolError::MalformedMessage),
            },
    {
        if b.len() == 0 {
            return Err(ProtocolError::MalformedMessage);
        }
        let tag = b[0];
        if tag == TAG_HELLO && b.len() == 1 {
            Ok(ServerToClient::Hello)
        } else if tag == TAG_OK && b.len() == 1 {
            Ok(ServerToClient::OK)
        } else if tag == TAG_MESSAGES_LEN && b.len() == 9 {
            let n = read_u64(b, 1);
            if n <= usize::MAX as u64 {
                Ok(ServerToClient::MessagesLen(n as usize))
            } else {
                Err(ProtocolError::MalformedMessage)
            }
        } else if tag == TAG_MESSAGES && b.len() >= 9 {
            let count = read_u64(b, 1);
            let ghost tail = b@.subrange(9, b@.len() as int);
            let mut xs: Vec<String> = Vec::new();
            let mut pos: usize = 9;
            let mut i: u64 = 0;
            while i < count
                invariant
                    9 <= pos <= b@.len(),
                    i <= count,
                    count == spec_u64_from_le_bytes(b@.subrange(1, 9)),
                    b@.len() >= 9,
                    b@[0] == TAG_MESSAGES,
                    tail == b@.subrange(9, b@.len() as int),
                    parse_strings(tail, i as nat) == Some((strings_view(xs@), (pos - 9) as nat)),
                decreases count - i,
            {
                assert(tail.subrange(pos - 9, tail.len() as int) =~= b@.subrange(
                    pos as int,
                    b@.len() as int,
                ));
                let ghost before = xs@;
                match read_string(b, pos) {
                    Some((s, next)) => {
                        let ghost text = s@;
                        xs.push(s);
                        pos = next;
                        assert(strings_view(xs@) =~= strings_view(before).push(text));
                    },
                    None => {
                        assert(parse_strings(tail, (i + 1) as nat) is None);
                        proof {
                            lemma_strings_failure_persists(tail, (i + 1) as nat, count as nat);
                        }
                        return Err(ProtocolError::MalformedMessage);
                    },
                }
                i = i + 1;
            }
            if pos == b.len() {
                Ok(ServerToClient::Messages(xs))
            } else {
                Err(ProtocolError::MalformedMessage)
            }
        } else {
            Err(ProtocolError::MalformedMessage)
        }
    }
}

} // verus!
