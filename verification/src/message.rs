//! Messages sent over the wire: stream headers and subscriptions.
use vstd::prelude::*;

use bytes::Bytes;

use crate::coding::{
    buf_content, decode_i8, decode_string, decode_varint, decoded, encode_i8, encode_string, encode_varint,
    encodable_string, lemma_i8_roundtrip, lemma_rest_trans, lemma_skip_rest, lemma_skip_skip,
    lemma_string_roundtrip, lemma_varint_roundtrip, parse_i8, parse_string, parse_varint, priority_byte,
    string_bytes, varint_bytes, varint_max, DecodeError, Fail,
};

verus! {

/// The kind of a bidirectional control stream.
#[derive(Clone, Copy, Debug, PartialEq, Eq)]
pub enum ControlType {
    Session,
    Announce,
    Subscribe,
}

/// The header of a frame within a group stream: the frame's size.
#[derive(Clone, Copy, Debug)]
pub struct Frame {
    pub size: u64,
}

/// The header of a group stream.
#[derive(Clone, Copy, Debug)]
pub struct Group {
    /// The subscribe ID.
    pub subscribe: u64,
    /// The group sequence number.
    pub sequence: u64,
}

/// Sent by the subscriber to request all future objects for the given track.
#[derive(Debug)]
pub struct Subscribe {
    pub id: u64,
    pub broadcast: String,
    pub track: String,
    pub priority: i8,
}

/// The publisher's answer to a subscription.
#[derive(Clone, Copy, Debug)]
pub struct SubscribeOk {
    pub priority: i8,
}

impl Clone for Subscribe {
    fn clone(&self) -> (r: Self)
        ensures
            r@ == self@,
    {
        Subscribe {
            id: self.id,
            broadcast: self.broadcast.clone(),
            track: self.track.clone(),
            priority: self.priority,
        }
    }
}

impl View for Subscribe {
    type V = (u64, Seq<char>, Seq<char>, i8);

    open spec fn view(&self) -> (u64, Seq<char>, Seq<char>, i8) {
        (self.id, self.broadcast@, self.track@, self.priority)
    }
}

/// Reading a group header: two variable-length integers.
pub open spec fn parse_group(s: Seq<u8>) -> Result<((u64, u64), int), Fail> {
    match parse_varint(s) {
        Err(f) => Err(f),
        Ok((a, n)) => match parse_varint(s.skip(n)) {
            Err(f) => Err(f),
            Ok((b, m)) => Ok(((a, b), n + m)),
        },
    }
}

/// Reading a subscription: its ID, broadcast, track and priority.
pub open spec fn parse_subscribe(s: Seq<u8>) -> Result<((u64, Seq<char>, Seq<char>, i8), int), Fail> {
    match parse_varint(s) {
        Err(f) => Err(f),
        Ok((id, n1)) => match parse_string(s.skip(n1)) {
            Err(f) => Err(f),
            Ok((broadcast, n2)) => match parse_string(s.skip(n1 + n2)) {
                Err(f) => Err(f),
                Ok((track, n3)) => match parse_i8(s.skip(n1 + n2 + n3)) {
                    Err(f) => Err(f),
                    Ok((priority, n4)) => Ok(((id, broadcast, track, priority), n1 + n2 + n3 + n4)),
                },
            },
        },
    }
}

/// The encoding of a group header.
pub open spec fn group_bytes(subscribe: u64, sequence: u64) -> Seq<u8> {
    varint_bytes(subscribe) + varint_bytes(sequence)
}

/// The encoding of a subscription.
pub open spec fn subscribe_bytes(m: (u64, Seq<char>, Seq<char>, i8)) -> Seq<u8> {
    varint_bytes(m.0) + string_bytes(m.1) + string_bytes(m.2) + seq![priority_byte(m.3)]
}

/// A subscription whose encoding can be written.
pub open spec fn encodable_subscribe(m: (u64, Seq<char>, Seq<char>, i8)) -> bool {
    m.0 <= varint_max() && encodable_string(m.1) && encodable_string(m.2)
}

impl Frame {
    pub fn decode(r: &mut Bytes) -> (res: Result<Self, DecodeError>)
        ensures
            decoded(res, |f: Frame| f.size, parse_varint(buf_content(*old(r))), buf_content(*old(r)), buf_content(*final(r))),
    {
        let size = decode_varint(r)?;
        Ok(Frame { size })
    }

    pub fn encode(&self, w: &mut Vec<u8>)
        requires
            self.size <= varint_max(),
        ensures
            final(w)@ == old(w)@ + varint_bytes(self.size),
    {
        encode_varint(self.size, w);
    }
}

impl Group {
    pub fn decode(r: &mut Bytes) -> (res: Result<Self, DecodeError>)
        ensures
            decoded(
                res,
                |g: Group| (g.subscribe, g.sequence),
                parse_group(buf_content(*old(r))),
                buf_content(*old(r)),
                buf_content(*final(r)),
            ),
    {
        let ghost s = buf_content(*r);
        let subscribe = decode_varint(r)?;
        let ghost n = s.len() - buf_content(*r).len();
        proof { lemma_skip_rest(s, n); }
        let sequence = match decode_varint(r) {
            Ok(v) => v,
            Err(e) => {
                proof { lemma_rest_trans(buf_content(*r), s.skip(n), s); }
                return Err(e);
            },
        };
        proof {
            let m = s.skip(n).len() - buf_content(*r).len();
            lemma_skip_skip(s, n, m);
        }
        Ok(Group { subscribe, sequence })
    }

    pub fn encode(&self, w: &mut Vec<u8>)
        requires
            self.subscribe <= varint_max(),
            self.sequence <= varint_max(),
        ensures
            final(w)@ == old(w)@ + group_bytes(self.subscribe, self.sequence),
    {
        encode_varint(self.subscribe, w);
        encode_varint(self.sequence, w);
        assert(w@ =~= old(w)@ + group_bytes(self.subscribe, self.sequence));
    }
}

impl Subscribe {
    pub fn decode(r: &mut Bytes) -> (res: Result<Self, DecodeError>)
        ensures
            decoded(res, |m: Subscribe| m@, parse_subscribe(buf_content(*old(r))), buf_content(*old(r)), buf_content(*final(r))),
    {
        let ghost s = buf_content(*r);
        let id = decode_varint(r)?;
        let ghost n1 = s.len() - buf_content(*r).len();
        proof { lemma_skip_rest(s, n1); }
        let broadcast = match decode_string(r) {
            Ok(v) => v,
            Err(e) => {
                proof { lemma_rest_trans(buf_content(*r), s.skip(n1), s); }
                return Err(e);
            },
        };
        let ghost n2 = s.skip(n1).len() - buf_content(*r).len();
        proof {
            lemma_skip_skip(s, n1, n2);
            lemma_skip_rest(s, n1 + n2);
        }
        let track = match decode_string(r) {
            Ok(v) => v,
            Err(e) => {
                proof { lemma_rest_trans(buf_content(*r), s.skip(n1 + n2), s); }
                return Err(e);
            },
        };
        let ghost n3 = s.skip(n1 + n2).len() - buf_content(*r).len();
        proof {
            lemma_skip_skip(s, n1 + n2, n3);
            lemma_skip_rest(s, n1 + n2 + n3);
        }
        let priority = match decode_i8(r) {
            Ok(v) => v,
            Err(e) => {
                proof { lemma_rest_trans(buf_content(*r), s.skip(n1 + n2 + n3), s); }
                return Err(e);
            },
        };
        proof {
            lemma_skip_skip(s, n1 + n2 + n3, 1);
        }
        Ok(Subscribe { id, broadcast, track, priority })
    }

    pub fn encode(&self, w: &mut Vec<u8>)
        requires
            encodable_subscribe(self@),
        ensures
            final(w)@ == old(w)@ + subscribe_bytes(self@),
    {
        encode_varint(self.id, w);
        encode_string(self.broadcast.as_str(), w);
        encode_string(self.track.as_str(), w);
        encode_i8(self.priority, w);
        assert(w@ =~= old(w)@ + subscribe_bytes(self@));
    }
}

impl SubscribeOk {
    pub fn decode(r: &mut Bytes) -> (res: Result<Self, DecodeError>)
        ensures
            decoded(res, |m: SubscribeOk| m.priority, parse_i8(buf_content(*old(r))), buf_content(*old(r)), buf_content(*final(r))),
    {
        let priority = decode_i8(r)?;
        Ok(SubscribeOk { priority })
    }

    pub fn encode(&self, w: &mut Vec<u8>)
        ensures
            final(w)@ == old(w)@.push(priority_byte(self.priority)),
    {
        encode_i8(self.priority, w);
    }
}

/// A group header reads back as written.
pub proof fn lemma_group_roundtrip(subscribe: u64, sequence: u64, rest: Seq<u8>)
    requires
        subscribe <= varint_max(),
        sequence <= varint_max(),
    ensures
        parse_group(group_bytes(subscribe, sequence) + rest) == Ok::<((u64, u64), int), Fail>(
            ((subscribe, sequence), group_bytes(subscribe, sequence).len() as int),
        ),
{
    let a = varint_bytes(subscribe);
    let b = varint_bytes(sequence);
    let s = group_bytes(subscribe, sequence) + rest;
    assert(s =~= a + (b + rest));
    lemma_varint_roundtrip(subscribe, b + rest);
    assert(s.skip(a.len() as int) =~= b + rest);
    lemma_varint_roundtrip(sequence, rest);
}

/// A subscription reads back as written: decoding what `encode` wrote gives
/// the same ID, broadcast, track and priority, and consumes exactly it.
pub proof fn lemma_subscribe_roundtrip(m: (u64, Seq<char>, Seq<char>, i8), rest: Seq<u8>)
    requires
        encodable_subscribe(m),
        vstd::utf8::encode_utf8(m.1).len() <= usize::MAX,
        vstd::utf8::encode_utf8(m.2).len() <= usize::MAX,
    ensures
        parse_subscribe(subscribe_bytes(m) + rest) == Ok::<((u64, Seq<char>, Seq<char>, i8), int), Fail>(
            (m, subscribe_bytes(m).len() as int),
        ),
{
    let a = varint_bytes(m.0);
    let b = string_bytes(m.1);
    let c = string_bytes(m.2);
    let d = seq![priority_byte(m.3)];
    let s = subscribe_bytes(m) + rest;
    assert(s =~= a + (b + c + d + rest));
    lemma_varint_roundtrip(m.0, b + c + d + rest);
    let n1 = a.len() as int;
    assert(s.skip(n1) =~= b + (c + d + rest));
    lemma_string_roundtrip(m.1, c + d + rest);
    let n2 = b.len() as int;
    assert(s.skip(n1 + n2) =~= c + (d + rest));
    lemma_string_roundtrip(m.2, d + rest);
    let n3 = c.len() as int;
    assert(s.skip(n1 + n2 + n3) =~= d + rest);
    lemma_i8_roundtrip(m.3, rest);
}

/// The layout of a subscription on the wire, field by field: its ID as a
/// variable-length integer, then the broadcast name, then the track name,
/// each as a length-prefixed string, then the priority byte, whatever
/// follows.
pub proof fn lemma_subscribe_layout(m: (u64, Seq<char>, Seq<char>, i8), rest: Seq<u8>)
    requires
        encodable_subscribe(m),
        vstd::utf8::encode_utf8(m.1).len() <= usize::MAX,
        vstd::utf8::encode_utf8(m.2).len() <= usize::MAX,
    ensures
        ({
            let s = subscribe_bytes(m) + rest;
            let n1 = varint_bytes(m.0).len() as int;
            let n2 = string_bytes(m.1).len() as int;
            let n3 = string_bytes(m.2).len() as int;
            &&& parse_varint(s) == Ok::<(u64, int), Fail>((m.0, n1))
            &&& parse_string(s.skip(n1)) == Ok::<(Seq<char>, int), Fail>((m.1, n2))
            &&& parse_string(s.skip(n1 + n2)) == Ok::<(Seq<char>, int), Fail>((m.2, n3))
            &&& s[n1 + n2 + n3] == priority_byte(m.3)
            &&& subscribe_bytes(m).len() == n1 + n2 + n3 + 1
        }),
{
    let a = varint_bytes(m.0);
    let b = string_bytes(m.1);
    let c = string_bytes(m.2);
    let d = seq![priority_byte(m.3)];
    let s = subscribe_bytes(m) + rest;
    assert(s =~= a + (b + c + d + rest));
    lemma_varint_roundtrip(m.0, b + c + d + rest);
    let n1 = a.len() as int;
    assert(s.skip(n1) =~= b + (c + d + rest));
    lemma_string_roundtrip(m.1, c + d + rest);
    let n2 = b.len() as int;
    assert(s.skip(n1 + n2) =~= c + (d + rest));
    lemma_string_roundtrip(m.2, d + rest);
    let n3 = c.len() as int;
    assert(s[n1 + n2 + n3] == d[0]);
}

/// Reading a subscription reads its fields in wire order: the ID, the
/// broadcast name, the track name, then the priority, each where the one
/// before it ends.
pub proof fn lemma_subscribe_fields(s: Seq<u8>)
    ensures
        parse_subscribe(s) matches Ok((m, n)) ==> match parse_varint(s) {
            Ok((id, n1)) => id == m.0 && match parse_string(s.skip(n1)) {
                Ok((broadcast, n2)) => broadcast == m.1 && match parse_string(s.skip(n1 + n2)) {
                    Ok((track, n3)) => track == m.2 && match parse_i8(s.skip(n1 + n2 + n3)) {
                        Ok((priority, n4)) => priority == m.3 && n == n1 + n2 + n3 + n4,
                        Err(_) => false,
                    },
                    Err(_) => false,
                },
                Err(_) => false,
            },
            Err(_) => false,
        },
{
}

} // verus!
