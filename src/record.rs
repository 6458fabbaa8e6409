use vstd::prelude::*;
use vstd::slice::slice_subrange;
use vstd::slice::slice_to_vec;
use vstd::string::StringSliceAdditionalSpecFns;
use vstd::utf8::encode_utf8;
use vstd::utf8::encode_utf8_decode_utf8;

use crate::codec::be_bytes;
use crate::codec::be_value;
use crate::codec::byte_span;
use crate::codec::lemma_be_bytes_len;
use crate::codec::lemma_be_round_trip;
use crate::codec::lemma_word_round_trip;
use crate::codec::lemma_word_span;
use crate::codec::push_word;
use crate::codec::read_word;
use crate::codec::word;

verus! {

broadcast use vstd::slice::group_slice_axioms;

/// One stored message: who sent it, under which topic, and what it says.
#[derive(Debug)]
pub struct Message {
    pub id: u128,
    pub owner: String,
    pub topic: String,
    pub message: String,
}

/// What a `Message` holds, as mathematical values.
pub struct MessageView {
    pub id: u128,
    pub owner: Seq<char>,
    pub topic: Seq<char>,
    pub message: Seq<char>,
}

impl View for Message {
    type V = MessageView;

    open spec fn view(&self) -> MessageView {
        MessageView {
            id: self.id,
            owner: self.owner@,
            topic: self.topic@,
            message: self.message@,
        }
    }
}

/// The views of a sequence of messages, in the same order.
pub open spec fn views(s: Seq<Message>) -> Seq<MessageView> {
    s.map_values(|m: Message| m@)
}

/// A length prefix: the byte count as sixteen bytes.
pub open spec fn length_word(b: Seq<u8>) -> Seq<u8> {
    be_bytes(b.len(), 16)
}

/// The stored form of a message: its id, then owner and topic each after
/// their length, then the body up to the end.
pub open spec fn message_bytes(m: MessageView) -> Seq<u8> {
    let o = encode_utf8(m.owner);
    let t = encode_utf8(m.topic);
    word(m.id) + length_word(o) + o + length_word(t) + t + encode_utf8(m.message)
}

/// The owner and topic of `m` are short enough for their length prefixes.
pub open spec fn storable(m: MessageView) -> bool {
    encode_utf8(m.owner).len() <= usize::MAX && encode_utf8(m.topic).len() <= usize::MAX
}

/// Relies on String::from_utf8: it succeeds exactly on valid UTF-8, and the
/// string then holds those bytes.
#[verifier::external_body]
fn string_from_utf8(b: Vec<u8>) -> (r: Option<String>)
    ensures
        r is Some <==> vstd::utf8::valid_utf8(b@),
        r matches Some(s) ==> encode_utf8(s@) == b@,
{
    String::from_utf8(b).ok()
}

/// Appends `src` to `out`.
fn push_bytes(out: &mut Vec<u8>, src: &[u8])
    ensures
        final(out)@ == old(out)@ + src@,
{
    let mut i: usize = 0;
    while i < src.len()
        invariant
            i <= src@.len(),
            out@ == old(out)@ + src@.subrange(0, i as int),
        decreases src@.len() - i,
    {
        out.push(src[i]);
        i = i + 1;
        assert(out@ =~= old(out)@ + src@.subrange(0, i as int));
    }
    assert(src@.subrange(0, src@.len() as int) =~= src@);
}

/// The stored form of a message with the given fields.
pub fn encode_message(id: u128, owner: &String, topic: &String, message: &String) -> (r: Vec<u8>)
    ensures
        r@ == message_bytes(MessageView { id, owner: owner@, topic: topic@, message: message@ }),
        storable(MessageView { id, owner: owner@, topic: topic@, message: message@ }),
        r@.len() >= 16,
{
    let o = owner.as_str().as_bytes();
    let t = topic.as_str().as_bytes();
    let b = message.as_str().as_bytes();
    let mut out: Vec<u8> = Vec::new();
    push_word(&mut out, id);
    push_word(&mut out, o.len() as u128);
    push_bytes(&mut out, o);
    push_word(&mut out, t.len() as u128);
    push_bytes(&mut out, t);
    push_bytes(&mut out, b);
    proof {
        lemma_word_round_trip(id);
    }
    out
}

/// Copies bytes `from .. to` of `b` into a string.
fn read_text(b: &[u8], from: usize, to: usize, Ghost(s): Ghost<Seq<char>>) -> (r: String)
    requires
        from <= to <= b@.len(),
        b@.subrange(from as int, to as int) == encode_utf8(s),
    ensures
        r@ == s,
{
    let part = slice_to_vec(slice_subrange(b, from, to));
    proof {
        vstd::utf8::encode_utf8_valid_utf8(s);
    }
    match string_from_utf8(part) {
        Some(r) => {
            proof {
                encode_utf8_decode_utf8(r@);
                encode_utf8_decode_utf8(s);
            }
            r
        },
        None => String::new(),
    }
}

/// Reads back a message from its stored form.
pub(crate) fn decode_message(b: &[u8], Ghost(m): Ghost<MessageView>) -> (r: Message)
    requires
        b@ == message_bytes(m),
        storable(m),
    ensures
        r@ == m,
{
    let total: usize = b.len();
    let ghost o = encode_utf8(m.owner);
    let ghost t = encode_utf8(m.topic);
    let ghost body = encode_utf8(m.message);
    proof {
        lemma_word_round_trip(m.id);
        lemma_word_span();
        lemma_be_bytes_len(o.len(), 16);
        lemma_be_bytes_len(t.len(), 16);
        lemma_be_round_trip(o.len(), 16);
        lemma_be_round_trip(t.len(), 16);
    }
    let ghost ol = o.len() as int;
    let ghost tl = t.len() as int;
    assert(b@.subrange(0, 16) =~= word(m.id));
    let id = read_word(b, 0);
    assert(b@.subrange(16, 32) =~= length_word(o));
    let owner_len = read_word(b, 16) as usize;
    assert(b@.subrange(32, 32 + ol) =~= o);
    let owner = read_text(b, 32, 32 + owner_len, Ghost(m.owner));
    let topic_at = 32 + owner_len;
    assert(b@.subrange(32 + ol, 48 + ol) =~= length_word(t));
    let topic_len = read_word(b, topic_at) as usize;
    assert(b@.subrange(48 + ol, 48 + ol + tl) =~= t);
    let body_at = topic_at + 16 + topic_len;
    let topic = read_text(b, topic_at + 16, body_at, Ghost(m.topic));
    assert(b@.subrange(48 + ol + tl, b@.len() as int) =~= body);
    let message = read_text(b, body_at, total, Ghost(m.message));
    Message { id, owner, topic, message }
}

} // verus!
