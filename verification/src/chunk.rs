//! The two chunk kinds and their byte form, before encryption and after
//! decryption.
//!
//! A message chunk is `[0x00, reply_ref, payload...]`, where `reply_ref` is
//! zero for "no reply" and otherwise one more than the index of a reply
//! block.  A transport chunk is `[0x01, utf8(url)...]`.  No length prefix is
//! needed: encryption preserves length and the outer wire form supplies
//! boundaries.
//!
//! Decoding is lenient by design: a chunk with an unknown tag, a short
//! message chunk, a reply reference past the last reply block, or a
//! transport URL that is not UTF-8 decodes to nothing and is silently
//! dropped, exactly as a chunk meant for another node is.

use std::sync::Arc;
use vstd::prelude::*;
use vstd::utf8::{decode_utf8, valid_utf8};

verus! {

/// The tag byte of a message chunk.
pub const TAG_MESSAGE: u8 = 0;

/// The tag byte of a transport chunk.
pub const TAG_TRANSPORT: u8 = 1;

/// A chunk as a sender adds it to a packet: a payload for one node to read
/// (with an optional reply-block index), or a URL for one node to forward
/// the packet along.
pub enum InputChunk {
    /// A payload, and the index of the reply block offered with it, if any.
    Message(Vec<u8>, Option<u8>),
    /// A URL to re-send the whole packet to.
    Transport(String),
}

/// A chunk as a receiver sees it after decryption: payloads carry the named
/// reply block itself, shared rather than copied.
#[derive(Debug, PartialEq)]
pub enum Chunk {
    /// A payload, and the reply block offered with it, if any.
    Message(Vec<u8>, Option<Arc<Vec<Vec<u8>>>>),
    /// A URL to re-send the whole packet to.
    Transport(String),
}

/// The mathematical form of a received chunk: plain byte and character
/// sequences, with the reply block resolved to its contents.
pub enum SpecChunk {
    Message { contents: Seq<u8>, reply: Option<Seq<Seq<u8>>> },
    Transport { url: Seq<char> },
}

impl View for Chunk {
    type V = SpecChunk;

    open spec fn view(&self) -> SpecChunk {
        match self {
            Chunk::Message(d, None) => SpecChunk::Message { contents: d@, reply: None },
            Chunk::Message(d, Some(b)) => SpecChunk::Message {
                contents: d@,
                reply: Some(b.deep_view()),
            },
            Chunk::Transport(url) => SpecChunk::Transport { url: url@ },
        }
    }
}

impl DeepView for Chunk {
    type V = SpecChunk;

    open spec fn deep_view(&self) -> SpecChunk {
        self.view()
    }
}

/// An input chunk whose reply reference, if any, can be stored as one byte
/// offset by one.
pub open spec fn input_chunk_wf(c: InputChunk) -> bool {
    match c {
        InputChunk::Message(_, Some(i)) => i < 255,
        _ => true,
    }
}

/// The byte form of a message chunk: tag, reply reference (zero for none,
/// else index plus one), payload.
pub open spec fn plain_message(data: Seq<u8>, reply_ref: Option<int>) -> Seq<u8> {
    match reply_ref {
        None => seq![TAG_MESSAGE, 0u8] + data,
        Some(i) => seq![TAG_MESSAGE, (i + 1) as u8] + data,
    }
}

/// The byte form of a transport chunk: tag, then the URL in UTF-8.
pub open spec fn plain_transport(url: Seq<char>) -> Seq<u8> {
    seq![TAG_TRANSPORT] + vstd::utf8::encode_utf8(url)
}

/// The byte form of an input chunk, before encryption.
pub open spec fn input_chunk_plain(c: InputChunk) -> Seq<u8> {
    match c {
        InputChunk::Message(d, None) => plain_message(d@, None),
        InputChunk::Message(d, Some(i)) => plain_message(d@, Some(i as int)),
        InputChunk::Transport(url) => plain_transport(url@),
    }
}

/// The received chunk that an input chunk stands for, once the reply blocks
/// of its packet are known.
pub open spec fn input_chunk_spec(c: InputChunk, replies: Seq<Seq<Seq<u8>>>) -> SpecChunk {
    match c {
        InputChunk::Message(d, None) => SpecChunk::Message { contents: d@, reply: None },
        InputChunk::Message(d, Some(i)) => SpecChunk::Message {
            contents: d@,
            reply: Some(replies[i as int]),
        },
        InputChunk::Transport(url) => SpecChunk::Transport { url: url@ },
    }
}

/// Decodes the byte form of one chunk, given the reply blocks of its packet.
/// Anything malformed decodes to nothing and is dropped.
pub open spec fn dec_chunk(p: Seq<u8>, replies: Seq<Seq<Seq<u8>>>) -> Option<SpecChunk> {
    if p.len() >= 2 && p[0] == TAG_MESSAGE {
        if p[1] == 0 {
            Some(SpecChunk::Message { contents: p.skip(2), reply: None })
        } else if p[1] - 1 < replies.len() {
            Some(SpecChunk::Message { contents: p.skip(2), reply: Some(replies[p[1] - 1]) })
        } else {
            None
        }
    } else if p.len() >= 1 && p[0] == TAG_TRANSPORT {
        if valid_utf8(p.skip(1)) {
            Some(SpecChunk::Transport { url: decode_utf8(p.skip(1)) })
        } else {
            None
        }
    } else {
        None
    }
}

/// The byte form of a chunk that decodes as a forward instruction: the
/// transport tag followed by a well-formed UTF-8 URL.  Whether a chunk is a
/// forward does not depend on the packet's reply blocks.
pub open spec fn plain_is_forward(p: Seq<u8>) -> bool {
    &&& p.len() >= 1
    &&& p[0] == TAG_TRANSPORT
    &&& valid_utf8(p.skip(1))
}

/// A chunk decodes as a transport instruction exactly when its bytes are a
/// forward, whatever the reply blocks.
pub proof fn lemma_dec_chunk_forward_iff(p: Seq<u8>, replies: Seq<Seq<Seq<u8>>>)
    ensures
        (dec_chunk(p, replies) matches Some(c) && c is Transport) <==> plain_is_forward(p),
{
}

/// Decoding the byte form of a message chunk gives back its payload, with
/// the reply reference resolved against the reply blocks.
pub proof fn lemma_dec_chunk_message(data: Seq<u8>, reply_ref: Option<int>, replies: Seq<
    Seq<Seq<u8>>,
>)
    requires
        match reply_ref {
            Some(i) => 0 <= i < replies.len() && i < 255,
            None => true,
        },
    ensures
        dec_chunk(plain_message(data, reply_ref), replies) == Some(
            SpecChunk::Message {
                contents: data,
                reply: match reply_ref {
                    None => None,
                    Some(i) => Some(replies[i]),
                },
            },
        ),
{
    let p = plain_message(data, reply_ref);
    assert(p.skip(2) =~= data);
}

/// Decoding the byte form of a transport chunk gives back its URL.
pub proof fn lemma_dec_chunk_transport(url: Seq<char>, replies: Seq<Seq<Seq<u8>>>)
    ensures
        dec_chunk(plain_transport(url), replies) == Some(SpecChunk::Transport { url: url }),
{
    broadcast use vstd::utf8::encode_utf8_valid_utf8;
    broadcast use vstd::utf8::encode_utf8_decode_utf8;

    let p = plain_transport(url);
    assert(p.skip(1) =~= vstd::utf8::encode_utf8(url));
}

/// Decoding the byte form of a well-formed input chunk gives back that
/// chunk, with its reply reference resolved.
pub proof fn lemma_dec_chunk_of_input(c: InputChunk, replies: Seq<Seq<Seq<u8>>>)
    requires
        input_chunk_wf(c),
        match c {
            InputChunk::Message(_, Some(i)) => i < replies.len(),
            _ => true,
        },
    ensures
        dec_chunk(input_chunk_plain(c), replies) == Some(input_chunk_spec(c, replies)),
{
    match c {
        InputChunk::Message(d, None) => {
            lemma_dec_chunk_message(d@, None, replies);
        },
        InputChunk::Message(d, Some(i)) => {
            lemma_dec_chunk_message(d@, Some(i as int), replies);
        },
        InputChunk::Transport(url) => {
            lemma_dec_chunk_transport(url@, replies);
        },
    }
}

impl InputChunk {
    /// Turns the chunk into the byte form that will be encrypted.
    pub fn serialize(self) -> (r: Vec<u8>)
        requires
            input_chunk_wf(self),
        ensures
            r@ == input_chunk_plain(self),
    {
        match self {
            InputChunk::Message(mut d, reply) => {
                let reply_byte: u8 = match reply {
                    None => 0,
                    Some(i) => i + 1,
                };
                let mut b: Vec<u8> = vec![TAG_MESSAGE, reply_byte];
                b.append(&mut d);
                b
            },
            InputChunk::Transport(url) => {
                let mut b: Vec<u8> = vec![TAG_TRANSPORT];
                let mut bytes = vstd::slice::slice_to_vec(url.as_str().as_bytes());
                b.append(&mut bytes);
                b
            },
        }
    }
}

/// Relies on std's String::from_utf8: it succeeds exactly on valid UTF-8 and
/// the string holds exactly the given bytes.
#[verifier::external_body]
fn string_from_utf8(bytes: Vec<u8>) -> (r: Option<String>)
    ensures
        match r {
            Some(s) => valid_utf8(bytes@) && s@ == decode_utf8(bytes@),
            None => !valid_utf8(bytes@),
        },
{
    String::from_utf8(bytes).ok()
}

/// Relies on std's Arc::clone: the returned handle is the same shared value.
#[verifier::external_body]
pub fn share_block(b: &Arc<Vec<Vec<u8>>>) -> (r: Arc<Vec<Vec<u8>>>)
    ensures
        r == *b,
{
    Arc::clone(b)
}

impl Chunk {
    /// Decodes one decrypted chunk against the packet's reply blocks;
    /// `None` when the bytes are malformed, and the chunk is dropped.
    pub fn deserialize(bytes: &Vec<u8>, replies: &Vec<Arc<Vec<Vec<u8>>>>) -> (r: Option<Chunk>)
        ensures
            match r {
                Some(c) => dec_chunk(bytes@, replies.deep_view()) == Some(c@),
                None => dec_chunk(bytes@, replies.deep_view()) is None,
            },
    {
        if bytes.len() >= 2 && bytes[0] == TAG_MESSAGE {
            let contents = vstd::slice::slice_to_vec(
                vstd::slice::slice_subrange(bytes.as_slice(), 2, bytes.len()),
            );
            proof {
                assert(contents@ =~= bytes@.skip(2));
            }
            let reply_byte = bytes[1];
            if reply_byte == 0 {
                Some(Chunk::Message(contents, None))
            } else {
                let idx = (reply_byte - 1) as usize;
                if idx < replies.len() {
                    let block = share_block(&replies[idx]);
                    proof {
                        assert(block.deep_view() == replies.deep_view()[idx as int]);
                    }
                    Some(Chunk::Message(contents, Some(block)))
                } else {
                    None
                }
            }
        } else if bytes.len() >= 1 && bytes[0] == TAG_TRANSPORT {
            let tail = vstd::slice::slice_to_vec(
                vstd::slice::slice_subrange(bytes.as_slice(), 1, bytes.len()),
            );
            proof {
                assert(tail@ =~= bytes@.skip(1));
            }
            match string_from_utf8(tail) {
                Some(url) => Some(Chunk::Transport(url)),
                None => None,
            }
        } else {
            None
        }
    }
}

} // verus!
