//! Building packets on the sending side, and taking them apart on the
//! receiving side.
//!
//! A packet is a main block of encrypted chunks plus up to
//! [`MAX_REPLY_BLOCKS`](crate::MAX_REPLY_BLOCKS) reply blocks, each a list of
//! encrypted chunks of its own.  Every chunk is encrypted to exactly one
//! public key, and, in signed mode, carries an attached signature over the
//! ciphertext.
//!
//! A packet remembers, as ghost state, what each of its chunks was built
//! from: the byte form before encryption and the key it was encrypted to.
//! [`Packet::authored`] says that every chunk really carries what that ghost
//! record claims, which is what the parsing laws in [`crate::laws`] consume.

use crate::chunk::{Chunk, InputChunk, SpecChunk};
use crate::chunk::{dec_chunk, input_chunk_plain, input_chunk_wf};
use crate::crypto::{encrypt, sign};
use crate::fail::MesherFail;
use crate::wire;
use rand::seq::SliceRandom;
use std::sync::Arc;
use vstd::prelude::*;

verus! {

broadcast use vstd::std_specs::vec::axiom_spec_len;

/// Ghost record of what one encrypted chunk was built from.
pub struct ChunkInfo {
    /// The chunk's byte form before encryption.
    pub plain: Seq<u8>,
    /// The bytes of the public key the chunk was encrypted to.
    pub target: Seq<u8>,
}

/// Wire chunk `c` really carries `info`: in unsigned mode it is a sealed box
/// of `info.plain` for `info.target`; in signed mode it is a signature over
/// such a sealed box, verifiable exactly by the signer's public key.
pub open spec fn chunk_authored(c: Seq<u8>, info: ChunkInfo, signer: Option<Seq<u8>>) -> bool {
    match signer {
        None => encrypt::sealed_to(c, info.target, info.plain),
        Some(sk) => {
            &&& sign::verify_of(c, sign::sign_public_of(sk)) matches Some(inner)
                && encrypt::sealed_to(inner, info.target, info.plain)
            &&& forall|pk: Seq<u8>| pk != sign::sign_public_of(sk) ==> sign::verify_of(c, pk) is None
        },
    }
}

/// Every chunk of `block` really carries the matching entry of `infos`.
pub open spec fn block_authored(
    block: Seq<Seq<u8>>,
    infos: Seq<ChunkInfo>,
    signer: Option<Seq<u8>>,
) -> bool {
    &&& infos.len() == block.len()
    &&& forall|i: int|
        0 <= i < block.len() ==> chunk_authored(#[trigger] block[i], infos[i], signer)
}

/// A packet under construction: the chunks of its main block and reply
/// blocks, already encrypted (and signed, when a signing key is present).
pub struct Packet {
    main_block: Vec<Vec<u8>>,
    reply_blocks: Vec<Vec<Vec<u8>>>,
    signing_key: Option<sign::SecretKey>,
    main_info: Ghost<Seq<ChunkInfo>>,
    reply_infos: Ghost<Seq<Seq<ChunkInfo>>>,
}

/// A handle on one reply block of a packet, used to fill that block and to
/// point message chunks at it.
pub struct ReplyPathHandle {
    index: u8,
}

impl Packet {
    /// The chunks of the main block.
    pub closed spec fn main_view(&self) -> Seq<Seq<u8>> {
        self.main_block.deep_view()
    }

    /// The chunks of each reply block.
    pub closed spec fn replies_view(&self) -> Seq<Seq<Seq<u8>>> {
        self.reply_blocks.deep_view()
    }

    /// The bytes of the signing secret key, when the packet is signed.
    pub closed spec fn signer_view(&self) -> Option<Seq<u8>> {
        match self.signing_key {
            None => None,
            Some(k) => Some(k@),
        }
    }

    /// The ghost records of the main block's chunks.
    pub closed spec fn main_info_view(&self) -> Seq<ChunkInfo> {
        self.main_info@
    }

    /// The ghost records of each reply block's chunks.
    pub closed spec fn reply_infos_view(&self) -> Seq<Seq<ChunkInfo>> {
        self.reply_infos@
    }

    /// Structural well-formedness: the reply-block count stays within the
    /// one-byte reference space, the ghost records line up with the blocks,
    /// and the signing key, when present, is a whole key.
    pub closed spec fn wf(&self) -> bool {
        &&& self.reply_blocks@.len() <= crate::MAX_REPLY_BLOCKS
        &&& self.main_info@.len() == self.main_block@.len()
        &&& self.reply_infos@.len() == self.reply_blocks@.len()
        &&& forall|k: int|
            0 <= k < self.reply_blocks@.len() ==> (#[trigger] self.reply_infos@[k]).len()
                == self.reply_blocks@[k]@.len()
        &&& match self.signing_key {
            None => true,
            Some(k) => k.wf(),
        }
    }

    /// Every chunk of the packet really carries what its ghost record
    /// claims.  This holds of every packet built with `add_message`,
    /// `add_hop` and the reply-path operations alone; it is not claimed of a
    /// packet whose main block was copied from a received reply path.
    pub open spec fn authored(&self) -> bool {
        &&& block_authored(self.main_view(), self.main_info_view(), self.signer_view())
        &&& self.reply_infos_view().len() == self.replies_view().len()
        &&& forall|k: int|
            0 <= k < self.replies_view().len() ==> block_authored(
                #[trigger] self.replies_view()[k],
                self.reply_infos_view()[k],
                self.signer_view(),
            )
    }

    /// Creates an empty packet whose chunks will not be signed.
    pub fn unsigned() -> (r: Packet)
        ensures
            r.wf(),
            r.authored(),
            r.main_view() == Seq::<Seq<u8>>::empty(),
            r.replies_view() == Seq::<Seq<Seq<u8>>>::empty(),
            r.signer_view() is None,
    {
        let r = Packet {
            main_block: Vec::new(),
            reply_blocks: Vec::new(),
            signing_key: None,
            main_info: Ghost(Seq::empty()),
            reply_infos: Ghost(Seq::empty()),
        };
        proof {
            assert(r.main_view() =~= Seq::<Seq<u8>>::empty());
            assert(r.replies_view() =~= Seq::<Seq<Seq<u8>>>::empty());
        }
        r
    }

    /// Creates an empty packet whose chunks will be signed by `skey`.
    pub fn signed(skey: sign::SecretKey) -> (r: Packet)
        requires
            skey.wf(),
        ensures
            r.wf(),
            r.authored(),
            r.main_view() == Seq::<Seq<u8>>::empty(),
            r.replies_view() == Seq::<Seq<Seq<u8>>>::empty(),
            r.signer_view() == Some(skey@),
    {
        let r = Packet {
            main_block: Vec::new(),
            reply_blocks: Vec::new(),
            signing_key: Some(skey),
            main_info: Ghost(Seq::empty()),
            reply_infos: Ghost(Seq::empty()),
        };
        proof {
            assert(r.main_view() =~= Seq::<Seq<u8>>::empty());
            assert(r.replies_view() =~= Seq::<Seq<Seq<u8>>>::empty());
        }
        r
    }

    /// Encrypts (and, in signed mode, signs) one chunk and appends it to the
    /// main block (`block` of `None`) or to the reply block `block` names.
    fn add_instruction(
        &mut self,
        block: Option<u8>,
        instruct: InputChunk,
        target_pkey: &encrypt::PublicKey,
    )
        requires
            old(self).wf(),
            target_pkey.wf(),
            input_chunk_wf(instruct),
            match block {
                Some(i) => i < old(self).replies_view().len(),
                None => true,
            },
        ensures
            final(self).wf(),
            final(self).signer_view() == old(self).signer_view(),
            old(self).authored() ==> final(self).authored(),
            match block {
                None => {
                    &&& final(self).main_view().len() == old(self).main_view().len() + 1
                    &&& final(self).main_view() == old(self).main_view().push(
                        final(self).main_view().last(),
                    )
                    &&& chunk_authored(
                        final(self).main_view().last(),
                        ChunkInfo { plain: input_chunk_plain(instruct), target: target_pkey@ },
                        old(self).signer_view(),
                    )
                    &&& final(self).main_info_view() == old(self).main_info_view().push(
                        ChunkInfo { plain: input_chunk_plain(instruct), target: target_pkey@ },
                    )
                    &&& final(self).replies_view() == old(self).replies_view()
                    &&& final(self).reply_infos_view() == old(self).reply_infos_view()
                },
                Some(i) => {
                    &&& final(self).main_view() == old(self).main_view()
                    &&& final(self).main_info_view() == old(self).main_info_view()
                    &&& final(self).replies_view() == old(self).replies_view().update(
                        i as int,
                        old(self).replies_view()[i as int].push(
                            final(self).replies_view()[i as int].last(),
                        ),
                    )
                    &&& chunk_authored(
                        final(self).replies_view()[i as int].last(),
                        ChunkInfo { plain: input_chunk_plain(instruct), target: target_pkey@ },
                        old(self).signer_view(),
                    )
                    &&& final(self).reply_infos_view() == old(self).reply_infos_view().update(
                        i as int,
                        old(self).reply_infos_view()[i as int].push(
                            ChunkInfo {
                                plain: input_chunk_plain(instruct),
                                target: target_pkey@,
                            },
                        ),
                    )
                },
            },
    {
        let ghost info = ChunkInfo { plain: input_chunk_plain(instruct), target: target_pkey@ };
        let bytes = instruct.serialize();
        let sealed = target_pkey.encrypt(bytes.as_slice());
        let wire_chunk = match &self.signing_key {
            Some(key) => key.sign(sealed.as_slice()),
            None => sealed,
        };
        proof {
            assert(chunk_authored(wire_chunk@, info, self.signer_view()));
        }
        match block {
            None => {
                let ghost before = self.main_block.deep_view();
                let ghost infos_before = self.main_info@;
                let ghost chunk_bytes = wire_chunk@;
                self.main_block.push(wire_chunk);
                proof {
                    self.main_info@ = self.main_info@.push(info);
                    let nv = self.main_block.deep_view();
                    assert(nv =~~= before.push(chunk_bytes));
                    assert(nv.last() == chunk_bytes);
                    if old(self).authored() {
                        assert forall|i: int| 0 <= i < nv.len() implies chunk_authored(
                            #[trigger] nv[i],
                            self.main_info@[i],
                            self.signer_view(),
                        ) by {
                            if i < before.len() {
                                assert(nv[i] == before[i]);
                                assert(self.main_info@[i] == infos_before[i]);
                            } else {
                                assert(nv[i] == chunk_bytes);
                            }
                        }
                    }
                }
            },
            Some(idx) => {
                let ghost before = self.reply_blocks.deep_view();
                let ghost infos_before = self.reply_infos@;
                let ghost chunk_bytes = wire_chunk@;
                let blk = vstd::std_specs::vec::vec_index_mut(
                    &mut self.reply_blocks,
                    idx as usize,
                );
                blk.push(wire_chunk);
                proof {
                    self.reply_infos@ = self.reply_infos@.update(
                        idx as int,
                        self.reply_infos@[idx as int].push(info),
                    );
                    let nv = self.reply_blocks.deep_view();
                    assert(nv =~~= before.update(idx as int, before[idx as int].push(chunk_bytes)));
                    assert(nv[idx as int].last() == chunk_bytes);
                    if old(self).authored() {
                        assert forall|k: int| 0 <= k < nv.len() implies block_authored(
                            #[trigger] nv[k],
                            self.reply_infos@[k],
                            self.signer_view(),
                        ) by {
                            if k != idx as int {
                                assert(nv[k] == before[k]);
                                assert(self.reply_infos@[k] == infos_before[k]);
                            } else {
                                let bv = nv[idx as int];
                                let iv = self.reply_infos@[idx as int];
                                assert forall|i: int| 0 <= i < bv.len() implies chunk_authored(
                                    #[trigger] bv[i],
                                    iv[i],
                                    self.signer_view(),
                                ) by {
                                    if i < before[idx as int].len() {
                                        assert(bv[i] == before[idx as int][i]);
                                        assert(iv[i] == infos_before[idx as int][i]);
                                    } else {
                                        assert(bv[i] == chunk_bytes);
                                    }
                                }
                            }
                        }
                    }
                }
            },
        }
    }

    /// Appends a message chunk to the main block, readable only by the node
    /// that holds the secret key matching `node_pkey`.
    pub fn add_message(&mut self, data: &[u8], node_pkey: &encrypt::PublicKey)
        requires
            old(self).wf(),
            node_pkey.wf(),
        ensures
            final(self).wf(),
            old(self).authored() ==> final(self).authored(),
            final(self).signer_view() == old(self).signer_view(),
            final(self).replies_view() == old(self).replies_view(),
            final(self).reply_infos_view() == old(self).reply_infos_view(),
            final(self).main_view() == old(self).main_view().push(final(self).main_view().last()),
            chunk_authored(
                final(self).main_view().last(),
                ChunkInfo { plain: crate::chunk::plain_message(data@, None), target: node_pkey@ },
                old(self).signer_view(),
            ),
            final(self).main_info_view() == old(self).main_info_view().push(
                ChunkInfo { plain: crate::chunk::plain_message(data@, None), target: node_pkey@ },
            ),
    {
        let payload = vstd::slice::slice_to_vec(data);
        self.add_instruction(None, InputChunk::Message(payload, None), node_pkey)
    }

    /// Appends a transport chunk to the main block: the node that holds the
    /// secret key matching `node_pkey` will re-send the whole packet to
    /// `path`.
    pub fn add_hop(&mut self, path: String, node_pkey: &encrypt::PublicKey)
        requires
            old(self).wf(),
            node_pkey.wf(),
        ensures
            final(self).wf(),
            old(self).authored() ==> final(self).authored(),
            final(self).signer_view() == old(self).signer_view(),
            final(self).replies_view() == old(self).replies_view(),
            final(self).reply_infos_view() == old(self).reply_infos_view(),
            final(self).main_view() == old(self).main_view().push(final(self).main_view().last()),
            chunk_authored(
                final(self).main_view().last(),
                ChunkInfo { plain: crate::chunk::plain_transport(path@), target: node_pkey@ },
                old(self).signer_view(),
            ),
            final(self).main_info_view() == old(self).main_info_view().push(
                ChunkInfo { plain: crate::chunk::plain_transport(path@), target: node_pkey@ },
            ),
    {
        self.add_instruction(None, InputChunk::Transport(path), node_pkey)
    }

    /// Opens a fresh, empty reply block and hands back a handle on it, or
    /// `None` when the packet already holds `MAX_REPLY_BLOCKS` reply blocks.
    pub fn add_reply_path(&mut self) -> (r: Option<ReplyPathHandle>)
        requires
            old(self).wf(),
        ensures
            final(self).wf(),
            old(self).authored() ==> final(self).authored(),
            final(self).signer_view() == old(self).signer_view(),
            final(self).main_view() == old(self).main_view(),
            final(self).main_info_view() == old(self).main_info_view(),
            r is None <==> old(self).replies_view().len() == crate::MAX_REPLY_BLOCKS,
            match r {
                Some(h) => {
                    &&& h.index_view() == old(self).replies_view().len()
                    &&& final(self).replies_view() == old(self).replies_view().push(
                        Seq::<Seq<u8>>::empty(),
                    )
                    &&& final(self).reply_infos_view() == old(self).reply_infos_view().push(
                        Seq::<ChunkInfo>::empty(),
                    )
                },
                None => {
                    &&& final(self).replies_view() == old(self).replies_view()
                    &&& final(self).reply_infos_view() == old(self).reply_infos_view()
                },
            },
    {
        if self.reply_blocks.len() == crate::MAX_REPLY_BLOCKS {
            return None;
        }
        let ghost before = self.reply_blocks.deep_view();
        let index = self.reply_blocks.len() as u8;
        self.reply_blocks.push(Vec::new());
        proof {
            self.reply_infos@ = self.reply_infos@.push(Seq::empty());
            assert(self.reply_blocks.deep_view() =~~= before.push(Seq::<Seq<u8>>::empty()));
        }
        Some(ReplyPathHandle { index })
    }
}

/// Relies on rand's SliceRandom::shuffle: the result is a uniformly random
/// permutation of the input, so it holds exactly the same chunks, reordered.
#[verifier::external_body]
fn shuffle_chunks(v: &mut Vec<Vec<u8>>)
    ensures
        final(v).deep_view().to_multiset() == old(v).deep_view().to_multiset(),
{
    v.shuffle(&mut rand::rng());
}

/// `bytes` is a possible wire form of a packet with main block `main` and
/// reply blocks `replies`: the encoding of those blocks with the chunks of
/// each block in some order.
pub open spec fn is_wire_of(bytes: Seq<u8>, main: Seq<Seq<u8>>, replies: Seq<Seq<Seq<u8>>>) -> bool {
    exists|bls: Seq<Seq<Seq<u8>>>|
        {
            &&& #[trigger] wire::enc_packet(bls) == bytes
            &&& wire::blocks_fit(bls)
            &&& bls.len() == 1 + replies.len()
            &&& bls[0].to_multiset() == main.to_multiset()
            &&& forall|k: int|
                0 <= k < replies.len() ==> (#[trigger] bls[k + 1]).to_multiset()
                    == replies[k].to_multiset()
        }
}

/// Copies a block of encrypted chunks.
fn clone_block(b: &Vec<Vec<u8>>) -> (r: Vec<Vec<u8>>)
    ensures
        r.deep_view() == b.deep_view(),
{
    let mut r: Vec<Vec<u8>> = Vec::new();
    let mut i: usize = 0;
    while i < b.len()
        invariant
            0 <= i <= b@.len(),
            r.deep_view() =~~= b.deep_view().take(i as int),
        decreases b@.len() - i,
    {
        let ghost before = r.deep_view();
        r.push(vstd::slice::slice_to_vec(b[i].as_slice()));
        proof {
            assert(r.deep_view() =~~= before.push(b.deep_view()[i as int]));
            assert(r.deep_view() =~~= b.deep_view().take(i + 1));
        }
        i += 1;
    }
    proof {
        assert(b.deep_view().take(b@.len() as int) =~= b.deep_view());
    }
    r
}

impl Packet {
    /// Turns the packet into its wire form.  Each block is shuffled first:
    /// a chunk's position must not reveal the order of the forwarding path.
    /// Serialization itself cannot fail; the `Result` mirrors the fallible
    /// transports that the bytes are handed to next.
    pub fn serialize(self) -> (r: Result<Vec<u8>, MesherFail>)
        requires
            self.wf(),
        ensures
            r matches Ok(bytes) && is_wire_of(bytes@, self.main_view(), self.replies_view()),
    {
        let ghost orig_main = self.main_view();
        let ghost orig_replies = self.replies_view();
        let Packet { main_block, reply_blocks, .. } = self;
        let mut main_block = main_block;
        shuffle_chunks(&mut main_block);
        let ghost shuffled_main = main_block.deep_view();
        let mut blocks: Vec<Vec<Vec<u8>>> = Vec::new();
        blocks.push(main_block);
        proof {
            assert(blocks.deep_view() =~~= seq![shuffled_main]);
            assert(blocks.deep_view()[0].to_multiset() == orig_main.to_multiset());
        }
        let ghost total = orig_replies.len();
        let mut reply_blocks = reply_blocks;
        proof {
            assert(reply_blocks.deep_view() =~~= orig_replies.skip(0));
        }
        while reply_blocks.len() > 0
            invariant
                1 <= blocks@.len(),
                total == orig_replies.len(),
                blocks.deep_view().len() == blocks@.len(),
                blocks.deep_view().len() + reply_blocks@.len() == 1 + total,
                reply_blocks.deep_view() =~~= orig_replies.skip(
                    blocks.deep_view().len() - 1,
                ),
                blocks.deep_view()[0].to_multiset() == orig_main.to_multiset(),
                forall|k: int|
                    0 <= k < blocks.deep_view().len() - 1 ==> (#[trigger] blocks.deep_view()[k
                        + 1]).to_multiset() == orig_replies[k].to_multiset(),
            decreases reply_blocks@.len(),
        {
            let ghost done = blocks.deep_view().len() - 1;
            let ghost rb_before = reply_blocks.deep_view();
            proof {
                assert(reply_blocks@.len() > 0);
                assert(rb_before.len() == reply_blocks@.len());
                assert(0 <= done < total);
                assert(rb_before =~~= orig_replies.skip(done));
            }
            let mut blk = reply_blocks.remove(0);
            proof {
                assert(reply_blocks.deep_view() =~~= rb_before.drop_first());
                assert(blk.deep_view() == rb_before[0]);
                assert(rb_before[0] == orig_replies.skip(done)[0]);
                assert(orig_replies.skip(done)[0] == orig_replies[done]);
            }
            shuffle_chunks(&mut blk);
            let ghost blocks_before = blocks.deep_view();
            blocks.push(blk);
            proof {
                assert(blocks.deep_view() =~~= blocks_before.push(blk.deep_view()));
                assert(reply_blocks.deep_view() =~~= orig_replies.skip(done + 1));
            }
        }
        proof {
            assert(blocks.deep_view().len() == 1 + total);
        }
        let bytes = wire::encode_blocks(&blocks);
        proof {
            broadcast use vstd::std_specs::vec::axiom_spec_len;

            let bls = blocks.deep_view();
            assert(usize::MAX <= u64::MAX);
            assert forall|i: int| 0 <= i < bls.len() implies #[trigger] bls[i].len()
                <= u64::MAX by {
                let v = blocks@[i];
                assert(v.len() == v@.len());
                assert(bls[i] == v.deep_view());
                assert(v.deep_view().len() == v@.len());
            }
            assert forall|i: int, j: int|
                0 <= i < bls.len() && 0 <= j < bls[i].len() implies #[trigger] bls[i][j].len()
                <= u64::MAX by {
                let v = blocks@[i];
                assert(bls[i] == v.deep_view());
                let w = v@[j];
                assert(w.len() == w@.len());
                assert(bls[i][j] == w@);
            }
            assert(wire::blocks_fit(bls));
            assert(is_wire_of(bytes@, orig_main, orig_replies));
        }
        Ok(bytes)
    }
}

/// The key bytes of a list of encryption secret keys.
pub open spec fn keys_view(keys: Seq<encrypt::SecretKey>) -> Seq<Seq<u8>> {
    Seq::new(keys.len(), |i: int| keys[i]@)
}

/// Every key in the list is a whole key.
pub open spec fn keys_wf(keys: Seq<encrypt::SecretKey>) -> bool {
    forall|i: int| 0 <= i < keys.len() ==> (#[trigger] keys[i]).wf()
}

/// The key bytes of a list of accepted signer public keys.
pub open spec fn signers_view(signers: Seq<sign::PublicKey>) -> Seq<Seq<u8>> {
    Seq::new(signers.len(), |i: int| signers[i]@)
}

/// Every signer key in the list is a whole key.
pub open spec fn signers_wf(signers: Seq<sign::PublicKey>) -> bool {
    forall|i: int| 0 <= i < signers.len() ==> (#[trigger] signers[i]).wf()
}

/// What opening a chunk with each key in turn yields: the plaintext under
/// the first key that opens it, or nothing when none does.
pub open spec fn try_open_spec(c: Seq<u8>, keys: Seq<Seq<u8>>) -> Option<Seq<u8>>
    decreases keys.len(),
{
    if keys.len() == 0 {
        None
    } else {
        match encrypt::open_of(c, keys.first()) {
            Some(m) => Some(m),
            None => try_open_spec(c, keys.drop_first()),
        }
    }
}

/// What verifying a chunk against each accepted signer in turn yields: the
/// signed body under the first key that verifies it, or nothing.
pub open spec fn try_verify_spec(c: Seq<u8>, signers: Seq<Seq<u8>>) -> Option<Seq<u8>>
    decreases signers.len(),
{
    if signers.len() == 0 {
        None
    } else {
        match sign::verify_of(c, signers.first()) {
            Some(m) => Some(m),
            None => try_verify_spec(c, signers.drop_first()),
        }
    }
}

/// What one wire chunk yields for a receiver: verify (in signed mode), then
/// decrypt with each owned key, then decode.  Any failure drops the chunk.
pub open spec fn parse_chunk(
    c: Seq<u8>,
    keys: Seq<Seq<u8>>,
    signers: Option<Seq<Seq<u8>>>,
    replies: Seq<Seq<Seq<u8>>>,
) -> Option<SpecChunk> {
    let body = match signers {
        None => Some(c),
        Some(ss) => try_verify_spec(c, ss),
    };
    match body {
        None => None,
        Some(b) => match try_open_spec(b, keys) {
            None => None,
            Some(p) => dec_chunk(p, replies),
        },
    }
}

/// The wire chunk, tried against the given keys (and signers, in signed
/// mode), yields a forward instruction.  Whether it does is independent of
/// the packet's reply blocks, so they are not a parameter.
pub open spec fn parse_yields_forward(
    c: Seq<u8>,
    keys: Seq<Seq<u8>>,
    signers: Option<Seq<Seq<u8>>>,
) -> bool {
    parse_chunk(c, keys, signers, Seq::empty()) matches Some(sc) && sc is Transport
}

/// The chunk as a zero- or one-element sequence, for collecting.
pub open spec fn parse_chunk_seq(
    c: Seq<u8>,
    keys: Seq<Seq<u8>>,
    signers: Option<Seq<Seq<u8>>>,
    replies: Seq<Seq<Seq<u8>>>,
) -> Seq<SpecChunk> {
    match parse_chunk(c, keys, signers, replies) {
        Some(x) => seq![x],
        None => Seq::empty(),
    }
}

/// What a whole main block yields for a receiver, chunk by chunk in order.
pub open spec fn parse_main(
    main: Seq<Seq<u8>>,
    keys: Seq<Seq<u8>>,
    signers: Option<Seq<Seq<u8>>>,
    replies: Seq<Seq<Seq<u8>>>,
) -> Seq<SpecChunk>
    decreases main.len(),
{
    if main.len() == 0 {
        Seq::empty()
    } else {
        parse_main(main.drop_last(), keys, signers, replies) + parse_chunk_seq(
            main.last(),
            keys,
            signers,
            replies,
        )
    }
}

/// What a whole packet on the wire yields for a receiver: nothing when the
/// bytes do not decode to at least a main block, else the parsed chunks.
pub open spec fn parse_outcome(
    bytes: Seq<u8>,
    keys: Seq<Seq<u8>>,
    signers: Option<Seq<Seq<u8>>>,
) -> Option<Seq<SpecChunk>> {
    match wire::dec_packet(bytes) {
        None => None,
        Some(bls) => if bls.len() == 0 {
            None
        } else {
            Some(parse_main(bls[0], keys, signers, bls.skip(1)))
        },
    }
}

/// Tries each owned key in turn on one chunk; mirrors [`try_open_spec`].
fn try_open(c: &Vec<u8>, keys: &[encrypt::SecretKey]) -> (r: Option<Vec<u8>>)
    requires
        keys_wf(keys@),
    ensures
        match r {
            Some(m) => try_open_spec(c@, keys_view(keys@)) == Some(m@),
            None => try_open_spec(c@, keys_view(keys@)) is None,
        },
{
    let ghost kv = keys_view(keys@);
    proof {
        assert(kv.skip(0) =~= kv);
    }
    let mut i: usize = 0;
    while i < keys.len()
        invariant
            0 <= i <= keys@.len(),
            kv == keys_view(keys@),
            keys_wf(keys@),
            try_open_spec(c@, kv) == try_open_spec(c@, kv.skip(i as int)),
        decreases keys@.len() - i,
    {
        let key = &keys[i];
        proof {
            assert(kv.skip(i as int).first() == kv[i as int]);
            assert(kv.skip(i as int).drop_first() =~= kv.skip(i as int + 1));
        }
        match key.decrypt(c.as_slice()) {
            Some(m) => {
                return Some(m);
            },
            None => {},
        }
        i += 1;
    }
    proof {
        assert(kv.skip(keys@.len() as int) =~= Seq::<Seq<u8>>::empty());
    }
    None
}

/// Tries each accepted signer in turn on one chunk; mirrors
/// [`try_verify_spec`].
fn try_verify(c: &Vec<u8>, signers: &[sign::PublicKey]) -> (r: Option<Vec<u8>>)
    requires
        signers_wf(signers@),
    ensures
        match r {
            Some(m) => try_verify_spec(c@, signers_view(signers@)) == Some(m@),
            None => try_verify_spec(c@, signers_view(signers@)) is None,
        },
{
    let ghost sv = signers_view(signers@);
    proof {
        assert(sv.skip(0) =~= sv);
    }
    let mut i: usize = 0;
    while i < signers.len()
        invariant
            0 <= i <= signers@.len(),
            sv == signers_view(signers@),
            signers_wf(signers@),
            try_verify_spec(c@, sv) == try_verify_spec(c@, sv.skip(i as int)),
        decreases signers@.len() - i,
    {
        let key = &signers[i];
        proof {
            assert(sv.skip(i as int).first() == sv[i as int]);
            assert(sv.skip(i as int).drop_first() =~= sv.skip(i as int + 1));
        }
        match key.verify(c.as_slice()) {
            Some(m) => {
                return Some(m);
            },
            None => {},
        }
        i += 1;
    }
    proof {
        assert(sv.skip(signers@.len() as int) =~= Seq::<Seq<u8>>::empty());
    }
    None
}

/// Parses the chunks of a decoded main block against the given keys (and,
/// in signed mode, accepted signers); mirrors [`parse_main`].
fn parse_block_chunks(
    main: &Vec<Vec<u8>>,
    keys: &[encrypt::SecretKey],
    signers: Option<&[sign::PublicKey]>,
    arcs: &Vec<Arc<Vec<Vec<u8>>>>,
) -> (r: Vec<Chunk>)
    requires
        keys_wf(keys@),
        match signers {
            Some(ss) => signers_wf(ss@),
            None => true,
        },
    ensures
        r.deep_view() == parse_main(
            main.deep_view(),
            keys_view(keys@),
            match signers {
                Some(ss) => Some(signers_view(ss@)),
                None => None,
            },
            arcs.deep_view(),
        ),
{
    let ghost kv = keys_view(keys@);
    let ghost sv = match signers {
        Some(ss) => Some(signers_view(ss@)),
        None => None::<Seq<Seq<u8>>>,
    };
    let ghost mv = main.deep_view();
    let ghost rv = arcs.deep_view();
    let mut out: Vec<Chunk> = Vec::new();
    proof {
        assert(out.deep_view() =~= parse_main(mv.take(0), kv, sv, rv));
    }
    let mut i: usize = 0;
    while i < main.len()
        invariant
            0 <= i <= main@.len(),
            kv == keys_view(keys@),
            keys_wf(keys@),
            match (signers, sv) {
                (Some(ss), Some(s)) => signers_wf(ss@) && s == signers_view(ss@),
                (None, None) => true,
                _ => false,
            },
            mv == main.deep_view(),
            rv == arcs.deep_view(),
            out.deep_view() == parse_main(mv.take(i as int), kv, sv, rv),
        decreases main@.len() - i,
    {
        let c = &main[i];
        proof {
            assert(mv.take(i as int + 1).drop_last() =~= mv.take(i as int));
            assert(mv.take(i as int + 1).last() == mv[i as int]);
            assert(mv[i as int] == c@);
        }
        let body: Option<Vec<u8>> = match signers {
            None => Some(vstd::slice::slice_to_vec(c.as_slice())),
            Some(ss) => try_verify(c, ss),
        };
        let ghost before = out.deep_view();
        match body {
            None => {
                proof {
                    assert(parse_chunk(c@, kv, sv, rv) is None);
                    assert(before + parse_chunk_seq(mv[i as int], kv, sv, rv) =~= before);
                }
            },
            Some(b) => {
                match try_open(&b, keys) {
                    None => {
                        proof {
                            assert(parse_chunk(c@, kv, sv, rv) is None);
                            assert(before + parse_chunk_seq(mv[i as int], kv, sv, rv) =~= before);
                        }
                    },
                    Some(plain) => {
                        match Chunk::deserialize(&plain, arcs) {
                            None => {
                                proof {
                                    assert(parse_chunk(c@, kv, sv, rv) is None);
                                    assert(before + parse_chunk_seq(mv[i as int], kv, sv, rv)
                                        =~= before);
                                }
                            },
                            Some(ch) => {
                                let ghost chv = ch@;
                                out.push(ch);
                                proof {
                                    assert(parse_chunk(c@, kv, sv, rv) == Some(chv));
                                    assert(out.deep_view() =~~= before.push(chv));
                                    assert(before.push(chv) =~= before + seq![chv]);
                                }
                            },
                        }
                    },
                }
            },
        }
        proof {
            assert(out.deep_view() =~= parse_main(mv.take(i as int + 1), kv, sv, rv));
        }
        i += 1;
    }
    proof {
        assert(mv.take(main@.len() as int) =~= mv);
    }
    out
}

impl Packet {
    /// Decodes a packet's wire form and parses its main block with the given
    /// owned secret keys (unsigned mode).  Chunks not meant for these keys
    /// are silently dropped; only a wire form that does not decode at all is
    /// an error.
    pub fn deserialize(packet: &[u8], keys: &[encrypt::SecretKey]) -> (r: Result<
        Vec<Chunk>,
        MesherFail,
    >)
        requires
            keys_wf(keys@),
        ensures
            match r {
                Ok(chunks) => parse_outcome(packet@, keys_view(keys@), None) == Some(
                    chunks.deep_view(),
                ),
                Err(e) => parse_outcome(packet@, keys_view(keys@), None) is None
                    && e is InvalidPacket,
            },
    {
        let (main, arcs) = match Self::decode_and_split(packet) {
            Ok(x) => x,
            Err(e) => {
                return Err(e);
            },
        };
        Ok(parse_block_chunks(&main, keys, None, &arcs))
    }

    /// Decodes a packet's wire form and parses its main block in signed
    /// mode: every chunk's signature is verified against the accepted
    /// signers before decryption is even tried.
    pub fn deserialize_signed(
        packet: &[u8],
        keys: &[encrypt::SecretKey],
        sender_keys: &[sign::PublicKey],
    ) -> (r: Result<Vec<Chunk>, MesherFail>)
        requires
            keys_wf(keys@),
            signers_wf(sender_keys@),
        ensures
            match r {
                Ok(chunks) => parse_outcome(
                    packet@,
                    keys_view(keys@),
                    Some(signers_view(sender_keys@)),
                ) == Some(chunks.deep_view()),
                Err(e) => parse_outcome(packet@, keys_view(keys@), Some(signers_view(sender_keys@)))
                    is None && e is InvalidPacket,
            },
    {
        let (main, arcs) = match Self::decode_and_split(packet) {
            Ok(x) => x,
            Err(e) => {
                return Err(e);
            },
        };
        Ok(parse_block_chunks(&main, keys, Some(sender_keys), &arcs))
    }

    /// Decodes the wire form and splits it into the main block and the
    /// shared reply blocks.
    fn decode_and_split(packet: &[u8]) -> (r: Result<
        (Vec<Vec<u8>>, Vec<Arc<Vec<Vec<u8>>>>),
        MesherFail,
    >)
        ensures
            match r {
                Ok((main, arcs)) => {
                    &&& wire::dec_packet(packet@) matches Some(bls)
                    &&& bls.len() >= 1
                    &&& main.deep_view() == wire::dec_packet(packet@)->Some_0[0]
                    &&& arcs.deep_view() == wire::dec_packet(packet@)->Some_0.skip(1)
                },
                Err(e) => (wire::dec_packet(packet@) is None || wire::dec_packet(
                    packet@,
                )->Some_0.len() == 0) && e is InvalidPacket,
            },
    {
        let mut blocks = match wire::decode_blocks(packet) {
            None => {
                return Err(MesherFail::InvalidPacket);
            },
            Some(b) => b,
        };
        if blocks.len() == 0 {
            return Err(MesherFail::InvalidPacket);
        }
        let ghost bls = blocks.deep_view();
        let mut rest = blocks.split_off(1);
        let main = blocks.remove(0);
        proof {
            assert(main.deep_view() == bls[0]);
            assert(rest.deep_view() =~~= bls.skip(1));
        }
        let ghost rv = rest.deep_view();
        let mut arcs: Vec<Arc<Vec<Vec<u8>>>> = Vec::new();
        proof {
            assert(arcs.deep_view() =~~= rv.take(0));
        }
        let ghost total = rv.len();
        proof {
            assert(rest.deep_view() =~~= rv.skip(0));
        }
        while rest.len() > 0
            invariant
                total == rv.len(),
                arcs@.len() + rest@.len() == total,
                rest.deep_view() =~~= rv.skip(arcs@.len() as int),
                arcs.deep_view() =~~= rv.take(arcs@.len() as int),
            decreases rest@.len(),
        {
            let ghost done = arcs@.len() as int;
            let ghost rest_before = rest.deep_view();
            proof {
                assert(rest@.len() > 0);
                assert(rest_before.len() == rest@.len());
                assert(rest_before.len() + done == total);
                assert(0 <= done < rv.len());
                assert(rest_before =~~= rv.skip(done));
            }
            let blk = rest.remove(0);
            let ghost arcs_before = arcs.deep_view();
            proof {
                assert(blk.deep_view() == rest_before[0]);
                assert(rest_before[0] == rv.skip(done)[0]);
                assert(rv.skip(done)[0] == rv[done]);
                assert(rest.deep_view() =~~= rest_before.drop_first());
                assert(rest_before.drop_first() =~~= rv.skip(done + 1));
            }
            arcs.push(Arc::new(blk));
            proof {
                assert(arcs.deep_view() =~~= arcs_before.push(blk.deep_view()));
                assert(arcs.deep_view() =~~= rv.take(done + 1));
            }
        }
        proof {
            assert(arcs.deep_view() =~~= rv.take(total as int));
            assert(arcs.deep_view() =~~= bls.skip(1));
        }
        Ok((main, arcs))
    }
}

/// Copies the contents of a shared reply block.
pub fn clone_shared_block(b: &Arc<Vec<Vec<u8>>>) -> (r: Vec<Vec<u8>>)
    ensures
        r.deep_view() == b.deep_view(),
{
    clone_block(b)
}

impl Packet {
    /// A ghost record sequence of the right length for a block whose origin
    /// is unknown, such as a received reply block.
    spec fn blank_infos(len: nat) -> Seq<ChunkInfo> {
        Seq::new(len, |i: int| ChunkInfo { plain: Seq::empty(), target: Seq::empty() })
    }

    /// An unsigned packet whose main block is the given, already encrypted,
    /// chunks — the form a received reply block arrives in.
    pub(crate) fn from_reply_block(chunks: Vec<Vec<u8>>) -> (r: Packet)
        ensures
            r.wf(),
            r.main_view() == chunks.deep_view(),
            r.replies_view() == Seq::<Seq<Seq<u8>>>::empty(),
            r.signer_view() is None,
    {
        let ghost n = chunks@.len();
        let r = Packet {
            main_block: chunks,
            reply_blocks: Vec::new(),
            signing_key: None,
            main_info: Ghost(Self::blank_infos(n)),
            reply_infos: Ghost(Seq::empty()),
        };
        proof {
            assert(r.replies_view() =~= Seq::<Seq<Seq<u8>>>::empty());
        }
        r
    }

    /// As [`Packet::from_reply_block`], but chunks added afterwards will be
    /// signed by `skey`.
    pub(crate) fn signed_from_reply_block(chunks: Vec<Vec<u8>>, skey: sign::SecretKey) -> (r:
        Packet)
        requires
            skey.wf(),
        ensures
            r.wf(),
            r.main_view() == chunks.deep_view(),
            r.replies_view() == Seq::<Seq<Seq<u8>>>::empty(),
            r.signer_view() == Some(skey@),
    {
        let ghost n = chunks@.len();
        let r = Packet {
            main_block: chunks,
            reply_blocks: Vec::new(),
            signing_key: Some(skey),
            main_info: Ghost(Self::blank_infos(n)),
            reply_infos: Ghost(Seq::empty()),
        };
        proof {
            assert(r.replies_view() =~= Seq::<Seq<Seq<u8>>>::empty());
        }
        r
    }

    /// Replaces this packet's main block with a copy of the received
    /// message's reply block, so that launching the packet sends it back
    /// along the path the original sender prepared.  Chunks added afterwards
    /// go into that main block.  Fails with `NoReplyRoute` when the message
    /// carries no reply path.
    pub fn reply_to(&mut self, message: &crate::mesher::Message) -> (r: Result<(), MesherFail>)
        requires
            old(self).wf(),
        ensures
            final(self).wf(),
            final(self).signer_view() == old(self).signer_view(),
            final(self).replies_view() == old(self).replies_view(),
            match message@.reply {
                Some(rb) => r is Ok && final(self).main_view() == rb,
                None => r matches Err(e) && e is NoReplyRoute && *final(self) == *old(self),
            },
    {
        let block = match message.reply_block() {
            None => {
                return Err(MesherFail::NoReplyRoute);
            },
            Some(arc) => clone_shared_block(arc),
        };
        let ghost n = block@.len();
        self.main_block = block;
        proof {
            self.main_info@ = Self::blank_infos(n);
        }
        Ok(())
    }
}

impl ReplyPathHandle {
    /// The index of the reply block this handle names.
    pub closed spec fn index_view(&self) -> int {
        self.index as int
    }

    /// The handle names an existing reply block of `p`.
    pub open spec fn valid_for(&self, p: &Packet) -> bool {
        self.index_view() < p.replies_view().len()
    }

    /// Appends a transport chunk to this reply block: a node replying along
    /// it will have its packet re-sent to `path` by the node that holds the
    /// key matching `node_pkey`.
    pub fn add_hop(&self, packet: &mut Packet, path: String, node_pkey: &encrypt::PublicKey)
        requires
            old(packet).wf(),
            node_pkey.wf(),
            self.valid_for(old(packet)),
        ensures
            final(packet).wf(),
            old(packet).authored() ==> final(packet).authored(),
            final(packet).signer_view() == old(packet).signer_view(),
            final(packet).main_view() == old(packet).main_view(),
            final(packet).main_info_view() == old(packet).main_info_view(),
            final(packet).replies_view() == old(packet).replies_view().update(
                self.index_view(),
                old(packet).replies_view()[self.index_view()].push(
                    final(packet).replies_view()[self.index_view()].last(),
                ),
            ),
            chunk_authored(
                final(packet).replies_view()[self.index_view()].last(),
                ChunkInfo { plain: crate::chunk::plain_transport(path@), target: node_pkey@ },
                old(packet).signer_view(),
            ),
            final(packet).reply_infos_view() == old(packet).reply_infos_view().update(
                self.index_view(),
                old(packet).reply_infos_view()[self.index_view()].push(
                    ChunkInfo { plain: crate::chunk::plain_transport(path@), target: node_pkey@ },
                ),
            ),
    {
        packet.add_instruction(Some(self.index), InputChunk::Transport(path), node_pkey)
    }

    /// Appends a message chunk into this reply block, readable only by the
    /// node that holds the key matching `node_pkey`; `reply`, when given,
    /// points that message at yet another reply block.
    pub fn add_message(
        &self,
        packet: &mut Packet,
        data: &[u8],
        node_pkey: &encrypt::PublicKey,
        reply: Option<&ReplyPathHandle>,
    )
        requires
            old(packet).wf(),
            node_pkey.wf(),
            self.valid_for(old(packet)),
            match reply {
                Some(h) => h.valid_for(old(packet)),
                None => true,
            },
        ensures
            final(packet).wf(),
            old(packet).authored() ==> final(packet).authored(),
            final(packet).signer_view() == old(packet).signer_view(),
            final(packet).main_view() == old(packet).main_view(),
            final(packet).main_info_view() == old(packet).main_info_view(),
            final(packet).replies_view() == old(packet).replies_view().update(
                self.index_view(),
                old(packet).replies_view()[self.index_view()].push(
                    final(packet).replies_view()[self.index_view()].last(),
                ),
            ),
            chunk_authored(
                final(packet).replies_view()[self.index_view()].last(),
                ChunkInfo {
                    plain: crate::chunk::plain_message(
                        data@,
                        match reply {
                            Some(h) => Some(h.index_view()),
                            None => None,
                        },
                    ),
                    target: node_pkey@,
                },
                old(packet).signer_view(),
            ),
            final(packet).reply_infos_view() == old(packet).reply_infos_view().update(
                self.index_view(),
                old(packet).reply_infos_view()[self.index_view()].push(
                    ChunkInfo {
                        plain: crate::chunk::plain_message(
                            data@,
                            match reply {
                                Some(h) => Some(h.index_view()),
                                None => None,
                            },
                        ),
                        target: node_pkey@,
                    },
                ),
            ),
    {
        proof {
            assert(old(packet).replies_view().len() == old(packet).reply_blocks@.len());
        }
        let reply_ref: Option<u8> = match reply {
            Some(h) => Some(h.index),
            None => None,
        };
        packet.add_instruction(
            Some(self.index),
            InputChunk::Message(vstd::slice::slice_to_vec(data), reply_ref),
            node_pkey,
        )
    }

    /// Appends a message chunk to the MAIN block that offers this reply
    /// block to whoever reads it: the reader gains a ready-made path to
    /// answer along.
    pub fn use_for_message(&self, packet: &mut Packet, data: &[u8], node_pkey: &encrypt::PublicKey)
        requires
            old(packet).wf(),
            node_pkey.wf(),
            self.valid_for(old(packet)),
        ensures
            final(packet).wf(),
            old(packet).authored() ==> final(packet).authored(),
            final(packet).signer_view() == old(packet).signer_view(),
            final(packet).replies_view() == old(packet).replies_view(),
            final(packet).reply_infos_view() == old(packet).reply_infos_view(),
            final(packet).main_view() == old(packet).main_view().push(
                final(packet).main_view().last(),
            ),
            chunk_authored(
                final(packet).main_view().last(),
                ChunkInfo {
                    plain: crate::chunk::plain_message(data@, Some(self.index_view())),
                    target: node_pkey@,
                },
                old(packet).signer_view(),
            ),
            final(packet).main_info_view() == old(packet).main_info_view().push(
                ChunkInfo {
                    plain: crate::chunk::plain_message(data@, Some(self.index_view())),
                    target: node_pkey@,
                },
            ),
    {
        proof {
            assert(old(packet).replies_view().len() <= crate::MAX_REPLY_BLOCKS);
        }
        packet.add_instruction(
            None,
            InputChunk::Message(vstd::slice::slice_to_vec(data), Some(self.index)),
            node_pkey,
        )
    }
}

} // verus!
