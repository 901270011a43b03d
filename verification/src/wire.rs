//! The self-delimiting wire form of a packet.
//!
//! A packet on the wire is a list of blocks; a block is a list of encrypted
//! chunks; a chunk is a byte string.  Every list and every byte string is
//! prefixed with its length as a little-endian 64-bit integer, so the whole
//! form is self-delimiting and round-trips exactly:
//!
//! ```text
//! packet = len(blocks) ++ block*
//! block  = len(chunks) ++ chunk*
//! chunk  = len(bytes)  ++ bytes
//! ```
//!
//! [`encode_blocks`] and [`decode_blocks`] are verified against the
//! specification functions [`enc_packet`] and [`dec_packet`], and
//! [`lemma_dec_packet_of_enc`] proves that decoding an encoded packet gives
//! back exactly the blocks that were encoded.

use vstd::bytes::*;
use vstd::prelude::*;

verus! {

/// True when every length occurring in `blocks` fits in 64 bits, so that
/// each length prefix is exact.  Every value built from in-memory vectors
/// satisfies this.
pub open spec fn blocks_fit(blocks: Seq<Seq<Seq<u8>>>) -> bool {
    &&& blocks.len() <= u64::MAX
    &&& forall|i: int| 0 <= i < blocks.len() ==> #[trigger] blocks[i].len() <= u64::MAX
    &&& forall|i: int, j: int|
        0 <= i < blocks.len() && 0 <= j < blocks[i].len() ==> #[trigger] blocks[i][j].len()
            <= u64::MAX
}

/// One length-prefixed byte string.
pub open spec fn enc_bytes(b: Seq<u8>) -> Seq<u8> {
    spec_u64_to_le_bytes(b.len() as u64) + b
}

/// The chunks of a block, one length-prefixed byte string after another.
pub open spec fn enc_chunks(bs: Seq<Seq<u8>>) -> Seq<u8>
    decreases bs.len(),
{
    if bs.len() == 0 {
        Seq::empty()
    } else {
        enc_bytes(bs.first()) + enc_chunks(bs.drop_first())
    }
}

/// One length-prefixed block.
pub open spec fn enc_block(bs: Seq<Seq<u8>>) -> Seq<u8> {
    spec_u64_to_le_bytes(bs.len() as u64) + enc_chunks(bs)
}

/// The blocks of a packet, one after another.
pub open spec fn enc_blocks(blocks: Seq<Seq<Seq<u8>>>) -> Seq<u8>
    decreases blocks.len(),
{
    if blocks.len() == 0 {
        Seq::empty()
    } else {
        enc_block(blocks.first()) + enc_blocks(blocks.drop_first())
    }
}

/// The whole wire form: a length-prefixed list of blocks.
pub open spec fn enc_packet(blocks: Seq<Seq<Seq<u8>>>) -> Seq<u8> {
    spec_u64_to_le_bytes(blocks.len() as u64) + enc_blocks(blocks)
}

/// Reads a length prefix at `pos`: the integer and the position after it.
pub open spec fn dec_len(b: Seq<u8>, pos: int) -> Option<(u64, int)> {
    if 0 <= pos && pos + 8 <= b.len() {
        Some((spec_u64_from_le_bytes(b.subrange(pos, pos + 8)), pos + 8))
    } else {
        None
    }
}

/// Reads one length-prefixed byte string at `pos`.
pub open spec fn dec_bytes(b: Seq<u8>, pos: int) -> Option<(Seq<u8>, int)> {
    match dec_len(b, pos) {
        None => None,
        Some((n, p)) => if p + n <= b.len() {
            Some((b.subrange(p, p + n), p + n))
        } else {
            None
        },
    }
}

/// Reads `count` length-prefixed byte strings starting at `pos`.
pub open spec fn dec_chunks(b: Seq<u8>, pos: int, count: nat) -> Option<(Seq<Seq<u8>>, int)>
    decreases count,
{
    if count == 0 {
        Some((Seq::empty(), pos))
    } else {
        match dec_bytes(b, pos) {
            None => None,
            Some((x, p)) => match dec_chunks(b, p, (count - 1) as nat) {
                None => None,
                Some((xs, e)) => Some((seq![x] + xs, e)),
            },
        }
    }
}

/// Reads one length-prefixed block at `pos`.
pub open spec fn dec_block(b: Seq<u8>, pos: int) -> Option<(Seq<Seq<u8>>, int)> {
    match dec_len(b, pos) {
        None => None,
        Some((n, p)) => dec_chunks(b, p, n as nat),
    }
}

/// Reads `count` blocks starting at `pos`.
pub open spec fn dec_blocks(b: Seq<u8>, pos: int, count: nat) -> Option<(Seq<Seq<Seq<u8>>>, int)>
    decreases count,
{
    if count == 0 {
        Some((Seq::empty(), pos))
    } else {
        match dec_block(b, pos) {
            None => None,
            Some((x, p)) => match dec_blocks(b, p, (count - 1) as nat) {
                None => None,
                Some((xs, e)) => Some((seq![x] + xs, e)),
            },
        }
    }
}

/// Decodes a whole wire form, accepting it only when every byte is consumed.
pub open spec fn dec_packet(b: Seq<u8>) -> Option<Seq<Seq<Seq<u8>>>> {
    match dec_len(b, 0) {
        None => None,
        Some((n, p)) => match dec_blocks(b, p, n as nat) {
            None => None,
            Some((blocks, e)) => if e == b.len() {
                Some(blocks)
            } else {
                None
            },
        },
    }
}

/// Appending one more byte string extends the encoding of a chunk list on
/// the right.
pub proof fn lemma_enc_chunks_push(bs: Seq<Seq<u8>>, x: Seq<u8>)
    ensures
        enc_chunks(bs.push(x)) == enc_chunks(bs) + enc_bytes(x),
    decreases bs.len(),
{
    if bs.len() == 0 {
        assert(bs.push(x).first() == x);
        assert(bs.push(x).drop_first() =~= Seq::<Seq<u8>>::empty());
        assert(enc_chunks(bs.push(x)) == enc_bytes(x) + enc_chunks(Seq::<Seq<u8>>::empty()));
        assert(enc_chunks(bs.push(x)) =~= enc_chunks(bs) + enc_bytes(x));
    } else {
        assert(bs.push(x).first() == bs.first());
        assert(bs.push(x).drop_first() =~= bs.drop_first().push(x));
        lemma_enc_chunks_push(bs.drop_first(), x);
        assert(enc_chunks(bs.push(x)) == enc_bytes(bs.first()) + enc_chunks(
            bs.drop_first().push(x),
        ));
        assert(enc_chunks(bs.push(x)) =~= enc_chunks(bs) + enc_bytes(x));
    }
}

/// Appending one more block extends the encoding of a block list on the
/// right.
pub proof fn lemma_enc_blocks_push(blocks: Seq<Seq<Seq<u8>>>, x: Seq<Seq<u8>>)
    ensures
        enc_blocks(blocks.push(x)) == enc_blocks(blocks) + enc_block(x),
    decreases blocks.len(),
{
    if blocks.len() == 0 {
        assert(blocks.push(x).first() == x);
        assert(blocks.push(x).drop_first() =~= Seq::<Seq<Seq<u8>>>::empty());
        assert(enc_blocks(blocks.push(x)) == enc_block(x) + enc_blocks(
            Seq::<Seq<Seq<u8>>>::empty(),
        ));
        assert(enc_blocks(blocks.push(x)) =~= enc_blocks(blocks) + enc_block(x));
    } else {
        assert(blocks.push(x).first() == blocks.first());
        assert(blocks.push(x).drop_first() =~= blocks.drop_first().push(x));
        lemma_enc_blocks_push(blocks.drop_first(), x);
        assert(enc_blocks(blocks.push(x)) == enc_block(blocks.first()) + enc_blocks(
            blocks.drop_first().push(x),
        ));
        assert(enc_blocks(blocks.push(x)) =~= enc_blocks(blocks) + enc_block(x));
    }
}

/// A length prefix written at an offset reads back as itself.
proof fn lemma_dec_len_at(pre: Seq<u8>, n: u64, rest: Seq<u8>)
    ensures
        dec_len(pre + spec_u64_to_le_bytes(n) + rest, pre.len() as int) == Some(
            (n, pre.len() as int + 8),
        ),
{
    lemma_auto_spec_u64_to_from_le_bytes();
    let whole = pre + spec_u64_to_le_bytes(n) + rest;
    assert(whole.subrange(pre.len() as int, pre.len() as int + 8) =~= spec_u64_to_le_bytes(n));
}

/// A length-prefixed byte string written at an offset reads back as itself.
proof fn lemma_dec_bytes_of_enc(pre: Seq<u8>, x: Seq<u8>, rest: Seq<u8>)
    requires
        x.len() <= u64::MAX,
    ensures
        dec_bytes(pre + enc_bytes(x) + rest, pre.len() as int) == Some(
            (x, pre.len() as int + 8 + x.len() as int),
        ),
{
    lemma_auto_spec_u64_to_from_le_bytes();
    let whole = pre + enc_bytes(x) + rest;
    assert(pre + enc_bytes(x) + rest =~= pre + spec_u64_to_le_bytes(x.len() as u64) + (x + rest));
    lemma_dec_len_at(pre, x.len() as u64, x + rest);
    assert(whole.subrange(pre.len() as int + 8, pre.len() as int + 8 + x.len() as int) =~= x);
}

/// A list of length-prefixed byte strings written at an offset reads back as
/// itself, consuming exactly its own encoding.
proof fn lemma_dec_chunks_of_enc(pre: Seq<u8>, bs: Seq<Seq<u8>>, rest: Seq<u8>)
    requires
        forall|j: int| 0 <= j < bs.len() ==> #[trigger] bs[j].len() <= u64::MAX,
    ensures
        dec_chunks(pre + enc_chunks(bs) + rest, pre.len() as int, bs.len()) == Some(
            (bs, pre.len() as int + enc_chunks(bs).len() as int),
        ),
    decreases bs.len(),
{
    lemma_auto_spec_u64_to_from_le_bytes();
    let whole = pre + enc_chunks(bs) + rest;
    if bs.len() == 0 {
        assert(whole =~= pre + rest);
        assert(dec_chunks(whole, pre.len() as int, 0) == Some(
            (Seq::<Seq<u8>>::empty(), pre.len() as int),
        ));
        assert(Seq::<Seq<u8>>::empty() =~= bs);
    } else {
        let first = bs.first();
        let tail = bs.drop_first();
        assert(whole =~= pre + enc_bytes(first) + (enc_chunks(tail) + rest));
        lemma_dec_bytes_of_enc(pre, first, enc_chunks(tail) + rest);
        let pre2 = pre + enc_bytes(first);
        assert(whole =~= pre2 + enc_chunks(tail) + rest);
        lemma_dec_chunks_of_enc(pre2, tail, rest);
        assert(pre2.len() == pre.len() + 8 + first.len());
        assert(dec_bytes(whole, pre.len() as int) == Some((first, pre2.len() as int)));
        assert(dec_chunks(whole, pre2.len() as int, tail.len()) == Some(
            (tail, pre2.len() as int + enc_chunks(tail).len() as int),
        ));
        assert(seq![first] + tail =~= bs);
        assert(pre2.len() + enc_chunks(tail).len() == pre.len() + enc_chunks(bs).len());
    }
}

/// A length-prefixed block written at an offset reads back as itself.
proof fn lemma_dec_block_of_enc(pre: Seq<u8>, bs: Seq<Seq<u8>>, rest: Seq<u8>)
    requires
        bs.len() <= u64::MAX,
        forall|j: int| 0 <= j < bs.len() ==> #[trigger] bs[j].len() <= u64::MAX,
    ensures
        dec_block(pre + enc_block(bs) + rest, pre.len() as int) == Some(
            (bs, pre.len() as int + enc_block(bs).len() as int),
        ),
{
    let whole = pre + enc_block(bs) + rest;
    assert(whole =~= pre + spec_u64_to_le_bytes(bs.len() as u64) + (enc_chunks(bs) + rest));
    lemma_dec_len_at(pre, bs.len() as u64, enc_chunks(bs) + rest);
    let pre2 = pre + spec_u64_to_le_bytes(bs.len() as u64);
    assert(whole =~= pre2 + enc_chunks(bs) + rest);
    lemma_dec_chunks_of_enc(pre2, bs, rest);
    lemma_auto_spec_u64_to_from_le_bytes();
    assert(pre2.len() == pre.len() + 8);
    assert(pre2.len() + enc_chunks(bs).len() == pre.len() + enc_block(bs).len());
}

/// A list of blocks written at an offset reads back as itself.
proof fn lemma_dec_blocks_of_enc(pre: Seq<u8>, blocks: Seq<Seq<Seq<u8>>>, rest: Seq<u8>)
    requires
        forall|i: int| 0 <= i < blocks.len() ==> #[trigger] blocks[i].len() <= u64::MAX,
        forall|i: int, j: int|
            0 <= i < blocks.len() && 0 <= j < blocks[i].len() ==> #[trigger] blocks[i][j].len()
                <= u64::MAX,
    ensures
        dec_blocks(pre + enc_blocks(blocks) + rest, pre.len() as int, blocks.len()) == Some(
            (blocks, pre.len() as int + enc_blocks(blocks).len() as int),
        ),
    decreases blocks.len(),
{
    lemma_auto_spec_u64_to_from_le_bytes();
    let whole = pre + enc_blocks(blocks) + rest;
    if blocks.len() == 0 {
        assert(dec_blocks(whole, pre.len() as int, 0) == Some(
            (Seq::<Seq<Seq<u8>>>::empty(), pre.len() as int),
        ));
        assert(Seq::<Seq<Seq<u8>>>::empty() =~= blocks);
    } else {
        let first = blocks.first();
        let tail = blocks.drop_first();
        assert(whole =~= pre + enc_block(first) + (enc_blocks(tail) + rest));
        lemma_dec_block_of_enc(pre, first, enc_blocks(tail) + rest);
        let pre2 = pre + enc_block(first);
        assert(whole =~= pre2 + enc_blocks(tail) + rest);
        assert(forall|i: int, j: int|
            0 <= i < tail.len() && 0 <= j < tail[i].len() ==> #[trigger] tail[i][j].len()
                <= u64::MAX) by {
            assert(forall|i: int| 0 <= i < tail.len() ==> tail[i] == blocks[i + 1]);
        }
        lemma_dec_blocks_of_enc(pre2, tail, rest);
        assert(dec_block(whole, pre.len() as int) == Some((first, pre2.len() as int)));
        assert(dec_blocks(whole, pre2.len() as int, tail.len()) == Some(
            (tail, pre2.len() as int + enc_blocks(tail).len() as int),
        ));
        assert(seq![first] + tail =~= blocks);
        assert(pre2.len() + enc_blocks(tail).len() == pre.len() + enc_blocks(blocks).len());
    }
}

/// Decoding an encoded packet gives back exactly the blocks that were
/// encoded: the wire form round-trips.
pub proof fn lemma_dec_packet_of_enc(blocks: Seq<Seq<Seq<u8>>>)
    requires
        blocks_fit(blocks),
    ensures
        dec_packet(enc_packet(blocks)) == Some(blocks),
{
    let whole = enc_packet(blocks);
    assert(whole =~= Seq::<u8>::empty() + spec_u64_to_le_bytes(blocks.len() as u64) + (enc_blocks(
        blocks,
    ) + Seq::<u8>::empty()));
    lemma_dec_len_at(Seq::<u8>::empty(), blocks.len() as u64, enc_blocks(blocks) + Seq::empty());
    let pre2 = Seq::<u8>::empty() + spec_u64_to_le_bytes(blocks.len() as u64);
    assert(whole =~= pre2 + enc_blocks(blocks) + Seq::<u8>::empty());
    lemma_dec_blocks_of_enc(pre2, blocks, Seq::empty());
    lemma_auto_spec_u64_to_from_le_bytes();
    assert(dec_len(whole, 0) == Some((blocks.len() as u64, 8int)));
    assert(dec_blocks(whole, 8, blocks.len()) == Some((blocks, 8 + enc_blocks(blocks).len() as int)));
    assert(whole.len() == 8 + enc_blocks(blocks).len());
}

/// Appends the wire form of one block.
fn encode_block_into(out: &mut Vec<u8>, block: &Vec<Vec<u8>>)
    ensures
        final(out)@ == old(out)@ + enc_block(block.deep_view()),
{
    let ghost start = out@;
    let ghost bv = block.deep_view();
    let mut len_bytes = u64_to_le_bytes(block.len() as u64);
    out.append(&mut len_bytes);
    let ghost header = out@;
    let mut i: usize = 0;
    while i < block.len()
        invariant
            0 <= i <= block@.len(),
            bv == block.deep_view(),
            bv.len() == block@.len(),
            forall|k: int| 0 <= k < block@.len() ==> bv[k] == #[trigger] block@[k]@,
            header == start + spec_u64_to_le_bytes(block@.len() as u64),
            out@ == header + enc_chunks(bv.take(i as int)),
        decreases block@.len() - i,
    {
        let chunk = &block[i];
        let mut chunk_len = u64_to_le_bytes(chunk.len() as u64);
        out.append(&mut chunk_len);
        let mut body = vstd::slice::slice_to_vec(chunk.as_slice());
        out.append(&mut body);
        proof {
            lemma_enc_chunks_push(bv.take(i as int), bv[i as int]);
            assert(bv.take(i + 1) =~= bv.take(i as int).push(bv[i as int]));
            assert(out@ =~= header + enc_chunks(bv.take(i + 1)));
        }
        i += 1;
    }
    proof {
        assert(bv.take(block@.len() as int) =~= bv);
    }
}

/// Turns a packet's blocks into their wire form.
pub fn encode_blocks(blocks: &Vec<Vec<Vec<u8>>>) -> (r: Vec<u8>)
    ensures
        r@ == enc_packet(blocks.deep_view()),
{
    let ghost bv = blocks.deep_view();
    let mut out = vstd::bytes::u64_to_le_bytes(blocks.len() as u64);
    let ghost header = out@;
    let mut i: usize = 0;
    while i < blocks.len()
        invariant
            0 <= i <= blocks@.len(),
            bv == blocks.deep_view(),
            bv.len() == blocks@.len(),
            forall|k: int| 0 <= k < blocks@.len() ==> bv[k] == #[trigger] blocks@[k].deep_view(),
            header == spec_u64_to_le_bytes(blocks@.len() as u64),
            out@ == header + enc_blocks(bv.take(i as int)),
        decreases blocks@.len() - i,
    {
        encode_block_into(&mut out, &blocks[i]);
        proof {
            lemma_enc_blocks_push(bv.take(i as int), bv[i as int]);
            assert(bv.take(i + 1) =~= bv.take(i as int).push(bv[i as int]));
            assert(out@ =~= header + enc_blocks(bv.take(i + 1)));
        }
        i += 1;
    }
    proof {
        assert(bv.take(blocks@.len() as int) =~= bv);
    }
    out
}

/// Reads a length prefix; mirrors [`dec_len`].
fn read_len(bytes: &[u8], pos: usize) -> (r: Option<(u64, usize)>)
    ensures
        match r {
            Some((n, p)) => dec_len(bytes@, pos as int) == Some((n, p as int)) && p <= bytes@.len(),
            None => dec_len(bytes@, pos as int) is None,
        },
{
    if pos <= bytes.len() && bytes.len() - pos >= 8 {
        let s = vstd::slice::slice_subrange(bytes, pos, pos + 8);
        let n = u64_from_le_bytes(s);
        Some((n, pos + 8))
    } else {
        None
    }
}

/// Reads one length-prefixed byte string; mirrors [`dec_bytes`].
fn read_chunk(bytes: &[u8], pos: usize) -> (r: Option<(Vec<u8>, usize)>)
    ensures
        match r {
            Some((v, p)) => dec_bytes(bytes@, pos as int) == Some((v@, p as int)) && p
                <= bytes@.len(),
            None => dec_bytes(bytes@, pos as int) is None,
        },
{
    match read_len(bytes, pos) {
        None => None,
        Some((n, p)) => {
            if n <= (bytes.len() - p) as u64 {
                let m = n as usize;
                let s = vstd::slice::slice_subrange(bytes, p, p + m);
                Some((vstd::slice::slice_to_vec(s), p + m))
            } else {
                None
            }
        },
    }
}

/// Reads one length-prefixed block; mirrors [`dec_block`].
fn read_block(bytes: &[u8], pos: usize) -> (r: Option<(Vec<Vec<u8>>, usize)>)
    ensures
        match r {
            Some((v, p)) => dec_block(bytes@, pos as int) == Some((v.deep_view(), p as int)) && p
                <= bytes@.len(),
            None => dec_block(bytes@, pos as int) is None,
        },
{
    let (count, start) = match read_len(bytes, pos) {
        None => {
            return None;
        },
        Some(x) => x,
    };
    let mut acc: Vec<Vec<u8>> = Vec::new();
    let mut cur: usize = start;
    let mut rem: u64 = count;
    proof {
        assert(acc.deep_view() =~= Seq::<Seq<u8>>::empty());
    }
    while rem > 0
        invariant
            cur <= bytes@.len(),
            dec_block(bytes@, pos as int) == (match dec_chunks(bytes@, cur as int, rem as nat) {
                None => None::<(Seq<Seq<u8>>, int)>,
                Some((xs, e)) => Some((acc.deep_view() + xs, e)),
            }),
        decreases rem,
    {
        let (chunk, next) = match read_chunk(bytes, cur) {
            None => {
                return None;
            },
            Some(x) => x,
        };
        proof {
            let ghost cv = chunk@;
            let ghost before = acc.deep_view();
            assert(dec_chunks(bytes@, cur as int, rem as nat) == (
            match dec_chunks(bytes@, next as int, (rem - 1) as nat) {
                None => None::<(Seq<Seq<u8>>, int)>,
                Some((xs, e)) => Some((seq![cv] + xs, e)),
            }));
            assert(forall|xs: Seq<Seq<u8>>| #![auto] before + (seq![cv] + xs) =~= before.push(cv) + xs);
        }
        let ghost before = acc.deep_view();
        acc.push(chunk);
        proof {
            assert(acc.deep_view() =~~= before.push(chunk@));
        }
        cur = next;
        rem = rem - 1;
    }
    proof {
        assert(dec_chunks(bytes@, cur as int, 0) == Some((Seq::<Seq<u8>>::empty(), cur as int)));
        assert(acc.deep_view() + Seq::<Seq<u8>>::empty() =~= acc.deep_view());
    }
    Some((acc, cur))
}

/// Decodes a whole wire form back into blocks; mirrors [`dec_packet`].
pub fn decode_blocks(bytes: &[u8]) -> (r: Option<Vec<Vec<Vec<u8>>>>)
    ensures
        match r {
            Some(v) => dec_packet(bytes@) == Some(v.deep_view()),
            None => dec_packet(bytes@) is None,
        },
{
    let (count, start) = match read_len(bytes, 0) {
        None => {
            return None;
        },
        Some(x) => x,
    };
    let mut acc: Vec<Vec<Vec<u8>>> = Vec::new();
    let mut cur: usize = start;
    let mut rem: u64 = count;
    proof {
        assert(acc.deep_view() =~= Seq::<Seq<Seq<u8>>>::empty());
    }
    while rem > 0
        invariant
            cur <= bytes@.len(),
            dec_len(bytes@, 0) == Some((count, start as int)),
            dec_blocks(bytes@, start as int, count as nat) == (
            match dec_blocks(bytes@, cur as int, rem as nat) {
                None => None::<(Seq<Seq<Seq<u8>>>, int)>,
                Some((xs, e)) => Some((acc.deep_view() + xs, e)),
            }),
        decreases rem,
    {
        let (block, next) = match read_block(bytes, cur) {
            None => {
                return None;
            },
            Some(x) => x,
        };
        proof {
            let ghost bv = block.deep_view();
            let ghost before = acc.deep_view();
            assert(dec_blocks(bytes@, cur as int, rem as nat) == (
            match dec_blocks(bytes@, next as int, (rem - 1) as nat) {
                None => None::<(Seq<Seq<Seq<u8>>>, int)>,
                Some((xs, e)) => Some((seq![bv] + xs, e)),
            }));
            assert(forall|xs: Seq<Seq<Seq<u8>>>| #![auto] before + (seq![bv] + xs) =~= before.push(
                bv,
            ) + xs);
        }
        let ghost before = acc.deep_view();
        acc.push(block);
        proof {
            assert(acc.deep_view() =~~= before.push(block.deep_view()));
        }
        cur = next;
        rem = rem - 1;
    }
    proof {
        assert(dec_blocks(bytes@, cur as int, 0) == Some(
            (Seq::<Seq<Seq<u8>>>::empty(), cur as int),
        ));
        assert(acc.deep_view() + Seq::<Seq<Seq<u8>>>::empty() =~= acc.deep_view());
    }
    if cur == bytes.len() {
        Some(acc)
    } else {
        None
    }
}

} // verus!
