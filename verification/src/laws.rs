//! What parsing a serialized packet yields, proved once and for all.
//!
//! Serialization shuffles each block, and a receiver tries its keys in
//! order, so the delivered chunks are pinned down only up to order: within
//! the main block, and within the reply block a message carries.  The laws
//! therefore speak of multisets of *abstract chunks* ([`AbsChunk`]): a
//! received chunk with its reply block taken as a multiset.
//!
//! The main results:
//! - [`lemma_parse_of_wire`]: parsing any serialization of an authored
//!   packet, with any key list, yields exactly the chunks that were added
//!   for the keys' holders — in particular, exactly the messages added for
//!   them.  This also covers replying: a packet whose main block is a
//!   received reply block yields exactly the chunks authored into that
//!   block.
//! - [`lemma_parse_no_matching_keys`]: with no matching key, parsing yields
//!   nothing at all — no messages and no forwards.
//! - [`lemma_parse_of_wire_rejected`]: a signed packet parsed by a receiver
//!   that does not accept its signer yields nothing at all.
//! - [`lemma_serializations_agree`]: two serializations of the same blocks
//!   may differ as bytes, but parse to the same abstract chunks.
//! - [`lemma_same_build_same_payloads`]: two packets built by the same
//!   additions — every ciphertext drawn anew — parse to the same payloads
//!   ([`PayloadChunk`]: reply blocks forgotten entirely).

use crate::chunk::{SpecChunk, TAG_MESSAGE, TAG_TRANSPORT, dec_chunk, lemma_dec_chunk_forward_iff, plain_is_forward};
use crate::crypto::{encrypt, sign};
use crate::packet::{
    ChunkInfo, block_authored, chunk_authored, is_wire_of, parse_chunk, parse_chunk_seq,
    parse_main, parse_outcome, parse_yields_forward, try_open_spec, try_verify_spec,
};
use crate::wire;
use vstd::multiset::Multiset;
use vstd::prelude::*;

verus! {

broadcast use {
    vstd::seq_lib::group_to_multiset_ensures,
    vstd::multiset::group_multiset_axioms,
    vstd::seq_lib::lemma_multiset_commutative,
};

/// A received chunk up to the order inside its reply block.
pub enum AbsChunk {
    Message { contents: Seq<u8>, reply: Option<Multiset<Seq<u8>>> },
    Transport { url: Seq<char> },
}

/// Forgets the order inside a received chunk's reply block.
pub open spec fn abs_chunk(c: SpecChunk) -> AbsChunk {
    match c {
        SpecChunk::Message { contents, reply } => AbsChunk::Message {
            contents,
            reply: match reply {
                None => None,
                Some(rb) => Some(rb.to_multiset()),
            },
        },
        SpecChunk::Transport { url } => AbsChunk::Transport { url },
    }
}

/// The multiset of abstract chunks of a chunk sequence.
pub open spec fn abs_chunks_ms(cs: Seq<SpecChunk>) -> Multiset<AbsChunk>
    decreases cs.len(),
{
    if cs.len() == 0 {
        Multiset::empty()
    } else {
        abs_chunks_ms(cs.drop_last()).insert(abs_chunk(cs.last()))
    }
}

/// A key list holds a secret key matching the target public key.
pub open spec fn has_key(keys: Seq<Seq<u8>>, target: Seq<u8>) -> bool {
    exists|i: int| 0 <= i < keys.len() && encrypt::public_of(#[trigger] keys[i]) == target
}

/// The packet's signing mode and the receiver's verification mode agree:
/// both unsigned, or signed by a signer the receiver accepts.
pub open spec fn mode_ok(signer: Option<Seq<u8>>, signers: Option<Seq<Seq<u8>>>) -> bool {
    match (signer, signers) {
        (None, None) => true,
        (Some(sk), Some(ss)) => ss.contains(sign::sign_public_of(sk)),
        _ => false,
    }
}

/// What one authored chunk contributes to a receiver holding `keys`: its
/// decoded form when a key matches its target, else nothing.
pub open spec fn intended_chunk(info: ChunkInfo, keys: Seq<Seq<u8>>, replies: Seq<Seq<Seq<u8>>>)
    -> Multiset<AbsChunk> {
    if has_key(keys, info.target) {
        match dec_chunk(info.plain, replies) {
            Some(c) => Multiset::empty().insert(abs_chunk(c)),
            None => Multiset::empty(),
        }
    } else {
        Multiset::empty()
    }
}

/// Everything a block authored with the given records yields for a receiver
/// holding `keys`, with reply references resolved against `replies`.
pub open spec fn intended_abs_ms(
    infos: Seq<ChunkInfo>,
    keys: Seq<Seq<u8>>,
    replies: Seq<Seq<Seq<u8>>>,
) -> Multiset<AbsChunk>
    decreases infos.len(),
{
    if infos.len() == 0 {
        Multiset::empty()
    } else {
        intended_abs_ms(infos.drop_last(), keys, replies).add(
            intended_chunk(infos.last(), keys, replies),
        )
    }
}

/// What one wire chunk contributes to the abstract parse result.
pub open spec fn parse_abs_contrib(
    c: Seq<u8>,
    keys: Seq<Seq<u8>>,
    signers: Option<Seq<Seq<u8>>>,
    replies: Seq<Seq<Seq<u8>>>,
) -> Multiset<AbsChunk> {
    match parse_chunk(c, keys, signers, replies) {
        Some(sc) => Multiset::empty().insert(abs_chunk(sc)),
        None => Multiset::empty(),
    }
}

/// The abstract parse result of a whole main block.
pub open spec fn parse_abs_ms(
    main: Seq<Seq<u8>>,
    keys: Seq<Seq<u8>>,
    signers: Option<Seq<Seq<u8>>>,
    replies: Seq<Seq<Seq<u8>>>,
) -> Multiset<AbsChunk>
    decreases main.len(),
{
    if main.len() == 0 {
        Multiset::empty()
    } else {
        parse_abs_ms(main.drop_last(), keys, signers, replies).add(
            parse_abs_contrib(main.last(), keys, signers, replies),
        )
    }
}

/// The abstract parse result is the abstraction of the parsed chunk
/// sequence.
pub proof fn lemma_parse_abs_ms_is_abs(
    main: Seq<Seq<u8>>,
    keys: Seq<Seq<u8>>,
    signers: Option<Seq<Seq<u8>>>,
    replies: Seq<Seq<Seq<u8>>>,
)
    ensures
        parse_abs_ms(main, keys, signers, replies) == abs_chunks_ms(
            parse_main(main, keys, signers, replies),
        ),
    decreases main.len(),
{
    if main.len() == 0 {
    } else {
        lemma_parse_abs_ms_is_abs(main.drop_last(), keys, signers, replies);
        let prefix = parse_main(main.drop_last(), keys, signers, replies);
        let tail = parse_chunk_seq(main.last(), keys, signers, replies);
        lemma_abs_chunks_ms_concat(prefix, tail);
        match parse_chunk(main.last(), keys, signers, replies) {
            Some(sc) => {
                assert(tail.len() == 1);
                assert(tail.last() == sc);
                assert(tail.drop_last() =~= Seq::<SpecChunk>::empty());
                assert(abs_chunks_ms(tail.drop_last()) == Multiset::<AbsChunk>::empty());
                assert(abs_chunks_ms(tail) =~= Multiset::empty().insert(abs_chunk(sc)));
            },
            None => {
                assert(abs_chunks_ms(tail) =~= Multiset::<AbsChunk>::empty());
            },
        }
        assert(parse_abs_ms(main, keys, signers, replies) =~= abs_chunks_ms(
            parse_main(main, keys, signers, replies),
        ));
    }
}

/// Abstracting a concatenation adds the two abstractions.
proof fn lemma_abs_chunks_ms_concat(a: Seq<SpecChunk>, b: Seq<SpecChunk>)
    ensures
        abs_chunks_ms(a + b) == abs_chunks_ms(a).add(abs_chunks_ms(b)),
    decreases b.len(),
{
    if b.len() == 0 {
        assert(a + b =~= a);
        assert(abs_chunks_ms(a + b) =~= abs_chunks_ms(a).add(abs_chunks_ms(b)));
    } else {
        assert((a + b).drop_last() =~= a + b.drop_last());
        assert((a + b).last() == b.last());
        lemma_abs_chunks_ms_concat(a, b.drop_last());
        assert(abs_chunks_ms(a + b) =~= abs_chunks_ms(a).add(abs_chunks_ms(b)));
    }
}

/// An abstracted chunk sequence has one abstract chunk per chunk.
proof fn lemma_abs_chunks_ms_len(cs: Seq<SpecChunk>)
    ensures
        abs_chunks_ms(cs).len() == cs.len(),
    decreases cs.len(),
{
    if cs.len() == 0 {
    } else {
        lemma_abs_chunks_ms_len(cs.drop_last());
    }
}

/// Trying every key on a sealed box gives its plaintext exactly when some
/// key matches the box's target, whatever the order of the keys.
proof fn lemma_try_open_sealed(c: Seq<u8>, target: Seq<u8>, plain: Seq<u8>, keys: Seq<Seq<u8>>)
    requires
        encrypt::sealed_to(c, target, plain),
    ensures
        try_open_spec(c, keys) == if has_key(keys, target) {
            Some(plain)
        } else {
            None::<Seq<u8>>
        },
    decreases keys.len(),
{
    if keys.len() == 0 {
    } else {
        lemma_try_open_sealed(c, target, plain, keys.drop_first());
        if encrypt::public_of(keys.first()) == target {
            assert(has_key(keys, target)) by {
                assert(encrypt::public_of(keys[0]) == target);
            }
        } else {
            assert(has_key(keys, target) <==> has_key(keys.drop_first(), target)) by {
                if has_key(keys, target) {
                    let i = choose|i: int|
                        0 <= i < keys.len() && encrypt::public_of(#[trigger] keys[i]) == target;
                    assert(encrypt::public_of(keys.drop_first()[i - 1]) == target);
                }
                if has_key(keys.drop_first(), target) {
                    let i = choose|i: int|
                        0 <= i < keys.drop_first().len() && encrypt::public_of(
                            #[trigger] keys.drop_first()[i],
                        ) == target;
                    assert(encrypt::public_of(keys[i + 1]) == target);
                }
            }
        }
    }
}

/// Verifying an authored chunk against every accepted signer strips its
/// signature exactly when the author's key is accepted, whatever the order.
proof fn lemma_try_verify_authored(c: Seq<u8>, inner: Seq<u8>, sk: Seq<u8>, signers: Seq<Seq<u8>>)
    requires
        sign::verify_of(c, sign::sign_public_of(sk)) == Some(inner),
        forall|pk: Seq<u8>| pk != sign::sign_public_of(sk) ==> sign::verify_of(c, pk) is None,
    ensures
        try_verify_spec(c, signers) == if signers.contains(sign::sign_public_of(sk)) {
            Some(inner)
        } else {
            None::<Seq<u8>>
        },
    decreases signers.len(),
{
    if signers.len() == 0 {
    } else {
        lemma_try_verify_authored(c, inner, sk, signers.drop_first());
        if signers.first() == sign::sign_public_of(sk) {
            assert(signers.contains(sign::sign_public_of(sk))) by {
                assert(signers[0] == sign::sign_public_of(sk));
            }
        } else {
            assert(signers.contains(sign::sign_public_of(sk)) <==> signers.drop_first().contains(
                sign::sign_public_of(sk),
            )) by {
                if signers.contains(sign::sign_public_of(sk)) {
                    let i = choose|i: int|
                        0 <= i < signers.len() && signers[i] == sign::sign_public_of(sk);
                    assert(signers.drop_first()[i - 1] == sign::sign_public_of(sk));
                }
                if signers.drop_first().contains(sign::sign_public_of(sk)) {
                    let i = choose|i: int|
                        0 <= i < signers.drop_first().len() && signers.drop_first()[i]
                            == sign::sign_public_of(sk);
                    assert(signers[i + 1] == sign::sign_public_of(sk));
                }
            }
        }
    }
}

/// Parsing one authored chunk yields its decoded form exactly when a key
/// matches its target.
proof fn lemma_parse_chunk_authored(
    c: Seq<u8>,
    info: ChunkInfo,
    signer: Option<Seq<u8>>,
    keys: Seq<Seq<u8>>,
    signers: Option<Seq<Seq<u8>>>,
    replies: Seq<Seq<Seq<u8>>>,
)
    requires
        chunk_authored(c, info, signer),
        mode_ok(signer, signers),
    ensures
        parse_chunk(c, keys, signers, replies) == if has_key(keys, info.target) {
            dec_chunk(info.plain, replies)
        } else {
            None::<SpecChunk>
        },
{
    match (signer, signers) {
        (None, None) => {
            lemma_try_open_sealed(c, info.target, info.plain, keys);
        },
        (Some(sk), Some(ss)) => {
            let inner = sign::verify_of(c, sign::sign_public_of(sk))->Some_0;
            lemma_try_verify_authored(c, inner, sk, ss);
            lemma_try_open_sealed(inner, info.target, info.plain, keys);
        },
        _ => {},
    }
}

/// Parsing a whole authored block, in its authored order, yields exactly
/// the intended chunks.
proof fn lemma_parse_abs_authored(
    main: Seq<Seq<u8>>,
    infos: Seq<ChunkInfo>,
    signer: Option<Seq<u8>>,
    keys: Seq<Seq<u8>>,
    signers: Option<Seq<Seq<u8>>>,
    replies: Seq<Seq<Seq<u8>>>,
)
    requires
        block_authored(main, infos, signer),
        mode_ok(signer, signers),
    ensures
        parse_abs_ms(main, keys, signers, replies) == intended_abs_ms(infos, keys, replies),
    decreases main.len(),
{
    if main.len() == 0 {
    } else {
        assert(block_authored(main.drop_last(), infos.drop_last(), signer)) by {
            assert(forall|i: int|
                0 <= i < main.len() - 1 ==> main.drop_last()[i] == main[i]
                    && infos.drop_last()[i] == infos[i]);
        }
        lemma_parse_abs_authored(main.drop_last(), infos.drop_last(), signer, keys, signers, replies);
        assert(chunk_authored(main.last(), infos.last(), signer)) by {
            assert(main[main.len() - 1] == main.last());
        }
        lemma_parse_chunk_authored(main.last(), infos.last(), signer, keys, signers, replies);
        assert(parse_abs_contrib(main.last(), keys, signers, replies) =~= intended_chunk(
            infos.last(),
            keys,
            replies,
        ));
        assert(parse_abs_ms(main, keys, signers, replies) =~= intended_abs_ms(
            infos,
            keys,
            replies,
        ));
    }
}

/// Removing one wire chunk removes exactly its contribution.
proof fn lemma_parse_abs_ms_remove(
    main: Seq<Seq<u8>>,
    i: int,
    keys: Seq<Seq<u8>>,
    signers: Option<Seq<Seq<u8>>>,
    replies: Seq<Seq<Seq<u8>>>,
)
    requires
        0 <= i < main.len(),
    ensures
        parse_abs_ms(main, keys, signers, replies) == parse_abs_ms(
            main.remove(i),
            keys,
            signers,
            replies,
        ).add(parse_abs_contrib(main[i], keys, signers, replies)),
    decreases main.len(),
{
    if i == main.len() - 1 {
        assert(main.remove(i) =~= main.drop_last());
        assert(parse_abs_ms(main, keys, signers, replies) =~= parse_abs_ms(
            main.remove(i),
            keys,
            signers,
            replies,
        ).add(parse_abs_contrib(main[i], keys, signers, replies)));
    } else {
        assert(main.remove(i).drop_last() =~= main.drop_last().remove(i));
        assert(main.remove(i).last() == main.last());
        lemma_parse_abs_ms_remove(main.drop_last(), i, keys, signers, replies);
        assert(parse_abs_ms(main, keys, signers, replies) =~= parse_abs_ms(
            main.remove(i),
            keys,
            signers,
            replies,
        ).add(parse_abs_contrib(main[i], keys, signers, replies)));
    }
}

/// The abstract parse result does not depend on the order of the chunks in
/// the block: any two blocks with the same chunks parse to the same
/// multiset.
pub proof fn lemma_parse_abs_ms_permuted(
    m1: Seq<Seq<u8>>,
    m2: Seq<Seq<u8>>,
    keys: Seq<Seq<u8>>,
    signers: Option<Seq<Seq<u8>>>,
    replies: Seq<Seq<Seq<u8>>>,
)
    requires
        m1.to_multiset() == m2.to_multiset(),
    ensures
        parse_abs_ms(m1, keys, signers, replies) == parse_abs_ms(m2, keys, signers, replies),
    decreases m1.len(),
{
    if m1.len() == 0 {
        assert(m1.to_multiset().len() == 0);
        assert(m2.len() == 0);
    } else {
        let x = m1.last();
        assert(m1.contains(x)) by {
            assert(m1[m1.len() - 1] == x);
        }
        assert(m1.to_multiset().count(x) > 0);
        assert(m2.to_multiset().count(x) > 0);
        assert(m2.contains(x));
        let j = choose|j: int| 0 <= j < m2.len() && m2[j] == x;
        let m2r = m2.remove(j);
        assert(m1.drop_last() =~= m1.remove(m1.len() - 1));
        assert(m1.drop_last().to_multiset() =~= m1.to_multiset().remove(x)) by {
            assert(m1.remove(m1.len() - 1).to_multiset() =~= m1.to_multiset().remove(
                m1[m1.len() - 1],
            ));
        }
        assert(m2r.to_multiset() =~= m2.to_multiset().remove(x));
        assert(m1.drop_last().to_multiset() == m2r.to_multiset());
        lemma_parse_abs_ms_permuted(m1.drop_last(), m2r, keys, signers, replies);
        lemma_parse_abs_ms_remove(m2, j, keys, signers, replies);
        assert(parse_abs_ms(m1, keys, signers, replies) =~= parse_abs_ms(
            m2,
            keys,
            signers,
            replies,
        ));
    }
}

/// Two reply-block lists with the same blocks up to order resolve one
/// decoded chunk to the same abstract chunk.
proof fn lemma_dec_chunk_abs_replies(p: Seq<u8>, r1: Seq<Seq<Seq<u8>>>, r2: Seq<Seq<Seq<u8>>>)
    requires
        r1.len() == r2.len(),
        forall|k: int| 0 <= k < r1.len() ==> (#[trigger] r1[k]).to_multiset() == r2[k].to_multiset(),
    ensures
        dec_chunk(p, r1) is Some <==> dec_chunk(p, r2) is Some,
        dec_chunk(p, r1) matches Some(a) ==> dec_chunk(p, r2) matches Some(b) && abs_chunk(a)
            == abs_chunk(b),
{
}

/// Reply-block lists that agree up to order make no difference to the
/// abstract parse result.
proof fn lemma_parse_abs_ms_replies(
    main: Seq<Seq<u8>>,
    keys: Seq<Seq<u8>>,
    signers: Option<Seq<Seq<u8>>>,
    r1: Seq<Seq<Seq<u8>>>,
    r2: Seq<Seq<Seq<u8>>>,
)
    requires
        r1.len() == r2.len(),
        forall|k: int| 0 <= k < r1.len() ==> (#[trigger] r1[k]).to_multiset() == r2[k].to_multiset(),
    ensures
        parse_abs_ms(main, keys, signers, r1) == parse_abs_ms(main, keys, signers, r2),
    decreases main.len(),
{
    if main.len() == 0 {
    } else {
        lemma_parse_abs_ms_replies(main.drop_last(), keys, signers, r1, r2);
        let c = main.last();
        let body = match signers {
            None => Some(c),
            Some(ss) => try_verify_spec(c, ss),
        };
        match body {
            None => {},
            Some(b) => {
                match try_open_spec(b, keys) {
                    None => {},
                    Some(p) => {
                        lemma_dec_chunk_abs_replies(p, r1, r2);
                    },
                }
            },
        }
        assert(parse_abs_contrib(c, keys, signers, r1) =~= parse_abs_contrib(
            c,
            keys,
            signers,
            r2,
        ));
        assert(parse_abs_ms(main, keys, signers, r1) =~= parse_abs_ms(main, keys, signers, r2));
    }
}

/// Reply-block lists that agree up to order make no difference to the
/// intended chunks either.
proof fn lemma_intended_abs_replies(
    infos: Seq<ChunkInfo>,
    keys: Seq<Seq<u8>>,
    r1: Seq<Seq<Seq<u8>>>,
    r2: Seq<Seq<Seq<u8>>>,
)
    requires
        r1.len() == r2.len(),
        forall|k: int| 0 <= k < r1.len() ==> (#[trigger] r1[k]).to_multiset() == r2[k].to_multiset(),
    ensures
        intended_abs_ms(infos, keys, r1) == intended_abs_ms(infos, keys, r2),
    decreases infos.len(),
{
    if infos.len() == 0 {
    } else {
        lemma_intended_abs_replies(infos.drop_last(), keys, r1, r2);
        lemma_dec_chunk_abs_replies(infos.last().plain, r1, r2);
        assert(intended_chunk(infos.last(), keys, r1) =~= intended_chunk(infos.last(), keys, r2));
        assert(intended_abs_ms(infos, keys, r1) =~= intended_abs_ms(infos, keys, r2));
    }
}

/// Extracts, from `is_wire_of`, one block list that the bytes encode.
proof fn choose_wire_blocks(bytes: Seq<u8>, main: Seq<Seq<u8>>, replies: Seq<Seq<Seq<u8>>>) -> (bls:
    Seq<Seq<Seq<u8>>>)
    requires
        is_wire_of(bytes, main, replies),
    ensures
        wire::dec_packet(bytes) == Some(bls),
        bls.len() == 1 + replies.len(),
        bls[0].to_multiset() == main.to_multiset(),
        forall|k: int|
            0 <= k < replies.len() ==> (#[trigger] bls[k + 1]).to_multiset()
                == replies[k].to_multiset(),
        bls.skip(1).len() == replies.len(),
        forall|k: int|
            0 <= k < replies.len() ==> (#[trigger] bls.skip(1)[k]).to_multiset()
                == replies[k].to_multiset(),
{
    let bls = choose|bls: Seq<Seq<Seq<u8>>>|
        {
            &&& #[trigger] wire::enc_packet(bls) == bytes
            &&& wire::blocks_fit(bls)
            &&& bls.len() == 1 + replies.len()
            &&& bls[0].to_multiset() == main.to_multiset()
            &&& forall|k: int|
                0 <= k < replies.len() ==> (#[trigger] bls[k + 1]).to_multiset()
                    == replies[k].to_multiset()
        };
    wire::lemma_dec_packet_of_enc(bls);
    assert forall|k: int| 0 <= k < replies.len() implies (#[trigger] bls.skip(1)[k]).to_multiset()
        == replies[k].to_multiset() by {
        assert(bls.skip(1)[k] == bls[k + 1]);
    }
    bls
}

/// LAW.  Parsing any serialization of an authored packet yields, as a
/// multiset, exactly the chunks that were authored for the holders of the
/// given keys — in particular, exactly the messages added for them, each
/// carrying its reply block up to order, and nothing else.
///
/// `main0` and `infos` are the block and its ghost records in authored
/// order; `main` is the block as serialized, any reordering of `main0`.
/// Taking `main0 == main` covers an ordinary packet; a packet whose main
/// block was copied from a received (shuffled) reply block is covered by
/// letting `main0` be the block as originally authored.
pub proof fn lemma_parse_of_wire(
    bytes: Seq<u8>,
    main: Seq<Seq<u8>>,
    main0: Seq<Seq<u8>>,
    infos: Seq<ChunkInfo>,
    replies: Seq<Seq<Seq<u8>>>,
    signer: Option<Seq<u8>>,
    keys: Seq<Seq<u8>>,
    signers: Option<Seq<Seq<u8>>>,
)
    requires
        is_wire_of(bytes, main, replies),
        main.to_multiset() == main0.to_multiset(),
        block_authored(main0, infos, signer),
        mode_ok(signer, signers),
    ensures
        parse_outcome(bytes, keys, signers) matches Some(chunks) && abs_chunks_ms(chunks)
            == intended_abs_ms(infos, keys, replies),
{
    let bls = choose_wire_blocks(bytes, main, replies);
    let chunks = parse_main(bls[0], keys, signers, bls.skip(1));
    assert(parse_outcome(bytes, keys, signers) == Some(chunks));
    lemma_parse_abs_ms_is_abs(bls[0], keys, signers, bls.skip(1));
    lemma_parse_abs_ms_permuted(bls[0], main0, keys, signers, bls.skip(1));
    lemma_parse_abs_authored(main0, infos, signer, keys, signers, bls.skip(1));
    lemma_intended_abs_replies(infos, keys, bls.skip(1), replies);
}

/// With no matching key, nothing is intended.
proof fn lemma_intended_no_keys(infos: Seq<ChunkInfo>, keys: Seq<Seq<u8>>, replies: Seq<
    Seq<Seq<u8>>,
>)
    requires
        forall|i: int| 0 <= i < infos.len() ==> !has_key(keys, (#[trigger] infos[i]).target),
    ensures
        intended_abs_ms(infos, keys, replies) == Multiset::<AbsChunk>::empty(),
    decreases infos.len(),
{
    if infos.len() == 0 {
    } else {
        lemma_intended_no_keys(infos.drop_last(), keys, replies);
        assert(!has_key(keys, infos[infos.len() - 1].target));
        assert(intended_abs_ms(infos, keys, replies) =~= Multiset::<AbsChunk>::empty());
    }
}

/// LAW.  Parsing any serialization of an authored packet with keys that
/// match none of its chunks yields nothing at all: no messages and no
/// forwards.
pub proof fn lemma_parse_no_matching_keys(
    bytes: Seq<u8>,
    main: Seq<Seq<u8>>,
    main0: Seq<Seq<u8>>,
    infos: Seq<ChunkInfo>,
    replies: Seq<Seq<Seq<u8>>>,
    signer: Option<Seq<u8>>,
    keys: Seq<Seq<u8>>,
    signers: Option<Seq<Seq<u8>>>,
)
    requires
        is_wire_of(bytes, main, replies),
        main.to_multiset() == main0.to_multiset(),
        block_authored(main0, infos, signer),
        mode_ok(signer, signers),
        forall|i: int| 0 <= i < infos.len() ==> !has_key(keys, (#[trigger] infos[i]).target),
    ensures
        parse_outcome(bytes, keys, signers) == Some(Seq::<SpecChunk>::empty()),
{
    lemma_parse_of_wire(bytes, main, main0, infos, replies, signer, keys, signers);
    lemma_intended_no_keys(infos, keys, replies);
    let chunks = parse_outcome(bytes, keys, signers)->Some_0;
    lemma_abs_chunks_ms_len(chunks);
    assert(chunks.len() == 0);
    assert(chunks =~= Seq::<SpecChunk>::empty());
}

/// A signed block parsed by a receiver that does not accept the signer
/// yields nothing, chunk by chunk.
proof fn lemma_parse_abs_rejected(
    main0: Seq<Seq<u8>>,
    infos: Seq<ChunkInfo>,
    sk: Seq<u8>,
    keys: Seq<Seq<u8>>,
    ss: Seq<Seq<u8>>,
    replies: Seq<Seq<Seq<u8>>>,
)
    requires
        block_authored(main0, infos, Some(sk)),
        !ss.contains(sign::sign_public_of(sk)),
    ensures
        parse_abs_ms(main0, keys, Some(ss), replies) == Multiset::<AbsChunk>::empty(),
    decreases main0.len(),
{
    if main0.len() == 0 {
    } else {
        assert(block_authored(main0.drop_last(), infos.drop_last(), Some(sk))) by {
            assert(forall|i: int|
                0 <= i < main0.len() - 1 ==> main0.drop_last()[i] == main0[i]
                    && infos.drop_last()[i] == infos[i]);
        }
        lemma_parse_abs_rejected(main0.drop_last(), infos.drop_last(), sk, keys, ss, replies);
        assert(chunk_authored(main0.last(), infos.last(), Some(sk))) by {
            assert(main0[main0.len() - 1] == main0.last());
        }
        let inner = sign::verify_of(main0.last(), sign::sign_public_of(sk))->Some_0;
        lemma_try_verify_authored(main0.last(), inner, sk, ss);
        assert(parse_chunk(main0.last(), keys, Some(ss), replies) is None);
        assert(parse_abs_ms(main0, keys, Some(ss), replies) =~= Multiset::<AbsChunk>::empty());
    }
}

/// LAW.  A packet authored with signing key `sk`, parsed by a receiver
/// whose accepted signers do not include `sk`'s public key, yields nothing
/// at all, whatever decryption keys the receiver holds.  Together with
/// [`lemma_parse_of_wire`], a signed packet's chunks are delivered exactly
/// when the receiver accepts the author's public key.
pub proof fn lemma_parse_of_wire_rejected(
    bytes: Seq<u8>,
    main: Seq<Seq<u8>>,
    main0: Seq<Seq<u8>>,
    infos: Seq<ChunkInfo>,
    replies: Seq<Seq<Seq<u8>>>,
    sk: Seq<u8>,
    keys: Seq<Seq<u8>>,
    ss: Seq<Seq<u8>>,
)
    requires
        is_wire_of(bytes, main, replies),
        main.to_multiset() == main0.to_multiset(),
        block_authored(main0, infos, Some(sk)),
        !ss.contains(sign::sign_public_of(sk)),
    ensures
        parse_outcome(bytes, keys, Some(ss)) == Some(Seq::<SpecChunk>::empty()),
{
    let bls = choose_wire_blocks(bytes, main, replies);
    let chunks = parse_main(bls[0], keys, Some(ss), bls.skip(1));
    assert(parse_outcome(bytes, keys, Some(ss)) == Some(chunks));
    lemma_parse_abs_ms_is_abs(bls[0], keys, Some(ss), bls.skip(1));
    lemma_parse_abs_ms_permuted(bls[0], main0, keys, Some(ss), bls.skip(1));
    lemma_parse_abs_rejected(main0, infos, sk, keys, ss, bls.skip(1));
    lemma_abs_chunks_ms_len(chunks);
    assert(chunks.len() == 0);
    assert(chunks =~= Seq::<SpecChunk>::empty());
}

/// LAW.  Any serialization of a packet built with the `add` operations
/// parses, under any keys whose mode matches, to exactly the chunks that
/// were added for those keys' holders.  This is [`lemma_parse_of_wire`]
/// applied to the packet's own blocks and ghost records.
pub proof fn lemma_packet_parses_to_intended(
    p: &crate::packet::Packet,
    bytes: Seq<u8>,
    keys: Seq<Seq<u8>>,
    signers: Option<Seq<Seq<u8>>>,
)
    requires
        p.authored(),
        is_wire_of(bytes, p.main_view(), p.replies_view()),
        mode_ok(p.signer_view(), signers),
    ensures
        parse_outcome(bytes, keys, signers) matches Some(chunks) && abs_chunks_ms(chunks)
            == intended_abs_ms(p.main_info_view(), keys, p.replies_view()),
{
    lemma_parse_of_wire(
        bytes,
        p.main_view(),
        p.main_view(),
        p.main_info_view(),
        p.replies_view(),
        p.signer_view(),
        keys,
        signers,
    );
}

/// LAW.  A reply round-trips: a packet whose main block is a received reply
/// block — in whatever order the reply block arrived — parses, for a
/// recipient with the proper key, to exactly the chunks originally authored
/// inside that reply block.  `rb0` and `rb_infos` are the reply block and
/// its records as its author built them; `rb` is the block as it arrived;
/// `signer0` is the original author's signing key, whose public half the
/// recipient must accept.  Reply references inside a reply block point at
/// blocks of the packet it was built into, which the reply packet does not
/// carry, so they resolve against no reply blocks.
pub proof fn lemma_reply_block_round_trip(
    bytes: Seq<u8>,
    rb: Seq<Seq<u8>>,
    rb0: Seq<Seq<u8>>,
    rb_infos: Seq<ChunkInfo>,
    signer0: Option<Seq<u8>>,
    keys: Seq<Seq<u8>>,
    signers: Option<Seq<Seq<u8>>>,
)
    requires
        is_wire_of(bytes, rb, Seq::empty()),
        rb.to_multiset() == rb0.to_multiset(),
        block_authored(rb0, rb_infos, signer0),
        mode_ok(signer0, signers),
    ensures
        parse_outcome(bytes, keys, signers) matches Some(chunks) && abs_chunks_ms(chunks)
            == intended_abs_ms(rb_infos, keys, Seq::empty()),
{
    lemma_parse_of_wire(bytes, rb, rb0, rb_infos, Seq::empty(), signer0, keys, signers);
}

/// Whether a parsed chunk comes out as a forward instruction does not
/// depend on the packet's reply blocks.
proof fn lemma_parse_forward_independent(
    c: Seq<u8>,
    keys: Seq<Seq<u8>>,
    signers: Option<Seq<Seq<u8>>>,
    replies: Seq<Seq<Seq<u8>>>,
)
    ensures
        (parse_chunk(c, keys, signers, replies) matches Some(sc) && sc is Transport)
            <==> parse_yields_forward(c, keys, signers),
{
    let body = match signers {
        None => Some(c),
        Some(ss) => try_verify_spec(c, ss),
    };
    match body {
        None => {},
        Some(b) => {
            match try_open_spec(b, keys) {
                None => {},
                Some(p) => {
                    lemma_dec_chunk_forward_iff(p, replies);
                    lemma_dec_chunk_forward_iff(p, Seq::empty());
                },
            }
        },
    }
}

/// A block none of whose chunks yields a forward instruction parses to
/// chunks with no transport instruction among them.
pub proof fn lemma_parse_main_no_forward(
    main: Seq<Seq<u8>>,
    keys: Seq<Seq<u8>>,
    signers: Option<Seq<Seq<u8>>>,
    replies: Seq<Seq<Seq<u8>>>,
)
    requires
        forall|j: int| 0 <= j < main.len() ==> !parse_yields_forward(#[trigger] main[j], keys, signers),
    ensures
        !crate::mesher::has_transport_chunk(parse_main(main, keys, signers, replies)),
    decreases main.len(),
{
    if main.len() == 0 {
    } else {
        assert(forall|j: int|
            0 <= j < main.len() - 1 ==> main.drop_last()[j] == main[j]);
        lemma_parse_main_no_forward(main.drop_last(), keys, signers, replies);
        let prefix = parse_main(main.drop_last(), keys, signers, replies);
        let tail = parse_chunk_seq(main.last(), keys, signers, replies);
        assert(!parse_yields_forward(main[main.len() - 1], keys, signers));
        lemma_parse_forward_independent(main.last(), keys, signers, replies);
        let whole = prefix + tail;
        assert forall|i: int| 0 <= i < whole.len() implies !(#[trigger] whole[i] is Transport) by {
            if i < prefix.len() {
                assert(whole[i] == prefix[i]);
                assert(!crate::mesher::has_transport_chunk(prefix));
            } else {
                assert(whole[i] == tail[i - prefix.len()]);
                assert(parse_chunk(main.last(), keys, signers, replies) == Some(tail[i
                    - prefix.len()]));
            }
        }
    }
}

/// An authored chunk whose byte form is not a forward, or that the given
/// keys cannot read, never parses as a forward instruction — whether or not
/// the receiver accepts the signer, as long as the signing modes agree in
/// kind.
pub proof fn lemma_authored_not_forward(
    c: Seq<u8>,
    info: ChunkInfo,
    signer: Option<Seq<u8>>,
    keys: Seq<Seq<u8>>,
    signers: Option<Seq<Seq<u8>>>,
)
    requires
        chunk_authored(c, info, signer),
        signer is None <==> signers is None,
        !(has_key(keys, info.target) && plain_is_forward(info.plain)),
    ensures
        !parse_yields_forward(c, keys, signers),
{
    match (signer, signers) {
        (None, None) => {
            lemma_try_open_sealed(c, info.target, info.plain, keys);
            lemma_dec_chunk_forward_iff(info.plain, Seq::empty());
        },
        (Some(sk), Some(ss)) => {
            let inner = sign::verify_of(c, sign::sign_public_of(sk))->Some_0;
            lemma_try_verify_authored(c, inner, sk, ss);
            if ss.contains(sign::sign_public_of(sk)) {
                lemma_try_open_sealed(inner, info.target, info.plain, keys);
                lemma_dec_chunk_forward_iff(info.plain, Seq::empty());
            }
        },
        _ => {},
    }
}

/// LAW.  The wire form of any blocks parses (it is never `InvalidPacket`),
/// and when no chunk of the main block yields a forward instruction for the
/// given keys, the parsed chunks hold no transport instruction either.
pub proof fn lemma_wire_parse_no_forward(
    bytes: Seq<u8>,
    main: Seq<Seq<u8>>,
    replies: Seq<Seq<Seq<u8>>>,
    keys: Seq<Seq<u8>>,
    signers: Option<Seq<Seq<u8>>>,
)
    requires
        is_wire_of(bytes, main, replies),
    ensures
        parse_outcome(bytes, keys, signers) is Some,
        (forall|j: int|
            0 <= j < main.len() ==> !parse_yields_forward(#[trigger] main[j], keys, signers))
            ==> !crate::mesher::has_transport_chunk(parse_outcome(bytes, keys, signers)->Some_0),
{
    let bls = choose_wire_blocks(bytes, main, replies);
    let shuffled = bls[0];
    assert(parse_outcome(bytes, keys, signers) == Some(
        parse_main(shuffled, keys, signers, bls.skip(1)),
    ));
    if forall|j: int|
        0 <= j < main.len() ==> !parse_yields_forward(#[trigger] main[j], keys, signers) {
        assert forall|j: int| 0 <= j < shuffled.len() implies !parse_yields_forward(
            #[trigger] shuffled[j],
            keys,
            signers,
        ) by {
            assert(shuffled.contains(shuffled[j]));
            assert(shuffled.to_multiset().count(shuffled[j]) > 0);
            assert(main.to_multiset().count(shuffled[j]) > 0);
            assert(main.contains(shuffled[j]));
            let k = choose|k: int| 0 <= k < main.len() && main[k] == shuffled[j];
            assert(!parse_yields_forward(main[k], keys, signers));
        }
        lemma_parse_main_no_forward(shuffled, keys, signers, bls.skip(1));
    }
}

/// LAW.  Two serializations of the same blocks may differ in their bytes —
/// each block is shuffled anew — but any receiver parses them to the same
/// multiset of abstract chunks.
pub proof fn lemma_serializations_agree(
    bytes1: Seq<u8>,
    bytes2: Seq<u8>,
    main: Seq<Seq<u8>>,
    replies: Seq<Seq<Seq<u8>>>,
    keys: Seq<Seq<u8>>,
    signers: Option<Seq<Seq<u8>>>,
)
    requires
        is_wire_of(bytes1, main, replies),
        is_wire_of(bytes2, main, replies),
    ensures
        parse_outcome(bytes1, keys, signers) matches Some(c1) && parse_outcome(
            bytes2,
            keys,
            signers,
        ) matches Some(c2) && abs_chunks_ms(c1) == abs_chunks_ms(c2),
{
    let bls1 = choose_wire_blocks(bytes1, main, replies);
    let bls2 = choose_wire_blocks(bytes2, main, replies);
    let c1 = parse_main(bls1[0], keys, signers, bls1.skip(1));
    let c2 = parse_main(bls2[0], keys, signers, bls2.skip(1));
    lemma_parse_abs_ms_is_abs(bls1[0], keys, signers, bls1.skip(1));
    lemma_parse_abs_ms_is_abs(bls2[0], keys, signers, bls2.skip(1));
    assert(bls1[0].to_multiset() == bls2[0].to_multiset());
    lemma_parse_abs_ms_permuted(bls1[0], bls2[0], keys, signers, bls1.skip(1));
    lemma_parse_abs_ms_replies(bls2[0], keys, signers, bls1.skip(1), bls2.skip(1));
}

/// A received chunk with its reply block forgotten entirely: the payload
/// and whether a reply was offered with it, or the forward URL.  Two
/// packets built by the same additions carry different ciphertexts and
/// different reply-block bytes, but the same payloads.
pub enum PayloadChunk {
    Message { contents: Seq<u8>, offers_reply: bool },
    Transport { url: Seq<char> },
}

/// Forgets a received chunk's reply block.
pub open spec fn payload_chunk(c: SpecChunk) -> PayloadChunk {
    match c {
        SpecChunk::Message { contents, reply } => PayloadChunk::Message {
            contents,
            offers_reply: reply is Some,
        },
        SpecChunk::Transport { url } => PayloadChunk::Transport { url },
    }
}

/// The multiset of payloads of a chunk sequence.
pub open spec fn payload_chunks_ms(cs: Seq<SpecChunk>) -> Multiset<PayloadChunk>
    decreases cs.len(),
{
    if cs.len() == 0 {
        Multiset::empty()
    } else {
        payload_chunks_ms(cs.drop_last()).insert(payload_chunk(cs.last()))
    }
}

/// Decodes the byte form of one chunk down to its payload.  Only the
/// number of reply blocks matters: whether a reply reference is in range.
pub open spec fn dec_payload(p: Seq<u8>, n_replies: nat) -> Option<PayloadChunk> {
    if p.len() >= 2 && p[0] == TAG_MESSAGE {
        if p[1] == 0 {
            Some(PayloadChunk::Message { contents: p.skip(2), offers_reply: false })
        } else if p[1] - 1 < n_replies {
            Some(PayloadChunk::Message { contents: p.skip(2), offers_reply: true })
        } else {
            None
        }
    } else if p.len() >= 1 && p[0] == TAG_TRANSPORT {
        if vstd::utf8::valid_utf8(p.skip(1)) {
            Some(PayloadChunk::Transport { url: vstd::utf8::decode_utf8(p.skip(1)) })
        } else {
            None
        }
    } else {
        None
    }
}

/// The payload of a decoded chunk depends only on how many reply blocks
/// there are, not on what they hold.
proof fn lemma_dec_chunk_payload(p: Seq<u8>, replies: Seq<Seq<Seq<u8>>>)
    ensures
        dec_chunk(p, replies) is Some <==> dec_payload(p, replies.len()) is Some,
        dec_chunk(p, replies) matches Some(c) ==> dec_payload(p, replies.len()) == Some(
            payload_chunk(c),
        ),
{
}

/// What one wire chunk contributes to the payload parse result.
pub open spec fn parse_pay_contrib(
    c: Seq<u8>,
    keys: Seq<Seq<u8>>,
    signers: Option<Seq<Seq<u8>>>,
    replies: Seq<Seq<Seq<u8>>>,
) -> Multiset<PayloadChunk> {
    match parse_chunk(c, keys, signers, replies) {
        Some(sc) => Multiset::empty().insert(payload_chunk(sc)),
        None => Multiset::empty(),
    }
}

/// The payload parse result of a whole main block.
pub open spec fn parse_pay_ms(
    main: Seq<Seq<u8>>,
    keys: Seq<Seq<u8>>,
    signers: Option<Seq<Seq<u8>>>,
    replies: Seq<Seq<Seq<u8>>>,
) -> Multiset<PayloadChunk>
    decreases main.len(),
{
    if main.len() == 0 {
        Multiset::empty()
    } else {
        parse_pay_ms(main.drop_last(), keys, signers, replies).add(
            parse_pay_contrib(main.last(), keys, signers, replies),
        )
    }
}

/// Projecting a concatenation to payloads adds the two projections.
proof fn lemma_payload_chunks_ms_concat(a: Seq<SpecChunk>, b: Seq<SpecChunk>)
    ensures
        payload_chunks_ms(a + b) == payload_chunks_ms(a).add(payload_chunks_ms(b)),
    decreases b.len(),
{
    if b.len() == 0 {
        assert(a + b =~= a);
        assert(payload_chunks_ms(a + b) =~= payload_chunks_ms(a).add(payload_chunks_ms(b)));
    } else {
        assert((a + b).drop_last() =~= a + b.drop_last());
        assert((a + b).last() == b.last());
        lemma_payload_chunks_ms_concat(a, b.drop_last());
        assert(payload_chunks_ms(a + b) =~= payload_chunks_ms(a).add(payload_chunks_ms(b)));
    }
}

/// The payload parse result is the payload projection of the parsed chunk
/// sequence.
pub proof fn lemma_parse_pay_ms_is_payload(
    main: Seq<Seq<u8>>,
    keys: Seq<Seq<u8>>,
    signers: Option<Seq<Seq<u8>>>,
    replies: Seq<Seq<Seq<u8>>>,
)
    ensures
        parse_pay_ms(main, keys, signers, replies) == payload_chunks_ms(
            parse_main(main, keys, signers, replies),
        ),
    decreases main.len(),
{
    if main.len() == 0 {
    } else {
        lemma_parse_pay_ms_is_payload(main.drop_last(), keys, signers, replies);
        let prefix = parse_main(main.drop_last(), keys, signers, replies);
        let tail = parse_chunk_seq(main.last(), keys, signers, replies);
        lemma_payload_chunks_ms_concat(prefix, tail);
        match parse_chunk(main.last(), keys, signers, replies) {
            Some(sc) => {
                assert(tail.len() == 1);
                assert(tail.last() == sc);
                assert(tail.drop_last() =~= Seq::<SpecChunk>::empty());
                assert(payload_chunks_ms(tail.drop_last()) == Multiset::<PayloadChunk>::empty());
                assert(payload_chunks_ms(tail) =~= Multiset::empty().insert(payload_chunk(sc)));
            },
            None => {
                assert(payload_chunks_ms(tail) =~= Multiset::<PayloadChunk>::empty());
            },
        }
        assert(parse_pay_ms(main, keys, signers, replies) =~= payload_chunks_ms(
            parse_main(main, keys, signers, replies),
        ));
    }
}

/// Removing one wire chunk removes exactly its payload contribution.
proof fn lemma_parse_pay_ms_remove(
    main: Seq<Seq<u8>>,
    i: int,
    keys: Seq<Seq<u8>>,
    signers: Option<Seq<Seq<u8>>>,
    replies: Seq<Seq<Seq<u8>>>,
)
    requires
        0 <= i < main.len(),
    ensures
        parse_pay_ms(main, keys, signers, replies) == parse_pay_ms(
            main.remove(i),
            keys,
            signers,
            replies,
        ).add(parse_pay_contrib(main[i], keys, signers, replies)),
    decreases main.len(),
{
    if i == main.len() - 1 {
        assert(main.remove(i) =~= main.drop_last());
        assert(parse_pay_ms(main, keys, signers, replies) =~= parse_pay_ms(
            main.remove(i),
            keys,
            signers,
            replies,
        ).add(parse_pay_contrib(main[i], keys, signers, replies)));
    } else {
        assert(main.remove(i).drop_last() =~= main.drop_last().remove(i));
        assert(main.remove(i).last() == main.last());
        lemma_parse_pay_ms_remove(main.drop_last(), i, keys, signers, replies);
        assert(parse_pay_ms(main, keys, signers, replies) =~= parse_pay_ms(
            main.remove(i),
            keys,
            signers,
            replies,
        ).add(parse_pay_contrib(main[i], keys, signers, replies)));
    }
}

/// The payload parse result does not depend on the order of the chunks in
/// the block.
proof fn lemma_parse_pay_ms_permuted(
    m1: Seq<Seq<u8>>,
    m2: Seq<Seq<u8>>,
    keys: Seq<Seq<u8>>,
    signers: Option<Seq<Seq<u8>>>,
    replies: Seq<Seq<Seq<u8>>>,
)
    requires
        m1.to_multiset() == m2.to_multiset(),
    ensures
        parse_pay_ms(m1, keys, signers, replies) == parse_pay_ms(m2, keys, signers, replies),
    decreases m1.len(),
{
    if m1.len() == 0 {
        assert(m1.to_multiset().len() == 0);
        assert(m2.len() == 0);
    } else {
        let x = m1.last();
        assert(m1.contains(x)) by {
            assert(m1[m1.len() - 1] == x);
        }
        assert(m1.to_multiset().count(x) > 0);
        assert(m2.to_multiset().count(x) > 0);
        assert(m2.contains(x));
        let j = choose|j: int| 0 <= j < m2.len() && m2[j] == x;
        let m2r = m2.remove(j);
        assert(m1.drop_last() =~= m1.remove(m1.len() - 1));
        assert(m1.drop_last().to_multiset() =~= m1.to_multiset().remove(x)) by {
            assert(m1.remove(m1.len() - 1).to_multiset() =~= m1.to_multiset().remove(
                m1[m1.len() - 1],
            ));
        }
        assert(m2r.to_multiset() =~= m2.to_multiset().remove(x));
        assert(m1.drop_last().to_multiset() == m2r.to_multiset());
        lemma_parse_pay_ms_permuted(m1.drop_last(), m2r, keys, signers, replies);
        lemma_parse_pay_ms_remove(m2, j, keys, signers, replies);
        assert(parse_pay_ms(m1, keys, signers, replies) =~= parse_pay_ms(
            m2,
            keys,
            signers,
            replies,
        ));
    }
}

/// What one authored chunk contributes in payloads, given only how many
/// reply blocks the packet carries.
pub open spec fn intended_pay_chunk(info: ChunkInfo, keys: Seq<Seq<u8>>, n_replies: nat)
    -> Multiset<PayloadChunk> {
    if has_key(keys, info.target) {
        match dec_payload(info.plain, n_replies) {
            Some(c) => Multiset::empty().insert(c),
            None => Multiset::empty(),
        }
    } else {
        Multiset::empty()
    }
}

/// The payloads a block authored with the given records yields for a
/// receiver holding `keys`.  Unlike [`intended_abs_ms`], this depends on
/// the packet's reply blocks only through their number.
pub open spec fn intended_pay_ms(infos: Seq<ChunkInfo>, keys: Seq<Seq<u8>>, n_replies: nat)
    -> Multiset<PayloadChunk>
    decreases infos.len(),
{
    if infos.len() == 0 {
        Multiset::empty()
    } else {
        intended_pay_ms(infos.drop_last(), keys, n_replies).add(
            intended_pay_chunk(infos.last(), keys, n_replies),
        )
    }
}

/// Parsing a whole authored block, in its authored order, yields exactly
/// the intended payloads.
proof fn lemma_parse_pay_authored(
    main: Seq<Seq<u8>>,
    infos: Seq<ChunkInfo>,
    signer: Option<Seq<u8>>,
    keys: Seq<Seq<u8>>,
    signers: Option<Seq<Seq<u8>>>,
    replies: Seq<Seq<Seq<u8>>>,
)
    requires
        block_authored(main, infos, signer),
        mode_ok(signer, signers),
    ensures
        parse_pay_ms(main, keys, signers, replies) == intended_pay_ms(
            infos,
            keys,
            replies.len(),
        ),
    decreases main.len(),
{
    if main.len() == 0 {
    } else {
        assert(block_authored(main.drop_last(), infos.drop_last(), signer)) by {
            assert(forall|i: int|
                0 <= i < main.len() - 1 ==> main.drop_last()[i] == main[i]
                    && infos.drop_last()[i] == infos[i]);
        }
        lemma_parse_pay_authored(main.drop_last(), infos.drop_last(), signer, keys, signers, replies);
        assert(chunk_authored(main.last(), infos.last(), signer)) by {
            assert(main[main.len() - 1] == main.last());
        }
        lemma_parse_chunk_authored(main.last(), infos.last(), signer, keys, signers, replies);
        lemma_dec_chunk_payload(infos.last().plain, replies);
        assert(parse_pay_contrib(main.last(), keys, signers, replies) =~= intended_pay_chunk(
            infos.last(),
            keys,
            replies.len(),
        ));
        assert(parse_pay_ms(main, keys, signers, replies) =~= intended_pay_ms(
            infos,
            keys,
            replies.len(),
        ));
    }
}

/// LAW.  Two packets built by the same additions — the same messages, hops
/// and reply-path operations, so the same records `infos` and the same
/// number of reply blocks, though every ciphertext was drawn anew — parse,
/// from any serialization of either, to the same multiset of payloads: the
/// same message contents with the same reply offers, and the same forward
/// URLs.
pub proof fn lemma_same_build_same_payloads(
    bytes1: Seq<u8>,
    main1: Seq<Seq<u8>>,
    main01: Seq<Seq<u8>>,
    replies1: Seq<Seq<Seq<u8>>>,
    bytes2: Seq<u8>,
    main2: Seq<Seq<u8>>,
    main02: Seq<Seq<u8>>,
    replies2: Seq<Seq<Seq<u8>>>,
    infos: Seq<ChunkInfo>,
    signer: Option<Seq<u8>>,
    keys: Seq<Seq<u8>>,
    signers: Option<Seq<Seq<u8>>>,
)
    requires
        is_wire_of(bytes1, main1, replies1),
        main1.to_multiset() == main01.to_multiset(),
        block_authored(main01, infos, signer),
        is_wire_of(bytes2, main2, replies2),
        main2.to_multiset() == main02.to_multiset(),
        block_authored(main02, infos, signer),
        replies1.len() == replies2.len(),
        mode_ok(signer, signers),
    ensures
        parse_outcome(bytes1, keys, signers) matches Some(c1) && parse_outcome(
            bytes2,
            keys,
            signers,
        ) matches Some(c2) && payload_chunks_ms(c1) == payload_chunks_ms(c2),
{
    let bls1 = choose_wire_blocks(bytes1, main1, replies1);
    let bls2 = choose_wire_blocks(bytes2, main2, replies2);
    lemma_parse_pay_ms_is_payload(bls1[0], keys, signers, bls1.skip(1));
    lemma_parse_pay_ms_is_payload(bls2[0], keys, signers, bls2.skip(1));
    lemma_parse_pay_ms_permuted(bls1[0], main01, keys, signers, bls1.skip(1));
    lemma_parse_pay_ms_permuted(bls2[0], main02, keys, signers, bls2.skip(1));
    lemma_parse_pay_authored(main01, infos, signer, keys, signers, bls1.skip(1));
    lemma_parse_pay_authored(main02, infos, signer, keys, signers, bls2.skip(1));
    assert(bls1.skip(1).len() == replies1.len());
    assert(bls2.skip(1).len() == replies2.len());
}

} // verus!
