//! One node's control object: its keys, its transports, and the dispatch
//! loop that turns raw packets into delivered messages and forwards.
//!
//! A mesher holds the node's encryption secret keys and, in signed mode, the
//! public keys of the senders it accepts.  `launch` serializes a packet and
//! runs it through the node's own dispatch path, so chunks aimed at other
//! nodes are forwarded; `receive` polls every registered transport and
//! dispatches whatever arrived.  Chunks this node cannot verify, decrypt, or
//! decode are dropped in silence: every node sees chunks not meant for it,
//! and telling the caller which failed would leak what the node could not
//! read.

use crate::chunk::{Chunk, SpecChunk};
use crate::crypto::{encrypt, sign};
use crate::fail::MesherFail;
use crate::packet::{Packet, keys_view, keys_wf, parse_outcome, signers_view, signers_wf};
use crate::transport::Transport;
use std::sync::Arc;
use vstd::prelude::*;
use vstd::string::StringSliceAdditionalSpecFns;

verus! {

broadcast use vstd::std_specs::vec::axiom_spec_len;

/// The byte that separates a URL's scheme from the rest.
pub const COLON: u8 = 58;

/// A message delivered to this node: its contents, and the reply block that
/// came along with it, if any.
pub struct Message {
    pub(crate) contents: Vec<u8>,
    pub(crate) reply_path: Option<Arc<Vec<Vec<u8>>>>,
}

/// The mathematical form of a delivered message.
pub struct SpecMessage {
    pub contents: Seq<u8>,
    pub reply: Option<Seq<Seq<u8>>>,
}

impl View for Message {
    type V = SpecMessage;

    closed spec fn view(&self) -> SpecMessage {
        SpecMessage {
            contents: self.contents@,
            reply: match self.reply_path {
                None => None,
                Some(b) => Some(b.deep_view()),
            },
        }
    }
}

impl DeepView for Message {
    type V = SpecMessage;

    closed spec fn deep_view(&self) -> SpecMessage {
        self.view()
    }
}

impl Message {
    /// The contents of the message.
    pub fn contents(&self) -> (r: &[u8])
        ensures
            r@ == self@.contents,
    {
        self.contents.as_slice()
    }

    /// The contents of the message, discarding the rest.
    pub fn into_contents(self) -> (r: Vec<u8>)
        ensures
            r@ == self@.contents,
    {
        self.contents
    }

    /// The shared reply block the message carries, if any.
    pub(crate) fn reply_block(&self) -> (r: Option<&Arc<Vec<Vec<u8>>>>)
        ensures
            match r {
                Some(b) => self@.reply == Some(b.deep_view()),
                None => self@.reply is None,
            },
    {
        self.reply_path.as_ref()
    }

    /// Whether the message came with a reply path for an answer to follow.
    pub fn has_reply_path(&self) -> (r: bool)
        ensures
            r <==> self@.reply is Some,
    {
        self.reply_path.is_some()
    }
}

/// The messages among a sequence of parsed chunks, in order.
pub open spec fn spec_messages(chunks: Seq<SpecChunk>) -> Seq<SpecMessage>
    decreases chunks.len(),
{
    if chunks.len() == 0 {
        Seq::empty()
    } else {
        spec_messages(chunks.drop_last()) + (match chunks.last() {
            SpecChunk::Message { contents, reply } => seq![SpecMessage { contents, reply }],
            SpecChunk::Transport { .. } => Seq::empty(),
        })
    }
}

/// Whether any chunk in the sequence is a transport instruction.
pub open spec fn has_transport_chunk(chunks: Seq<SpecChunk>) -> bool {
    exists|i: int| 0 <= i < chunks.len() && chunks[i] is Transport
}

/// The index of the first colon in `b`, if any.
pub open spec fn find_colon(b: Seq<u8>) -> Option<int>
    decreases b.len(),
{
    if b.len() == 0 {
        None
    } else if b[0] == COLON {
        Some(0)
    } else {
        match find_colon(b.drop_first()) {
            Some(i) => Some(i + 1),
            None => None,
        }
    }
}

/// The scheme of a URL given as UTF-8 bytes: everything before the first
/// colon; nothing when there is no colon.
pub open spec fn scheme_of(b: Seq<u8>) -> Option<Seq<u8>> {
    match find_colon(b) {
        Some(i) => Some(b.take(i)),
        None => None,
    }
}

/// When position `i` holds the first colon, `find_colon` says so.
proof fn lemma_find_colon_at(b: Seq<u8>, i: int)
    requires
        0 <= i < b.len(),
        b[i] == COLON,
        forall|j: int| 0 <= j < i ==> b[j] != COLON,
    ensures
        find_colon(b) == Some(i),
    decreases i,
{
    if i == 0 {
    } else {
        lemma_find_colon_at(b.drop_first(), i - 1);
    }
}

/// When no position holds a colon, `find_colon` finds none.
proof fn lemma_find_colon_none(b: Seq<u8>)
    requires
        forall|j: int| 0 <= j < b.len() ==> b[j] != COLON,
    ensures
        find_colon(b) is None,
    decreases b.len(),
{
    if b.len() > 0 {
        lemma_find_colon_none(b.drop_first());
    }
}

/// Extracts a URL's scheme as bytes; mirrors [`scheme_of`].
fn extract_scheme(path: &str) -> (r: Option<Vec<u8>>)
    ensures
        match r {
            Some(v) => scheme_of(path.spec_bytes()) == Some(v@),
            None => scheme_of(path.spec_bytes()) is None,
        },
{
    let bytes = path.as_bytes();
    let mut i: usize = 0;
    while i < bytes.len()
        invariant
            0 <= i <= bytes@.len(),
            bytes@ == path.spec_bytes(),
            forall|j: int| 0 <= j < i ==> bytes@[j] != COLON,
        decreases bytes@.len() - i,
    {
        if bytes[i] == COLON {
            proof {
                lemma_find_colon_at(bytes@, i as int);
            }
            let scheme = vstd::slice::slice_to_vec(vstd::slice::slice_subrange(bytes, 0, i));
            proof {
                assert(scheme@ =~= bytes@.take(i as int));
            }
            return Some(scheme);
        }
        i += 1;
    }
    proof {
        lemma_find_colon_none(bytes@);
    }
    None
}

/// Compares two byte strings.
fn bytes_eq(a: &[u8], b: &[u8]) -> (r: bool)
    ensures
        r <==> a@ == b@,
{
    if a.len() != b.len() {
        proof {
            assert(a@.len() != b@.len());
        }
        return false;
    }
    let mut i: usize = 0;
    while i < a.len()
        invariant
            0 <= i <= a@.len(),
            a@.len() == b@.len(),
            forall|j: int| 0 <= j < i ==> a@[j] == b@[j],
        decreases a@.len() - i,
    {
        if a[i] != b[i] {
            return false;
        }
        i += 1;
    }
    proof {
        assert(a@ =~= b@);
    }
    true
}

/// Relies on std's Vec::push: the boxed transport is appended.  Stated as a
/// trusted item because the verifier does not apply its usual push
/// specification to a vector of boxed trait objects.
#[verifier::external_body]
fn push_transport(v: &mut Vec<Box<dyn Transport>>, t: Box<dyn Transport>)
    ensures
        final(v)@.len() == old(v)@.len() + 1,
{
    v.push(t);
}

/// One node's control object.  It stores keys only for the duration of the
/// process; managing them at rest is the application's concern.
pub struct Mesher {
    schemes: Vec<String>,
    transports: Vec<Box<dyn Transport>>,
    own_skeys: Vec<encrypt::SecretKey>,
    sender_pkeys: Vec<sign::PublicKey>,
}

impl Mesher {
    /// The UTF-8 bytes of each registered scheme, in registration order.
    pub closed spec fn schemes_view(&self) -> Seq<Seq<u8>> {
        Seq::new(self.schemes@.len(), |i: int| vstd::utf8::encode_utf8(self.schemes@[i]@))
    }

    /// The bytes of each owned encryption secret key.
    pub closed spec fn own_keys_view(&self) -> Seq<Seq<u8>> {
        keys_view(self.own_skeys@)
    }

    /// The bytes of each accepted signer public key.
    pub closed spec fn accepted_view(&self) -> Seq<Seq<u8>> {
        signers_view(self.sender_pkeys@)
    }

    /// A mesher with at least one accepted signer verifies every incoming
    /// chunk's signature; one with none expects unsigned chunks.
    pub open spec fn signed_mode(&self) -> bool {
        self.accepted_view().len() > 0
    }

    /// The verification mode incoming chunks are held to: the accepted
    /// signer keys in signed mode, nothing in unsigned mode.
    pub open spec fn verify_mode(&self) -> Option<Seq<Seq<u8>>> {
        if self.signed_mode() {
            Some(self.accepted_view())
        } else {
            None
        }
    }

    /// The keys are whole and every scheme has its transport.
    pub closed spec fn wf(&self) -> bool {
        &&& self.schemes@.len() == self.transports@.len()
        &&& keys_wf(self.own_skeys@)
        &&& signers_wf(self.sender_pkeys@)
    }

    /// What this mesher's dispatch yields for the given raw bytes: nothing
    /// when they do not decode as a packet, else the parsed chunks.
    pub open spec fn dispatch_outcome(&self, bytes: Seq<u8>) -> Option<Seq<SpecChunk>> {
        parse_outcome(bytes, self.own_keys_view(), self.verify_mode())
    }

    /// The message is among those that dispatching some raw packet with
    /// this mesher's keys yields.
    pub open spec fn message_from_dispatch(&self, m: SpecMessage) -> bool {
        exists|bytes: Seq<u8>|
            (#[trigger] self.dispatch_outcome(bytes) matches Some(chunks) && spec_messages(
                chunks,
            ).contains(m))
    }

    /// The messages that dispatching each of the given raw packets in turn
    /// yields, concatenated in order.  A packet that does not decode
    /// contributes nothing (dispatching it is an error, not a delivery).
    pub open spec fn messages_of_packets(&self, packets: Seq<Seq<u8>>) -> Seq<SpecMessage>
        decreases packets.len(),
    {
        if packets.len() == 0 {
            Seq::empty()
        } else {
            self.messages_of_packets(packets.drop_last()) + (match self.dispatch_outcome(
                packets.last(),
            ) {
                Some(chunks) => spec_messages(chunks),
                None => Seq::empty(),
            })
        }
    }

    /// LAW.  A packet addressed to nobody this mesher can read dispatches
    /// to nothing: the outcome is the empty chunk list, so by the contract
    /// of dispatching, no message is handed back and no forward is
    /// triggered.
    pub proof fn lemma_dispatch_nothing_for_others(
        &self,
        bytes: Seq<u8>,
        main: Seq<Seq<u8>>,
        main0: Seq<Seq<u8>>,
        infos: Seq<crate::packet::ChunkInfo>,
        replies: Seq<Seq<Seq<u8>>>,
        signer: Option<Seq<u8>>,
    )
        requires
            crate::packet::is_wire_of(bytes, main, replies),
            main.to_multiset() == main0.to_multiset(),
            crate::packet::block_authored(main0, infos, signer),
            crate::laws::mode_ok(signer, self.verify_mode()),
            forall|i: int|
                0 <= i < infos.len() ==> !crate::laws::has_key(
                    self.own_keys_view(),
                    (#[trigger] infos[i]).target,
                ),
        ensures
            self.dispatch_outcome(bytes) == Some(Seq::<SpecChunk>::empty()),
    {
        crate::laws::lemma_parse_no_matching_keys(
            bytes,
            main,
            main0,
            infos,
            replies,
            signer,
            self.own_keys_view(),
            self.verify_mode(),
        );
    }

    /// Creates a mesher that expects unsigned packets, owning the given
    /// decryption keys.
    pub fn unsigned(own_skeys: Vec<encrypt::SecretKey>) -> (r: Mesher)
        requires
            keys_wf(own_skeys@),
        ensures
            r.wf(),
            r.own_keys_view() == keys_view(own_skeys@),
            r.accepted_view().len() == 0,
            !r.signed_mode(),
            r.schemes_view().len() == 0,
    {
        Mesher {
            schemes: Vec::new(),
            transports: Vec::new(),
            own_skeys,
            sender_pkeys: Vec::new(),
        }
    }

    /// Creates a mesher that accepts only packets signed by one of the given
    /// senders.  At least one accepted signer must be given; a mesher that
    /// should accept unsigned packets is made with [`Mesher::unsigned`].
    pub fn signed(own_skeys: Vec<encrypt::SecretKey>, sender_pkeys: Vec<sign::PublicKey>) -> (r:
        Mesher)
        requires
            keys_wf(own_skeys@),
            signers_wf(sender_pkeys@),
            sender_pkeys@.len() > 0,
        ensures
            r.wf(),
            r.own_keys_view() == keys_view(own_skeys@),
            r.accepted_view() == signers_view(sender_pkeys@),
            r.signed_mode(),
            r.schemes_view().len() == 0,
    {
        Mesher { schemes: Vec::new(), transports: Vec::new(), own_skeys, sender_pkeys }
    }

    /// The index of the transport registered for the given scheme bytes.
    fn find_scheme_index(&self, scheme_bytes: &Vec<u8>) -> (r: Option<usize>)
        requires
            self.wf(),
        ensures
            match r {
                Some(i) => i < self.schemes_view().len() && self.schemes_view()[i as int]
                    == scheme_bytes@,
                None => forall|i: int|
                    0 <= i < self.schemes_view().len() ==> self.schemes_view()[i] != scheme_bytes@,
            },
    {
        let mut i: usize = 0;
        while i < self.schemes.len()
            invariant
                0 <= i <= self.schemes@.len(),
                forall|j: int| 0 <= j < i ==> self.schemes_view()[j] != scheme_bytes@,
            decreases self.schemes@.len() - i,
        {
            if bytes_eq(self.schemes[i].as_str().as_bytes(), scheme_bytes.as_slice()) {
                proof {
                    assert(self.schemes_view()[i as int] == scheme_bytes@);
                }
                return Some(i);
            }
            proof {
                assert(self.schemes_view()[i as int] != scheme_bytes@);
            }
            i += 1;
        }
        None
    }

    /// Registers a transport instance under the given scheme, replacing any
    /// transport previously registered for it.
    pub fn register_transport<T: Transport + 'static>(&mut self, scheme: &str, transport: T)
        requires
            old(self).wf(),
        ensures
            final(self).wf(),
            final(self).own_keys_view() == old(self).own_keys_view(),
            final(self).accepted_view() == old(self).accepted_view(),
            final(self).schemes_view().contains(scheme.spec_bytes()),
    {
        let boxed: Box<dyn Transport> = Box::new(transport);
        let scheme_string = scheme.to_owned();
        let ghost target = scheme.spec_bytes();
        let bytes = vstd::slice::slice_to_vec(scheme.as_bytes());
        match self.find_scheme_index(&bytes) {
            Some(i) => {
                let slot = vstd::std_specs::vec::vec_index_mut(&mut self.transports, i);
                *slot = boxed;
                proof {
                    assert(self.schemes_view()[i as int] == target);
                }
            },
            None => {
                let ghost before = self.schemes_view();
                self.schemes.push(scheme_string);
                push_transport(&mut self.transports, boxed);
                proof {
                    assert(self.schemes_view()[before.len() as int] == target);
                }
            },
        }
    }

    /// Instantiates transport type `T` for the given scheme and registers
    /// it; on `Err` the transport could not be constructed and nothing is
    /// registered.
    pub fn add_transport<T: Transport + 'static>(&mut self, scheme: &str) -> (r: Result<
        (),
        MesherFail,
    >)
        requires
            old(self).wf(),
        ensures
            final(self).wf(),
            final(self).own_keys_view() == old(self).own_keys_view(),
            final(self).accepted_view() == old(self).accepted_view(),
            r is Ok ==> final(self).schemes_view().contains(scheme.spec_bytes()),
            r is Err ==> final(self).schemes_view() == old(self).schemes_view(),
    {
        let transport = match T::new(scheme) {
            Ok(t) => t,
            Err(e) => {
                return Err(e);
            },
        };
        self.register_transport(scheme, transport);
        Ok(())
    }

    /// Looks the transport up for a path and hands it the raw packet
    /// bytes.  `InvalidPacket` is reserved for bytes that do not decode as
    /// a packet — a judgment no transport makes — so a transport answering
    /// with it is reported as the send failure it is.
    fn send_data(&mut self, packet: &Vec<u8>, path: &String) -> (r: Result<(), MesherFail>)
        requires
            old(self).wf(),
        ensures
            final(self).wf(),
            final(self).own_keys_view() == old(self).own_keys_view(),
            final(self).accepted_view() == old(self).accepted_view(),
            final(self).schemes_view() == old(self).schemes_view(),
            r matches Err(e) ==> !(e is InvalidPacket),
            match scheme_of(vstd::utf8::encode_utf8(path@)) {
                None => r matches Err(e) && e is InvalidURL,
                Some(s) => {
                    &&& s.len() == 0 ==> (r matches Err(e) && e is InvalidURL)
                    &&& s.len() > 0 && !old(self).schemes_view().contains(s) ==> (r matches Err(e)
                        && e is UnregisteredScheme)
                },
            },
    {
        let scheme = match extract_scheme(path.as_str()) {
            None => {
                return Err(MesherFail::InvalidURL(path.as_str().to_owned()));
            },
            Some(s) => s,
        };
        if scheme.len() == 0 {
            return Err(MesherFail::InvalidURL(path.as_str().to_owned()));
        }
        let idx = match self.find_scheme_index(&scheme) {
            None => {
                proof {
                    assert(forall|i: int|
                        0 <= i < self.schemes_view().len() ==> self.schemes_view()[i] != scheme@);
                    assert(!self.schemes_view().contains(scheme@));
                }
                return Err(MesherFail::UnregisteredScheme(path.as_str().to_owned()));
            },
            Some(i) => i,
        };
        let transport = vstd::std_specs::vec::vec_index_mut(&mut self.transports, idx);
        match transport.send(path.clone(), vstd::slice::slice_to_vec(packet.as_slice())) {
            Ok(()) => Ok(()),
            Err(MesherFail::InvalidPacket) => Err(MesherFail::SendFailure(path.clone())),
            Err(other) => Err(other),
        }
    }

    /// Dispatches one raw packet: collects the messages addressed to this
    /// node and forwards the unchanged bytes wherever a transport chunk
    /// directs.  A forwarding failure aborts the rest of the packet.
    fn process_packet(&mut self, pkt: &Vec<u8>) -> (r: Result<Vec<Message>, MesherFail>)
        requires
            old(self).wf(),
        ensures
            final(self).wf(),
            final(self).own_keys_view() == old(self).own_keys_view(),
            final(self).accepted_view() == old(self).accepted_view(),
            final(self).schemes_view() == old(self).schemes_view(),
            (r matches Err(e) && e is InvalidPacket) <==> old(self).dispatch_outcome(pkt@)
                is None,
            r matches Ok(msgs) ==> old(self).dispatch_outcome(pkt@) matches Some(chunks)
                && msgs.deep_view() == spec_messages(chunks),
            (old(self).dispatch_outcome(pkt@) matches Some(chunks) && !has_transport_chunk(chunks))
                ==> r is Ok,
    {
        let parsed = if self.sender_pkeys.len() == 0 {
            Packet::deserialize(pkt.as_slice(), self.own_skeys.as_slice())
        } else {
            Packet::deserialize_signed(
                pkt.as_slice(),
                self.own_skeys.as_slice(),
                self.sender_pkeys.as_slice(),
            )
        };
        let mut chunks = match parsed {
            Ok(c) => c,
            Err(e) => {
                return Err(e);
            },
        };
        let ghost cv = chunks.deep_view();
        proof {
            assert(old(self).dispatch_outcome(pkt@) == Some(cv));
        }
        let mut messages: Vec<Message> = Vec::new();
        let ghost total = cv.len();
        proof {
            assert(vstd::std_specs::vec::spec_vec_len(&chunks) == chunks@.len());
            assert(total <= usize::MAX);
            assert(messages.deep_view() =~= spec_messages(cv.take(0)));
        }
        let mut done: usize = 0;
        while chunks.len() > 0
            invariant
                old(self).wf(),
                self.wf(),
                self.own_keys_view() == old(self).own_keys_view(),
                self.accepted_view() == old(self).accepted_view(),
                self.schemes_view() == old(self).schemes_view(),
                old(self).dispatch_outcome(pkt@) == Some(cv),
                total == cv.len(),
                total <= usize::MAX,
                done <= total,
                done + chunks@.len() == total,
                chunks.deep_view() =~~= cv.skip(done as int),
                messages.deep_view() =~~= spec_messages(cv.take(done as int)),
            decreases chunks@.len(),
        {
            let ghost chunks_before = chunks.deep_view();
            proof {
                assert(chunks@.len() > 0);
                assert(0 <= done < total);
                assert(chunks_before[0] == cv.skip(done as int)[0]);
                assert(cv.skip(done as int)[0] == cv[done as int]);
            }
            let chunk = chunks.remove(0);
            proof {
                assert(chunks.deep_view() =~~= chunks_before.drop_first());
                assert(chunks_before.drop_first() =~~= cv.skip(done as int + 1));
                assert(chunk.deep_view() == cv[done as int]);
                assert(cv.take(done as int + 1).drop_last() =~= cv.take(done as int));
                assert(cv.take(done as int + 1).last() == cv[done as int]);
            }
            let ghost msgs_before = messages.deep_view();
            match chunk {
                Chunk::Message(contents, reply_path) => {
                    let m = Message { contents, reply_path };
                    let ghost mv = m.deep_view();
                    messages.push(m);
                    proof {
                        assert(messages.deep_view() =~~= msgs_before.push(mv));
                        assert(spec_messages(cv.take(done as int + 1)) =~~= msgs_before.push(mv));
                    }
                },
                Chunk::Transport(url) => {
                    proof {
                        assert(cv[done as int] is Transport);
                        assert(has_transport_chunk(cv));
                    }
                    match self.send_data(pkt, &url) {
                        Ok(()) => {
                            proof {
                                assert(spec_messages(cv.take(done as int + 1)) =~~= msgs_before);
                            }
                        },
                        Err(e) => {
                            return Err(e);
                        },
                    }
                },
            }
            done = done + 1;
        }
        proof {
            assert(cv.take(total as int) =~= cv);
        }
        Ok(messages)
    }

    /// Serializes a packet and runs it through this node's own dispatch
    /// path: chunks meant for other nodes are forwarded, while messages
    /// destined for this node are dropped rather than delivered to self.
    /// The node's own serialization always decodes again, so `InvalidPacket`
    /// never comes back; errors arise only from looking transports up and
    /// driving them, so a packet that directs this node to forward nothing
    /// launches without error.
    pub fn launch(&mut self, packet: Packet) -> (r: Result<(), MesherFail>)
        requires
            old(self).wf(),
            packet.wf(),
        ensures
            final(self).wf(),
            final(self).own_keys_view() == old(self).own_keys_view(),
            final(self).accepted_view() == old(self).accepted_view(),
            final(self).schemes_view() == old(self).schemes_view(),
            r matches Err(e) ==> !(e is InvalidPacket),
            (forall|j: int|
                0 <= j < packet.main_view().len() ==> !crate::packet::parse_yields_forward(
                    #[trigger] packet.main_view()[j],
                    old(self).own_keys_view(),
                    old(self).verify_mode(),
                )) ==> r is Ok,
            (packet.authored() && crate::laws::mode_ok(
                packet.signer_view(),
                old(self).verify_mode(),
            ) && (forall|i: int|
                0 <= i < packet.main_info_view().len() ==> !(crate::laws::has_key(
                    old(self).own_keys_view(),
                    (#[trigger] packet.main_info_view()[i]).target,
                ) && crate::chunk::plain_is_forward(packet.main_info_view()[i].plain)))) ==> r
                is Ok,
    {
        let ghost main = packet.main_view();
        let ghost replies = packet.replies_view();
        let ghost infos = packet.main_info_view();
        let ghost signer = packet.signer_view();
        let ghost was_authored = packet.authored();
        let ghost kv = old(self).own_keys_view();
        let ghost sv = old(self).verify_mode();
        let bytes = match packet.serialize() {
            Ok(b) => b,
            Err(e) => {
                return Err(e);
            },
        };
        proof {
            if was_authored && crate::laws::mode_ok(signer, sv) && (forall|i: int|
                0 <= i < infos.len() ==> !(crate::laws::has_key(
                    kv,
                    (#[trigger] infos[i]).target,
                ) && crate::chunk::plain_is_forward(infos[i].plain))) {
                assert(crate::packet::block_authored(main, infos, signer));
                assert forall|j: int|
                    0 <= j < main.len() implies !crate::packet::parse_yields_forward(
                    #[trigger] main[j],
                    kv,
                    sv,
                ) by {
                    assert(crate::packet::chunk_authored(main[j], infos[j], signer));
                    crate::laws::lemma_authored_not_forward(main[j], infos[j], signer, kv, sv);
                }
            }
            crate::laws::lemma_wire_parse_no_forward(bytes@, main, replies, kv, sv);
        }
        match self.process_packet(&bytes) {
            Ok(_) => Ok(()),
            Err(e) => Err(e),
        }
    }

    /// Tells the transport for the given path to start collecting packets
    /// addressed to it.
    pub fn listen_on(&mut self, path: &str) -> (r: Result<(), MesherFail>)
        requires
            old(self).wf(),
        ensures
            final(self).wf(),
            final(self).own_keys_view() == old(self).own_keys_view(),
            final(self).accepted_view() == old(self).accepted_view(),
            final(self).schemes_view() == old(self).schemes_view(),
            match scheme_of(path.spec_bytes()) {
                None => r matches Err(e) && e is InvalidURL,
                Some(s) => {
                    &&& s.len() == 0 ==> (r matches Err(e) && e is InvalidURL)
                    &&& s.len() > 0 && !old(self).schemes_view().contains(s) ==> (r matches Err(e)
                        && e is UnregisteredScheme)
                },
            },
    {
        let scheme = match extract_scheme(path) {
            None => {
                return Err(MesherFail::InvalidURL(path.to_owned()));
            },
            Some(s) => s,
        };
        if scheme.len() == 0 {
            return Err(MesherFail::InvalidURL(path.to_owned()));
        }
        let idx = match self.find_scheme_index(&scheme) {
            None => {
                proof {
                    assert(!self.schemes_view().contains(scheme@));
                }
                return Err(MesherFail::UnregisteredScheme(path.to_owned()));
            },
            Some(i) => i,
        };
        let transport = vstd::std_specs::vec::vec_index_mut(&mut self.transports, idx);
        transport.listen(path.to_owned())
    }

    /// Collects the pending packets of every registered transport, in
    /// registration order, and dispatches each one.  With no owned secret
    /// keys there is nothing this node could ever read, so it fails with
    /// `NoKeys` before touching any transport; with keys but no registered
    /// transport nothing can arrive, so the result is empty.  Every message
    /// handed back came out of dispatching some raw packet with this node's
    /// own keys: nothing is invented and nothing undecryptable leaks
    /// through.
    pub fn receive(&mut self) -> (r: Result<Vec<Message>, MesherFail>)
        requires
            old(self).wf(),
        ensures
            final(self).wf(),
            final(self).own_keys_view() == old(self).own_keys_view(),
            final(self).accepted_view() == old(self).accepted_view(),
            final(self).schemes_view() == old(self).schemes_view(),
            old(self).own_keys_view().len() == 0 ==> (r matches Err(e) && e is NoKeys),
            r matches Ok(msgs) ==> (exists|arrived: Seq<Seq<u8>>|
                msgs.deep_view() == #[trigger] old(self).messages_of_packets(arrived)),
            r matches Ok(msgs) ==> (forall|k: int|
                0 <= k < msgs@.len() ==> old(self).message_from_dispatch(
                    (#[trigger] msgs@[k])@,
                )),
            old(self).own_keys_view().len() > 0 && old(self).schemes_view().len() == 0 ==> (
            r matches Ok(msgs) && msgs@.len() == 0),
    {
        if self.own_skeys.len() == 0 {
            return Err(MesherFail::NoKeys);
        }
        let mut packets: Vec<Vec<u8>> = Vec::new();
        let mut i: usize = 0;
        while i < self.transports.len()
            invariant
                self.wf(),
                self.own_keys_view() == old(self).own_keys_view(),
                self.accepted_view() == old(self).accepted_view(),
                self.schemes_view() == old(self).schemes_view(),
                old(self).own_keys_view().len() > 0,
                old(self).schemes_view().len() == 0 ==> packets@.len() == 0,
                i <= self.transports@.len(),
            decreases self.transports@.len() - i,
        {
            proof {
                assert(self.transports@.len() > 0);
                assert(self.schemes_view().len() == self.schemes@.len());
            }
            let transport = vstd::std_specs::vec::vec_index_mut(&mut self.transports, i);
            let mut arrived = match transport.receive() {
                Ok(a) => a,
                Err(e) => {
                    return Err(e);
                },
            };
            packets.append(&mut arrived);
            i += 1;
        }
        let mut messages: Vec<Message> = Vec::new();
        proof {
            assert(messages.deep_view() =~~= old(self).messages_of_packets(
                packets.deep_view().take(0),
            ));
        }
        let mut j: usize = 0;
        while j < packets.len()
            invariant
                self.wf(),
                self.own_keys_view() == old(self).own_keys_view(),
                self.accepted_view() == old(self).accepted_view(),
                self.schemes_view() == old(self).schemes_view(),
                old(self).own_keys_view().len() > 0,
                old(self).schemes_view().len() == 0 ==> packets@.len() == 0,
                old(self).schemes_view().len() == 0 ==> messages@.len() == 0,
                forall|k: int|
                    0 <= k < messages@.len() ==> old(self).message_from_dispatch(
                        (#[trigger] messages@[k])@,
                    ),
                messages.deep_view() == old(self).messages_of_packets(
                    packets.deep_view().take(j as int),
                ),
                j <= packets@.len(),
            decreases packets@.len() - j,
        {
            let ghost pkt_bytes = packets@[j as int]@;
            let mut found = match self.process_packet(&packets[j]) {
                Ok(m) => m,
                Err(e) => {
                    return Err(e);
                },
            };
            let ghost found_views = found.deep_view();
            let ghost before = messages@;
            proof {
                let chunks = old(self).dispatch_outcome(pkt_bytes)->Some_0;
                assert(old(self).dispatch_outcome(pkt_bytes) == Some(chunks));
                assert(found_views == spec_messages(chunks));
            }
            let ghost before_deep = messages.deep_view();
            messages.append(&mut found);
            proof {
                let chunks = old(self).dispatch_outcome(pkt_bytes)->Some_0;
                assert forall|k: int| 0 <= k < messages@.len() implies old(
                    self,
                ).message_from_dispatch((#[trigger] messages@[k])@) by {
                    if k >= before.len() {
                        let t = k - before.len();
                        assert(messages@[k]@ == found_views[t]);
                        assert(spec_messages(chunks)[t] == messages@[k]@);
                        assert(spec_messages(chunks).contains(messages@[k]@));
                    }
                }
                let pv = packets.deep_view();
                assert(pv.take(j as int + 1).drop_last() =~= pv.take(j as int));
                assert(pv.take(j as int + 1).last() == pv[j as int]);
                assert(pv[j as int] == pkt_bytes);
                assert(messages.deep_view() =~~= before_deep + found_views);
                assert(messages.deep_view() =~~= old(self).messages_of_packets(
                    pv.take(j as int + 1),
                ));
            }
            j += 1;
        }
        proof {
            assert(packets.deep_view().take(packets@.len() as int) =~= packets.deep_view());
            assert(messages.deep_view() == old(self).messages_of_packets(packets.deep_view()));
        }
        Ok(messages)
    }

    /// Answers a received message: builds an unsigned packet whose main
    /// block is the message's reply block, adds `payload` for `target`, and
    /// launches it.  Fails with `NoReplyRoute` when the message carries no
    /// reply path.  The appended chunk is a message, never a forward, so
    /// when no chunk of the carried reply block directs this node itself to
    /// forward, the reply launches without error.
    pub fn reply(&mut self, message: &Message, payload: &[u8], target: &encrypt::PublicKey) -> (r:
        Result<(), MesherFail>)
        requires
            old(self).wf(),
            target.wf(),
        ensures
            final(self).wf(),
            final(self).own_keys_view() == old(self).own_keys_view(),
            final(self).accepted_view() == old(self).accepted_view(),
            final(self).schemes_view() == old(self).schemes_view(),
            message@.reply is None ==> (r matches Err(e) && e is NoReplyRoute),
            r is Ok ==> message@.reply is Some,
            (message@.reply matches Some(rb) && !old(self).signed_mode() && (forall|i: int|
                0 <= i < rb.len() ==> !crate::packet::parse_yields_forward(
                    #[trigger] rb[i],
                    old(self).own_keys_view(),
                    None,
                ))) ==> r is Ok,
    {
        let ghost kv = old(self).own_keys_view();
        let block = match &message.reply_path {
            None => {
                return Err(MesherFail::NoReplyRoute);
            },
            Some(arc) => crate::packet::clone_shared_block(arc),
        };
        let ghost rb = message@.reply->Some_0;
        proof {
            assert(block.deep_view() == rb);
        }
        let mut packet = Packet::from_reply_block(block);
        packet.add_message(payload, target);
        proof {
            let mv = packet.main_view();
            if !old(self).signed_mode() && (forall|i: int|
                0 <= i < rb.len() ==> !crate::packet::parse_yields_forward(
                    #[trigger] rb[i],
                    kv,
                    None,
                )) {
                let info = crate::packet::ChunkInfo {
                    plain: crate::chunk::plain_message(payload@, None),
                    target: target@,
                };
                assert(!crate::chunk::plain_is_forward(info.plain)) by {
                    assert(info.plain[0] == crate::chunk::TAG_MESSAGE);
                }
                assert forall|j: int|
                    0 <= j < mv.len() implies !crate::packet::parse_yields_forward(
                    #[trigger] mv[j],
                    kv,
                    old(self).verify_mode(),
                ) by {
                    if j < rb.len() {
                        assert(mv[j] == rb[j]);
                    } else {
                        assert(mv[j] == mv.last());
                        crate::laws::lemma_authored_not_forward(
                            mv.last(),
                            info,
                            None,
                            kv,
                            old(self).verify_mode(),
                        );
                    }
                }
            }
        }
        self.launch(packet)
    }

    /// Answers a received message with signed chunks: as [`Mesher::reply`],
    /// but the outgoing packet is signed with `skey`, so a signed-mode
    /// mesher can drive its own reply: whether or not it accepts `skey`'s
    /// public key, its own signed message chunk never reads as a forward.
    pub fn signed_reply(
        &mut self,
        message: &Message,
        payload: &[u8],
        target: &encrypt::PublicKey,
        skey: sign::SecretKey,
    ) -> (r: Result<(), MesherFail>)
        requires
            old(self).wf(),
            target.wf(),
            skey.wf(),
        ensures
            final(self).wf(),
            final(self).own_keys_view() == old(self).own_keys_view(),
            final(self).accepted_view() == old(self).accepted_view(),
            final(self).schemes_view() == old(self).schemes_view(),
            message@.reply is None ==> (r matches Err(e) && e is NoReplyRoute),
            r is Ok ==> message@.reply is Some,
            (message@.reply matches Some(rb) && old(self).signed_mode() && (forall|i: int|
                0 <= i < rb.len() ==> !crate::packet::parse_yields_forward(
                    #[trigger] rb[i],
                    old(self).own_keys_view(),
                    Some(old(self).accepted_view()),
                ))) ==> r is Ok,
    {
        let ghost kv = old(self).own_keys_view();
        let ghost skv = skey@;
        let block = match &message.reply_path {
            None => {
                return Err(MesherFail::NoReplyRoute);
            },
            Some(arc) => crate::packet::clone_shared_block(arc),
        };
        let ghost rb = message@.reply->Some_0;
        proof {
            assert(block.deep_view() == rb);
        }
        let mut packet = Packet::signed_from_reply_block(block, skey);
        packet.add_message(payload, target);
        proof {
            let mv = packet.main_view();
            if old(self).signed_mode() && (forall|i: int|
                0 <= i < rb.len() ==> !crate::packet::parse_yields_forward(
                    #[trigger] rb[i],
                    kv,
                    Some(old(self).accepted_view()),
                )) {
                let info = crate::packet::ChunkInfo {
                    plain: crate::chunk::plain_message(payload@, None),
                    target: target@,
                };
                assert(!crate::chunk::plain_is_forward(info.plain)) by {
                    assert(info.plain[0] == crate::chunk::TAG_MESSAGE);
                }
                assert forall|j: int|
                    0 <= j < mv.len() implies !crate::packet::parse_yields_forward(
                    #[trigger] mv[j],
                    kv,
                    old(self).verify_mode(),
                ) by {
                    if j < rb.len() {
                        assert(mv[j] == rb[j]);
                    } else {
                        assert(mv[j] == mv.last());
                        crate::laws::lemma_authored_not_forward(
                            mv.last(),
                            info,
                            Some(skv),
                            kv,
                            old(self).verify_mode(),
                        );
                    }
                }
            }
        }
        self.launch(packet)
    }
}

} // verus!
