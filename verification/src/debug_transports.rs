//! In-process transports for tests, examples, and debugging.
//!
//! [`InMemory`] carries packets through a store of per-path queues.  Meshers
//! in one process talk to each other by giving each one an `InMemory` joined
//! to the same [`SharedStore`]; a store is explicit and owned, so unrelated
//! tests cannot interfere with each other.
//!
//! [`Mock`] queues everything inside the one instance, for exercising a
//! single mesher.  [`Printer`] writes a hex dump of whatever it is asked to
//! send and never receives anything.

use crate::fail::MesherFail;
use crate::transport::Transport;
use std::io::Write;
use vstd::prelude::*;

verus! {

/// A store of per-path packet queues shared by every handle onto it.
///
/// The contents live behind a mutex shared between handles, mutated by
/// whichever mesher sends next, so nothing is claimed about them: like a
/// network, the store delivers whatever was put in by whoever holds the
/// other end.  Relies on std's Arc, Mutex and HashMap for the sharing
/// itself.
#[verifier::external_body]
pub struct SharedStore {
    inner: std::sync::Arc<std::sync::Mutex<std::collections::HashMap<String, Vec<Vec<u8>>>>>,
}

impl SharedStore {
    /// Relies on std's Arc and Mutex: creates a fresh, empty store.
    #[verifier::external_body]
    pub fn new() -> SharedStore {
        SharedStore {
            inner: std::sync::Arc::new(std::sync::Mutex::new(std::collections::HashMap::new())),
        }
    }

    /// Relies on std's Arc::clone: another handle onto the same store.
    #[verifier::external_body]
    pub fn handle(&self) -> SharedStore {
        SharedStore { inner: std::sync::Arc::clone(&self.inner) }
    }

    /// Relies on std's Mutex::lock and HashMap::entry: appends one packet
    /// to the queue for `path`.
    #[verifier::external_body]
    fn push(&self, path: &String, blob: Vec<u8>) {
        let mut guard = match self.inner.lock() {
            Ok(g) => g,
            Err(poisoned) => poisoned.into_inner(),
        };
        guard.entry(path.clone()).or_default().push(blob);
    }

    /// Relies on std's Mutex::lock and HashMap::insert: removes and returns
    /// the queue for `path`.
    #[verifier::external_body]
    fn drain(&self, path: &String) -> Vec<Vec<u8>> {
        let mut guard = match self.inner.lock() {
            Ok(g) => g,
            Err(poisoned) => poisoned.into_inner(),
        };
        guard.insert(path.clone(), Vec::new()).unwrap_or_default()
    }
}

/// A transport that carries packets through an in-memory [`SharedStore`].
///
/// `Transport::new` gives the instance a private store, enough to loop one
/// mesher back to itself; [`InMemory::with_store`] joins an existing store
/// so that several meshers can reach each other.
pub struct InMemory {
    store: SharedStore,
    listening: Vec<String>,
}

impl InMemory {
    /// An instance that sends into, and receives from, the given store.
    pub fn with_store(store: SharedStore) -> InMemory {
        InMemory { store, listening: Vec::new() }
    }
}

impl Transport for InMemory {
    /// Construction cannot fail.
    fn new(_scheme: &str) -> (r: Result<Self, MesherFail>)
        ensures
            r is Ok,
    {
        Ok(InMemory { store: SharedStore::new(), listening: Vec::new() })
    }

    /// Storing into the shared queues cannot fail.
    fn send(&mut self, path: String, blob: Vec<u8>) -> (r: Result<(), MesherFail>)
        ensures
            r is Ok,
    {
        self.store.push(&path, blob);
        Ok(())
    }

    /// Noting a path to poll cannot fail.
    fn listen(&mut self, path: String) -> (r: Result<(), MesherFail>)
        ensures
            r is Ok,
    {
        self.listening.push(path);
        Ok(())
    }

    /// Draining the shared queues cannot fail; what they hold is whatever
    /// the other handles put in, so the packets themselves are unclaimed.
    fn receive(&mut self) -> (r: Result<Vec<Vec<u8>>, MesherFail>)
        ensures
            r is Ok,
    {
        let mut out: Vec<Vec<u8>> = Vec::new();
        let mut i: usize = 0;
        while i < self.listening.len()
            decreases self.listening@.len() - i,
        {
            let mut arrived = self.store.drain(&self.listening[i]);
            out.append(&mut arrived);
            i += 1;
        }
        Ok(out)
    }
}

/// A transport whose queues live entirely inside the one instance: packets
/// it sends to a path come back out of its own `receive` once the path is
/// listened on.
pub struct Mock {
    listening: Vec<String>,
    store: SharedStore,
}

impl Transport for Mock {
    /// Construction cannot fail.
    fn new(_scheme: &str) -> (r: Result<Self, MesherFail>)
        ensures
            r is Ok,
    {
        Ok(Mock { listening: Vec::new(), store: SharedStore::new() })
    }

    /// Storing into the private queues cannot fail.
    fn send(&mut self, path: String, blob: Vec<u8>) -> (r: Result<(), MesherFail>)
        ensures
            r is Ok,
    {
        self.store.push(&path, blob);
        Ok(())
    }

    /// Noting a path to poll cannot fail.
    fn listen(&mut self, path: String) -> (r: Result<(), MesherFail>)
        ensures
            r is Ok,
    {
        self.listening.push(path);
        Ok(())
    }

    /// Draining the private queues cannot fail.
    fn receive(&mut self) -> (r: Result<Vec<Vec<u8>>, MesherFail>)
        ensures
            r is Ok,
    {
        let mut out: Vec<Vec<u8>> = Vec::new();
        let mut i: usize = 0;
        while i < self.listening.len()
            decreases self.listening@.len() - i,
        {
            let mut arrived = self.store.drain(&self.listening[i]);
            out.append(&mut arrived);
            i += 1;
        }
        Ok(out)
    }
}

/// The ASCII codes of a byte sequence written as lowercase hex, two digits
/// per byte.
pub open spec fn spec_hex(b: Seq<u8>) -> Seq<u8>
    decreases b.len(),
{
    if b.len() == 0 {
        Seq::empty()
    } else {
        spec_hex(b.drop_last()) + seq![
            spec_hex_digit(b.last() / 16),
            spec_hex_digit(b.last() % 16),
        ]
    }
}

/// The ASCII code of one hex digit: `0` through `9`, then `a` through `f`.
pub open spec fn spec_hex_digit(n: u8) -> u8 {
    if n < 10 {
        (48 + n) as u8
    } else {
        (87 + n) as u8
    }
}

/// One hex digit as its ASCII code.
fn hex_digit(n: u8) -> (r: u8)
    requires
        n < 16,
    ensures
        r == spec_hex_digit(n),
{
    if n < 10 {
        48 + n
    } else {
        87 + n
    }
}

/// A byte sequence written as lowercase hex, two ASCII digits per byte.
pub fn hex_bytes(data: &[u8]) -> (r: Vec<u8>)
    ensures
        r@ == spec_hex(data@),
{
    let mut out: Vec<u8> = Vec::new();
    let mut i: usize = 0;
    while i < data.len()
        invariant
            0 <= i <= data@.len(),
            out@ == spec_hex(data@.take(i as int)),
        decreases data@.len() - i,
    {
        let b = data[i];
        out.push(hex_digit(b / 16));
        out.push(hex_digit(b % 16));
        proof {
            assert(data@.take(i as int + 1).drop_last() =~= data@.take(i as int));
            assert(data@.take(i as int + 1).last() == data@[i as int]);
            assert(out@ =~= spec_hex(data@.take(i as int + 1)));
        }
        i += 1;
    }
    proof {
        assert(data@.take(data@.len() as int) =~= data@);
    }
    out
}

/// Relies on std's writeln: prints one line describing a sent packet,
/// with the payload already rendered as hex ASCII.
#[verifier::external_body]
fn print_send_line(scheme: &String, path: &String, len: usize, hex: &Vec<u8>) {
    let _ = writeln!(
        std::io::stdout(),
        "Printer {} sent {} bytes to {}: {}",
        scheme,
        len,
        path,
        String::from_utf8_lossy(hex),
    );
}

/// A transport that prints a hex dump of everything it is asked to send,
/// and never receives anything.
pub struct Printer {
    scheme: String,
}

impl Transport for Printer {
    /// Construction cannot fail.
    fn new(scheme: &str) -> (r: Result<Self, MesherFail>)
        ensures
            r is Ok,
    {
        Ok(Printer { scheme: scheme.to_owned() })
    }

    /// Printing cannot fail; a write error to stdout is dropped.
    fn send(&mut self, path: String, blob: Vec<u8>) -> (r: Result<(), MesherFail>)
        ensures
            r is Ok,
    {
        let hex = hex_bytes(blob.as_slice());
        print_send_line(&self.scheme, &path, blob.len(), &hex);
        Ok(())
    }

    /// Nothing to set up: listening is a no-op.
    fn listen(&mut self, _path: String) -> (r: Result<(), MesherFail>)
        ensures
            r is Ok,
    {
        Ok(())
    }

    /// A printer never receives: the result is always empty.
    fn receive(&mut self) -> (r: Result<Vec<Vec<u8>>, MesherFail>)
        ensures
            r matches Ok(v) && v@.len() == 0,
    {
        Ok(Vec::new())
    }
}

} // verus!
