//! The pluggable capabilities a caller supplies: a log-entry payload
//! that can cross the byte boundary, and a state machine that the
//! driver feeds committed entries.
//!
//! Apply must be deterministic: its outcome is fixed by the two spec
//! functions of the trait, so two nodes applying the same committed
//! entries reach the same state.

use vstd::prelude::*;

use crate::error::Error;

verus! {

/// A caller-supplied log-entry payload: byte (de)serialization, with
/// decoding the exact inverse of encoding on every decodable string.
pub trait AbstractLogEntry: Sized {
    /// The bytes this payload serializes to.
    spec fn encoding(&self) -> Seq<u8>;

    /// Whether a byte string deserializes to some payload.
    spec fn decodable(b: Seq<u8>) -> bool;

    fn encode(&self) -> (r: Vec<u8>)
        ensures
            r@ == self.encoding(),
    ;

    fn decode(b: &[u8]) -> (r: Result<Self, Error>)
        ensures
            r is Ok <==> Self::decodable(b@),
            r matches Ok(x) ==> x.encoding() == b@,
            r matches Err(e) ==> e == Error::DecodingError,
    ;

    /// Every encoding decodes, and re-encodes to the same bytes.
    proof fn lemma_round_trip(&self)
        ensures
            Self::decodable(self.encoding()),
    ;
}

/// A log entry that is already a plain byte string.
pub struct BytesEntry {
    pub inner: Vec<u8>,
}

impl AbstractLogEntry for BytesEntry {
    open spec fn encoding(&self) -> Seq<u8> {
        self.inner@
    }

    open spec fn decodable(b: Seq<u8>) -> bool {
        true
    }

    fn encode(&self) -> (r: Vec<u8>) {
        crate::storage::dup_bytes(&self.inner)
    }

    fn decode(b: &[u8]) -> (r: Result<Self, Error>) {
        let mut inner: Vec<u8> = Vec::new();
        let mut i: usize = 0;
        while i < b.len()
            invariant
                0 <= i <= b.len(),
                inner@ == b@.take(i as int),
            decreases b.len() - i,
        {
            inner.push(b[i]);
            proof {
                assert(inner@ =~= b@.take(i + 1));
            }
            i += 1;
        }
        proof {
            assert(inner@ =~= b@);
        }
        Ok(BytesEntry { inner })
    }

    proof fn lemma_round_trip(&self) {
    }
}

/// A caller-supplied replicated state machine. Its whole behaviour is
/// pinned by two spec functions, so applying the same committed
/// entries in the same order always produces the same state.
pub trait AbstractStateMachine: Sized {
    /// The abstract state, as the bytes a snapshot would carry.
    spec fn state(&self) -> Seq<u8>;

    /// The successor state after applying `data`.
    spec fn apply_spec(s: Seq<u8>, data: Seq<u8>) -> Seq<u8>;

    /// Whether applying `data` in state `s` succeeds.
    spec fn apply_ok(s: Seq<u8>, data: Seq<u8>) -> bool;

    /// Applies one committed entry. Failure leaves the state unchanged
    /// and is reported, never retried.
    fn apply(&mut self, data: &[u8]) -> (r: Result<(), Error>)
        ensures
            r is Ok <==> Self::apply_ok(old(self).state(), data@),
            r is Ok ==> final(self).state() == Self::apply_spec(old(self).state(), data@),
            r is Err ==> final(self).state() == old(self).state() && r == Err::<(), Error>(
                Error::ApplyError,
            ),
    ;

    /// Serializes the current state for a snapshot.
    fn snapshot(&self) -> (r: Result<Vec<u8>, Error>)
        ensures
            match r {
                Ok(b) => b@ == self.state(),
                Err(e) => e == Error::SnapshotError,
            },
    ;

    /// Replaces the state with a deserialized snapshot.
    fn restore(&mut self, data: &[u8]) -> (r: Result<(), Error>)
        ensures
            r is Ok ==> final(self).state() == data@,
            r is Err ==> final(self).state() == old(self).state() && r == Err::<(), Error>(
                Error::RestoreError,
            ),
    ;

    /// An independent copy with the same state.
    fn duplicate(&self) -> (r: Self)
        ensures
            r.state() == self.state(),
    ;
}

/// The state after folding `apply` over a sequence of commands,
/// skipping commands whose apply fails.
pub open spec fn fold_apply<FSM: AbstractStateMachine>(s: Seq<u8>, cmds: Seq<Seq<u8>>) -> Seq<u8>
    decreases cmds.len(),
{
    if cmds.len() == 0 {
        s
    } else {
        let s1 = fold_apply::<FSM>(s, cmds.drop_last());
        if FSM::apply_ok(s1, cmds.last()) {
            FSM::apply_spec(s1, cmds.last())
        } else {
            s1
        }
    }
}

/// An in-memory journal state machine: every applied command is
/// appended to the state bytes.
pub struct MemStateMachine {
    pub journal: Vec<u8>,
}

impl MemStateMachine {
    pub fn new() -> (r: MemStateMachine)
        ensures
            r.state() == Seq::<u8>::empty(),
    {
        let r = MemStateMachine { journal: Vec::new() };
        proof {
            assert(r.journal@ =~= Seq::<u8>::empty());
        }
        r
    }
}

impl AbstractStateMachine for MemStateMachine {
    open spec fn state(&self) -> Seq<u8> {
        self.journal@
    }

    open spec fn apply_spec(s: Seq<u8>, data: Seq<u8>) -> Seq<u8> {
        s + data
    }

    open spec fn apply_ok(s: Seq<u8>, data: Seq<u8>) -> bool {
        true
    }

    fn apply(&mut self, data: &[u8]) -> (r: Result<(), Error>) {
        let mut i: usize = 0;
        while i < data.len()
            invariant
                0 <= i <= data.len(),
                self.journal@ == old(self).journal@ + data@.take(i as int),
            decreases data.len() - i,
        {
            self.journal.push(data[i]);
            proof {
                assert(self.journal@ =~= old(self).journal@ + data@.take(i + 1));
            }
            i += 1;
        }
        proof {
            assert(self.journal@ =~= old(self).journal@ + data@);
        }
        Ok(())
    }

    fn snapshot(&self) -> (r: Result<Vec<u8>, Error>) {
        Ok(crate::storage::dup_bytes(&self.journal))
    }

    fn restore(&mut self, data: &[u8]) -> (r: Result<(), Error>) {
        let mut fresh: Vec<u8> = Vec::new();
        let mut i: usize = 0;
        while i < data.len()
            invariant
                0 <= i <= data.len(),
                fresh@ == data@.take(i as int),
            decreases data.len() - i,
        {
            fresh.push(data[i]);
            proof {
                assert(fresh@ =~= data@.take(i + 1));
            }
            i += 1;
        }
        proof {
            assert(fresh@ =~= data@);
        }
        self.journal = fresh;
        Ok(())
    }

    fn duplicate(&self) -> (r: Self) {
        MemStateMachine { journal: crate::storage::dup_bytes(&self.journal) }
    }
}

} // verus!
