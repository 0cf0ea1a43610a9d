//! The durable poll store: poll ids mapped to encoded records in a sled
//! tree, with insert-if-absent and an atomic read-modify-write per key.
//!
//! What the tree holds is on disk and shared with every other handle, so the
//! contracts here say what holds of every outcome of a tree operation. What
//! bytes read from the tree mean is decided by `interpret_read`, over any
//! value those bytes may have.

use vstd::prelude::*;
use vstd::utf8::encode_utf8;
use crate::codec::{decode_poll, decode_poll_spec, encode_poll, encode_poll_spec, lemma_decode_canonical};
use crate::error::ErrorKind;
use crate::ids::PublicPollId;
use crate::model::PollV1;

verus! {

#[verifier::external_type_specification]
#[verifier::external_body]
pub struct ExTree(sled::Tree);

#[verifier::external_type_specification]
#[verifier::external_body]
pub struct ExSledError(sled::Error);

#[verifier::external_type_specification]
#[verifier::external_body]
pub struct ExCborError(serde_cbor::Error);

/// The last `k` bytes of `n` in big-endian order.
pub open spec fn be_bytes(n: nat, k: nat) -> Seq<u8>
    decreases k,
{
    if k == 0 {
        Seq::empty()
    } else {
        be_bytes(n / 256, (k - 1) as nat) + seq![(n % 256) as u8]
    }
}

/// The head of a CBOR text string of `n` bytes, in its shortest form.
pub open spec fn cbor_text_head(n: nat) -> Seq<u8> {
    if n <= 23 {
        seq![(0x60 + n) as u8]
    } else if n <= 0xff {
        seq![0x78u8, n as u8]
    } else if n <= 0xffff {
        seq![0x79u8] + be_bytes(n, 2)
    } else if n <= 0xffff_ffff {
        seq![0x7au8] + be_bytes(n, 4)
    } else {
        seq![0x7bu8] + be_bytes(n, 8)
    }
}

/// The CBOR text string that holds `s`: the store's key for a poll id.
pub open spec fn cbor_text(s: Seq<char>) -> Seq<u8> {
    cbor_text_head(encode_utf8(s).len()) + encode_utf8(s)
}

/// Relies on `serde_cbor::to_vec` of a `String`: a CBOR text string, whose
/// head (major type 3) holds the UTF-8 length in its shortest form, followed
/// by the UTF-8 bytes.
#[verifier::external_body]
fn cbor_of_text(s: &String) -> (r: Result<Vec<u8>, serde_cbor::Error>)
    ensures
        match r {
            Ok(b) => b@ == cbor_text(s@),
            Err(_) => true,
        },
{
    serde_cbor::to_vec(s)
}

/// How a compare-and-swap that reached the tree ended.
pub enum CasOutcome {
    /// The expected value was there and has been replaced.
    Swapped,
    /// Another value was there; nothing was written.
    Conflict,
}

/// Relies on `sled::Tree::get`: the value stored under `key`, if any. What
/// it returns depends on the tree's state, so nothing more is stated.
#[verifier::external_body]
fn tree_get(t: &sled::Tree, key: &[u8]) -> (r: Result<Option<Vec<u8>>, sled::Error>) {
    t.get(key).map(|v| v.map(|b| b.to_vec()))
}

/// Relies on `sled::Tree::compare_and_swap`: it writes `new` under `key`
/// only where the stored value equals `old` (`None`: no value), atomically.
/// Which outcome comes depends on the tree's state.
#[verifier::external_body]
fn tree_cas(t: &sled::Tree, key: &[u8], old: Option<&[u8]>, new: &[u8]) -> (r: Result<
    CasOutcome,
    sled::Error,
>) {
    match t.compare_and_swap(key, old, Some(new)) {
        Ok(Ok(())) => Ok(CasOutcome::Swapped),
        Ok(Err(_)) => Ok(CasOutcome::Conflict),
        Err(e) => Err(e),
    }
}

/// Relies on `sled::Tree::flush`: writes every dirty buffer to disk and
/// syncs it, so that earlier writes survive a restart.
#[verifier::external_body]
fn tree_flush(t: &sled::Tree) -> (r: Result<usize, sled::Error>) {
    t.flush()
}

/// How many times `update_atomic` tries again after losing a race.
pub const MAX_ATTEMPTS: u32 = 64;

/// What the bytes read under a poll's key mean: no bytes, no poll; bytes
/// that do not decode, a corrupt record.
pub fn interpret_read(stored: Option<Vec<u8>>) -> (r: Result<PollV1, ErrorKind>)
    ensures
        stored is None ==> r == Err::<PollV1, ErrorKind>(ErrorKind::NotFound),
        match stored {
            Some(b) => match decode_poll_spec(b@) {
                Some(p) => r is Ok && r->Ok_0@ == p,
                None => r == Err::<PollV1, ErrorKind>(ErrorKind::Corrupt),
            },
            None => true,
        },
{
    match stored {
        None => Err(ErrorKind::NotFound),
        Some(b) => match decode_poll(b.as_slice()) {
            Some(p) => Ok(p),
            None => Err(ErrorKind::Corrupt),
        },
    }
}

/// A write that `update_atomic` is to attempt: swap `expected`, the bytes
/// that were read, for `bytes`, the encoding of `record`.
pub struct PlannedWrite {
    pub expected: Vec<u8>,
    pub record: PollV1,
    pub bytes: Vec<u8>,
}

/// `r` is what `plan_update` owes when the bytes `b`, read under the key,
/// decode to `old` (of which `o` is a value).
pub open spec fn planned_from<F: Fn(PollV1) -> Result<PollV1, ErrorKind>>(
    f: F,
    o: PollV1,
    b: Seq<u8>,
    r: Result<PlannedWrite, ErrorKind>,
) -> bool {
    match r {
        Ok(w) => {
            &&& f.ensures((o,), Ok::<PollV1, ErrorKind>(w.record))
            &&& w.expected@ == b
            &&& w.bytes@ == encode_poll_spec(w.record@)
        },
        Err(e) => f.ensures((o,), Err::<PollV1, ErrorKind>(e)),
    }
}

/// One attempt of an atomic update, given what the read of the key gave:
/// a failed read is `StorageUnavailable`, no value is `NotFound`, bytes that
/// do not decode are `Corrupt`; otherwise `f` is applied to the decoded
/// record, and its failure is returned as it is, or its result is planned
/// for writing in place of the bytes read.
pub fn plan_update<F: Fn(PollV1) -> Result<PollV1, ErrorKind>>(
    read: Result<Option<Vec<u8>>, sled::Error>,
    f: &F,
) -> (r: Result<PlannedWrite, ErrorKind>)
    requires
        forall|p: PollV1| #[trigger] f.requires((p,)),
    ensures
        match read {
            Err(_) => r == Err::<PlannedWrite, ErrorKind>(ErrorKind::StorageUnavailable),
            Ok(None) => r == Err::<PlannedWrite, ErrorKind>(ErrorKind::NotFound),
            Ok(Some(b)) => match decode_poll_spec(b@) {
                None => r == Err::<PlannedWrite, ErrorKind>(ErrorKind::Corrupt),
                Some(old) => exists|o: PollV1| #[trigger] planned_from(*f, o, b@, r) && o@ == old,
            },
        },
{
    let stored = match read {
        Ok(stored) => stored,
        Err(_) => return Err(ErrorKind::StorageUnavailable),
    };
    let ghost read_bytes = stored;
    let expected = match &stored {
        Some(b) => b.clone(),
        None => Vec::new(),
    };
    let current = match interpret_read(stored) {
        Ok(p) => p,
        Err(e) => return Err(e),
    };
    let ghost o = current;
    assert(expected@ == read_bytes->Some_0@);
    match f(current) {
        Err(e) => {
            let r = Err(e);
            assert(planned_from(*f, o, read_bytes->Some_0@, r));
            r
        },
        Ok(record) => {
            let bytes = encode_poll(&record);
            let r = Ok(PlannedWrite { expected, record, bytes });
            assert(planned_from(*f, o, read_bytes->Some_0@, r));
            r
        },
    }
}

/// What follows a compare-and-swap.
#[derive(Debug, Clone, Copy, PartialEq, Eq, Structural)]
pub enum SwapStep {
    /// The new value is in place: flush it to disk.
    Flush,
    /// Another value was there; nothing was written.
    Conflict,
    /// The swap failed with this error.
    Fail(ErrorKind),
}

/// The step that follows a compare-and-swap with outcome `cas`.
pub fn after_swap(cas: &Result<CasOutcome, sled::Error>) -> (r: SwapStep)
    ensures
        match cas {
            Ok(CasOutcome::Swapped) => r == SwapStep::Flush,
            Ok(CasOutcome::Conflict) => r == SwapStep::Conflict,
            Err(_) => r == SwapStep::Fail(ErrorKind::StorageUnavailable),
        },
{
    match cas {
        Ok(CasOutcome::Swapped) => SwapStep::Flush,
        Ok(CasOutcome::Conflict) => SwapStep::Conflict,
        Err(_) => SwapStep::Fail(ErrorKind::StorageUnavailable),
    }
}

/// What a flush's outcome means: a failed flush is `StorageUnavailable`.
pub fn after_flush(flush: &Result<usize, sled::Error>) -> (r: Result<(), ErrorKind>)
    ensures
        flush is Ok ==> r is Ok,
        flush is Err ==> r == Err::<(), ErrorKind>(ErrorKind::StorageUnavailable),
{
    match flush {
        Ok(_) => Ok(()),
        Err(_) => Err(ErrorKind::StorageUnavailable),
    }
}

/// The failures that the storage layer itself can report on a read.
pub open spec fn read_failure(e: ErrorKind) -> bool {
    e == ErrorKind::NotFound || e == ErrorKind::Corrupt || e == ErrorKind::StorageUnavailable
}

/// A durable map from poll id to poll record.
pub struct PollStore {
    tree: sled::Tree,
}

impl PollStore {
    /// A store over `tree`; every handle on the same tree sees the same polls.
    pub fn new(tree: sled::Tree) -> PollStore {
        PollStore { tree }
    }

    /// The key under which the poll `id` is stored.
    pub fn key_for(id: &PublicPollId) -> (r: Result<Vec<u8>, ErrorKind>)
        ensures
            match r {
                Ok(k) => k@ == cbor_text(id@),
                Err(e) => e == ErrorKind::StorageUnavailable,
            },
    {
        match cbor_of_text(&id.0) {
            Ok(k) => Ok(k),
            Err(_) => Err(ErrorKind::StorageUnavailable),
        }
    }

    /// Stores `record` under `id` unless a record is already there, in which
    /// case nothing is written and the result is `AlreadyExists`.
    pub fn put_new(&self, id: &PublicPollId, record: &PollV1) -> (r: Result<(), ErrorKind>)
        ensures
            match r {
                Ok(()) => true,
                Err(e) => e == ErrorKind::AlreadyExists || e == ErrorKind::StorageUnavailable,
            },
    {
        let key = match Self::key_for(id) {
            Ok(k) => k,
            Err(e) => return Err(e),
        };
        let bytes = encode_poll(record);
        let cas = tree_cas(&self.tree, key.as_slice(), None, bytes.as_slice());
        match after_swap(&cas) {
            SwapStep::Flush => after_flush(&tree_flush(&self.tree)),
            SwapStep::Conflict => Err(ErrorKind::AlreadyExists),
            SwapStep::Fail(e) => Err(e),
        }
    }

    /// The record stored under `id`: it is the decoding of the stored bytes,
    /// and its encoding is exactly those bytes.
    pub fn get(&self, id: &PublicPollId) -> (r: Result<PollV1, ErrorKind>)
        ensures
            match r {
                Ok(p) => exists|b: Seq<u8>|
                    #![trigger decode_poll_spec(b)]
                    decode_poll_spec(b) == Some(p@) && encode_poll_spec(p@) == b,
                Err(e) => read_failure(e),
            },
    {
        let key = match Self::key_for(id) {
            Ok(k) => k,
            Err(e) => return Err(e),
        };
        match tree_get(&self.tree, key.as_slice()) {
            Ok(stored) => {
                let ghost bytes = stored;
                let r = interpret_read(stored);
                proof {
                    if r is Ok {
                        let b = bytes->Some_0@;
                        assert(decode_poll_spec(b) == Some(r->Ok_0@));
                        lemma_decode_canonical(b);
                    }
                }
                r
            },
            Err(_) => Err(ErrorKind::StorageUnavailable),
        }
    }

    /// Reads the record under `id`, applies `f` to it and writes the result
    /// back, as one indivisible step: the write is a compare-and-swap against
    /// the bytes that were read, and a lost race starts over from a fresh
    /// read, up to `MAX_ATTEMPTS` times. Where `f` fails, its error is
    /// returned and nothing is written.
    pub fn update_atomic<F: Fn(PollV1) -> Result<PollV1, ErrorKind>>(
        &self,
        id: &PublicPollId,
        f: F,
    ) -> (r: Result<PollV1, ErrorKind>)
        requires
            forall|p: PollV1| #[trigger] f.requires((p,)),
        ensures
            match r {
                Ok(p) => exists|old: PollV1|
                    #![trigger f.ensures((old,), Ok::<PollV1, ErrorKind>(p))]
                    f.ensures((old,), Ok::<PollV1, ErrorKind>(p)) && exists|b: Seq<u8>|
                        decode_poll_spec(b) == Some(old@),
                Err(e) => read_failure(e) || exists|old: PollV1|
                    #![trigger f.ensures((old,), Err::<PollV1, ErrorKind>(e))]
                    f.ensures((old,), Err::<PollV1, ErrorKind>(e)) && exists|b: Seq<u8>|
                        decode_poll_spec(b) == Some(old@),
            },
    {
        let key = match Self::key_for(id) {
            Ok(k) => k,
            Err(e) => return Err(e),
        };
        let mut attempt: u32 = 0;
        while attempt < MAX_ATTEMPTS
            invariant
                forall|p: PollV1| #[trigger] f.requires((p,)),
            decreases MAX_ATTEMPTS - attempt,
        {
            let read = tree_get(&self.tree, key.as_slice());
            let ghost read_value = read;
            let plan = match plan_update(read, &f) {
                Ok(w) => w,
                Err(e) => {
                    proof {
                        if !read_failure(e) {
                            let b = read_value->Ok_0->Some_0@;
                            let o = choose|o: PollV1| #[trigger] planned_from(f, o, b, Err::<PlannedWrite, ErrorKind>(e)) && o@ == decode_poll_spec(b)->Some_0;
                            assert(decode_poll_spec(b) == Some(o@));
                        }
                    }
                    return Err(e);
                },
            };
            let ghost b = read_value->Ok_0->Some_0@;
            let ghost o = choose|o: PollV1| #[trigger] planned_from(f, o, b, Ok::<PlannedWrite, ErrorKind>(plan)) && o@ == decode_poll_spec(b)->Some_0;
            assert(decode_poll_spec(b) == Some(o@));
            let cas = tree_cas(&self.tree, key.as_slice(), Some(plan.expected.as_slice()), plan.bytes.as_slice());
            match after_swap(&cas) {
                SwapStep::Flush => {
                    return match after_flush(&tree_flush(&self.tree)) {
                        Ok(()) => Ok(plan.record),
                        Err(e) => Err(e),
                    };
                },
                SwapStep::Conflict => {},
                SwapStep::Fail(e) => return Err(e),
            }
            attempt = attempt + 1;
        }
        Err(ErrorKind::StorageUnavailable)
    }
}

} // verus!
