//! The poll service: create a poll, read it, and cast a vote on it.

use vstd::prelude::*;
use crate::aggregate::{aggregate, compute_vote_result};
use crate::codec::{decode_poll_spec, encode_poll_spec, lemma_decode_canonical};
use crate::error::{ErrorKind, OurError, fails_with};
use crate::ids::PublicPollId;
use crate::model::{CreatePoll, OptionView, Poll, PollOption, PollV1, PollView, ScoreVote, VoteView};
use crate::store::{PollStore, read_failure};

verus! {

/// `id` is the id of one of `os`.
pub open spec fn has_option(os: Seq<OptionView>, id: Seq<char>) -> bool {
    exists|i: int| 0 <= i < os.len() && (#[trigger] os[i]).id == id
}

/// A poll's options are valid: there is at least one, and no two share an id.
pub open spec fn options_valid(os: Seq<OptionView>) -> bool {
    &&& os.len() > 0
    &&& forall|i: int, j: int| 0 <= i < j < os.len() ==> (#[trigger] os[i]).id != (#[trigger] os[j]).id
}

/// A vote is valid for a poll with options `os`: every option it scores is
/// one of `os`, and it scores each option at most once.
pub open spec fn vote_valid(v: VoteView, os: Seq<OptionView>) -> bool {
    &&& forall|i: int| 0 <= i < v.scores.len() ==> has_option(os, (#[trigger] v.scores[i]).option)
    &&& forall|i: int, j: int|
        0 <= i < j < v.scores.len() ==> (#[trigger] v.scores[i]).option != (#[trigger] v.scores[j]).option
}

/// The poll `p` once the vote `v` has been appended: the vote is last, and
/// the result is the aggregate over the new vote list.
pub open spec fn with_vote(p: PollView, v: VoteView) -> PollView {
    PollView {
        id: p.id,
        title: p.title,
        description: p.description,
        options: p.options,
        votes: p.votes.push(v),
        result: Some(aggregate(p.votes.push(v), p.options)),
    }
}

/// The poll that a create request makes under the id `id`: no votes yet and
/// no result.
pub open spec fn created_poll(id: Seq<char>, req: CreatePoll) -> PollView {
    PollView {
        id,
        title: req.title@,
        description: req.description_text_markdown@,
        options: req.options@.map_values(|o: PollOption| o@),
        votes: Seq::empty(),
        result: None,
    }
}

/// The poll `p` once the votes `vs` have been committed one after another,
/// in that order.
pub open spec fn with_votes(p: PollView, vs: Seq<VoteView>) -> PollView
    decreases vs.len(),
{
    if vs.len() == 0 {
        p
    } else {
        with_vote(with_votes(p, vs.drop_last()), vs.last())
    }
}

/// Committing votes one at a time loses and duplicates none: in whatever
/// order the store serialises them, the vote list ends as the old list
/// followed by the votes in commit order, the poll's id, texts and options
/// stay as they were, and once a vote has been committed the result is the
/// aggregate over the final vote list.
pub proof fn lemma_commits_keep_every_vote(p: PollView, vs: Seq<VoteView>)
    ensures
        with_votes(p, vs).votes == p.votes + vs,
        with_votes(p, vs).id == p.id,
        with_votes(p, vs).title == p.title,
        with_votes(p, vs).description == p.description,
        with_votes(p, vs).options == p.options,
        vs.len() > 0 ==> with_votes(p, vs).result == Some(aggregate(p.votes + vs, p.options)),
    decreases vs.len(),
{
    if vs.len() == 0 {
        assert(p.votes + vs =~= p.votes);
    } else {
        lemma_commits_keep_every_vote(p, vs.drop_last());
        assert((p.votes + vs.drop_last()).push(vs.last()) =~= p.votes + vs);
    }
}

/// Relies on `nanoid::format` with nanoid's own random source, its URL-safe
/// alphabet and the size 21, which is what `nanoid!()` produces: a random id
/// of 21 characters.
#[verifier::external_body]
fn fresh_id() -> (r: String)
    ensures
        r@.len() == 21,
{
    nanoid::format(nanoid::rngs::default, &nanoid::alphabet::SAFE, 21)
}

/// Checks that `options` is non-empty and that no two options share an id.
pub fn validate_options(options: &Vec<PollOption>) -> (r: Result<(), ErrorKind>)
    ensures
        r is Ok <==> options_valid(options@.map_values(|o: PollOption| o@)),
        r is Err ==> r == Err::<(), ErrorKind>(ErrorKind::InvalidInput),
{
    let ghost ov = options@.map_values(|o: PollOption| o@);
    if options.len() == 0 {
        return Err(ErrorKind::InvalidInput);
    }
    let mut j: usize = 1;
    while j < options.len()
        invariant
            1 <= j <= options@.len(),
            ov == options@.map_values(|o: PollOption| o@),
            forall|a: int, b: int| 0 <= a < b < j ==> (#[trigger] ov[a]).id != (#[trigger] ov[b]).id,
        decreases options.len() - j,
    {
        let mut i: usize = 0;
        while i < j
            invariant
                i <= j < options@.len(),
                ov == options@.map_values(|o: PollOption| o@),
                forall|a: int, b: int| 0 <= a < b < j ==> (#[trigger] ov[a]).id != (#[trigger] ov[b]).id,
                forall|a: int| 0 <= a < i ==> (#[trigger] ov[a]).id != ov[j as int].id,
            decreases j - i,
        {
            if options[i].id.same_as(&options[j].id) {
                assert(ov[i as int].id == ov[j as int].id);
                return Err(ErrorKind::InvalidInput);
            }
            i = i + 1;
        }
        j = j + 1;
    }
    Ok(())
}

/// Whether `id` is the id of one of `options`.
fn find_option(options: &Vec<PollOption>, id: &crate::ids::PollOptionId) -> (r: bool)
    ensures
        r == has_option(options@.map_values(|o: PollOption| o@), id@),
{
    let ghost ov = options@.map_values(|o: PollOption| o@);
    let mut i: usize = 0;
    while i < options.len()
        invariant
            i <= options@.len(),
            ov == options@.map_values(|o: PollOption| o@),
            forall|a: int| 0 <= a < i ==> (#[trigger] ov[a]).id != id@,
        decreases options.len() - i,
    {
        if options[i].id.same_as(id) {
            assert(ov[i as int].id == id@);
            return true;
        }
        i = i + 1;
    }
    false
}

/// Whether `vote` is valid for a poll with `options`.
pub fn validate_vote(vote: &ScoreVote, options: &Vec<PollOption>) -> (r: bool)
    ensures
        r == vote_valid(vote@, options@.map_values(|o: PollOption| o@)),
{
    let ghost ov = options@.map_values(|o: PollOption| o@);
    let ghost sv = vote@.scores;
    let mut j: usize = 0;
    while j < vote.votes.len()
        invariant
            j <= vote.votes@.len(),
            ov == options@.map_values(|o: PollOption| o@),
            sv == vote.votes@.map_values(|s: crate::model::OptionScore| s@),
            forall|a: int| 0 <= a < j ==> has_option(ov, (#[trigger] sv[a]).option),
            forall|a: int, b: int| 0 <= a < b < j ==> (#[trigger] sv[a]).option != (#[trigger] sv[b]).option,
        decreases vote.votes.len() - j,
    {
        if !find_option(options, &vote.votes[j].option) {
            return false;
        }
        let mut i: usize = 0;
        while i < j
            invariant
                i <= j < vote.votes@.len(),
                sv == vote.votes@.map_values(|s: crate::model::OptionScore| s@),
                forall|a: int| 0 <= a < i ==> (#[trigger] sv[a]).option != sv[j as int].option,
            decreases j - i,
        {
            if vote.votes[i].option.same_as(&vote.votes[j].option) {
                assert(sv[i as int].option == sv[j as int].option);
                return false;
            }
            i = i + 1;
        }
        j = j + 1;
    }
    true
}

/// Appends `vote` to `poll` and recomputes the result, or fails with
/// `InvalidInput` where the vote is not valid for the poll's options.
pub fn apply_vote(poll: PollV1, vote: &ScoreVote) -> (r: Result<PollV1, ErrorKind>)
    ensures
        vote_valid(vote@, poll@.options) ==> r is Ok && r->Ok_0@ == with_vote(poll@, vote@),
        !vote_valid(vote@, poll@.options) ==> r == Err::<PollV1, ErrorKind>(ErrorKind::InvalidInput),
{
    if !validate_vote(vote, &poll.options) {
        return Err(ErrorKind::InvalidInput);
    }
    let mut poll = poll;
    let ghost before = poll@;
    poll.votes.push(vote.duplicate());
    assert(poll@.votes =~= before.votes.push(vote@));
    poll.result = Some(compute_vote_result(&poll.votes, &poll.options));
    Ok(poll)
}

/// The poll that `req` creates under `id`.
pub fn new_poll(id: PublicPollId, req: &CreatePoll) -> (r: PollV1)
    ensures
        r@ == created_poll(id@, *req),
{
    let mut options: Vec<PollOption> = Vec::new();
    let mut i: usize = 0;
    while i < req.options.len()
        invariant
            i <= req.options@.len(),
            options@.len() == i,
            forall|j: int| 0 <= j < i ==> (#[trigger] options@[j])@ == req.options@[j]@,
        decreases req.options.len() - i,
    {
        options.push(req.options[i].duplicate());
        i = i + 1;
    }
    assert(options@.map_values(|o: PollOption| o@) =~= req.options@.map_values(|o: PollOption| o@));
    let r = PollV1 {
        id,
        title: req.title.clone(),
        description_text_markdown: req.description_text_markdown.clone(),
        options,
        votes: Vec::new(),
        result: None,
    };
    assert(r@.votes =~= Seq::<VoteView>::empty());
    r
}

/// What `create_poll` does after an insert under a fresh id.
#[derive(Debug, Clone, Copy, PartialEq, Eq, Structural)]
pub enum CreateStep {
    /// The poll is stored.
    Done,
    /// The id was taken: try another one.
    Retry,
    /// Give up with this error.
    Fail(ErrorKind),
}

/// The step after the insert of attempt `attempt` (counted from 0) gave
/// `put`: a taken id is retried once and then is `IdCollision`; any other
/// failure is `StorageUnavailable`.
pub fn after_put(attempt: u32, put: Result<(), ErrorKind>) -> (r: CreateStep)
    ensures
        put is Ok ==> r == CreateStep::Done,
        put == Err::<(), ErrorKind>(ErrorKind::AlreadyExists) ==> r == (if attempt == 0 {
            CreateStep::Retry
        } else {
            CreateStep::Fail(ErrorKind::IdCollision)
        }),
        put is Err && put != Err::<(), ErrorKind>(ErrorKind::AlreadyExists) ==> r == CreateStep::Fail(
            ErrorKind::StorageUnavailable,
        ),
{
    match put {
        Ok(()) => CreateStep::Done,
        Err(ErrorKind::AlreadyExists) => if attempt == 0 {
            CreateStep::Retry
        } else {
            CreateStep::Fail(ErrorKind::IdCollision)
        },
        Err(_) => CreateStep::Fail(ErrorKind::StorageUnavailable),
    }
}

/// Two reads that find the same stored bytes give the same record, and
/// encoding that record gives back exactly those bytes.
pub proof fn lemma_idempotent_read(b: Seq<u8>, p: PollView, q: PollView)
    requires
        decode_poll_spec(b) == Some(p),
        decode_poll_spec(b) == Some(q),
    ensures
        p == q,
        encode_poll_spec(p) == b,
        encode_poll_spec(q) == b,
{
    lemma_decode_canonical(b);
}

/// The poll service, over one store shared by all its callers.
pub struct Server {
    store: PollStore,
}

impl Server {
    pub fn new(store: PollStore) -> Server {
        Server { store }
    }

    /// The sum of two numbers.
    pub fn add(&self, a: u64, b: u64) -> (r: Result<u64, OurError>)
        requires
            a + b <= u64::MAX,
        ensures
            r == Ok::<u64, OurError>((a + b) as u64),
    {
        Ok(a + b)
    }

    /// Creates a poll from `poll` under a fresh id. Invalid options fail with
    /// `InvalidInput` before anything else happens. Where the fresh id is
    /// taken, one more id is tried; where that is taken too, the result is
    /// `IdCollision`.
    pub fn create_poll(&self, poll: CreatePoll) -> (r: Result<Poll, OurError>)
        ensures
            !options_valid(poll.options@.map_values(|o: PollOption| o@)) ==> fails_with(
                r,
                ErrorKind::InvalidInput,
            ),
            options_valid(poll.options@.map_values(|o: PollOption| o@)) ==> match r {
                Ok(p) => p@ == created_poll(p@.id, poll) && p@.id.len() == 21,
                Err(e) => e.kind == ErrorKind::IdCollision || e.kind == ErrorKind::StorageUnavailable,
            },
    {
        match validate_options(&poll.options) {
            Ok(()) => {},
            Err(k) => return Err(OurError::new(k)),
        }
        let mut attempt: u32 = 0;
        while attempt < 2
            invariant
                options_valid(poll.options@.map_values(|o: PollOption| o@)),
            decreases 2 - attempt,
        {
            let id = PublicPollId::from_str(fresh_id());
            let record = new_poll(id.duplicate(), &poll);
            let put = self.store.put_new(&id, &record);
            match after_put(attempt, put) {
                CreateStep::Done => return Ok(Poll::V1(record)),
                CreateStep::Retry => {},
                CreateStep::Fail(k) => return Err(OurError::new(k)),
            }
            attempt = attempt + 1;
        }
        Err(OurError::new(ErrorKind::IdCollision))
    }

    /// The poll stored under `poll_id`: the decoding of the stored bytes,
    /// whose encoding is exactly those bytes, so that two reads with no
    /// write between them give byte-identical records.
    pub fn get_poll(&self, poll_id: PublicPollId) -> (r: Result<Poll, OurError>)
        ensures
            match r {
                Ok(p) => exists|b: Seq<u8>|
                    #![trigger decode_poll_spec(b)]
                    decode_poll_spec(b) == Some(p@) && encode_poll_spec(p@) == b,
                Err(e) => read_failure(e.kind),
            },
    {
        match self.store.get(&poll_id) {
            Ok(p) => Ok(Poll::V1(p)),
            Err(k) => Err(OurError::new(k)),
        }
    }

    /// Appends `vote` to the poll `poll_id` and recomputes its result, in one
    /// atomic step of the store, and returns the poll as written. The vote is
    /// checked against the options of the poll as read inside that step; an
    /// invalid vote fails with `InvalidInput` and nothing is written.
    pub fn vote(&self, poll_id: PublicPollId, vote: ScoreVote) -> (r: Result<Poll, OurError>)
        ensures
            match r {
                Ok(p) => exists|old: PollView|
                    #![trigger with_vote(old, vote@)]
                    vote_valid(vote@, old.options) && p@ == with_vote(old, vote@) && exists|
                        b: Seq<u8>,
                    | decode_poll_spec(b) == Some(old),
                Err(e) => read_failure(e.kind) || (e.kind == ErrorKind::InvalidInput && exists|
                    old: PollView,
                | !vote_valid(vote@, #[trigger] old.options) && exists|b: Seq<u8>| decode_poll_spec(b) == Some(old)),
            },
    {
        let step = |p: PollV1| -> (q: Result<PollV1, ErrorKind>)
            ensures
                vote_valid(vote@, p@.options) ==> q is Ok && q->Ok_0@ == with_vote(p@, vote@),
                !vote_valid(vote@, p@.options) ==> q == Err::<PollV1, ErrorKind>(ErrorKind::InvalidInput),
            { apply_vote(p, &vote) };
        match self.store.update_atomic(&poll_id, step) {
            Ok(p) => {
                proof {
                    let old = choose|old: PollV1| step.ensures((old,), Ok::<PollV1, ErrorKind>(p)) && exists|b: Seq<u8>| decode_poll_spec(b) == Some(old@);
                    assert(vote_valid(vote@, old@.options));
                    assert(p@ == with_vote(old@, vote@));
                }
                Ok(Poll::V1(p))
            },
            Err(k) => {
                proof {
                    if !read_failure(k) {
                        let old = choose|old: PollV1| step.ensures((old,), Err::<PollV1, ErrorKind>(k)) && exists|b: Seq<u8>| decode_poll_spec(b) == Some(old@);
                        assert(!vote_valid(vote@, old@.options));
                        assert(k == ErrorKind::InvalidInput);
                    }
                }
                Err(OurError::new(k))
            },
        }
    }
}

} // verus!
