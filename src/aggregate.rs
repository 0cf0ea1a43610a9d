//! The vote aggregator: per option, the sum and count of the
//! non-abstaining scores over all votes.

use vstd::prelude::*;
use crate::ids::PollOptionId;
use crate::model::{OptionScore, OptionTally, OptionView, PollOption, ScoreVote, ScoreView, TallyView, VoteView};

verus! {

/// The score that a vote's entries give `o`: that of the last entry for `o`,
/// `None` where there is none or it abstains.
pub open spec fn score_for(scores: Seq<ScoreView>, o: Seq<char>) -> Option<int>
    decreases scores.len(),
{
    if scores.len() == 0 {
        None
    } else if scores.last().option == o {
        scores.last().score
    } else {
        score_for(scores.drop_last(), o)
    }
}

/// The sum of the non-abstaining scores for `o` over `votes`.
pub open spec fn total_for(votes: Seq<VoteView>, o: Seq<char>) -> int
    decreases votes.len(),
{
    if votes.len() == 0 {
        0
    } else {
        total_for(votes.drop_last(), o) + match score_for(votes.last().scores, o) {
            Some(x) => x,
            None => 0,
        }
    }
}

/// The number of the non-abstaining scores for `o` over `votes`.
pub open spec fn count_for(votes: Seq<VoteView>, o: Seq<char>) -> nat
    decreases votes.len(),
{
    if votes.len() == 0 {
        0
    } else {
        count_for(votes.drop_last(), o) + if score_for(votes.last().scores, o) is Some {
            1nat
        } else {
            0nat
        }
    }
}

/// The aggregate result: one tally per option, in option order, for each
/// option that received at least one non-abstaining score.
pub open spec fn aggregate(votes: Seq<VoteView>, options: Seq<OptionView>) -> Seq<TallyView>
    decreases options.len(),
{
    if options.len() == 0 {
        Seq::empty()
    } else {
        let o = options.last().id;
        let rest = aggregate(votes, options.drop_last());
        if count_for(votes, o) > 0 {
            rest.push(TallyView { option: o, total: total_for(votes, o), count: count_for(votes, o) })
        } else {
            rest
        }
    }
}

/// One more than the largest magnitude of a score.
pub open spec fn score_bound() -> int {
    0x8000_0000_0000_0000
}

proof fn lemma_score_bound(scores: Seq<ScoreView>, o: Seq<char>)
    requires
        forall|i: int| 0 <= i < scores.len() ==> match #[trigger] scores[i].score {
            Some(x) => i64::MIN <= x <= i64::MAX,
            None => true,
        },
    ensures
        match score_for(scores, o) {
            Some(x) => i64::MIN <= x <= i64::MAX,
            None => true,
        },
    decreases scores.len(),
{
    if scores.len() > 0 && scores.last().option != o {
        lemma_score_bound(scores.drop_last(), o);
    }
}

/// The sum over `n` votes stays within `n` times the largest score magnitude.
proof fn lemma_total_bound(votes: Seq<VoteView>, o: Seq<char>)
    requires
        forall|j: int, i: int| 0 <= j < votes.len() && 0 <= i < votes[j].scores.len()
            ==> match #[trigger] votes[j].scores[i].score {
                Some(x) => i64::MIN <= x <= i64::MAX,
                None => true,
            },
    ensures
        -(votes.len() * score_bound()) <= total_for(votes, o) <= votes.len() * score_bound(),
        count_for(votes, o) <= votes.len(),
    decreases votes.len(),
{
    if votes.len() > 0 {
        let init = votes.drop_last();
        assert forall|j: int, i: int| 0 <= j < init.len() && 0 <= i < init[j].scores.len()
            implies match #[trigger] init[j].scores[i].score {
                Some(x) => i64::MIN <= x <= i64::MAX,
                None => true,
            } by {
            assert(init[j] == votes[j]);
        }
        lemma_total_bound(init, o);
        let last = votes.last();
        assert forall|i: int| 0 <= i < last.scores.len() implies match #[trigger] last.scores[i].score {
            Some(x) => i64::MIN <= x <= i64::MAX,
            None => true,
        } by {
            assert(votes[votes.len() - 1].scores[i] == last.scores[i]);
        }
        lemma_score_bound(last.scores, o);
        assert((votes.len() - 1) * score_bound() + score_bound() == votes.len() * score_bound())
            by (nonlinear_arith);
    }
}

/// The last score that `scores` gives option `o`.
fn find_score(scores: &Vec<OptionScore>, o: &PollOptionId) -> (r: Option<i64>)
    ensures
        match r {
            Some(x) => score_for(scores@.map_values(|s: OptionScore| s@), o@) == Some(x as int),
            None => score_for(scores@.map_values(|s: OptionScore| s@), o@) is None,
        },
{
    let ghost sv = scores@.map_values(|s: OptionScore| s@);
    let mut found: Option<i64> = None;
    let mut i: usize = 0;
    while i < scores.len()
        invariant
            i <= scores.len(),
            sv == scores@.map_values(|s: OptionScore| s@),
            match found {
                Some(x) => score_for(sv.take(i as int), o@) == Some(x as int),
                None => score_for(sv.take(i as int), o@) is None,
            },
        decreases scores.len() - i,
    {
        assert(sv.take(i + 1).drop_last() == sv.take(i as int));
        if scores[i].option.same_as(o) {
            found = scores[i].score;
        }
        i = i + 1;
    }
    assert(sv.take(i as int) == sv);
    found
}

/// Sum and count of the non-abstaining scores for `o`.
fn tally_option(votes: &Vec<ScoreVote>, o: &PollOptionId) -> (r: (i128, u64))
    ensures
        r.0 as int == total_for(votes@.map_values(|v: ScoreVote| v@), o@),
        r.1 as nat == count_for(votes@.map_values(|v: ScoreVote| v@), o@),
{
    let ghost vv = votes@.map_values(|v: ScoreVote| v@);
    let mut total: i128 = 0;
    let mut count: u64 = 0;
    let mut i: usize = 0;
    while i < votes.len()
        invariant
            i <= votes.len(),
            vv == votes@.map_values(|v: ScoreVote| v@),
            total as int == total_for(vv.take(i as int), o@),
            count as nat == count_for(vv.take(i as int), o@),
        decreases votes.len() - i,
    {
        let ghost pre = vv.take(i as int);
        let ghost next = vv.take(i + 1);
        assert(next.drop_last() == pre);
        assert(next.last() == votes[i as int]@);
        proof {
            assert forall|j: int, k: int| 0 <= j < next.len() && 0 <= k < next[j].scores.len()
                implies match #[trigger] next[j].scores[k].score {
                    Some(x) => i64::MIN <= x <= i64::MAX,
                    None => true,
                } by {
                assert(next[j] == votes[j]@);
                assert(next[j].scores[k] == votes[j].votes[k]@);
            }
            lemma_total_bound(next, o@);
            assert((i + 1) * score_bound() <= 0x1_0000_0000_0000_0000 * score_bound())
                by (nonlinear_arith) requires i + 1 <= 0x1_0000_0000_0000_0000;
        }
        let s = find_score(&votes[i].votes, o);
        match s {
            Some(x) => {
                total = total + x as i128;
                count = count + 1;
            },
            None => {},
        }
        i = i + 1;
    }
    assert(vv.take(i as int) == vv);
    (total, count)
}

/// The aggregate result of `votes` over `options`: for each option, in
/// option order, the sum and count of its non-abstaining scores; an option
/// with no such score is absent.
pub fn compute_vote_result(votes: &Vec<ScoreVote>, options: &Vec<PollOption>) -> (r: Vec<OptionTally>)
    ensures
        r@.map_values(|t: OptionTally| t@) == aggregate(
            votes@.map_values(|v: ScoreVote| v@),
            options@.map_values(|o: PollOption| o@),
        ),
{
    let ghost vv = votes@.map_values(|v: ScoreVote| v@);
    let ghost ov = options@.map_values(|o: PollOption| o@);
    let mut r: Vec<OptionTally> = Vec::new();
    let mut i: usize = 0;
    while i < options.len()
        invariant
            i <= options.len(),
            vv == votes@.map_values(|v: ScoreVote| v@),
            ov == options@.map_values(|o: PollOption| o@),
            r@.map_values(|t: OptionTally| t@) == aggregate(vv, ov.take(i as int)),
        decreases options.len() - i,
    {
        assert(ov.take(i + 1).drop_last() == ov.take(i as int));
        let (total, count) = tally_option(votes, &options[i].id);
        if count > 0 {
            r.push(OptionTally { option: options[i].id.duplicate(), total, count });
        }
        i = i + 1;
    }
    assert(ov.take(i as int) == ov);
    r
}

} // verus!
