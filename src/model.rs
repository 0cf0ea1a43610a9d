//! Poll records and their mathematical views.

use vstd::prelude::*;
use crate::ids::{PollOptionId, PublicPollId, PublicUserId};

verus! {

/// The view of a poll option.
pub struct OptionView {
    pub id: Seq<char>,
    pub title: Seq<char>,
    pub description: Seq<char>,
}

/// The view of one option's entry in a vote: `None` is an abstention.
pub struct ScoreView {
    pub option: Seq<char>,
    pub score: Option<int>,
}

/// The view of a vote.
pub struct VoteView {
    pub user_id: Seq<char>,
    pub user_name: Seq<char>,
    pub scores: Seq<ScoreView>,
}

/// The view of one option's aggregate: the sum and the number of the
/// non-abstaining scores cast for it. The mean is `total / count`.
pub struct TallyView {
    pub option: Seq<char>,
    pub total: int,
    pub count: nat,
}

/// The view of a poll record.
pub struct PollView {
    pub id: Seq<char>,
    pub title: Seq<char>,
    pub description: Seq<char>,
    pub options: Seq<OptionView>,
    pub votes: Seq<VoteView>,
    pub result: Option<Seq<TallyView>>,
}

/// One selectable item of a poll.
#[derive(Debug, Clone)]
pub struct PollOption {
    pub id: PollOptionId,
    pub title: String,
    pub description_text_markdown: String,
}

impl View for PollOption {
    type V = OptionView;

    open spec fn view(&self) -> OptionView {
        OptionView { id: self.id@, title: self.title@, description: self.description_text_markdown@ }
    }
}

/// The view of an optional score.
pub open spec fn score_view(x: Option<i64>) -> Option<int> {
    match x {
        Some(v) => Some(v as int),
        None => None,
    }
}

/// A voter's score for one option; `None` means the voter abstained.
#[derive(Debug, Clone)]
pub struct OptionScore {
    pub option: PollOptionId,
    pub score: Option<i64>,
}

impl PollOption {
    /// A copy of this option.
    pub fn duplicate(&self) -> (r: PollOption)
        ensures
            r@ == self@,
    {
        PollOption {
            id: self.id.duplicate(),
            title: self.title.clone(),
            description_text_markdown: self.description_text_markdown.clone(),
        }
    }
}

impl View for OptionScore {
    type V = ScoreView;

    open spec fn view(&self) -> ScoreView {
        ScoreView {
            option: self.option@,
            score: score_view(self.score),
        }
    }
}

impl OptionScore {
    /// A copy of this entry.
    pub fn duplicate(&self) -> (r: OptionScore)
        ensures
            r@ == self@,
    {
        OptionScore { option: self.option.duplicate(), score: self.score }
    }
}

/// One voter's scores, keyed by option.
#[derive(Debug, Clone)]
pub struct ScoreVote {
    pub user_id: PublicUserId,
    pub user_name: String,
    pub votes: Vec<OptionScore>,
}

impl View for ScoreVote {
    type V = VoteView;

    open spec fn view(&self) -> VoteView {
        VoteView {
            user_id: self.user_id@,
            user_name: self.user_name@,
            scores: self.votes@.map_values(|s: OptionScore| s@),
        }
    }
}

impl ScoreVote {
    /// A copy of this vote.
    pub fn duplicate(&self) -> (r: ScoreVote)
        ensures
            r@ == self@,
    {
        let mut votes: Vec<OptionScore> = Vec::new();
        let mut i: usize = 0;
        while i < self.votes.len()
            invariant
                i <= self.votes@.len(),
                votes@.len() == i,
                forall|j: int| 0 <= j < i ==> (#[trigger] votes@[j])@ == self.votes@[j]@,
            decreases self.votes.len() - i,
        {
            votes.push(self.votes[i].duplicate());
            i = i + 1;
        }
        assert(votes@.map_values(|s: OptionScore| s@) =~= self.votes@.map_values(|s: OptionScore| s@));
        ScoreVote { user_id: self.user_id.duplicate(), user_name: self.user_name.clone(), votes }
    }
}

/// The aggregate of one option: the sum and the count of the non-abstaining
/// scores cast for it. The option's mean score is `total / count`.
#[derive(Debug, Clone)]
pub struct OptionTally {
    pub option: PollOptionId,
    pub total: i128,
    pub count: u64,
}

impl View for OptionTally {
    type V = TallyView;

    open spec fn view(&self) -> TallyView {
        TallyView { option: self.option@, total: self.total as int, count: self.count as nat }
    }
}

/// Version 1 of the poll record.
#[derive(Debug, Clone)]
pub struct PollV1 {
    pub id: PublicPollId,
    pub title: String,
    pub description_text_markdown: String,
    pub options: Vec<PollOption>,
    pub votes: Vec<ScoreVote>,
    pub result: Option<Vec<OptionTally>>,
}

impl View for PollV1 {
    type V = PollView;

    open spec fn view(&self) -> PollView {
        PollView {
            id: self.id@,
            title: self.title@,
            description: self.description_text_markdown@,
            options: self.options@.map_values(|o: PollOption| o@),
            votes: self.votes@.map_values(|v: ScoreVote| v@),
            result: match self.result {
                Some(r) => Some(r@.map_values(|t: OptionTally| t@)),
                None => None,
            },
        }
    }
}

/// A versioned poll record.
#[derive(Debug, Clone)]
pub enum Poll {
    V1(PollV1),
}

impl View for Poll {
    type V = PollView;

    open spec fn view(&self) -> PollView {
        match self {
            Poll::V1(p) => p@,
        }
    }
}

/// A request to create a poll.
#[derive(Debug, Clone)]
pub struct CreatePoll {
    pub title: String,
    pub description_text_markdown: String,
    pub options: Vec<PollOption>,
}

} // verus!
