//! Identifiers of users, polls and poll options.

use vstd::prelude::*;

verus! {

/// Opaque identifier of a voter.
#[derive(Debug, Clone)]
pub struct PublicUserId(pub String);

impl View for PublicUserId {
    type V = Seq<char>;

    open spec fn view(&self) -> Seq<char> {
        self.0@
    }
}

impl PublicUserId {
    pub fn from_str(s: String) -> (r: PublicUserId)
        ensures
            r@ == s@,
    {
        PublicUserId(s)
    }

    /// A copy of this identifier.
    pub fn duplicate(&self) -> (r: PublicUserId)
        ensures
            r@ == self@,
    {
        PublicUserId(self.0.clone())
    }
}

/// Opaque, globally unique identifier of a poll.
#[derive(Debug, Clone)]
pub struct PublicPollId(pub String);

impl View for PublicPollId {
    type V = Seq<char>;

    open spec fn view(&self) -> Seq<char> {
        self.0@
    }
}

impl PublicPollId {
    pub fn from_str(s: String) -> (r: PublicPollId)
        ensures
            r@ == s@,
    {
        PublicPollId(s)
    }

    /// A copy of this identifier.
    pub fn duplicate(&self) -> (r: PublicPollId)
        ensures
            r@ == self@,
    {
        PublicPollId(self.0.clone())
    }

    pub fn to_str(&self) -> (r: &str)
        ensures
            r@ == self@,
    {
        self.0.as_str()
    }
}

/// Identifier of an option, unique within its poll.
#[derive(Debug, Clone)]
pub struct PollOptionId(pub String);

impl View for PollOptionId {
    type V = Seq<char>;

    open spec fn view(&self) -> Seq<char> {
        self.0@
    }
}

impl PollOptionId {
    pub fn from_str(s: String) -> (r: PollOptionId)
        ensures
            r@ == s@,
    {
        PollOptionId(s)
    }

    /// A copy of this identifier.
    pub fn duplicate(&self) -> (r: PollOptionId)
        ensures
            r@ == self@,
    {
        PollOptionId(self.0.clone())
    }

    /// Whether two option identifiers are the same.
    pub fn same_as(&self, other: &PollOptionId) -> (r: bool)
        ensures
            r == (self@ == other@),
    {
        self.0 == other.0
    }
}

} // verus!
