//! The storage encoding of poll records.
//!
//! Layout, all integers little-endian:
//! - a record starts with its version tag, `1` for `PollV1`;
//! - a string is its UTF-8 length as a `u64`, then its UTF-8 bytes;
//! - a list is its length as a `u64`, then its items in order;
//! - an optional score is `0` (abstained), `1` then a `u64` `m` (the score `m`),
//!   or `2` then a `u64` `m` (the score `-m - 1`);
//! - a total is `0` then a `u128` `m` (`m`), or `1` then a `u128` `m` (`-m - 1`);
//! - an absent result is `0`; a present one is `1` then the list of tallies.
//!
//! Decoding accepts exactly the encodings of records: any other input,
//! truncated, extended, or holding an unknown tag, is rejected.

use vstd::prelude::*;
use vstd::bytes::{
    spec_u64_to_le_bytes, spec_u64_from_le_bytes, lemma_auto_spec_u64_to_from_le_bytes,
    spec_u128_to_le_bytes, spec_u128_from_le_bytes, lemma_auto_spec_u128_to_from_le_bytes,
};
use vstd::utf8::{encode_utf8, decode_utf8, valid_utf8, encode_utf8_valid_utf8, encode_utf8_decode_utf8};
use vstd::bytes::{u64_to_le_bytes, u64_from_le_bytes, u128_to_le_bytes, u128_from_le_bytes};
use crate::ids::{PollOptionId, PublicPollId, PublicUserId};
use crate::model::{
    score_view, OptionView, ScoreView, VoteView, TallyView, PollView, PollOption, OptionScore, ScoreVote,
    OptionTally, PollV1,
};

verus! {

/// The version tag of a `PollV1` record.
pub const TAG_V1: u8 = 1;

// ---------------------------------------------------------------- encoding

pub open spec fn ser_u64(x: u64) -> Seq<u8> {
    spec_u64_to_le_bytes(x)
}

pub open spec fn ser_u128(x: u128) -> Seq<u8> {
    spec_u128_to_le_bytes(x)
}

pub open spec fn ser_len(n: nat) -> Seq<u8> {
    ser_u64(n as u64)
}

pub open spec fn ser_str(s: Seq<char>) -> Seq<u8> {
    ser_len(encode_utf8(s).len()) + encode_utf8(s)
}

pub open spec fn ser_list<T>(xs: Seq<T>, f: spec_fn(T) -> Seq<u8>) -> Seq<u8>
    decreases xs.len(),
{
    if xs.len() == 0 {
        Seq::empty()
    } else {
        ser_list(xs.drop_last(), f) + f(xs.last())
    }
}

pub open spec fn ser_option(o: OptionView) -> Seq<u8> {
    ser_str(o.id) + ser_str(o.title) + ser_str(o.description)
}

pub open spec fn ser_score(x: Option<int>) -> Seq<u8> {
    match x {
        None => seq![0u8],
        Some(v) => if v >= 0 {
            seq![1u8] + ser_u64(v as u64)
        } else {
            seq![2u8] + ser_u64((-v - 1) as u64)
        },
    }
}

pub open spec fn ser_entry(e: ScoreView) -> Seq<u8> {
    ser_str(e.option) + ser_score(e.score)
}

pub open spec fn ser_vote(v: VoteView) -> Seq<u8> {
    ser_str(v.user_id) + ser_str(v.user_name) + ser_len(v.scores.len()) + ser_list(
        v.scores,
        |e: ScoreView| ser_entry(e),
    )
}

pub open spec fn ser_total(v: int) -> Seq<u8> {
    if v >= 0 {
        seq![0u8] + ser_u128(v as u128)
    } else {
        seq![1u8] + ser_u128((-v - 1) as u128)
    }
}

pub open spec fn ser_tally(t: TallyView) -> Seq<u8> {
    ser_str(t.option) + ser_total(t.total) + ser_u64(t.count as u64)
}

pub open spec fn ser_result(r: Option<Seq<TallyView>>) -> Seq<u8> {
    match r {
        None => seq![0u8],
        Some(ts) => seq![1u8] + ser_len(ts.len()) + ser_list(ts, |t: TallyView| ser_tally(t)),
    }
}

/// The storage encoding of a `PollV1` record.
pub open spec fn encode_poll_spec(p: PollView) -> Seq<u8> {
    seq![TAG_V1] + ser_str(p.id) + ser_str(p.title) + ser_str(p.description) + ser_len(
        p.options.len(),
    ) + ser_list(p.options, |o: OptionView| ser_option(o)) + ser_len(p.votes.len()) + ser_list(
        p.votes,
        |v: VoteView| ser_vote(v),
    ) + ser_result(p.result)
}

// ---------------------------------------------------- what can be encoded

pub open spec fn str_fits(s: Seq<char>) -> bool {
    encode_utf8(s).len() <= u64::MAX
}

pub open spec fn option_fits(o: OptionView) -> bool {
    str_fits(o.id) && str_fits(o.title) && str_fits(o.description)
}

pub open spec fn entry_fits(e: ScoreView) -> bool {
    &&& str_fits(e.option)
    &&& match e.score {
        Some(v) => i64::MIN <= v <= i64::MAX,
        None => true,
    }
}

pub open spec fn vote_fits(v: VoteView) -> bool {
    &&& str_fits(v.user_id)
    &&& str_fits(v.user_name)
    &&& v.scores.len() <= u64::MAX
    &&& forall|i: int| 0 <= i < v.scores.len() ==> entry_fits(#[trigger] v.scores[i])
}

pub open spec fn tally_fits(t: TallyView) -> bool {
    str_fits(t.option) && i128::MIN <= t.total <= i128::MAX && t.count <= u64::MAX
}

/// Every length, score and total of the record fits its field in the
/// encoding. This holds of the view of every `PollV1` value.
pub open spec fn poll_fits(p: PollView) -> bool {
    &&& str_fits(p.id)
    &&& str_fits(p.title)
    &&& str_fits(p.description)
    &&& p.options.len() <= u64::MAX
    &&& p.votes.len() <= u64::MAX
    &&& forall|i: int| 0 <= i < p.options.len() ==> option_fits(#[trigger] p.options[i])
    &&& forall|i: int| 0 <= i < p.votes.len() ==> vote_fits(#[trigger] p.votes[i])
    &&& match p.result {
        Some(ts) => ts.len() <= u64::MAX && forall|i: int| 0 <= i < ts.len() ==> tally_fits(
            #[trigger] ts[i],
        ),
        None => true,
    }
}

// ---------------------------------------------------------------- decoding

pub open spec fn parse_u64(s: Seq<u8>, p: int) -> Option<(u64, int)> {
    if 0 <= p && p + 8 <= s.len() {
        Some((spec_u64_from_le_bytes(s.subrange(p, p + 8)), p + 8))
    } else {
        None
    }
}

pub open spec fn parse_u128(s: Seq<u8>, p: int) -> Option<(u128, int)> {
    if 0 <= p && p + 16 <= s.len() {
        Some((spec_u128_from_le_bytes(s.subrange(p, p + 16)), p + 16))
    } else {
        None
    }
}

pub open spec fn parse_str(s: Seq<u8>, p: int) -> Option<(Seq<char>, int)> {
    match parse_u64(s, p) {
        Some((n, q)) => if q + n <= s.len() && valid_utf8(s.subrange(q, q + n)) {
            Some((decode_utf8(s.subrange(q, q + n)), q + n))
        } else {
            None
        },
        None => None,
    }
}

pub open spec fn parse_list<T>(
    s: Seq<u8>,
    p: int,
    n: nat,
    g: spec_fn(Seq<u8>, int) -> Option<(T, int)>,
) -> Option<(Seq<T>, int)>
    decreases n,
{
    if n == 0 {
        Some((Seq::empty(), p))
    } else {
        match parse_list(s, p, (n - 1) as nat, g) {
            Some((xs, q)) => match g(s, q) {
                Some((x, r)) => Some((xs.push(x), r)),
                None => None,
            },
            None => None,
        }
    }
}

pub open spec fn parse_option(s: Seq<u8>, p: int) -> Option<(OptionView, int)> {
    match parse_str(s, p) {
        Some((id, q1)) => match parse_str(s, q1) {
            Some((title, q2)) => match parse_str(s, q2) {
                Some((description, q3)) => Some(
                    (OptionView { id, title, description }, q3),
                ),
                None => None,
            },
            None => None,
        },
        None => None,
    }
}

pub open spec fn parse_score(s: Seq<u8>, p: int) -> Option<(Option<int>, int)> {
    if 0 <= p < s.len() {
        if s[p] == 0 {
            Some((None, p + 1))
        } else if s[p] == 1 || s[p] == 2 {
            match parse_u64(s, p + 1) {
                Some((m, q)) => if m <= i64::MAX {
                    Some((Some(if s[p] == 1 { m as int } else { -(m as int) - 1 }), q))
                } else {
                    None
                },
                None => None,
            }
        } else {
            None
        }
    } else {
        None
    }
}

pub open spec fn parse_entry(s: Seq<u8>, p: int) -> Option<(ScoreView, int)> {
    match parse_str(s, p) {
        Some((option, q1)) => match parse_score(s, q1) {
            Some((score, q2)) => Some((ScoreView { option, score }, q2)),
            None => None,
        },
        None => None,
    }
}

pub open spec fn entry_parser() -> spec_fn(Seq<u8>, int) -> Option<(ScoreView, int)> {
    |s: Seq<u8>, p: int| parse_entry(s, p)
}

pub open spec fn parse_vote(s: Seq<u8>, p: int) -> Option<(VoteView, int)> {
    match parse_str(s, p) {
        Some((user_id, q1)) => match parse_str(s, q1) {
            Some((user_name, q2)) => match parse_u64(s, q2) {
                Some((n, q3)) => match parse_list(s, q3, n as nat, entry_parser()) {
                    Some((scores, q4)) => Some((VoteView { user_id, user_name, scores }, q4)),
                    None => None,
                },
                None => None,
            },
            None => None,
        },
        None => None,
    }
}

pub open spec fn parse_total(s: Seq<u8>, p: int) -> Option<(int, int)> {
    if 0 <= p < s.len() && (s[p] == 0 || s[p] == 1) {
        match parse_u128(s, p + 1) {
            Some((m, q)) => if m <= i128::MAX {
                Some((if s[p] == 0 { m as int } else { -(m as int) - 1 }, q))
            } else {
                None
            },
            None => None,
        }
    } else {
        None
    }
}

pub open spec fn parse_tally(s: Seq<u8>, p: int) -> Option<(TallyView, int)> {
    match parse_str(s, p) {
        Some((option, q1)) => match parse_total(s, q1) {
            Some((total, q2)) => match parse_u64(s, q2) {
                Some((count, q3)) => Some((TallyView { option, total, count: count as nat }, q3)),
                None => None,
            },
            None => None,
        },
        None => None,
    }
}

pub open spec fn option_parser() -> spec_fn(Seq<u8>, int) -> Option<(OptionView, int)> {
    |s: Seq<u8>, p: int| parse_option(s, p)
}

pub open spec fn vote_parser() -> spec_fn(Seq<u8>, int) -> Option<(VoteView, int)> {
    |s: Seq<u8>, p: int| parse_vote(s, p)
}

pub open spec fn tally_parser() -> spec_fn(Seq<u8>, int) -> Option<(TallyView, int)> {
    |s: Seq<u8>, p: int| parse_tally(s, p)
}

pub open spec fn parse_result(s: Seq<u8>, p: int) -> Option<(Option<Seq<TallyView>>, int)> {
    if 0 <= p < s.len() {
        if s[p] == 0 {
            Some((None, p + 1))
        } else if s[p] == 1 {
            match parse_u64(s, p + 1) {
                Some((n, q)) => match parse_list(s, q, n as nat, tally_parser()) {
                    Some((ts, r)) => Some((Some(ts), r)),
                    None => None,
                },
                None => None,
            }
        } else {
            None
        }
    } else {
        None
    }
}

/// The fields of a record whose version tag has been read, and the position
/// after them.
pub open spec fn parse_poll_body(s: Seq<u8>, p: int) -> Option<(PollView, int)> {
    match parse_str(s, p) {
        Some((id, q1)) => match parse_str(s, q1) {
            Some((title, q2)) => match parse_str(s, q2) {
                Some((description, q3)) => match parse_u64(s, q3) {
                    Some((n, q4)) => match parse_list(s, q4, n as nat, option_parser()) {
                        Some((options, q5)) => match parse_u64(s, q5) {
                            Some((m, q6)) => match parse_list(s, q6, m as nat, vote_parser()) {
                                Some((votes, q7)) => match parse_result(s, q7) {
                                    Some((result, q8)) => Some(
                                        (
                                            PollView {
                                                id,
                                                title,
                                                description,
                                                options,
                                                votes,
                                                result,
                                            },
                                            q8,
                                        ),
                                    ),
                                    None => None,
                                },
                                None => None,
                            },
                            None => None,
                        },
                        None => None,
                    },
                    None => None,
                },
                None => None,
            },
            None => None,
        },
        None => None,
    }
}

/// The record that `s` encodes, if `s` is exactly the encoding of one.
pub open spec fn decode_poll_spec(s: Seq<u8>) -> Option<PollView> {
    if s.len() >= 1 && s[0] == TAG_V1 {
        match parse_poll_body(s, 1) {
            Some((p, q)) => if q == s.len() {
                Some(p)
            } else {
                None
            },
            None => None,
        }
    } else {
        None
    }
}

// ------------------------------------------------------------ round trip

/// `x` stands in `s` from position `p` on.
pub open spec fn at(s: Seq<u8>, p: int, x: Seq<u8>) -> bool {
    0 <= p && p + x.len() <= s.len() && s.subrange(p, p + x.len()) == x
}

proof fn lemma_at_split(s: Seq<u8>, p: int, a: Seq<u8>, b: Seq<u8>)
    requires
        at(s, p, a + b),
    ensures
        at(s, p, a),
        at(s, p + a.len(), b),
{
    let ab = a + b;
    assert forall|i: int| 0 <= i < a.len() implies #[trigger] s.subrange(p, p + a.len())[i] == a[i] by {
        assert(s.subrange(p, p + ab.len())[i] == ab[i]);
    }
    assert(s.subrange(p, p + a.len()) =~= a);
    assert forall|i: int| 0 <= i < b.len() implies #[trigger] s.subrange(p + a.len(), p + a.len() + b.len())[i] == b[i] by {
        assert(s.subrange(p, p + ab.len())[a.len() + i] == ab[a.len() + i]);
    }
    assert(s.subrange(p + a.len(), p + a.len() + b.len()) =~= b);
}

proof fn lemma_at_byte(s: Seq<u8>, p: int, b: u8, rest: Seq<u8>)
    requires
        at(s, p, seq![b] + rest),
    ensures
        s[p] == b,
        at(s, p + 1, rest),
{
    lemma_at_split(s, p, seq![b], rest);
    assert(s.subrange(p, p + 1)[0] == s[p]);
}

proof fn lemma_u64_round_trip(s: Seq<u8>, p: int, x: u64)
    requires
        at(s, p, ser_u64(x)),
    ensures
        ser_u64(x).len() == 8,
        parse_u64(s, p) == Some((x, p + 8)),
{
    lemma_auto_spec_u64_to_from_le_bytes();
}

proof fn lemma_u128_round_trip(s: Seq<u8>, p: int, x: u128)
    requires
        at(s, p, ser_u128(x)),
    ensures
        ser_u128(x).len() == 16,
        parse_u128(s, p) == Some((x, p + 16)),
{
    lemma_auto_spec_u128_to_from_le_bytes();
}

proof fn lemma_str_round_trip(s: Seq<u8>, p: int, c: Seq<char>)
    requires
        str_fits(c),
        at(s, p, ser_str(c)),
    ensures
        parse_str(s, p) == Some((c, p + ser_str(c).len())),
{
    let b = encode_utf8(c);
    lemma_at_split(s, p, ser_len(b.len()), b);
    lemma_u64_round_trip(s, p, b.len() as u64);
    encode_utf8_valid_utf8(c);
    encode_utf8_decode_utf8(c);
}

proof fn lemma_list_round_trip<T>(
    s: Seq<u8>,
    p: int,
    xs: Seq<T>,
    f: spec_fn(T) -> Seq<u8>,
    g: spec_fn(Seq<u8>, int) -> Option<(T, int)>,
    ok: spec_fn(T) -> bool,
)
    requires
        at(s, p, ser_list(xs, f)),
        forall|i: int| 0 <= i < xs.len() ==> ok(#[trigger] xs[i]),
        forall|q: int, x: T| ok(x) && #[trigger] at(s, q, f(x)) ==> g(s, q) == Some((x, q + f(x).len())),
    ensures
        parse_list(s, p, xs.len(), g) == Some((xs, p + ser_list(xs, f).len())),
    decreases xs.len(),
{
    if xs.len() > 0 {
        let init = xs.drop_last();
        lemma_at_split(s, p, ser_list(init, f), f(xs.last()));
        assert forall|i: int| 0 <= i < init.len() implies ok(#[trigger] init[i]) by {
            assert(init[i] == xs[i]);
        }
        lemma_list_round_trip(s, p, init, f, g, ok);
        assert(ok(xs[xs.len() - 1]));
        assert(init.push(xs.last()) =~= xs);
    }
}

proof fn lemma_option_round_trip(s: Seq<u8>, p: int, o: OptionView)
    requires
        option_fits(o),
        at(s, p, ser_option(o)),
    ensures
        parse_option(s, p) == Some((o, p + ser_option(o).len())),
{
    lemma_at_split(s, p, ser_str(o.id) + ser_str(o.title), ser_str(o.description));
    lemma_at_split(s, p, ser_str(o.id), ser_str(o.title));
    lemma_str_round_trip(s, p, o.id);
    lemma_str_round_trip(s, p + ser_str(o.id).len(), o.title);
    lemma_str_round_trip(s, p + ser_str(o.id).len() + ser_str(o.title).len(), o.description);
}

proof fn lemma_score_round_trip(s: Seq<u8>, p: int, x: Option<int>)
    requires
        match x {
            Some(v) => i64::MIN <= v <= i64::MAX,
            None => true,
        },
        at(s, p, ser_score(x)),
    ensures
        parse_score(s, p) == Some((x, p + ser_score(x).len())),
{
    match x {
        None => {
            assert(s.subrange(p, p + 1)[0] == s[p]);
        },
        Some(v) => {
            if v >= 0 {
                lemma_at_byte(s, p, 1u8, ser_u64(v as u64));
                lemma_u64_round_trip(s, p + 1, v as u64);
            } else {
                lemma_at_byte(s, p, 2u8, ser_u64((-v - 1) as u64));
                lemma_u64_round_trip(s, p + 1, (-v - 1) as u64);
            }
        },
    }
}

proof fn lemma_entry_round_trip(s: Seq<u8>, p: int, e: ScoreView)
    requires
        entry_fits(e),
        at(s, p, ser_entry(e)),
    ensures
        parse_entry(s, p) == Some((e, p + ser_entry(e).len())),
{
    lemma_at_split(s, p, ser_str(e.option), ser_score(e.score));
    lemma_str_round_trip(s, p, e.option);
    lemma_score_round_trip(s, p + ser_str(e.option).len(), e.score);
}

proof fn lemma_vote_round_trip(s: Seq<u8>, p: int, v: VoteView)
    requires
        vote_fits(v),
        at(s, p, ser_vote(v)),
    ensures
        parse_vote(s, p) == Some((v, p + ser_vote(v).len())),
{
    let a = ser_str(v.user_id);
    let b = ser_str(v.user_name);
    let c = ser_len(v.scores.len());
    let f = |e: ScoreView| ser_entry(e);
    let d = ser_list(v.scores, f);
    lemma_at_split(s, p, a + b + c, d);
    lemma_at_split(s, p, a + b, c);
    lemma_at_split(s, p, a, b);
    lemma_str_round_trip(s, p, v.user_id);
    lemma_str_round_trip(s, p + a.len(), v.user_name);
    lemma_u64_round_trip(s, p + a.len() + b.len(), v.scores.len() as u64);
    let ok = |e: ScoreView| entry_fits(e);
    assert forall|q: int, x: ScoreView| ok(x) && #[trigger] at(s, q, f(x)) implies entry_parser()(s, q)
        == Some((x, q + f(x).len())) by {
        lemma_entry_round_trip(s, q, x);
    }
    lemma_list_round_trip(s, p + a.len() + b.len() + c.len(), v.scores, f, entry_parser(), ok);
}

proof fn lemma_total_round_trip(s: Seq<u8>, p: int, v: int)
    requires
        i128::MIN <= v <= i128::MAX,
        at(s, p, ser_total(v)),
    ensures
        parse_total(s, p) == Some((v, p + ser_total(v).len())),
{
    if v >= 0 {
        lemma_at_byte(s, p, 0u8, ser_u128(v as u128));
        lemma_u128_round_trip(s, p + 1, v as u128);
    } else {
        lemma_at_byte(s, p, 1u8, ser_u128((-v - 1) as u128));
        lemma_u128_round_trip(s, p + 1, (-v - 1) as u128);
    }
}

proof fn lemma_tally_round_trip(s: Seq<u8>, p: int, t: TallyView)
    requires
        tally_fits(t),
        at(s, p, ser_tally(t)),
    ensures
        parse_tally(s, p) == Some((t, p + ser_tally(t).len())),
{
    let a = ser_str(t.option);
    let b = ser_total(t.total);
    lemma_at_split(s, p, a + b, ser_u64(t.count as u64));
    lemma_at_split(s, p, a, b);
    lemma_str_round_trip(s, p, t.option);
    lemma_total_round_trip(s, p + a.len(), t.total);
    lemma_u64_round_trip(s, p + a.len() + b.len(), t.count as u64);
}

proof fn lemma_result_round_trip(s: Seq<u8>, p: int, r: Option<Seq<TallyView>>)
    requires
        match r {
            Some(ts) => ts.len() <= u64::MAX && forall|i: int| 0 <= i < ts.len() ==> tally_fits(
                #[trigger] ts[i],
            ),
            None => true,
        },
        at(s, p, ser_result(r)),
    ensures
        parse_result(s, p) == Some((r, p + ser_result(r).len())),
{
    match r {
        None => {
            assert(s.subrange(p, p + 1)[0] == s[p]);
        },
        Some(ts) => {
            let f = |t: TallyView| ser_tally(t);
            lemma_at_split(s, p, seq![1u8] + ser_len(ts.len()), ser_list(ts, f));
            lemma_at_byte(s, p, 1u8, ser_len(ts.len()));
            lemma_u64_round_trip(s, p + 1, ts.len() as u64);
            let ok = |t: TallyView| tally_fits(t);
            assert forall|q: int, x: TallyView| ok(x) && #[trigger] at(s, q, f(x)) implies tally_parser()(s, q)
                == Some((x, q + f(x).len())) by {
                lemma_tally_round_trip(s, q, x);
            }
            lemma_list_round_trip(s, p + 9, ts, f, tally_parser(), ok);
        },
    }
}

/// Decoding the encoding of a record gives the record back, with the same
/// fields and the same order of options, votes and tallies.
pub proof fn lemma_round_trip(p: PollView)
    requires
        poll_fits(p),
    ensures
        decode_poll_spec(encode_poll_spec(p)) == Some(p),
{
    let s = encode_poll_spec(p);
    let fo = |o: OptionView| ser_option(o);
    let fv = |v: VoteView| ser_vote(v);
    let t = seq![TAG_V1];
    let a = ser_str(p.id);
    let b = ser_str(p.title);
    let c = ser_str(p.description);
    let d = ser_len(p.options.len());
    let e = ser_list(p.options, fo);
    let g = ser_len(p.votes.len());
    let h = ser_list(p.votes, fv);
    let k = ser_result(p.result);
    assert(s.subrange(0, s.len() as int) =~= s);
    lemma_at_split(s, 0, t + a + b + c + d + e + g + h, k);
    lemma_at_split(s, 0, t + a + b + c + d + e + g, h);
    lemma_at_split(s, 0, t + a + b + c + d + e, g);
    lemma_at_split(s, 0, t + a + b + c + d, e);
    lemma_at_split(s, 0, t + a + b + c, d);
    lemma_at_split(s, 0, t + a + b, c);
    lemma_at_split(s, 0, t + a, b);
    lemma_at_split(s, 0, t, a);
    assert(s.subrange(0, 1)[0] == s[0]);
    let p1: int = 1 + a.len() as int;
    let p2: int = p1 + b.len();
    let p3: int = p2 + c.len();
    let p4: int = p3 + d.len();
    let p5: int = p4 + e.len();
    let p6: int = p5 + g.len();
    let p7: int = p6 + h.len();
    lemma_str_round_trip(s, 1, p.id);
    lemma_str_round_trip(s, p1, p.title);
    lemma_str_round_trip(s, p2, p.description);
    lemma_u64_round_trip(s, p3, p.options.len() as u64);
    let oko = |o: OptionView| option_fits(o);
    assert forall|q: int, x: OptionView| oko(x) && #[trigger] at(s, q, fo(x)) implies option_parser()(s, q)
        == Some((x, q + fo(x).len())) by {
        lemma_option_round_trip(s, q, x);
    }
    lemma_list_round_trip(s, p4, p.options, fo, option_parser(), oko);
    lemma_u64_round_trip(s, p5, p.votes.len() as u64);
    let okv = |v: VoteView| vote_fits(v);
    assert forall|q: int, x: VoteView| okv(x) && #[trigger] at(s, q, fv(x)) implies vote_parser()(s, q)
        == Some((x, q + fv(x).len())) by {
        lemma_vote_round_trip(s, q, x);
    }
    lemma_list_round_trip(s, p6, p.votes, fv, vote_parser(), okv);
    lemma_result_round_trip(s, p7, p.result);
}

// ------------------------------------------------------ canonical decoding

proof fn lemma_join(s: Seq<u8>, a: int, b: int, c: int)
    requires
        0 <= a <= b <= c <= s.len(),
    ensures
        s.subrange(a, c) == s.subrange(a, b) + s.subrange(b, c),
{
    assert(s.subrange(a, c) =~= s.subrange(a, b) + s.subrange(b, c));
}

proof fn lemma_u64_canonical(s: Seq<u8>, p: int)
    requires
        parse_u64(s, p) is Some,
    ensures
        parse_u64(s, p)->Some_0.1 == p + 8,
        s.subrange(p, p + 8) == ser_u64(parse_u64(s, p)->Some_0.0),
{
    lemma_auto_spec_u64_to_from_le_bytes();
    assert(s.subrange(p, p + 8).len() == 8);
}

proof fn lemma_u128_canonical(s: Seq<u8>, p: int)
    requires
        parse_u128(s, p) is Some,
    ensures
        parse_u128(s, p)->Some_0.1 == p + 16,
        s.subrange(p, p + 16) == ser_u128(parse_u128(s, p)->Some_0.0),
{
    lemma_auto_spec_u128_to_from_le_bytes();
    assert(s.subrange(p, p + 16).len() == 16);
}

proof fn lemma_str_canonical(s: Seq<u8>, p: int)
    requires
        parse_str(s, p) is Some,
    ensures
        p <= parse_str(s, p)->Some_0.1 <= s.len(),
        s.subrange(p, parse_str(s, p)->Some_0.1) == ser_str(parse_str(s, p)->Some_0.0),
        str_fits(parse_str(s, p)->Some_0.0),
{
    lemma_u64_canonical(s, p);
    let n = parse_u64(s, p)->Some_0.0;
    let q = p + 8;
    let b = s.subrange(q, q + n);
    vstd::utf8::decode_utf8_encode_utf8(b);
    lemma_join(s, p, q, q + n);
}

proof fn lemma_list_canonical<T>(
    s: Seq<u8>,
    p: int,
    n: nat,
    f: spec_fn(T) -> Seq<u8>,
    g: spec_fn(Seq<u8>, int) -> Option<(T, int)>,
    ok: spec_fn(T) -> bool,
)
    requires
        0 <= p <= s.len(),
        parse_list(s, p, n, g) is Some,
        forall|q: int| #![trigger g(s, q)] 0 <= q <= s.len() && g(s, q) is Some ==> {
            &&& q <= g(s, q)->Some_0.1 <= s.len()
            &&& s.subrange(q, g(s, q)->Some_0.1) == f(g(s, q)->Some_0.0)
            &&& ok(g(s, q)->Some_0.0)
        },
    ensures
        p <= parse_list(s, p, n, g)->Some_0.1 <= s.len(),
        parse_list(s, p, n, g)->Some_0.0.len() == n,
        s.subrange(p, parse_list(s, p, n, g)->Some_0.1) == ser_list(parse_list(s, p, n, g)->Some_0.0, f),
        forall|i: int| 0 <= i < n ==> ok(#[trigger] parse_list(s, p, n, g)->Some_0.0[i]),
    decreases n,
{
    if n == 0 {
        assert(s.subrange(p, p) =~= Seq::<u8>::empty());
    } else {
        let m = (n - 1) as nat;
        lemma_list_canonical(s, p, m, f, g, ok);
        let (xs, q) = parse_list(s, p, m, g)->Some_0;
        let (x, r) = g(s, q)->Some_0;
        lemma_join(s, p, q, r);
        let ys = xs.push(x);
        assert(ys.drop_last() =~= xs);
        assert forall|i: int| 0 <= i < n implies ok(#[trigger] ys[i]) by {
            if i < m {
                assert(ys[i] == xs[i]);
            }
        }
    }
}

proof fn lemma_option_canonical(s: Seq<u8>, p: int)
    requires
        0 <= p,
        parse_option(s, p) is Some,
    ensures
        p <= parse_option(s, p)->Some_0.1 <= s.len(),
        s.subrange(p, parse_option(s, p)->Some_0.1) == ser_option(parse_option(s, p)->Some_0.0),
        option_fits(parse_option(s, p)->Some_0.0),
{
    lemma_str_canonical(s, p);
    let q1 = parse_str(s, p)->Some_0.1;
    lemma_str_canonical(s, q1);
    let q2 = parse_str(s, q1)->Some_0.1;
    lemma_str_canonical(s, q2);
    let q3 = parse_str(s, q2)->Some_0.1;
    lemma_join(s, p, q1, q2);
    lemma_join(s, p, q2, q3);
}

proof fn lemma_score_canonical(s: Seq<u8>, p: int)
    requires
        parse_score(s, p) is Some,
    ensures
        p <= parse_score(s, p)->Some_0.1 <= s.len(),
        s.subrange(p, parse_score(s, p)->Some_0.1) == ser_score(parse_score(s, p)->Some_0.0),
        match parse_score(s, p)->Some_0.0 {
            Some(v) => i64::MIN <= v <= i64::MAX,
            None => true,
        },
{
    if s[p] == 0 {
        assert(s.subrange(p, p + 1) =~= seq![0u8]);
    } else {
        lemma_u64_canonical(s, p + 1);
        let m = parse_u64(s, p + 1)->Some_0.0;
        assert(s.subrange(p, p + 1) =~= seq![s[p]]);
        lemma_join(s, p, p + 1, p + 9);
        if s[p] == 1 {
            assert((m as int) as u64 == m);
        } else {
            assert((-(-(m as int) - 1) - 1) as u64 == m);
        }
    }
}

proof fn lemma_entry_canonical(s: Seq<u8>, p: int)
    requires
        0 <= p,
        parse_entry(s, p) is Some,
    ensures
        p <= parse_entry(s, p)->Some_0.1 <= s.len(),
        s.subrange(p, parse_entry(s, p)->Some_0.1) == ser_entry(parse_entry(s, p)->Some_0.0),
        entry_fits(parse_entry(s, p)->Some_0.0),
{
    lemma_str_canonical(s, p);
    let q1 = parse_str(s, p)->Some_0.1;
    lemma_score_canonical(s, q1);
    let q2 = parse_score(s, q1)->Some_0.1;
    lemma_join(s, p, q1, q2);
}

proof fn lemma_vote_canonical(s: Seq<u8>, p: int)
    requires
        0 <= p,
        parse_vote(s, p) is Some,
    ensures
        p <= parse_vote(s, p)->Some_0.1 <= s.len(),
        s.subrange(p, parse_vote(s, p)->Some_0.1) == ser_vote(parse_vote(s, p)->Some_0.0),
        vote_fits(parse_vote(s, p)->Some_0.0),
{
    lemma_str_canonical(s, p);
    let q1 = parse_str(s, p)->Some_0.1;
    lemma_str_canonical(s, q1);
    let q2 = parse_str(s, q1)->Some_0.1;
    lemma_u64_canonical(s, q2);
    let n = parse_u64(s, q2)->Some_0.0;
    let q3 = q2 + 8;
    let f = |e: ScoreView| ser_entry(e);
    let ok = |e: ScoreView| entry_fits(e);
    assert forall|q: int| #![trigger entry_parser()(s, q)] 0 <= q <= s.len() && entry_parser()(s, q) is Some implies {
        &&& q <= entry_parser()(s, q)->Some_0.1 <= s.len()
        &&& s.subrange(q, entry_parser()(s, q)->Some_0.1) == f(entry_parser()(s, q)->Some_0.0)
        &&& ok(entry_parser()(s, q)->Some_0.0)
    } by {
        lemma_entry_canonical(s, q);
    }
    lemma_list_canonical(s, q3, n as nat, f, entry_parser(), ok);
    let q4 = parse_list(s, q3, n as nat, entry_parser())->Some_0.1;
    lemma_join(s, p, q1, q2);
    lemma_join(s, p, q2, q3);
    lemma_join(s, p, q3, q4);
}

proof fn lemma_total_canonical(s: Seq<u8>, p: int)
    requires
        parse_total(s, p) is Some,
    ensures
        p <= parse_total(s, p)->Some_0.1 <= s.len(),
        s.subrange(p, parse_total(s, p)->Some_0.1) == ser_total(parse_total(s, p)->Some_0.0),
        i128::MIN <= parse_total(s, p)->Some_0.0 <= i128::MAX,
{
    lemma_u128_canonical(s, p + 1);
    let m = parse_u128(s, p + 1)->Some_0.0;
    assert(s.subrange(p, p + 1) =~= seq![s[p]]);
    lemma_join(s, p, p + 1, p + 17);
    if s[p] == 0 {
        assert((m as int) as u128 == m);
    } else {
        assert((-(-(m as int) - 1) - 1) as u128 == m);
    }
}

proof fn lemma_tally_canonical(s: Seq<u8>, p: int)
    requires
        0 <= p,
        parse_tally(s, p) is Some,
    ensures
        p <= parse_tally(s, p)->Some_0.1 <= s.len(),
        s.subrange(p, parse_tally(s, p)->Some_0.1) == ser_tally(parse_tally(s, p)->Some_0.0),
        tally_fits(parse_tally(s, p)->Some_0.0),
{
    lemma_str_canonical(s, p);
    let q1 = parse_str(s, p)->Some_0.1;
    lemma_total_canonical(s, q1);
    let q2 = parse_total(s, q1)->Some_0.1;
    lemma_u64_canonical(s, q2);
    let c = parse_u64(s, q2)->Some_0.0;
    assert((c as nat) as u64 == c);
    lemma_join(s, p, q1, q2);
    lemma_join(s, p, q2, q2 + 8);
}

proof fn lemma_result_canonical(s: Seq<u8>, p: int)
    requires
        0 <= p,
        parse_result(s, p) is Some,
    ensures
        p <= parse_result(s, p)->Some_0.1 <= s.len(),
        s.subrange(p, parse_result(s, p)->Some_0.1) == ser_result(parse_result(s, p)->Some_0.0),
        match parse_result(s, p)->Some_0.0 {
            Some(ts) => ts.len() <= u64::MAX && forall|i: int| 0 <= i < ts.len() ==> tally_fits(
                #[trigger] ts[i],
            ),
            None => true,
        },
{
    if s[p] == 0 {
        assert(s.subrange(p, p + 1) =~= seq![0u8]);
    } else {
        lemma_u64_canonical(s, p + 1);
        let n = parse_u64(s, p + 1)->Some_0.0;
        let f = |t: TallyView| ser_tally(t);
        let ok = |t: TallyView| tally_fits(t);
        assert forall|q: int| #![trigger tally_parser()(s, q)] 0 <= q <= s.len() && tally_parser()(s, q) is Some implies {
            &&& q <= tally_parser()(s, q)->Some_0.1 <= s.len()
            &&& s.subrange(q, tally_parser()(s, q)->Some_0.1) == f(tally_parser()(s, q)->Some_0.0)
            &&& ok(tally_parser()(s, q)->Some_0.0)
        } by {
            lemma_tally_canonical(s, q);
        }
        lemma_list_canonical(s, p + 9, n as nat, f, tally_parser(), ok);
        let r = parse_list(s, p + 9, n as nat, tally_parser())->Some_0.1;
        assert(s.subrange(p, p + 1) =~= seq![1u8]);
        lemma_join(s, p, p + 1, p + 9);
        lemma_join(s, p, p + 9, r);
    }
}

/// Decoding is canonical: bytes that decode to a record are exactly the
/// encoding of that record. So two reads of the same stored bytes give the
/// same record, whose encoding is byte-identical to what was stored.
pub proof fn lemma_decode_canonical(s: Seq<u8>)
    requires
        decode_poll_spec(s) is Some,
    ensures
        encode_poll_spec(decode_poll_spec(s)->Some_0) == s,
        poll_fits(decode_poll_spec(s)->Some_0),
{
    let q0: int = 1;
    lemma_str_canonical(s, q0);
    let q1 = parse_str(s, q0)->Some_0.1;
    lemma_str_canonical(s, q1);
    let q2 = parse_str(s, q1)->Some_0.1;
    lemma_str_canonical(s, q2);
    let q3 = parse_str(s, q2)->Some_0.1;
    lemma_u64_canonical(s, q3);
    let n = parse_u64(s, q3)->Some_0.0;
    let q4 = q3 + 8;
    let fo = |o: OptionView| ser_option(o);
    let oko = |o: OptionView| option_fits(o);
    assert forall|q: int| #![trigger option_parser()(s, q)] 0 <= q <= s.len() && option_parser()(s, q) is Some implies {
        &&& q <= option_parser()(s, q)->Some_0.1 <= s.len()
        &&& s.subrange(q, option_parser()(s, q)->Some_0.1) == fo(option_parser()(s, q)->Some_0.0)
        &&& oko(option_parser()(s, q)->Some_0.0)
    } by {
        lemma_option_canonical(s, q);
    }
    lemma_list_canonical(s, q4, n as nat, fo, option_parser(), oko);
    let q5 = parse_list(s, q4, n as nat, option_parser())->Some_0.1;
    lemma_u64_canonical(s, q5);
    let m = parse_u64(s, q5)->Some_0.0;
    let q6 = q5 + 8;
    let fv = |v: VoteView| ser_vote(v);
    let okv = |v: VoteView| vote_fits(v);
    assert forall|q: int| #![trigger vote_parser()(s, q)] 0 <= q <= s.len() && vote_parser()(s, q) is Some implies {
        &&& q <= vote_parser()(s, q)->Some_0.1 <= s.len()
        &&& s.subrange(q, vote_parser()(s, q)->Some_0.1) == fv(vote_parser()(s, q)->Some_0.0)
        &&& okv(vote_parser()(s, q)->Some_0.0)
    } by {
        lemma_vote_canonical(s, q);
    }
    lemma_list_canonical(s, q6, m as nat, fv, vote_parser(), okv);
    let q7 = parse_list(s, q6, m as nat, vote_parser())->Some_0.1;
    lemma_result_canonical(s, q7);
    let q8 = parse_result(s, q7)->Some_0.1;
    assert(s.subrange(0, 1) =~= seq![TAG_V1]);
    lemma_join(s, 0, 1, q1);
    lemma_join(s, 0, q1, q2);
    lemma_join(s, 0, q2, q3);
    lemma_join(s, 0, q3, q4);
    lemma_join(s, 0, q4, q5);
    lemma_join(s, 0, q5, q6);
    lemma_join(s, 0, q6, q7);
    lemma_join(s, 0, q7, q8);
    assert(s.subrange(0, s.len() as int) =~= s);
}

// ------------------------------------------------------- executable encoder

proof fn lemma_ser_list_step<T>(xs: Seq<T>, i: int, f: spec_fn(T) -> Seq<u8>)
    requires
        0 <= i < xs.len(),
    ensures
        ser_list(xs.take(i + 1), f) == ser_list(xs.take(i), f) + f(xs[i]),
{
    assert(xs.take(i + 1).drop_last() =~= xs.take(i));
}

fn append_bytes(out: &mut Vec<u8>, b: &[u8])
    ensures
        final(out)@ == old(out)@ + b@,
{
    let ghost start = out@;
    let mut i: usize = 0;
    while i < b.len()
        invariant
            i <= b@.len(),
            out@ == start + b@.take(i as int),
        decreases b.len() - i,
    {
        out.push(b[i]);
        i = i + 1;
        assert(out@ =~= start + b@.take(i as int));
    }
    assert(b@.take(i as int) =~= b@);
}

fn write_u64(out: &mut Vec<u8>, x: u64)
    ensures
        final(out)@ == old(out)@ + ser_u64(x),
{
    let b = u64_to_le_bytes(x);
    append_bytes(out, b.as_slice());
}

fn write_u128(out: &mut Vec<u8>, x: u128)
    ensures
        final(out)@ == old(out)@ + ser_u128(x),
{
    let b = u128_to_le_bytes(x);
    append_bytes(out, b.as_slice());
}

fn write_str(out: &mut Vec<u8>, s: &String)
    ensures
        final(out)@ == old(out)@ + ser_str(s@),
        str_fits(s@),
{
    let b = s.as_str().as_bytes();
    assert(b@ == encode_utf8(s@));
    write_u64(out, b.len() as u64);
    append_bytes(out, b);
    assert(out@ =~= old(out)@ + ser_str(s@));
}

fn write_option(out: &mut Vec<u8>, o: &PollOption)
    ensures
        final(out)@ == old(out)@ + ser_option(o@),
        option_fits(o@),
{
    write_str(out, &o.id.0);
    write_str(out, &o.title);
    write_str(out, &o.description_text_markdown);
    assert(out@ =~= old(out)@ + ser_option(o@));
}

fn write_entry(out: &mut Vec<u8>, e: &OptionScore)
    ensures
        final(out)@ == old(out)@ + ser_entry(e@),
        entry_fits(e@),
{
    write_str(out, &e.option.0);
    match e.score {
        None => {
            out.push(0u8);
        },
        Some(x) => {
            if x >= 0 {
                out.push(1u8);
                write_u64(out, x as u64);
            } else {
                out.push(2u8);
                write_u64(out, (-(x + 1)) as u64);
            }
        },
    }
    assert(out@ =~= old(out)@ + ser_entry(e@));
}

fn write_vote(out: &mut Vec<u8>, v: &ScoreVote)
    ensures
        final(out)@ == old(out)@ + ser_vote(v@),
        vote_fits(v@),
{
    let ghost sv = v@.scores;
    let ghost f = |e: ScoreView| ser_entry(e);
    write_str(out, &v.user_id.0);
    write_str(out, &v.user_name);
    write_u64(out, v.votes.len() as u64);
    let ghost start = out@;
    let mut i: usize = 0;
    while i < v.votes.len()
        invariant
            i <= v.votes@.len(),
            sv == v.votes@.map_values(|s: OptionScore| s@),
            f == (|e: ScoreView| ser_entry(e)),
            out@ == start + ser_list(sv.take(i as int), f),
            forall|j: int| 0 <= j < i ==> entry_fits(#[trigger] sv[j]),
        decreases v.votes.len() - i,
    {
        proof {
            lemma_ser_list_step(sv, i as int, f);
        }
        assert(sv[i as int] == v.votes@[i as int]@);
        assert(f(sv[i as int]) == ser_entry(v.votes@[i as int]@));
        write_entry(out, &v.votes[i]);
        i = i + 1;
        assert(out@ =~= start + ser_list(sv.take(i as int), f));
    }
    assert(sv.take(i as int) == sv);
    assert(out@ =~= old(out)@ + ser_vote(v@));
}

fn write_tally(out: &mut Vec<u8>, t: &OptionTally)
    ensures
        final(out)@ == old(out)@ + ser_tally(t@),
        tally_fits(t@),
{
    write_str(out, &t.option.0);
    if t.total >= 0 {
        out.push(0u8);
        write_u128(out, t.total as u128);
    } else {
        out.push(1u8);
        write_u128(out, (-(t.total + 1)) as u128);
    }
    write_u64(out, t.count);
    assert(out@ =~= old(out)@ + ser_tally(t@));
}

fn write_result(out: &mut Vec<u8>, r: &Option<Vec<OptionTally>>)
    ensures
        final(out)@ == old(out)@ + ser_result(
            match r {
                Some(ts) => Some(ts@.map_values(|t: OptionTally| t@)),
                None => None,
            },
        ),
        match r {
            Some(ts) => ts@.len() <= u64::MAX && forall|i: int| 0 <= i < ts@.len() ==> tally_fits(
                #[trigger] ts@[i]@,
            ),
            None => true,
        },
{
    match r {
        None => {
            out.push(0u8);
            assert(out@ =~= old(out)@ + ser_result(None));
        },
        Some(ts) => {
            let ghost tv = ts@.map_values(|t: OptionTally| t@);
            let ghost f = |t: TallyView| ser_tally(t);
            out.push(1u8);
            write_u64(out, ts.len() as u64);
            let ghost start = out@;
            let mut i: usize = 0;
            while i < ts.len()
                invariant
                    i <= ts@.len(),
                    tv == ts@.map_values(|t: OptionTally| t@),
                    f == (|t: TallyView| ser_tally(t)),
                    out@ == start + ser_list(tv.take(i as int), f),
                    forall|j: int| 0 <= j < i ==> tally_fits(#[trigger] ts@[j]@),
                decreases ts.len() - i,
            {
                proof {
            lemma_ser_list_step(tv, i as int, f);
        }
                assert(tv[i as int] == ts@[i as int]@);
                assert(f(tv[i as int]) == ser_tally(ts@[i as int]@));
                write_tally(out, &ts[i]);
                i = i + 1;
                assert(out@ =~= start + ser_list(tv.take(i as int), f));
            }
            assert(tv.take(i as int) == tv);
            assert(out@ =~= old(out)@ + ser_result(Some(tv)));
        },
    }
}

/// The storage encoding of a record.
pub fn encode_poll(p: &PollV1) -> (r: Vec<u8>)
    ensures
        r@ == encode_poll_spec(p@),
        poll_fits(p@),
{
    let ghost ov = p@.options;
    let ghost vv = p@.votes;
    let ghost fo = |o: OptionView| ser_option(o);
    let ghost fv = |v: VoteView| ser_vote(v);
    let mut out: Vec<u8> = Vec::new();
    out.push(TAG_V1);
    write_str(&mut out, &p.id.0);
    write_str(&mut out, &p.title);
    write_str(&mut out, &p.description_text_markdown);
    write_u64(&mut out, p.options.len() as u64);
    let ghost start = out@;
    let mut i: usize = 0;
    while i < p.options.len()
        invariant
            i <= p.options@.len(),
            ov == p.options@.map_values(|o: PollOption| o@),
            fo == (|o: OptionView| ser_option(o)),
            out@ == start + ser_list(ov.take(i as int), fo),
            forall|j: int| 0 <= j < i ==> option_fits(#[trigger] ov[j]),
        decreases p.options.len() - i,
    {
        proof {
            lemma_ser_list_step(ov, i as int, fo);
        }
        assert(ov[i as int] == p.options@[i as int]@);
        assert(fo(ov[i as int]) == ser_option(p.options@[i as int]@));
        write_option(&mut out, &p.options[i]);
        i = i + 1;
        assert(out@ =~= start + ser_list(ov.take(i as int), fo));
    }
    assert(ov.take(i as int) == ov);
    write_u64(&mut out, p.votes.len() as u64);
    let ghost start2 = out@;
    let mut k: usize = 0;
    while k < p.votes.len()
        invariant
            k <= p.votes@.len(),
            vv == p.votes@.map_values(|v: ScoreVote| v@),
            fv == (|v: VoteView| ser_vote(v)),
            out@ == start2 + ser_list(vv.take(k as int), fv),
            forall|j: int| 0 <= j < k ==> vote_fits(#[trigger] vv[j]),
        decreases p.votes.len() - k,
    {
        proof {
            lemma_ser_list_step(vv, k as int, fv);
        }
        assert(vv[k as int] == p.votes@[k as int]@);
        assert(fv(vv[k as int]) == ser_vote(p.votes@[k as int]@));
        write_vote(&mut out, &p.votes[k]);
        k = k + 1;
        assert(out@ =~= start2 + ser_list(vv.take(k as int), fv));
    }
    assert(vv.take(k as int) == vv);
    write_result(&mut out, &p.result);
    assert(out@ =~= encode_poll_spec(p@));
    out
}

// ------------------------------------------------------- executable decoder

/// Relies on `std::str::from_utf8`: it accepts exactly the valid UTF-8 byte
/// strings, and the string it returns holds the characters they encode.
#[verifier::external_body]
fn string_from_utf8(b: &[u8]) -> (r: Option<String>)
    ensures
        r is Some <==> valid_utf8(b@),
        match r {
            Some(t) => t@ == decode_utf8(b@),
            None => true,
        },
{
    std::str::from_utf8(b).ok().map(|t| t.to_string())
}

proof fn lemma_list_none<T>(
    s: Seq<u8>,
    p: int,
    k: nat,
    n: nat,
    g: spec_fn(Seq<u8>, int) -> Option<(T, int)>,
)
    requires
        k <= n,
        parse_list(s, p, k, g) is None,
    ensures
        parse_list(s, p, n, g) is None,
    decreases n,
{
    if n > k {
        lemma_list_none(s, p, k, (n - 1) as nat, g);
    }
}

fn read_u64(s: &[u8], p: usize) -> (r: Option<(u64, usize)>)
    ensures
        match r {
            Some((x, q)) => parse_u64(s@, p as int) == Some((x, q as int)) && q <= s@.len(),
            None => parse_u64(s@, p as int) is None,
        },
{
    if p <= s.len() && s.len() - p >= 8 {
        let x = u64_from_le_bytes(&s[p..p + 8]);
        Some((x, p + 8))
    } else {
        None
    }
}

fn read_u128(s: &[u8], p: usize) -> (r: Option<(u128, usize)>)
    ensures
        match r {
            Some((x, q)) => parse_u128(s@, p as int) == Some((x, q as int)) && q <= s@.len(),
            None => parse_u128(s@, p as int) is None,
        },
{
    if p <= s.len() && s.len() - p >= 16 {
        let x = u128_from_le_bytes(&s[p..p + 16]);
        Some((x, p + 16))
    } else {
        None
    }
}

fn read_str(s: &[u8], p: usize) -> (r: Option<(String, usize)>)
    ensures
        match r {
            Some((t, q)) => parse_str(s@, p as int) == Some((t@, q as int)) && q <= s@.len(),
            None => parse_str(s@, p as int) is None,
        },
{
    match read_u64(s, p) {
        None => None,
        Some((n, q)) => {
            if n <= (s.len() - q) as u64 {
                let e = q + n as usize;
                match string_from_utf8(&s[q..e]) {
                    Some(t) => Some((t, e)),
                    None => None,
                }
            } else {
                None
            }
        },
    }
}

fn read_option(s: &[u8], p: usize) -> (r: Option<(PollOption, usize)>)
    ensures
        match r {
            Some((o, q)) => parse_option(s@, p as int) == Some((o@, q as int)) && q <= s@.len(),
            None => parse_option(s@, p as int) is None,
        },
{
    let (id, q1) = match read_str(s, p) {
        Some(x) => x,
        None => return None,
    };
    let (title, q2) = match read_str(s, q1) {
        Some(x) => x,
        None => return None,
    };
    let (description, q3) = match read_str(s, q2) {
        Some(x) => x,
        None => return None,
    };
    Some((PollOption { id: PollOptionId(id), title, description_text_markdown: description }, q3))
}

fn read_options(s: &[u8], p: usize, n: u64) -> (r: Option<(Vec<PollOption>, usize)>)
    requires
        p <= s@.len(),
    ensures
        match r {
            Some((v, q)) => parse_list(s@, p as int, n as nat, option_parser()) == Some(
                (v@.map_values(|o: PollOption| o@), q as int),
            ) && q <= s@.len(),
            None => parse_list(s@, p as int, n as nat, option_parser()) is None,
        },
{
    let mut acc: Vec<PollOption> = Vec::new();
    let mut pos: usize = p;
    let mut i: u64 = 0;
    assert(acc@.map_values(|o: PollOption| o@) =~= Seq::empty());
    while i < n
        invariant
            i <= n,
            pos <= s@.len(),
            parse_list(s@, p as int, i as nat, option_parser()) == Some(
                (acc@.map_values(|o: PollOption| o@), pos as int),
            ),
        decreases n - i,
    {
        match read_option(s, pos) {
            Some((o, q)) => {
                let ghost before = acc@.map_values(|o: PollOption| o@);
                acc.push(o);
                assert(acc@.map_values(|o: PollOption| o@) =~= before.push(o@));
                pos = q;
            },
            None => {
                proof {
                    lemma_list_none(s@, p as int, (i + 1) as nat, n as nat, option_parser());
                }
                return None;
            },
        }
        i = i + 1;
    }
    Some((acc, pos))
}

fn read_score(s: &[u8], p: usize) -> (r: Option<(Option<i64>, usize)>)
    ensures
        match r {
            Some((x, q)) => parse_score(s@, p as int) == Some((score_view(x), q as int)) && q
                <= s@.len(),
            None => parse_score(s@, p as int) is None,
        },
{
    if p >= s.len() {
        return None;
    }
    let tag = s[p];
    if tag == 0 {
        Some((None, p + 1))
    } else if tag == 1 || tag == 2 {
        match read_u64(s, p + 1) {
            Some((m, q)) => {
                if m <= i64::MAX as u64 {
                    let v = m as i64;
                    if tag == 1 {
                        Some((Some(v), q))
                    } else {
                        Some((Some(-v - 1), q))
                    }
                } else {
                    None
                }
            },
            None => None,
        }
    } else {
        None
    }
}

fn read_entry(s: &[u8], p: usize) -> (r: Option<(OptionScore, usize)>)
    ensures
        match r {
            Some((e, q)) => parse_entry(s@, p as int) == Some((e@, q as int)) && q <= s@.len(),
            None => parse_entry(s@, p as int) is None,
        },
{
    let (option, q1) = match read_str(s, p) {
        Some(x) => x,
        None => return None,
    };
    let (score, q2) = match read_score(s, q1) {
        Some(x) => x,
        None => return None,
    };
    Some((OptionScore { option: PollOptionId(option), score }, q2))
}

fn read_entries(s: &[u8], p: usize, n: u64) -> (r: Option<(Vec<OptionScore>, usize)>)
    requires
        p <= s@.len(),
    ensures
        match r {
            Some((v, q)) => parse_list(s@, p as int, n as nat, entry_parser()) == Some(
                (v@.map_values(|x: OptionScore| x@), q as int),
            ) && q <= s@.len(),
            None => parse_list(s@, p as int, n as nat, entry_parser()) is None,
        },
{
    let mut acc: Vec<OptionScore> = Vec::new();
    let mut pos: usize = p;
    let mut i: u64 = 0;
    assert(acc@.map_values(|x: OptionScore| x@) =~= Seq::empty());
    while i < n
        invariant
            i <= n,
            pos <= s@.len(),
            parse_list(s@, p as int, i as nat, entry_parser()) == Some(
                (acc@.map_values(|x: OptionScore| x@), pos as int),
            ),
        decreases n - i,
    {
        match read_entry(s, pos) {
            Some((x, q)) => {
                let ghost before = acc@.map_values(|x: OptionScore| x@);
                acc.push(x);
                assert(acc@.map_values(|x: OptionScore| x@) =~= before.push(x@));
                pos = q;
            },
            None => {
                proof {
                    lemma_list_none(s@, p as int, (i + 1) as nat, n as nat, entry_parser());
                }
                return None;
            },
        }
        i = i + 1;
    }
    Some((acc, pos))
}

fn read_vote(s: &[u8], p: usize) -> (r: Option<(ScoreVote, usize)>)
    ensures
        match r {
            Some((v, q)) => parse_vote(s@, p as int) == Some((v@, q as int)) && q <= s@.len(),
            None => parse_vote(s@, p as int) is None,
        },
{
    let (user_id, q1) = match read_str(s, p) {
        Some(x) => x,
        None => return None,
    };
    let (user_name, q2) = match read_str(s, q1) {
        Some(x) => x,
        None => return None,
    };
    let (n, q3) = match read_u64(s, q2) {
        Some(x) => x,
        None => return None,
    };
    let (votes, q4) = match read_entries(s, q3, n) {
        Some(x) => x,
        None => return None,
    };
    Some((ScoreVote { user_id: PublicUserId(user_id), user_name, votes }, q4))
}

fn read_votes(s: &[u8], p: usize, n: u64) -> (r: Option<(Vec<ScoreVote>, usize)>)
    requires
        p <= s@.len(),
    ensures
        match r {
            Some((v, q)) => parse_list(s@, p as int, n as nat, vote_parser()) == Some(
                (v@.map_values(|x: ScoreVote| x@), q as int),
            ) && q <= s@.len(),
            None => parse_list(s@, p as int, n as nat, vote_parser()) is None,
        },
{
    let mut acc: Vec<ScoreVote> = Vec::new();
    let mut pos: usize = p;
    let mut i: u64 = 0;
    assert(acc@.map_values(|x: ScoreVote| x@) =~= Seq::empty());
    while i < n
        invariant
            i <= n,
            pos <= s@.len(),
            parse_list(s@, p as int, i as nat, vote_parser()) == Some(
                (acc@.map_values(|x: ScoreVote| x@), pos as int),
            ),
        decreases n - i,
    {
        match read_vote(s, pos) {
            Some((x, q)) => {
                let ghost before = acc@.map_values(|x: ScoreVote| x@);
                acc.push(x);
                assert(acc@.map_values(|x: ScoreVote| x@) =~= before.push(x@));
                pos = q;
            },
            None => {
                proof {
                    lemma_list_none(s@, p as int, (i + 1) as nat, n as nat, vote_parser());
                }
                return None;
            },
        }
        i = i + 1;
    }
    Some((acc, pos))
}

fn read_total(s: &[u8], p: usize) -> (r: Option<(i128, usize)>)
    ensures
        match r {
            Some((x, q)) => parse_total(s@, p as int) == Some((x as int, q as int)) && q <= s@.len(),
            None => parse_total(s@, p as int) is None,
        },
{
    if p >= s.len() {
        return None;
    }
    let tag = s[p];
    if tag == 0 || tag == 1 {
        match read_u128(s, p + 1) {
            Some((m, q)) => {
                if m <= i128::MAX as u128 {
                    let v = m as i128;
                    if tag == 0 {
                        Some((v, q))
                    } else {
                        Some((-v - 1, q))
                    }
                } else {
                    None
                }
            },
            None => None,
        }
    } else {
        None
    }
}

fn read_tally(s: &[u8], p: usize) -> (r: Option<(OptionTally, usize)>)
    ensures
        match r {
            Some((t, q)) => parse_tally(s@, p as int) == Some((t@, q as int)) && q <= s@.len(),
            None => parse_tally(s@, p as int) is None,
        },
{
    let (option, q1) = match read_str(s, p) {
        Some(x) => x,
        None => return None,
    };
    let (total, q2) = match read_total(s, q1) {
        Some(x) => x,
        None => return None,
    };
    let (count, q3) = match read_u64(s, q2) {
        Some(x) => x,
        None => return None,
    };
    Some((OptionTally { option: PollOptionId(option), total, count }, q3))
}

fn read_tallies(s: &[u8], p: usize, n: u64) -> (r: Option<(Vec<OptionTally>, usize)>)
    requires
        p <= s@.len(),
    ensures
        match r {
            Some((v, q)) => parse_list(s@, p as int, n as nat, tally_parser()) == Some(
                (v@.map_values(|x: OptionTally| x@), q as int),
            ) && q <= s@.len(),
            None => parse_list(s@, p as int, n as nat, tally_parser()) is None,
        },
{
    let mut acc: Vec<OptionTally> = Vec::new();
    let mut pos: usize = p;
    let mut i: u64 = 0;
    assert(acc@.map_values(|x: OptionTally| x@) =~= Seq::empty());
    while i < n
        invariant
            i <= n,
            pos <= s@.len(),
            parse_list(s@, p as int, i as nat, tally_parser()) == Some(
                (acc@.map_values(|x: OptionTally| x@), pos as int),
            ),
        decreases n - i,
    {
        match read_tally(s, pos) {
            Some((x, q)) => {
                let ghost before = acc@.map_values(|x: OptionTally| x@);
                acc.push(x);
                assert(acc@.map_values(|x: OptionTally| x@) =~= before.push(x@));
                pos = q;
            },
            None => {
                proof {
                    lemma_list_none(s@, p as int, (i + 1) as nat, n as nat, tally_parser());
                }
                return None;
            },
        }
        i = i + 1;
    }
    Some((acc, pos))
}

fn read_result(s: &[u8], p: usize) -> (r: Option<(Option<Vec<OptionTally>>, usize)>)
    ensures
        match r {
            Some((x, q)) => parse_result(s@, p as int) == Some(
                (
                    match x {
                        Some(ts) => Some(ts@.map_values(|t: OptionTally| t@)),
                        None => None,
                    },
                    q as int,
                ),
            ) && q <= s@.len(),
            None => parse_result(s@, p as int) is None,
        },
{
    if p >= s.len() {
        return None;
    }
    let tag = s[p];
    if tag == 0 {
        Some((None, p + 1))
    } else if tag == 1 {
        let (n, q) = match read_u64(s, p + 1) {
            Some(x) => x,
            None => return None,
        };
        match read_tallies(s, q, n) {
            Some((ts, r)) => Some((Some(ts), r)),
            None => None,
        }
    } else {
        None
    }
}

/// The record that `s` encodes; `None` where `s` is not exactly the
/// encoding of a record.
pub fn decode_poll(s: &[u8]) -> (r: Option<PollV1>)
    ensures
        match r {
            Some(p) => decode_poll_spec(s@) == Some(p@),
            None => decode_poll_spec(s@) is None,
        },
{
    if s.len() < 1 || s[0] != TAG_V1 {
        return None;
    }
    let (id, q1) = match read_str(s, 1) {
        Some(x) => x,
        None => return None,
    };
    let (title, q2) = match read_str(s, q1) {
        Some(x) => x,
        None => return None,
    };
    let (description, q3) = match read_str(s, q2) {
        Some(x) => x,
        None => return None,
    };
    let (n, q4) = match read_u64(s, q3) {
        Some(x) => x,
        None => return None,
    };
    let (options, q5) = match read_options(s, q4, n) {
        Some(x) => x,
        None => return None,
    };
    let (m, q6) = match read_u64(s, q5) {
        Some(x) => x,
        None => return None,
    };
    let (votes, q7) = match read_votes(s, q6, m) {
        Some(x) => x,
        None => return None,
    };
    let (result, q8) = match read_result(s, q7) {
        Some(x) => x,
        None => return None,
    };
    if q8 != s.len() {
        return None;
    }
    Some(
        PollV1 {
            id: PublicPollId(id),
            title,
            description_text_markdown: description,
            options,
            votes,
            result,
        },
    )
}

} // verus!
