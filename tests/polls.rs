use score_voting::aggregate::compute_vote_result;
use score_voting::codec::{decode_poll, encode_poll};
use score_voting::error::{ErrorKind, OurError};
use score_voting::ids::{PollOptionId, PublicPollId, PublicUserId};
use score_voting::model::{CreatePoll, OptionScore, OptionTally, Poll, PollOption, PollV1, ScoreVote};
use score_voting::service::{after_put, apply_vote, new_poll, validate_options, validate_vote, CreateStep, Server};
use score_voting::store::{after_flush, after_swap, interpret_read, plan_update, CasOutcome, PollStore, SwapStep};

fn temp_tree() -> sled::Tree {
    let db = sled::Config::new().temporary(true).open().unwrap();
    db.open_tree("polls").unwrap()
}

fn option(id: &str) -> PollOption {
    PollOption {
        id: PollOptionId::from_str(id.to_string()),
        title: format!("Option {}", id),
        description_text_markdown: String::new(),
    }
}

fn vote(name: &str, scores: &[(&str, Option<i64>)]) -> ScoreVote {
    ScoreVote {
        user_id: PublicUserId::from_str(format!("user-{}", name)),
        user_name: name.to_string(),
        votes: scores
            .iter()
            .map(|(o, s)| OptionScore { option: PollOptionId::from_str(o.to_string()), score: *s })
            .collect(),
    }
}

fn request(options: Vec<PollOption>) -> CreatePoll {
    CreatePoll {
        title: "Lunch".to_string(),
        description_text_markdown: "Where do we eat?".to_string(),
        options,
    }
}

fn v1(p: Poll) -> PollV1 {
    match p {
        Poll::V1(p) => p,
    }
}

fn mean(t: &OptionTally) -> f64 {
    t.total as f64 / t.count as f64
}

fn sample_poll() -> PollV1 {
    let mut p = new_poll(PublicPollId::from_str("poll-1".to_string()), &request(vec![option("A"), option("B")]));
    p.votes.push(vote("ann", &[("A", Some(5)), ("B", None)]));
    p.votes.push(vote("bob", &[("A", Some(i64::MIN)), ("B", Some(i64::MAX))]));
    p.votes.push(vote("çé✓", &[("B", Some(-1))]));
    p.result = Some(compute_vote_result(&p.votes, &p.options));
    p
}

#[test]
fn aggregation_mean_of_non_abstaining_scores() {
    let votes = vec![
        vote("a", &[("A", Some(5))]),
        vote("b", &[("A", Some(3))]),
        vote("c", &[("A", None)]),
    ];
    let r = compute_vote_result(&votes, &vec![option("A"), option("B")]);
    assert_eq!(r.len(), 1);
    assert_eq!(r[0].option.0, "A");
    assert_eq!(r[0].total, 8);
    assert_eq!(r[0].count, 2);
    assert!((mean(&r[0]) - 4.0).abs() < 1e-9);
}

#[test]
fn aggregation_keeps_option_order_and_negative_scores() {
    let votes = vec![vote("a", &[("B", Some(-4)), ("A", Some(1))]), vote("b", &[("B", Some(-2))])];
    let r = compute_vote_result(&votes, &vec![option("A"), option("B"), option("C")]);
    assert_eq!(r.len(), 2);
    assert_eq!((r[0].option.0.as_str(), r[0].total, r[0].count), ("A", 1, 1));
    assert_eq!((r[1].option.0.as_str(), r[1].total, r[1].count), ("B", -6, 2));
    assert!((mean(&r[1]) + 3.0).abs() < 1e-9);
}

#[test]
fn aggregation_of_no_votes_is_empty() {
    let r = compute_vote_result(&vec![], &vec![option("A")]);
    assert!(r.is_empty());
}

#[test]
fn aggregation_sums_extreme_scores_without_overflow() {
    let votes = vec![vote("a", &[("A", Some(i64::MAX))]), vote("b", &[("A", Some(i64::MAX))])];
    let r = compute_vote_result(&votes, &vec![option("A")]);
    assert_eq!(r[0].total, 2 * (i64::MAX as i128));
    assert_eq!(r[0].count, 2);
}

#[test]
fn unknown_option_vote_is_rejected_and_store_unchanged() {
    let server = Server::new(PollStore::new(temp_tree()));
    let created = v1(server.create_poll(request(vec![option("A")])).unwrap());
    let before = encode_poll(&v1(server.get_poll(created.id.clone()).unwrap()));
    let r = server.vote(created.id.clone(), vote("eve", &[("B", Some(5))]));
    assert_eq!(r.unwrap_err().kind, ErrorKind::InvalidInput);
    let after = encode_poll(&v1(server.get_poll(created.id.clone()).unwrap()));
    assert_eq!(before, after);
}

#[test]
fn duplicate_put_new_keeps_first_record() {
    let store = PollStore::new(temp_tree());
    let id = PublicPollId::from_str("fixed-id".to_string());
    let r1 = new_poll(id.clone(), &request(vec![option("A")]));
    let mut r2 = new_poll(id.clone(), &request(vec![option("B")]));
    r2.title = "Other".to_string();
    assert_eq!(store.put_new(&id, &r1), Ok(()));
    assert_eq!(store.put_new(&id, &r2), Err(ErrorKind::AlreadyExists));
    let stored = store.get(&id).unwrap();
    assert_eq!(encode_poll(&stored), encode_poll(&r1));
}

#[test]
fn round_trip_keeps_every_field_and_order() {
    let p = sample_poll();
    let bytes = encode_poll(&p);
    let q = decode_poll(&bytes).unwrap();
    assert_eq!(q.id.0, "poll-1");
    assert_eq!(q.title, p.title);
    assert_eq!(q.description_text_markdown, p.description_text_markdown);
    assert_eq!(q.options.len(), 2);
    assert_eq!(q.options[1].id.0, "B");
    assert_eq!(q.votes.len(), 3);
    assert_eq!(q.votes[1].votes[0].score, Some(i64::MIN));
    assert_eq!(q.votes[1].votes[1].score, Some(i64::MAX));
    assert_eq!(q.votes[2].user_name, "çé✓");
    assert_eq!(q.votes[2].votes[0].score, Some(-1));
    assert_eq!(q.votes[0].votes[1].score, None);
    let res = q.result.as_ref().unwrap();
    assert_eq!(res.len(), 2);
    assert_eq!(res[0].total, 5 + i64::MIN as i128);
    assert_eq!(res[1].total, i64::MAX as i128 - 1);
    assert_eq!(encode_poll(&q), bytes);
}

#[test]
fn round_trip_of_fresh_poll_without_result() {
    let p = new_poll(PublicPollId::from_str(String::new()), &request(vec![option("A")]));
    let q = decode_poll(&encode_poll(&p)).unwrap();
    assert!(q.result.is_none());
    assert!(q.votes.is_empty());
    assert_eq!(q.id.0, "");
}

#[test]
fn decode_rejects_truncated_extended_and_unknown_tag() {
    let bytes = encode_poll(&sample_poll());
    for n in 0..bytes.len() {
        assert!(decode_poll(&bytes[..n]).is_none(), "prefix of length {} accepted", n);
    }
    let mut longer = bytes.clone();
    longer.push(0);
    assert!(decode_poll(&longer).is_none());
    let mut tagged = bytes.clone();
    tagged[0] = 2;
    assert!(decode_poll(&tagged).is_none());
}

#[test]
fn decode_rejects_invalid_utf8() {
    let p = new_poll(PublicPollId::from_str("ab".to_string()), &request(vec![option("A")]));
    let mut bytes = encode_poll(&p);
    assert_eq!(&bytes[9..11], b"ab");
    bytes[9] = 0xff;
    assert!(decode_poll(&bytes).is_none());
}

#[test]
fn empty_options_are_rejected() {
    let server = Server::new(PollStore::new(temp_tree()));
    let r = server.create_poll(request(vec![]));
    assert_eq!(r.unwrap_err().kind, ErrorKind::InvalidInput);
}

#[test]
fn duplicate_option_ids_are_rejected() {
    let server = Server::new(PollStore::new(temp_tree()));
    let r = server.create_poll(request(vec![option("A"), option("B"), option("A")]));
    assert_eq!(r.unwrap_err().kind, ErrorKind::InvalidInput);
    assert_eq!(validate_options(&vec![option("A"), option("B")]), Ok(()));
}

#[test]
fn created_poll_has_fresh_id_and_no_votes() {
    let server = Server::new(PollStore::new(temp_tree()));
    let a = v1(server.create_poll(request(vec![option("A")])).unwrap());
    let b = v1(server.create_poll(request(vec![option("A")])).unwrap());
    assert_eq!(a.id.0.chars().count(), 21);
    assert_ne!(a.id.0, b.id.0);
    assert_eq!(a.title, "Lunch");
    assert!(a.votes.is_empty());
    assert!(a.result.is_none());
}

#[test]
fn reading_twice_gives_identical_bytes() {
    let server = Server::new(PollStore::new(temp_tree()));
    let p = v1(server.create_poll(request(vec![option("A")])).unwrap());
    server.vote(p.id.clone(), vote("ann", &[("A", Some(2))])).unwrap();
    let first = encode_poll(&v1(server.get_poll(p.id.clone()).unwrap()));
    let second = encode_poll(&v1(server.get_poll(p.id.clone()).unwrap()));
    assert_eq!(first, second);
}

#[test]
fn votes_are_appended_in_order_and_result_refreshed() {
    let server = Server::new(PollStore::new(temp_tree()));
    let p = v1(server.create_poll(request(vec![option("A"), option("B")])).unwrap());
    let first = v1(server.vote(p.id.clone(), vote("ann", &[("A", Some(5))])).unwrap());
    assert_eq!(first.votes.len(), 1);
    assert_eq!(first.result.as_ref().unwrap()[0].total, 5);
    server.vote(p.id.clone(), vote("bob", &[("A", Some(3)), ("B", Some(1))])).unwrap();
    let last = v1(server.vote(p.id.clone(), vote("cid", &[("A", None)])).unwrap());
    let names: Vec<&str> = last.votes.iter().map(|v| v.user_name.as_str()).collect();
    assert_eq!(names, vec!["ann", "bob", "cid"]);
    let res = last.result.unwrap();
    assert_eq!(res.len(), 2);
    assert_eq!((res[0].total, res[0].count), (8, 2));
    assert_eq!((res[1].total, res[1].count), (1, 1));
    let stored = v1(server.get_poll(p.id.clone()).unwrap());
    assert_eq!(stored.votes.len(), 3);
}

#[test]
fn vote_scoring_an_option_twice_is_rejected() {
    let p = new_poll(PublicPollId::from_str("x".to_string()), &request(vec![option("A")]));
    let v = vote("ann", &[("A", Some(1)), ("A", Some(2))]);
    assert!(!validate_vote(&v, &p.options));
    assert_eq!(apply_vote(p, &v).unwrap_err(), ErrorKind::InvalidInput);
}

#[test]
fn unknown_poll_is_not_found() {
    let server = Server::new(PollStore::new(temp_tree()));
    let id = PublicPollId::from_str("missing".to_string());
    assert_eq!(server.get_poll(id.clone()).unwrap_err().kind, ErrorKind::NotFound);
    assert_eq!(server.vote(id, vote("a", &[])).unwrap_err().kind, ErrorKind::NotFound);
}

#[test]
fn corrupt_record_is_reported() {
    let tree = temp_tree();
    let key = serde_cbor::to_vec(&"broken".to_string()).unwrap();
    assert_eq!(key, b"\x66broken".to_vec());
    tree.insert(key, vec![1u8, 2, 3]).unwrap();
    let server = Server::new(PollStore::new(tree));
    let id = PublicPollId::from_str("broken".to_string());
    assert_eq!(server.get_poll(id.clone()).unwrap_err().kind, ErrorKind::Corrupt);
    assert_eq!(server.vote(id, vote("a", &[])).unwrap_err().kind, ErrorKind::Corrupt);
}

#[test]
fn records_are_keyed_by_cbor_text_of_the_id() {
    let tree = temp_tree();
    let store = PollStore::new(tree.clone());
    let id = PublicPollId::from_str("k".to_string());
    let p = new_poll(id.clone(), &request(vec![option("A")]));
    store.put_new(&id, &p).unwrap();
    assert_eq!(PollStore::key_for(&id), Ok(b"\x61k".to_vec()));
    let long = PublicPollId::from_str("x".repeat(300));
    let mut expected = vec![0x79u8, 0x01, 0x2c];
    expected.extend(std::iter::repeat(b'x').take(300));
    assert_eq!(PollStore::key_for(&long), Ok(expected));
    let raw = tree.get(b"\x61k").unwrap().unwrap();
    assert_eq!(raw.to_vec(), encode_poll(&p));
}

#[test]
fn interpret_read_distinguishes_missing_corrupt_and_valid() {
    assert_eq!(interpret_read(None).unwrap_err(), ErrorKind::NotFound);
    assert_eq!(interpret_read(Some(vec![9])).unwrap_err(), ErrorKind::Corrupt);
    let p = sample_poll();
    let q = interpret_read(Some(encode_poll(&p))).unwrap();
    assert_eq!(encode_poll(&q), encode_poll(&p));
}

#[test]
fn apply_vote_appends_and_aggregates() {
    let p = new_poll(PublicPollId::from_str("x".to_string()), &request(vec![option("A"), option("B")]));
    let q = apply_vote(p, &vote("ann", &[("B", Some(7))])).unwrap();
    assert_eq!(q.votes.len(), 1);
    let res = q.result.unwrap();
    assert_eq!(res.len(), 1);
    assert_eq!((res[0].option.0.as_str(), res[0].total, res[0].count), ("B", 7, 1));
}

#[test]
fn error_codes_are_distinct() {
    let kinds = [
        ErrorKind::NotFound,
        ErrorKind::AlreadyExists,
        ErrorKind::IdCollision,
        ErrorKind::InvalidInput,
        ErrorKind::Corrupt,
        ErrorKind::StorageUnavailable,
    ];
    let codes: Vec<i64> = kinds.iter().map(|k| k.code()).collect();
    assert_eq!(codes, vec![1, 2, 3, 4, 5, 6]);
    assert_eq!(OurError::new(ErrorKind::Corrupt).kind, ErrorKind::Corrupt);
}

#[test]
fn add_sums() {
    let server = Server::new(PollStore::new(temp_tree()));
    assert_eq!(server.add(2, 40), Ok(42));
}

#[test]
fn ids_keep_their_text() {
    assert_eq!(PublicPollId::from_str("p".to_string()).to_str(), "p");
    assert_eq!(PublicUserId::from_str("u".to_string()).0, "u");
    assert_eq!(PollOptionId::from_str("o".to_string()).0, "o");
    let a = PollOptionId::from_str("o".to_string());
    assert!(a.same_as(&a.duplicate()));
    assert!(!a.same_as(&PollOptionId::from_str("p".to_string())));
}

fn sled_failure() -> sled::Error {
    sled::Error::Unsupported("read-only".to_string())
}

fn add_vote(p: PollV1) -> Result<PollV1, ErrorKind> {
    apply_vote(p, &vote("ann", &[("A", Some(4))]))
}

#[test]
fn plan_update_maps_each_read_outcome() {
    assert_eq!(plan_update(Err(sled_failure()), &add_vote).err(), Some(ErrorKind::StorageUnavailable));
    assert_eq!(plan_update(Ok(None), &add_vote).err(), Some(ErrorKind::NotFound));
    assert_eq!(plan_update(Ok(Some(vec![1, 2, 3])), &add_vote).err(), Some(ErrorKind::Corrupt));
    let p = new_poll(PublicPollId::from_str("x".to_string()), &request(vec![option("B")]));
    let stored = encode_poll(&p);
    assert_eq!(plan_update(Ok(Some(stored.clone())), &add_vote).err(), Some(ErrorKind::InvalidInput));
    let q = new_poll(PublicPollId::from_str("x".to_string()), &request(vec![option("A")]));
    let stored = encode_poll(&q);
    let w = plan_update(Ok(Some(stored.clone())), &add_vote).ok().unwrap();
    assert_eq!(w.expected, stored);
    assert_eq!(w.record.votes.len(), 1);
    assert_eq!(w.record.result.as_ref().unwrap()[0].total, 4);
    assert_eq!(w.bytes, encode_poll(&w.record));
}

#[test]
fn swap_and_flush_outcomes() {
    assert_eq!(after_swap(&Ok(CasOutcome::Swapped)), SwapStep::Flush);
    assert_eq!(after_swap(&Ok(CasOutcome::Conflict)), SwapStep::Conflict);
    assert_eq!(after_swap(&Err(sled_failure())), SwapStep::Fail(ErrorKind::StorageUnavailable));
    assert_eq!(after_flush(&Ok(0)), Ok(()));
    assert_eq!(after_flush(&Err(sled_failure())), Err(ErrorKind::StorageUnavailable));
}

#[test]
fn taken_ids_are_retried_once_then_collide() {
    assert_eq!(after_put(0, Ok(())), CreateStep::Done);
    assert_eq!(after_put(1, Ok(())), CreateStep::Done);
    assert_eq!(after_put(0, Err(ErrorKind::AlreadyExists)), CreateStep::Retry);
    assert_eq!(after_put(1, Err(ErrorKind::AlreadyExists)), CreateStep::Fail(ErrorKind::IdCollision));
    assert_eq!(
        after_put(0, Err(ErrorKind::StorageUnavailable)),
        CreateStep::Fail(ErrorKind::StorageUnavailable)
    );
}
