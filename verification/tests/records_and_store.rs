use epilog_collector::codec::{decode_record, encode_record};
use epilog_collector::delivery::{
    advance, after_delivery, DeliveryOutcome, EntryEvent, EntryState, StoreAction,
};
use epilog_collector::domain::{is_valid_factor, Component, Score, ScoreError};
use epilog_collector::record::{Field, Record};
use epilog_collector::staging::{StagedEntry, Staging, StoreError};
use epilog_collector::time::Timestamp;

fn at(seconds: i64) -> Timestamp {
    Timestamp::from_seconds(seconds).unwrap()
}

fn record(id: &str) -> Record {
    Record::new(id.to_string(), "site".to_string(), "user".to_string(), "group".to_string(), at(10))
        .unwrap()
}

fn score(name: &str, factor: f64) -> Score {
    Score::new(name.to_string(), factor.to_bits()).unwrap()
}

fn full_record() -> Record {
    let cores = Component::new(
        "cores".to_string(),
        16,
        vec![score("HEPSPEC06", 9.25), score("zero", 0.0), score("größe", 1e300)],
    )
    .unwrap();
    let memory = Component::new("memory".to_string(), u64::MAX, vec![]).unwrap();
    record("job-1").with_component(cores).with_component(memory).with_stop_time(at(3610))
}

fn flat(record: &Record) -> String {
    format!(
        "{}|{}|{}|{}|{}|{:?}|{:?}",
        record.record_id(),
        record.site_id(),
        record.user_id(),
        record.group_id(),
        record.start_time().seconds(),
        record.stop_time().map(|t| t.seconds()),
        record
            .components()
            .iter()
            .map(|c| (
                c.name().to_string(),
                c.amount(),
                c.scores().iter().map(|s| (s.name().to_string(), s.factor_bits())).collect::<Vec<_>>()
            ))
            .collect::<Vec<_>>()
    )
}

#[test]
fn factors_must_be_finite_and_not_negative() {
    for good in [0.0, -0.0, 1.0, 0.5, f64::MIN_POSITIVE, f64::MAX, 5e-324] {
        assert!(is_valid_factor(good.to_bits()), "{}", good);
    }
    for bad in [-1.0, -5e-324, f64::MIN, f64::INFINITY, f64::NEG_INFINITY, f64::NAN, -f64::NAN] {
        assert!(!is_valid_factor(bad.to_bits()), "{}", bad);
    }
}

#[test]
fn score_checks_the_name_before_the_factor() {
    match Score::new("a/b".to_string(), (-1.0f64).to_bits()) {
        Err(ScoreError::InvalidName { raw }) => assert_eq!(raw, "a/b"),
        other => panic!("unexpected: {:?}", other),
    }
    match Score::new("ab".to_string(), (-1.0f64).to_bits()) {
        Err(ScoreError::InvalidFactor { factor_bits }) => {
            assert_eq!(factor_bits, (-1.0f64).to_bits())
        },
        other => panic!("unexpected: {:?}", other),
    }
    let s = score("ab", 2.0);
    assert_eq!(s.name(), "ab");
    assert_eq!(f64::from_bits(s.factor_bits()), 2.0);
    assert_eq!(s.clone().name(), "ab");
}

#[test]
fn component_name_is_checked_as_it_stands() {
    assert!(Component::new("no/des".to_string(), 1, vec![]).is_none());
    assert!(Component::new("".to_string(), 1, vec![]).is_none());
    let c = Component::new("nodes".to_string(), 3, vec![score("s", 1.0)]).unwrap();
    assert_eq!(c.name(), "nodes");
    assert_eq!(c.amount(), 3);
    assert_eq!(c.scores().len(), 1);
    let d = c.clone();
    assert_eq!(d.name(), "nodes");
    assert_eq!(d.scores()[0].name(), "s");
}

#[test]
fn record_identifiers_are_sanitized_then_checked() {
    let r = Record::new(
        "job/1".to_string(),
        "(site)".to_string(),
        "us<er>".to_string(),
        "{group}".to_string(),
        at(5),
    )
    .unwrap();
    assert_eq!(r.record_id(), "job1");
    assert_eq!(r.site_id(), "site");
    assert_eq!(r.user_id(), "user");
    assert_eq!(r.group_id(), "group");
    assert_eq!(r.start_time().seconds(), 5);
    assert!(r.stop_time().is_none());
    assert!(r.components().is_empty());
}

#[test]
fn the_first_invalid_identifier_is_reported_as_given() {
    let new = |a: &str, b: &str, c: &str, d: &str| {
        Record::new(a.to_string(), b.to_string(), c.to_string(), d.to_string(), at(0))
    };
    let e = new("//", "()", "", "{}").unwrap_err();
    assert_eq!((e.field, e.raw.as_str()), (Field::RecordId, "//"));
    let e = new("id", "()", "", "{}").unwrap_err();
    assert_eq!((e.field, e.raw.as_str()), (Field::SiteId, "()"));
    let e = new("id", "site", "  ", "{}").unwrap_err();
    assert_eq!((e.field, e.raw.as_str()), (Field::UserId, "  "));
    let e = new("id", "site", "user", "{}").unwrap_err();
    assert_eq!((e.field, e.raw.as_str()), (Field::GroupId, "{}"));
    let long = "x".repeat(257);
    let e = new(&long, "site", "user", "group").unwrap_err();
    assert_eq!((e.field, e.raw.as_str()), (Field::RecordId, long.as_str()));
}

#[test]
fn runtime_is_stop_minus_start_and_absent_before_the_stop() {
    let r = record("job");
    assert_eq!(r.runtime(), None);
    let r = r.with_stop_time(at(3610));
    assert_eq!(r.runtime(), Some(3600));
    assert_eq!(r.stop_time().unwrap().seconds(), 3610);
    let r = r.with_stop_time(at(4));
    assert_eq!(r.runtime(), Some(-6));
}

#[test]
fn components_keep_the_order_in_which_they_were_added() {
    let c = |n: &str| Component::new(n.to_string(), 1, vec![]).unwrap();
    let r = record("job").with_component(c("a")).with_components(vec![c("b"), c("c")]);
    let r = r.with_component(c("d"));
    let names: Vec<String> = r.components().iter().map(|c| c.name().to_string()).collect();
    assert_eq!(names, vec!["a", "b", "c", "d"]);
}

#[test]
fn a_record_is_read_back_as_it_was_written() {
    let original = full_record();
    let bytes = encode_record(&original);
    let copy = decode_record(&bytes).unwrap();
    assert_eq!(flat(&copy), flat(&original));
    assert_eq!(encode_record(&copy), bytes);
}

#[test]
fn a_record_without_components_or_stop_is_read_back() {
    let original = record("job-0");
    let bytes = encode_record(&original);
    let copy = decode_record(&bytes).unwrap();
    assert_eq!(flat(&copy), flat(&original));
    assert!(copy.components().is_empty());
    assert!(copy.stop_time().is_none());
}

#[test]
fn times_before_the_epoch_are_read_back() {
    let original = Record::new(
        "j".to_string(),
        "s".to_string(),
        "u".to_string(),
        "g".to_string(),
        at(-86_400),
    )
    .unwrap()
    .with_stop_time(at(-1));
    let copy = decode_record(&encode_record(&original)).unwrap();
    assert_eq!(copy.start_time().seconds(), -86_400);
    assert_eq!(copy.stop_time().unwrap().seconds(), -1);
    assert_eq!(copy.runtime(), Some(86_399));
}

#[test]
fn the_binary_form_is_laid_out_as_described() {
    let r = Record::new("ab".to_string(), "s".to_string(), "u".to_string(), "g".to_string(), at(1))
        .unwrap()
        .with_component(Component::new("c".to_string(), 258, vec![score("x", 1.0)]).unwrap());
    let mut expected: Vec<u8> = Vec::new();
    let text = |out: &mut Vec<u8>, s: &str| {
        out.extend_from_slice(&(s.len() as u64).to_le_bytes());
        out.extend_from_slice(s.as_bytes());
    };
    text(&mut expected, "ab");
    text(&mut expected, "s");
    text(&mut expected, "u");
    text(&mut expected, "g");
    expected.extend_from_slice(&1i64.to_le_bytes());
    expected.push(0);
    expected.extend_from_slice(&1u64.to_le_bytes());
    text(&mut expected, "c");
    expected.extend_from_slice(&258u64.to_le_bytes());
    expected.extend_from_slice(&1u64.to_le_bytes());
    text(&mut expected, "x");
    expected.extend_from_slice(&1.0f64.to_bits().to_le_bytes());
    assert_eq!(encode_record(&r), expected);
}

#[test]
fn damaged_bytes_are_refused() {
    let bytes = encode_record(&full_record());
    assert!(decode_record(&[]).is_err());
    for cut in 0..bytes.len() {
        assert!(decode_record(&bytes[..cut]).is_err(), "cut at {}", cut);
    }
    let mut longer = bytes.clone();
    longer.push(0);
    assert!(decode_record(&longer).is_err());
    // A forbidden character in the record's identifier.
    let mut bad_name = bytes.clone();
    bad_name[8] = b'/';
    assert!(decode_record(&bad_name).is_err());
    // Bytes that are no UTF-8.
    let mut bad_text = bytes.clone();
    bad_text[8] = 0xFF;
    assert!(decode_record(&bad_text).is_err());
    // A list that claims more items than follow.
    let mut bad_count = encode_record(&record("job-0"));
    let n = bad_count.len();
    bad_count[n - 8] = 1;
    assert!(decode_record(&bad_count).is_err());
    // A stop marker that is neither 0 nor 1.
    let mut bad_tag = encode_record(&record("job-0"));
    bad_tag[n - 9] = 2;
    assert!(decode_record(&bad_tag).is_err());
    // A negative factor.
    let one = record("j")
        .with_component(Component::new("c".to_string(), 1, vec![score("x", 1.0)]).unwrap());
    let mut bad_factor = encode_record(&one);
    let n = bad_factor.len();
    bad_factor[n - 1] |= 0x80;
    assert!(decode_record(&bad_factor).is_err());
}

#[test]
fn put_then_delete_leaves_the_store_empty_and_deleting_again_is_no_error() {
    let mut store = Staging::new();
    store.put("job-1".to_string(), &record("job-1")).unwrap();
    assert_eq!(store.len(), 1);
    assert!(store.contains("job-1"));
    assert!(store.delete("job-1"));
    assert!(store.list().unwrap().is_empty());
    assert_eq!(store.len(), 0);
    assert!(!store.delete("job-1"));
    assert!(store.list().unwrap().is_empty());
}

#[test]
fn list_returns_every_staged_record() {
    let mut store = Staging::new();
    store.put("a".to_string(), &record("a")).unwrap();
    store.put("b".to_string(), &full_record()).unwrap();
    store.put("c".to_string(), &record("c")).unwrap();
    let listed = store.list().unwrap();
    let ids: Vec<&str> = listed.iter().map(|(id, _)| id.as_str()).collect();
    assert_eq!(ids, vec!["a", "b", "c"]);
    assert_eq!(flat(&listed[1].1), flat(&full_record()));
    assert!(store.delete("b"));
    let listed = store.list().unwrap();
    let ids: Vec<&str> = listed.iter().map(|(id, _)| id.as_str()).collect();
    assert_eq!(ids, vec!["a", "c"]);
}

#[test]
fn an_identifier_is_staged_once() {
    let mut store = Staging::new();
    store.put("a".to_string(), &record("a")).unwrap();
    match store.put("a".to_string(), &full_record()) {
        Err(StoreError::AlreadyStaged { id }) => assert_eq!(id, "a"),
        other => panic!("unexpected: {:?}", other),
    }
    assert_eq!(store.len(), 1);
    assert_eq!(flat(&store.list().unwrap()[0].1), flat(&record("a")));
}

#[test]
fn a_corrupt_entry_is_reported_by_its_identifier() {
    let mut store = Staging::new();
    store.put("good".to_string(), &record("good")).unwrap();
    store
        .restore(StagedEntry { id: "bad".to_string(), bytes: vec![1, 2, 3], flagged: false })
        .unwrap();
    match store.list() {
        Err(StoreError::Corrupt { id }) => assert_eq!(id, "bad"),
        other => panic!("unexpected: {:?}", other.map(|v| v.len())),
    }
    assert!(store.delete("bad"));
    assert_eq!(store.list().unwrap().len(), 1);
}

#[test]
fn the_outcome_of_a_delivery_decides_what_happens_to_the_entry() {
    assert_eq!(after_delivery(&DeliveryOutcome::Acknowledged), StoreAction::Delete);
    assert_eq!(
        after_delivery(&DeliveryOutcome::Rejected("no".to_string())),
        StoreAction::Flag
    );
    assert_eq!(after_delivery(&DeliveryOutcome::Unreachable), StoreAction::Keep);

    let mut store = Staging::new();
    for id in ["a", "b", "c"] {
        store.put(id.to_string(), &record(id)).unwrap();
    }
    assert_eq!(store.settle("a", &DeliveryOutcome::Acknowledged), StoreAction::Delete);
    assert_eq!(
        store.settle("b", &DeliveryOutcome::Rejected("bad".to_string())),
        StoreAction::Flag
    );
    assert_eq!(store.settle("c", &DeliveryOutcome::Unreachable), StoreAction::Keep);
    assert!(!store.contains("a"));
    assert!(store.contains("b"));
    assert!(store.contains("c"));
    assert_eq!(store.len(), 2);
    assert!(store.flag("c"));
    assert!(!store.flag("missing"));
}

#[test]
fn flagged_entries_are_not_tried_again_but_stay_staged() {
    let mut store = Staging::new();
    for id in ["a", "b", "c", "d"] {
        store.put(id.to_string(), &record(id)).unwrap();
    }
    assert_eq!(store.pending(), vec!["a", "b", "c", "d"]);
    assert_eq!(store.is_flagged("b"), Some(false));
    store.settle("b", &DeliveryOutcome::Rejected("invalid".to_string()));
    store.settle("c", &DeliveryOutcome::Unreachable);
    store.settle("d", &DeliveryOutcome::Acknowledged);
    assert_eq!(store.pending(), vec!["a", "c"]);
    assert_eq!(store.is_flagged("a"), Some(false));
    assert_eq!(store.is_flagged("b"), Some(true));
    assert_eq!(store.is_flagged("d"), None);
    assert_eq!(store.len(), 3);
    assert_eq!(flat(&store.get("b").unwrap().unwrap()), flat(&record("b")));
    store
        .restore(StagedEntry { id: "e".to_string(), bytes: encode_record(&record("e")), flagged: true })
        .unwrap();
    assert_eq!(store.pending(), vec!["a", "c"]);
    assert_eq!(store.list().unwrap().len(), 4);
}

#[test]
fn one_damaged_entry_does_not_hide_the_others() {
    let mut store = Staging::new();
    store.restore(StagedEntry { id: "bad".to_string(), bytes: vec![0xFF], flagged: false }).unwrap();
    store.put("good".to_string(), &full_record()).unwrap();
    match store.get("bad") {
        Err(StoreError::Corrupt { id }) => assert_eq!(id, "bad"),
        other => panic!("unexpected: {:?}", other),
    }
    assert_eq!(flat(&store.get("good").unwrap().unwrap()), flat(&full_record()));
    assert!(store.get("missing").unwrap().is_none());
    assert_eq!(store.pending(), vec!["bad", "good"]);
}

#[test]
fn staged_records_are_there_again_when_the_store_is_reopened_from_its_rows() {
    let mut store = Staging::new();
    store.put("a".to_string(), &full_record()).unwrap();
    store.put("b".to_string(), &record("b")).unwrap();
    store.put("c".to_string(), &record("c")).unwrap();
    store.flag("b");
    store.delete("c");
    let rows: Vec<StagedEntry> = store
        .entries()
        .iter()
        .map(|e| StagedEntry { id: e.id.clone(), bytes: e.bytes.clone(), flagged: e.flagged })
        .collect();
    drop(store);
    let reopened = Staging::reopen(rows).unwrap();
    let listed = reopened.list().unwrap();
    let ids: Vec<&str> = listed.iter().map(|(id, _)| id.as_str()).collect();
    assert_eq!(ids, vec!["a", "b"]);
    assert_eq!(flat(&listed[0].1), flat(&full_record()));
    assert_eq!(reopened.is_flagged("b"), Some(true));
    assert_eq!(reopened.pending(), vec!["a"]);
}

#[test]
fn rows_that_share_an_identifier_are_refused() {
    let row = |id: &str| StagedEntry { id: id.to_string(), bytes: vec![], flagged: false };
    match Staging::reopen(vec![row("a"), row("b"), row("a")]) {
        Err(StoreError::AlreadyStaged { id }) => assert_eq!(id, "a"),
        other => panic!("unexpected: {:?}", other.map(|s| s.len())),
    }
    assert_eq!(Staging::reopen(vec![]).unwrap().len(), 0);
    assert_eq!(Staging::reopen(vec![row("a"), row("b")]).unwrap().len(), 2);
}

#[test]
fn as_many_entries_as_records_were_put() {
    let mut store = Staging::new();
    for n in 0..50 {
        let id = format!("job-{}", n);
        store.put(id.clone(), &record(&id)).unwrap();
    }
    assert_eq!(store.len(), 50);
    let listed = store.list().unwrap();
    assert_eq!(listed.len(), 50);
    for (n, (id, r)) in listed.iter().enumerate() {
        assert_eq!(id, &format!("job-{}", n));
        assert_eq!(&r.record_id(), id);
    }
}

#[test]
fn a_record_moves_through_its_states() {
    let all = [
        EntryEvent::Stored,
        EntryEvent::Attempted,
        EntryEvent::Acknowledged,
        EntryEvent::Rejected,
        EntryEvent::Unreachable,
    ];
    assert_eq!(advance(EntryState::Constructed, EntryEvent::Stored), Some(EntryState::Staged));
    assert_eq!(advance(EntryState::Staged, EntryEvent::Attempted), Some(EntryState::Delivering));
    assert_eq!(
        advance(EntryState::Delivering, EntryEvent::Acknowledged),
        Some(EntryState::Removed)
    );
    assert_eq!(advance(EntryState::Delivering, EntryEvent::Rejected), Some(EntryState::Flagged));
    assert_eq!(advance(EntryState::Delivering, EntryEvent::Unreachable), Some(EntryState::Staged));
    for event in all {
        assert_eq!(advance(EntryState::Removed, event), None);
        assert_eq!(advance(EntryState::Flagged, event), None);
    }
    assert_eq!(advance(EntryState::Constructed, EntryEvent::Attempted), None);
    assert_eq!(advance(EntryState::Staged, EntryEvent::Stored), None);
    assert_eq!(advance(EntryState::Staged, EntryEvent::Acknowledged), None);
}
