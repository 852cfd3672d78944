use feed_relay::dedup::{CorruptState, DedupSet, StorageError};

fn holds_exactly(set: &DedupSet, ids: &[u64]) -> bool {
    set.len() == ids.len() && ids.iter().all(|id| set.contains(*id))
}

#[test]
fn new_set_is_empty() {
    let set = DedupSet::new();
    assert!(set.is_empty());
    assert_eq!(set.len(), 0);
    assert!(!set.contains(0));
}

#[test]
fn insert_reports_whether_the_id_was_new() {
    let mut set = DedupSet::new();
    assert!(set.insert(7));
    assert!(set.contains(7));
    assert!(!set.insert(7));
    assert_eq!(set.len(), 1);
    assert!(!set.is_empty());
}

#[test]
fn load_without_stored_text_gives_the_empty_set() {
    let set = DedupSet::load(None).expect("absent storage is no error");
    assert!(set.is_empty());
}

#[test]
fn load_reads_a_json_array_of_numbers() {
    let set = DedupSet::load(Some("[5, 3, 9, 1]")).expect("well-formed text");
    assert!(holds_exactly(&set, &[1, 3, 5, 9]));
}

#[test]
fn load_reads_the_largest_identifier() {
    let set = DedupSet::load(Some("[18446744073709551615,0]")).expect("well-formed text");
    assert!(holds_exactly(&set, &[0, u64::MAX]));
}

#[test]
fn load_merges_repeated_numbers() {
    let set = DedupSet::load(Some("[4,4,4]")).expect("well-formed text");
    assert!(holds_exactly(&set, &[4]));
}

#[test]
fn load_rejects_text_that_is_no_set_of_identifiers() {
    for text in ["", "{", "{\"a\":1}", "[1,", "[-1]", "[1.5]", "[\"1\"]", "[18446744073709551616]", "[1] x"] {
        match DedupSet::load(Some(text)) {
            Err(e) => assert_eq!(e, CorruptState),
            Ok(_) => panic!("accepted {:?}", text),
        }
    }
}

#[test]
fn parse_agrees_with_load_on_stored_text() {
    assert!(holds_exactly(&DedupSet::parse("[2,1]").expect("well-formed text"), &[1, 2]));
    assert_eq!(DedupSet::parse("nonsense").err(), Some(CorruptState));
}

#[test]
fn from_parsed_keeps_what_the_reader_returned() {
    let parsed = serde_json::from_str::<std::collections::HashSet<u64>>("[10,20]");
    let set = DedupSet::from_parsed(parsed).expect("reader succeeded");
    assert!(holds_exactly(&set, &[10, 20]));
    let failed = serde_json::from_str::<std::collections::HashSet<u64>>("[10,");
    assert_eq!(DedupSet::from_parsed(failed).err(), Some(CorruptState));
}

#[test]
fn from_written_maps_a_writer_error_to_a_storage_error() {
    let written = serde_json::to_string(&vec![1u64, 2]);
    assert_eq!(DedupSet::from_written(written), Ok(String::from("[1,2]")));
    let failed = serde_json::from_str::<String>("oops").map(|_| String::new());
    assert_eq!(DedupSet::from_written(failed), Err(StorageError::Serialize));
}

#[test]
fn empty_set_is_written_as_an_empty_array() {
    assert_eq!(DedupSet::new().to_json(), Ok(String::from("[]")));
}

#[test]
fn single_id_is_written_as_a_one_element_array() {
    let mut set = DedupSet::new();
    set.insert(1234567890123456789);
    assert_eq!(set.to_json(), Ok(String::from("[1234567890123456789]")));
}

#[test]
fn stored_set_is_loaded_again_as_the_same_set() {
    let mut set = DedupSet::new();
    for id in [1u64, 3, 5, 9, u64::MAX, 0] {
        set.insert(id);
    }
    let text = set.to_json().expect("a set of numbers can be written");
    let again = DedupSet::load(Some(text.as_str())).expect("what was written can be read");
    assert!(holds_exactly(&again, &[0, 1, 3, 5, 9, u64::MAX]));
}

#[test]
fn written_text_lists_every_id_once() {
    let mut set = DedupSet::new();
    for id in [8u64, 7, 8] {
        set.insert(id);
    }
    let text = set.to_json().expect("a set of numbers can be written");
    let mut listed: Vec<u64> = serde_json::from_str(text.as_str()).expect("a JSON array");
    listed.sort();
    assert_eq!(listed, vec![7, 8]);
}

#[test]
fn every_set_can_be_written() {
    let mut set = DedupSet::new();
    assert!(set.to_json().is_ok());
    for id in 0..200u64 {
        set.insert(id * 92233720368547758);
        assert!(set.to_json().is_ok());
    }
}
