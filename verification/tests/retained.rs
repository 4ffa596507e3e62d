use readset::digest;
use readset::digest::Digest;
use readset::host::FileType;
use readset::ordered::TextMap;
use readset::question::{Question, Recorded, WitnessRow};
use readset::readset::EvalId;
use readset::retained::{
    allocation, charge, count, entry_bytes, path_bytes, question_bytes, question_room, rc_bytes,
    sum, Entry, Place, Retained, Room, Stats,
};
use readset::task::{
    AcceptedPath, FetchTreeRequest, FilteredCopy, PathMethod, TreeAttr, TreeFetcher,
};
use readset::value::{PathValue, Root};
use std::cell::RefCell;
use std::rc::Rc;

fn known(bytes: [u8; 32]) -> Digest {
    Digest::Known(digest::Hash::from_bytes(bytes))
}

fn identity(label: u8) -> EvalId {
    EvalId {
        key: digest::Hash::from_bytes([label; 32]),
    }
}

fn entry(label: u8) -> Entry {
    Entry {
        rows: Rc::new(vec![(
            Question::GetEnv(format!("variable-{label}")),
            Recorded::Digest(known([label; 32])),
        )]),
        shape: digest::Hash::from_bytes([label; 32]),
        slot: usize::from(label) % 4,
    }
}

#[test]
fn item_limit_evicts_the_least_recently_read_entry() {
    let store = String::from("/cache");
    let mut retained = Retained::new(u64::MAX, 2);
    retained.insert(store.clone(), identity(1), entry(1));
    retained.insert(store.clone(), identity(2), entry(2));
    assert!(retained.get(&store, &identity(1)).is_some());
    retained.insert(store.clone(), identity(3), entry(3));

    assert!(retained.get(&store, &identity(2)).is_none());
    assert!(retained.get(&store, &identity(1)).is_some());
    assert!(retained.get(&store, &identity(3)).is_some());
    assert_eq!(retained.stats().entries, 2);
    assert_eq!(retained.stats().evictions, 1);
    assert_eq!(retained.stats().memory_hits, 3);
}

#[test]
fn byte_limit_evicts_even_when_the_item_limit_has_room() {
    let store = String::from("/cache");
    let first = entry(1);
    let second = entry(2);
    let limit = entry_bytes(&store, &first) + entry_bytes(&store, &second) - 1;
    let second_bytes = entry_bytes(&store, &second);
    let mut retained = Retained::new(limit, 10);
    retained.insert(store.clone(), identity(1), first);
    retained.insert(store.clone(), identity(2), second);

    assert!(retained.get(&store, &identity(1)).is_none());
    assert!(retained.get(&store, &identity(2)).is_some());
    assert_eq!(retained.stats().retained_bytes, second_bytes);
    assert_eq!(retained.stats().evictions, 1);
}

#[test]
fn replacement_updates_one_identity_and_oversize_replacement_removes_it() {
    let store = String::from("/cache");
    let replacement = entry(2);
    let bytes = entry_bytes(&store, &replacement);
    let mut retained = Retained::new(bytes, 4);
    retained.insert(store.clone(), identity(1), entry(1));
    retained.insert(store.clone(), identity(1), replacement);
    let served = retained.get(&store, &identity(1));
    assert_eq!(served.as_ref().map(|entry| entry.slot), Some(2));
    assert_eq!(
        served.as_ref().map(|entry| entry.shape),
        Some(digest::Hash::from_bytes([2; 32]))
    );
    assert_eq!(retained.stats().entries, 1);
    assert_eq!(retained.stats().retained_bytes, bytes);

    let mut text = String::with_capacity(8192);
    text.push('x');
    let huge = Entry {
        rows: Rc::new(vec![(
            Question::GetEnv(text),
            Recorded::Digest(known([0; 32])),
        )]),
        shape: digest::Hash::from_bytes([3; 32]),
        slot: 3,
    };
    let weak = Rc::downgrade(&huge.rows);
    retained.insert(store.clone(), identity(1), huge);
    assert!(retained.get(&store, &identity(1)).is_none());
    assert!(
        weak.upgrade().is_none(),
        "oversize payload remained retained"
    );
    assert_eq!(retained.stats().entries, 0);
    assert_eq!(retained.stats().retained_bytes, 0);
    assert_eq!(retained.stats().evictions, 0);
}

#[test]
fn stores_are_separate_and_removal_releases_only_the_requested_entry() {
    let first = String::from("/cache-one");
    let second = String::from("/cache-two");
    let mut retained = Retained::new(u64::MAX, 4);
    retained.insert(first.clone(), identity(1), entry(1));
    retained.insert(second.clone(), identity(1), entry(2));
    retained.note_disk_load();
    retained.note_disk_load();
    retained.remove(&first, &identity(1));

    assert!(retained.get(&first, &identity(1)).is_none());
    assert_eq!(
        retained.get(&second, &identity(1)).map(|entry| entry.slot),
        Some(2)
    );
    assert_eq!(retained.stats().disk_loads, 2);
    assert_eq!(retained.stats().entries, 1);
    retained.remove(&second, &identity(1));
    retained.remove(&second, &identity(1));
    assert_eq!(retained.stats().retained_bytes, 0);
}

#[test]
fn a_replay_handle_survives_eviction_without_holding_a_cache_borrow() {
    let store = String::from("/cache");
    let retained = Rc::new(RefCell::new(Retained::new(u64::MAX, 1)));
    let original = entry(1);
    let weak = Rc::downgrade(&original.rows);
    retained
        .borrow_mut()
        .insert(store.clone(), identity(1), original);
    let replay = retained.borrow_mut().get(&store, &identity(1));
    retained.borrow_mut().insert(store, identity(2), entry(2));
    assert!(
        weak.upgrade().is_some(),
        "eviction invalidated an active replay"
    );
    drop(retained);
    assert!(
        weak.upgrade().is_some(),
        "session destruction invalidated an active replay"
    );
    drop(replay);
    assert!(
        weak.upgrade().is_none(),
        "payload leaked after its last replay ended"
    );
}

#[test]
fn zero_limits_disable_retention() {
    for (bytes, entries) in [(0, 4), (u64::MAX, 0)] {
        let mut retained = Retained::new(bytes, entries);
        let payload = entry(1);
        let weak = Rc::downgrade(&payload.rows);
        retained.insert(String::from("/cache"), identity(1), payload);
        assert_eq!(retained.stats(), Stats::default());
        assert!(weak.upgrade().is_none());
    }
}

#[test]
fn accounting_includes_unused_capacities_and_nested_payloads() {
    let store = String::from("/cache");
    let mut rows = Vec::with_capacity(128);
    let mut contents = String::with_capacity(8192);
    contents.push('x');
    let mut references = Vec::with_capacity(64);
    let mut reference = String::with_capacity(4096);
    reference.push('r');
    references.push(reference);
    let mut answer = String::with_capacity(16384);
    answer.push('a');
    rows.push((
        Question::StoreText {
            name: "name".to_owned(),
            contents,
            references,
        },
        Recorded::Answer(answer),
    ));
    let accounted_minimum =
        allocation::<WitnessRow>(128) + allocation::<String>(64) + 8192 + 4096 + 16384;
    let payload = Entry {
        rows: Rc::new(rows),
        shape: digest::Hash::from_bytes([0; 32]),
        slot: 0,
    };
    assert!(entry_bytes(&store, &payload) >= accounted_minimum);

    let mut retained = Retained::new(accounted_minimum - 1, 8);
    retained.insert(store, identity(1), payload);
    assert_eq!(retained.stats().entries, 0);
}

#[test]
fn nested_path_and_fetch_allocations_are_charged() {
    let path = Rc::new(PathValue::new(Root::mounted("/mount"), "/mount/file"));
    let request = Question::StoreFiltered(Box::new(FilteredCopy {
        root: path,
        name: String::with_capacity(4096),
        method: PathMethod::Flat,
        accepted: Some(vec![AcceptedPath {
            path: String::with_capacity(8192),
            file_type: FileType::Regular,
        }]),
        expected_sha256: Some(String::with_capacity(2048)),
        inherit_references: false,
    }));
    assert!(question_bytes(&request) >= 4096 + 8192 + 2048);
    let mut attrs = TextMap::new();
    attrs.insert(
        String::with_capacity(4096),
        TreeAttr::Str(String::with_capacity(8192)),
    );
    let tree = Question::FetchTree(Box::new(FetchTreeRequest {
        attrs,
        fetcher: TreeFetcher::Tree,
    }));
    assert!(question_bytes(&tree) >= 4096 + 8192);
}

#[test]
fn a_long_sequence_stays_inside_both_limits() {
    let store = String::from("/cache");
    let budget = entry_bytes(&store, &entry(1)) * 3;
    let mut retained = Retained::new(budget, 4);
    for label in 1..=100 {
        retained.insert(store.clone(), identity(label % 7), entry(label));
        let _ = retained.get(&store, &identity((label + 2) % 7));
        if label % 5 == 0 {
            retained.remove(&store, &identity(label % 7));
        }
        assert!(retained.stats().entries <= 4);
        assert!(retained.stats().retained_bytes <= budget);
        assert_eq!(retained.stats().entries, count(retained.entries.len()));
        assert_eq!(
            retained.stats().retained_bytes,
            sum(&retained.entries.iter().map(|entry| entry.bytes).collect::<Vec<u64>>())
        );
    }
    assert!(retained.stats().evictions > 0);
}

#[test]
fn accounting_overflow_saturates_instead_of_admitting_an_undersized_charge() {
    assert_eq!(sum(&[u64::MAX, 1]), u64::MAX);
    assert_eq!(rc_bytes(u64::MAX), u64::MAX);
}

#[test]
fn reinserting_the_same_payload_updates_its_slot_and_recency() {
    let store = String::from("/cache");
    let mut retained = Retained::new(u64::MAX, 2);
    let mut payload = entry(1);
    retained.insert(store.clone(), identity(1), payload.clone());
    retained.insert(store.clone(), identity(2), entry(2));
    let charged = retained.stats().retained_bytes;
    payload.slot = 3;
    retained.insert(store.clone(), identity(1), payload);
    assert_eq!(retained.stats().retained_bytes, charged);
    retained.insert(store.clone(), identity(3), entry(3));
    assert!(retained.get(&store, &identity(2)).is_none());
    assert_eq!(
        retained.get(&store, &identity(1)).map(|entry| entry.slot),
        Some(3)
    );
    assert_eq!(retained.stats().entries, 2);
    assert_eq!(retained.stats().evictions, 1);
}

#[test]
fn allocations_are_counted_by_the_size_of_their_elements() {
    assert_eq!(allocation::<u64>(3), 24);
    assert_eq!(allocation::<u64>(usize::MAX), u64::MAX);
    assert_eq!(rc_bytes(5), 5 + allocation::<usize>(3));
    assert_eq!(sum(&[1, 2, 3]), 6);
}

#[test]
fn an_entry_that_was_removed_leaves_the_others_readable() {
    let mut retained = Retained::new(u64::MAX, 8);
    for label in 1..=3 {
        retained.insert_charged("/cache".to_owned(), identity(label), entry(label), 10);
    }
    retained.remove("/cache", &identity(2));
    assert!(retained.get("/cache", &identity(2)).is_none());
    assert!(retained.get("/cache", &identity(1)).is_some());
    assert!(retained.get("/cache", &identity(3)).is_some());
    assert_eq!(retained.stats().retained_bytes, 20);
}

#[test]
fn a_charge_is_admitted_up_to_the_limit() {
    let mut retained = Retained::new(25, 8);
    retained.insert_charged("/cache".to_owned(), identity(1), entry(1), 25);
    assert_eq!(retained.stats().entries, 1);
    retained.insert_charged("/cache".to_owned(), identity(2), entry(2), 26);
    assert_eq!(retained.stats().entries, 1);
    retained.insert_charged("/cache".to_owned(), identity(3), entry(3), 1);
    assert_eq!(retained.stats().entries, 1);
    assert_eq!(retained.stats().evictions, 1);
    assert!(retained.get("/cache", &identity(1)).is_none());
}

#[test]
fn a_charge_is_what_is_held_and_the_rooms_that_were_drawn() {
    let room = Room {
        held: 5,
        places: vec![Place { unit: 1, room: 7 }, Place { unit: 24, room: 3 }],
    };
    assert_eq!(charge(&room), 5 + 7 + 72);
    assert_eq!(charge(&Room { held: 0, places: Vec::new() }), 0);
    assert_eq!(charge(&Room { held: u64::MAX, places: vec![Place { unit: 1, room: 1 }] }), u64::MAX);
}

#[test]
fn a_question_without_texts_is_charged_what_it_holds() {
    assert_eq!(question_bytes(&Question::NixPath), 0);
    let path = Rc::new(PathValue::new(Root::mounted("/m"), "/m/f"));
    let expected = rc_bytes(count(core::mem::size_of::<PathValue>())) + rc_bytes(4) + rc_bytes(2);
    assert_eq!(path_bytes(&path), expected);
    assert_eq!(question_bytes(&Question::ReadFile(path.clone())), expected);
    assert_eq!(question_bytes(&Question::Tree(path)), expected);
}

#[test]
fn a_room_has_a_place_for_each_text_and_list() {
    let mut name = String::with_capacity(100);
    name.push_str("n");
    let room = question_room(&Question::GetEnv(name.clone()));
    assert_eq!((room.held, room.places.len()), (0, 1));
    assert_eq!(room.places[0], Place { unit: 1, room: name.clone().capacity() });
    assert_eq!(question_bytes(&Question::GetEnv(name.clone())), count(name.clone().capacity()));

    let references = vec!["r".to_owned(), "s".to_owned()];
    let text = Question::StoreText {
        name: "n".to_owned(),
        contents: "contents".to_owned(),
        references: references.clone(),
    };
    let room = question_room(&text);
    assert_eq!(room.places.len(), 5);
    assert_eq!(room.places[2].unit, core::mem::size_of::<String>());
    assert!(room.places[1].room >= 8 && room.places[2].room >= references.len());
    assert_eq!(charge(&room), question_bytes(&text));
}

#[test]
fn the_derivation_itself_is_not_charged() {
    let asked = |bytes: u8| Question::WriteDrv {
        name: "n".to_owned(),
        answer: digest::WriteDrvAnswer::Written("/nix/store/p".to_owned()),
        aterm: digest::ObjId { hash: digest::Hash::from_bytes([bytes; 32]) },
    };
    let room = question_room(&asked(1));
    assert_eq!((room.held, room.places.len()), (0, 2));
    assert_eq!(question_bytes(&asked(1)), question_bytes(&asked(2)));
}

#[test]
fn an_entry_that_fits_is_kept_and_read_back() {
    let store = String::from("/cache");
    let mut retained = Retained::new(u64::MAX, 2);
    retained.insert(store.clone(), identity(1), entry(1));
    let found = retained.get(&store, &identity(1)).expect("kept");
    assert_eq!(found.rows, entry(1).rows);
    assert_eq!((found.shape, found.slot), (entry(1).shape, entry(1).slot));
    let mut small = Retained::new(entry_bytes(&store, &entry(1)) - 1, 2);
    small.insert(store.clone(), identity(1), entry(1));
    assert!(small.get(&store, &identity(1)).is_none(), "its charge is above the limit");
}

