use messages::record::Message;
use messages::store::Store;
use messages::store::StoreError;

fn fields(m: &Message) -> (u128, &str, &str, &str) {
    (m.id, m.owner.as_str(), m.topic.as_str(), m.message.as_str())
}

fn instantiated() -> Store {
    let mut store = Store::new();
    store.instantiate();
    store
}

#[test]
fn ids_count_up_from_zero() {
    let mut store = instantiated();
    for expected in 0u128..5 {
        let id = store.add_message("alice".to_string(), "t".to_string(), format!("m{}", expected)).unwrap();
        assert_eq!(expected, id);
        assert_eq!(expected + 1, store.query_current_id().unwrap());
    }
}

#[test]
fn added_message_reads_back() {
    let mut store = instantiated();
    let id = store.add_message("bob".to_string(), "news".to_string(), "hello".to_string()).unwrap();
    let got = store.query_messages_by_id(id).unwrap().messages;
    assert_eq!(1, got.len());
    assert_eq!((0, "bob", "news", "hello"), fields(&got[0]));
}

#[test]
fn unicode_and_empty_fields_read_back() {
    let mut store = instantiated();
    store.add_message("ünïcødé ✓".to_string(), "".to_string(), "".to_string()).unwrap();
    store.add_message("".to_string(), "日本語".to_string(), "emoji 🎉 body".to_string()).unwrap();
    let all = store.query_all_messages().unwrap().messages;
    assert_eq!((0, "ünïcødé ✓", "", ""), fields(&all[0]));
    assert_eq!((1, "", "日本語", "emoji 🎉 body"), fields(&all[1]));
}

#[test]
fn earlier_messages_stay_as_they_were() {
    let mut store = instantiated();
    store.add_message("alice".to_string(), "topic".to_string(), "first".to_string()).unwrap();
    let before = store.query_messages_by_id(0).unwrap().messages;
    for i in 0..4 {
        store.add_message("bob".to_string(), "topic".to_string(), format!("later {}", i)).unwrap();
    }
    let after = store.query_messages_by_id(0).unwrap().messages;
    assert_eq!(fields(&before[0]), fields(&after[0]));
    assert_eq!((0, "alice", "topic", "first"), fields(&after[0]));
}

#[test]
fn owner_listing_is_filtered_full_listing() {
    let mut store = instantiated();
    let owners = ["alice", "bob", "alice", "carol", "alice", "bob"];
    for (i, o) in owners.iter().enumerate() {
        store.add_message(o.to_string(), format!("t{}", i % 2), format!("m{}", i)).unwrap();
    }
    let all = store.query_all_messages().unwrap().messages;
    for o in ["alice", "bob", "carol", "dave"] {
        let mine = store.query_messages_by_addr(o.to_string()).unwrap().messages;
        let expected: Vec<_> = all.iter().filter(|m| m.owner == o).map(fields).collect();
        let got: Vec<_> = mine.iter().map(fields).collect();
        assert_eq!(expected, got);
    }
    for t in ["t0", "t1", "t2"] {
        let under = store.query_messages_by_topic(t.to_string()).unwrap().messages;
        let expected: Vec<_> = all.iter().filter(|m| m.topic == t).map(fields).collect();
        let got: Vec<_> = under.iter().map(fields).collect();
        assert_eq!(expected, got);
    }
}

#[test]
fn matching_is_exact() {
    let mut store = instantiated();
    store.add_message("Alice".to_string(), "Topic".to_string(), "x".to_string()).unwrap();
    assert_eq!(0, store.query_messages_by_addr("alice".to_string()).unwrap().messages.len());
    assert_eq!(0, store.query_messages_by_topic("topic".to_string()).unwrap().messages.len());
    assert_eq!(0, store.query_messages_by_addr("Alice ".to_string()).unwrap().messages.len());
    assert_eq!(1, store.query_messages_by_addr("Alice".to_string()).unwrap().messages.len());
}

#[test]
fn empty_store() {
    let store = instantiated();
    assert_eq!(0, store.query_all_messages().unwrap().messages.len());
    assert_eq!(0, store.query_messages_by_addr("x".to_string()).unwrap().messages.len());
    assert_eq!(0, store.query_messages_by_topic("x".to_string()).unwrap().messages.len());
    assert_eq!(0, store.query_current_id().unwrap());
    assert_eq!(StoreError::NotFound, store.query_messages_by_id(0).unwrap_err());
}

#[test]
fn two_messages_scenario() {
    let mut store = instantiated();
    assert_eq!(0, store.add_message("alice".to_string(), "topic".to_string(), "message1".to_string()).unwrap());
    assert_eq!(1, store.add_message("alice".to_string(), "topic".to_string(), "message2".to_string()).unwrap());
    let all = store.query_all_messages().unwrap().messages;
    let got: Vec<_> = all.iter().map(fields).collect();
    assert_eq!(vec![(0, "alice", "topic", "message1"), (1, "alice", "topic", "message2")], got);
}

#[test]
fn three_messages_scenario() {
    let mut store = instantiated();
    store.add_message("alice".to_string(), "topic".to_string(), "message1".to_string()).unwrap();
    store.add_message("alice".to_string(), "topic".to_string(), "message2".to_string()).unwrap();
    assert_eq!(2, store.add_message("bob".to_string(), "topic".to_string(), "message3".to_string()).unwrap());

    let mine = store.query_messages_by_addr("alice".to_string()).unwrap().messages;
    let ids: Vec<u128> = mine.iter().map(|m| m.id).collect();
    assert_eq!(vec![0, 1], ids);
    assert_eq!(3, store.query_messages_by_topic("topic".to_string()).unwrap().messages.len());
    let one = store.query_messages_by_id(1).unwrap().messages;
    assert_eq!((1, "alice", "topic", "message2"), fields(&one[0]));
    assert_eq!(StoreError::NotFound, store.query_messages_by_id(99).unwrap_err());
}

#[test]
fn uninitialized_store_refuses_everything() {
    let mut store = Store::new();
    assert_eq!(StoreError::Uninitialized, store.query_current_id().unwrap_err());
    assert_eq!(StoreError::Uninitialized, store.query_all_messages().unwrap_err());
    assert_eq!(StoreError::Uninitialized, store.query_messages_by_addr("a".to_string()).unwrap_err());
    assert_eq!(StoreError::Uninitialized, store.query_messages_by_topic("a".to_string()).unwrap_err());
    assert_eq!(StoreError::Uninitialized, store.query_messages_by_id(0).unwrap_err());
    assert_eq!(
        StoreError::Uninitialized,
        store.add_message("a".to_string(), "b".to_string(), "c".to_string()).unwrap_err()
    );
    store.instantiate();
    assert_eq!(0, store.query_current_id().unwrap());
    assert_eq!(0, store.add_message("a".to_string(), "b".to_string(), "c".to_string()).unwrap());
}
