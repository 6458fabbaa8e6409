use messages::record::Message;
use messages::store::Store;
use messages::store::StoreError;

const USER1: &str = "juno10c3slrqx3369mfsr9670au22zvq082jaej8ve4";
const USER2: &str = "juno1and87527ua866yqh2mpakl9zkxzj5myu6f87ll";

fn messages_contract() -> Store {
    let mut store = Store::new();
    store.instantiate();
    store
}

fn add_message(store: &mut Store, owner: &str, topic: &str, message: &str) -> u128 {
    store.add_message(owner.to_string(), topic.to_string(), message.to_string()).unwrap()
}

fn fields(m: &Message) -> (u128, &str, &str, &str) {
    (m.id, m.owner.as_str(), m.topic.as_str(), m.message.as_str())
}

#[test]
fn add_two_messages_and_query_all_messages() {
    let mut store = messages_contract();
    assert_eq!(0, add_message(&mut store, USER1, "topic", "message1"));
    assert_eq!(1, add_message(&mut store, USER1, "topic", "message2"));

    let all = store.query_all_messages().unwrap().messages;
    assert_eq!(2, all.len());
    assert_eq!((0, USER1, "topic", "message1"), fields(&all[0]));
    assert_eq!((1, USER1, "topic", "message2"), fields(&all[1]));
}

#[test]
fn integration_tests_add_messages_from_two_owners_and_query_messages_by_owner() {
    let mut store = messages_contract();
    add_message(&mut store, USER1, "topic", "message1");
    add_message(&mut store, USER2, "topic", "message2");
    add_message(&mut store, USER1, "topic", "message3");

    let mine = store.query_messages_by_addr(USER1.to_string()).unwrap().messages;
    assert_eq!(2, mine.len());
    assert_eq!((0, USER1, "topic", "message1"), fields(&mine[0]));
    assert_eq!((2, USER1, "topic", "message3"), fields(&mine[1]));

    let theirs = store.query_messages_by_addr(USER2.to_string()).unwrap().messages;
    assert_eq!(1, theirs.len());
    assert_eq!((1, USER2, "topic", "message2"), fields(&theirs[0]));
}

#[test]
fn add_messages_from_two_owners_and_query_messages_by_topic() {
    let mut store = messages_contract();
    add_message(&mut store, USER1, "topic", "message1");
    add_message(&mut store, USER2, "other", "message2");
    add_message(&mut store, USER2, "topic", "message3");

    let under = store.query_messages_by_topic("topic".to_string()).unwrap().messages;
    assert_eq!(2, under.len());
    assert_eq!((0, USER1, "topic", "message1"), fields(&under[0]));
    assert_eq!((2, USER2, "topic", "message3"), fields(&under[1]));

    let other = store.query_messages_by_topic("other".to_string()).unwrap().messages;
    assert_eq!(1, other.len());
    assert_eq!((1, USER2, "other", "message2"), fields(&other[0]));
}

#[test]
fn add_two_messages_and_query_messages_by_id() {
    let mut store = messages_contract();
    add_message(&mut store, USER1, "topic", "message1");
    add_message(&mut store, USER1, "topic", "message2");

    let found = store.query_messages_by_id(1).unwrap().messages;
    assert_eq!(1, found.len());
    assert_eq!((1, USER1, "topic", "message2"), fields(&found[0]));

    assert_eq!(StoreError::NotFound, store.query_messages_by_id(2).unwrap_err());
}
