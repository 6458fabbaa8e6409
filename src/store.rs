use cosmwasm_std::MemoryStorage;
use cosmwasm_std::Storage;
use vstd::prelude::*;

use crate::codec::lemma_word_injective;
use crate::codec::lemma_word_round_trip;
use crate::codec::push_word;
use crate::codec::read_word;
use crate::codec::word;
use crate::record::decode_message;
use crate::record::encode_message;
use crate::record::message_bytes;
use crate::record::storable;
use crate::record::views;
use crate::record::Message;
use crate::record::MessageView;

verus! {

broadcast use vstd::slice::group_slice_axioms;

#[verifier::external_type_specification]
#[verifier::external_body]
pub struct ExMemoryStorage(MemoryStorage);

/// The entries that a `MemoryStorage` holds, key to value.
pub uninterp spec fn storage_contents(s: MemoryStorage) -> Map<Seq<u8>, Seq<u8>>;

/// Relies on MemoryStorage::new: a new storage holds no entries.
#[verifier::external_body]
fn storage_new() -> (r: MemoryStorage)
    ensures
        storage_contents(r).dom() == Set::<Seq<u8>>::empty(),
{
    MemoryStorage::new()
}

/// Relies on Storage::get of MemoryStorage: a copy of the value under the key,
/// or nothing where the key is absent.
#[verifier::external_body]
fn storage_get(s: &MemoryStorage, key: &[u8]) -> (r: Option<Vec<u8>>)
    ensures
        r is Some <==> storage_contents(*s).contains_key(key@),
        r matches Some(v) ==> v@ == storage_contents(*s)[key@],
{
    s.get(key)
}

/// Relies on Storage::set of MemoryStorage: the key then holds the value and
/// every other entry stays; it panics on an empty value.
#[verifier::external_body]
fn storage_set(s: &mut MemoryStorage, key: &[u8], value: &[u8])
    requires
        value@.len() > 0,
    ensures
        storage_contents(*final(s)) == storage_contents(*old(s)).insert(key@, value@),
{
    s.set(key, value)
}

/// Why an operation on the store did not take place.
#[derive(Debug, Clone, Copy, PartialEq, Eq, Structural)]
pub enum StoreError {
    /// The store has not been instantiated.
    Uninitialized,
    /// No message has the requested id.
    NotFound,
    /// Every id has been handed out.
    Overflow,
}

/// The messages that a query returns, ascending by id.
#[derive(Debug)]
pub struct MessagesResponse {
    pub messages: Vec<Message>,
}

/// A request that adds to the store.
pub enum ExecuteMsg {
    AddMessage { topic: String, message: String },
}

/// A request that reads the store.
pub enum QueryMsg {
    GetCurrentId,
    GetAllMessage,
    GetMessagesByAddr { address: String },
    GetMessagesByTopic { topic: String },
    GetMessagesById { id: u128 },
}

/// The answer to a `QueryMsg`.
#[derive(Debug)]
pub enum QueryResponse {
    CurrentId(u128),
    Messages(MessagesResponse),
}

/// What the store holds: whether it was instantiated, and its messages in
/// the order of their ids.
pub struct StoreView {
    pub initialized: bool,
    pub messages: Seq<MessageView>,
}

impl StoreView {
    /// The id that the next message will get.
    pub open spec fn current_id(self) -> nat {
        self.messages.len()
    }

    /// The messages sent by `owner`, in the order of their ids.
    pub open spec fn by_owner(self, owner: Seq<char>) -> Seq<MessageView> {
        self.messages.filter(sent_by(owner))
    }

    /// The messages under `topic`, in the order of their ids.
    pub open spec fn by_topic(self, topic: Seq<char>) -> Seq<MessageView> {
        self.messages.filter(filed_under(topic))
    }

    /// `r` is what a listing owes: `expected` once instantiated, else
    /// `Uninitialized`.
    pub open spec fn listed(self, r: Result<MessagesResponse, StoreError>, expected: Seq<MessageView>) -> bool {
        match r {
            Ok(resp) => self.initialized && views(resp.messages@) == expected,
            Err(e) => !self.initialized && e == StoreError::Uninitialized,
        }
    }

    /// `r` is what a lookup of `id` owes: the one message with that id,
    /// `NotFound` where there is none, `Uninitialized` before instantiation.
    pub open spec fn looked_up(self, r: Result<MessagesResponse, StoreError>, id: u128) -> bool {
        match r {
            Ok(resp) => self.initialized && id < self.messages.len() && views(resp.messages@) == seq![
                self.messages[id as int],
            ],
            Err(e) => if !self.initialized {
                e == StoreError::Uninitialized
            } else {
                id >= self.messages.len() && e == StoreError::NotFound
            },
        }
    }

    /// `listed`, for the answer to a `QueryMsg`.
    pub open spec fn query_listed(self, r: Result<QueryResponse, StoreError>, expected: Seq<MessageView>) -> bool {
        match r {
            Ok(QueryResponse::Messages(resp)) => self.listed(Ok(resp), expected),
            Ok(QueryResponse::CurrentId(_)) => false,
            Err(e) => self.listed(Err(e), expected),
        }
    }

    /// `looked_up`, for the answer to a `QueryMsg`.
    pub open spec fn query_looked_up(self, r: Result<QueryResponse, StoreError>, id: u128) -> bool {
        match r {
            Ok(QueryResponse::Messages(resp)) => self.looked_up(Ok(resp), id),
            Ok(QueryResponse::CurrentId(_)) => false,
            Err(e) => self.looked_up(Err(e), id),
        }
    }

    /// What `query_current_id` owes.
    pub open spec fn current_id_result(self) -> Result<u128, StoreError> {
        if self.initialized {
            Ok(self.current_id() as u128)
        } else {
            Err(StoreError::Uninitialized)
        }
    }

    /// The state after `add_message` with these fields succeeded.
    pub open spec fn added(self, owner: Seq<char>, topic: Seq<char>, message: Seq<char>) -> StoreView {
        StoreView {
            initialized: true,
            messages: self.messages.push(
                MessageView { id: self.messages.len() as u128, owner, topic, message },
            ),
        }
    }

    /// What `add_message` with these fields returns, and the state it leaves.
    pub open spec fn add_outcome(self, owner: Seq<char>, topic: Seq<char>, message: Seq<char>) -> (Result<u128, StoreError>, StoreView) {
        if !self.initialized {
            (Err(StoreError::Uninitialized), self)
        } else if self.messages.len() >= u128::MAX {
            (Err(StoreError::Overflow), self)
        } else {
            (Ok(self.messages.len() as u128), self.added(owner, topic, message))
        }
    }
}

/// Holds of the messages that `owner` sent.
pub open spec fn sent_by(owner: Seq<char>) -> spec_fn(MessageView) -> bool {
    |m: MessageView| m.owner == owner
}

/// Holds of the messages under `topic`.
pub open spec fn filed_under(topic: Seq<char>) -> spec_fn(MessageView) -> bool {
    |m: MessageView| m.topic == topic
}

/// Which messages a listing keeps.
enum Pick {
    All,
    Owner(String),
    Topic(String),
}

impl Pick {
    spec fn keeps(&self, m: MessageView) -> bool {
        match self {
            Pick::All => true,
            Pick::Owner(o) => m.owner == o@,
            Pick::Topic(t) => m.topic == t@,
        }
    }

    fn accepts(&self, m: &Message) -> (r: bool)
        ensures
            r == self.keeps(m@),
    {
        match self {
            Pick::All => true,
            Pick::Owner(o) => m.owner == *o,
            Pick::Topic(t) => m.topic == *t,
        }
    }
}

/// The key of the id counter.
pub open spec fn counter_key() -> Seq<u8> {
    seq![0u8]
}

/// The key of the message with id `id`.
pub open spec fn message_key(id: u128) -> Seq<u8> {
    seq![1u8] + word(id)
}

fn make_counter_key() -> (r: Vec<u8>)
    ensures
        r@ == counter_key(),
{
    let mut k: Vec<u8> = Vec::new();
    k.push(0u8);
    assert(k@ =~= counter_key());
    k
}

fn make_message_key(id: u128) -> (r: Vec<u8>)
    ensures
        r@ == message_key(id),
{
    let mut k: Vec<u8> = Vec::new();
    k.push(1u8);
    push_word(&mut k, id);
    assert(k@ =~= message_key(id));
    k
}

proof fn lemma_keys_distinct(a: u128, b: u128)
    ensures
        message_key(a) != counter_key(),
        message_key(a) == message_key(b) <==> a == b,
{
    lemma_word_round_trip(a);
    lemma_word_injective(a, b);
    assert(message_key(a).len() == 17);
    if message_key(a) == message_key(b) {
        assert(word(a) =~= message_key(a).subrange(1, 17));
        assert(word(b) =~= message_key(b).subrange(1, 17));
    }
}

/// A message store kept in a key-value storage: one entry holds the next id,
/// and one entry per message holds its stored form under a key made of its id.
pub struct Store {
    storage: MemoryStorage,
    model: Ghost<StoreView>,
}

impl View for Store {
    type V = StoreView;

    closed spec fn view(&self) -> StoreView {
        self.model@
    }
}

impl Store {
    /// The storage holds the counter and every message where the model puts
    /// them, and no message at or beyond the count.
    pub closed spec fn inv(&self) -> bool {
        let c = storage_contents(self.storage);
        let v = self.model@;
        &&& v.initialized <==> c.contains_key(counter_key())
        &&& v.initialized ==> c[counter_key()] == word(v.messages.len() as u128)
        &&& !v.initialized ==> v.messages.len() == 0
        &&& v.messages.len() <= u128::MAX
        &&& forall|i: int|
            0 <= i < v.messages.len() ==> {
                &&& (#[trigger] v.messages[i]).id == i
                &&& storable(v.messages[i])
                &&& c.contains_key(message_key(i as u128))
                &&& c[message_key(i as u128)] == message_bytes(v.messages[i])
            }
        &&& forall|id: u128|
            id >= v.messages.len() ==> !c.contains_key(#[trigger] message_key(id))
    }

    /// A store that has not been instantiated yet.
    pub fn new() -> (r: Store)
        ensures
            r.inv(),
            !r@.initialized,
            r@.messages.len() == 0,
    {
        Store { storage: storage_new(), model: Ghost(StoreView { initialized: false, messages: Seq::empty() }) }
    }

    /// Sets the id counter to zero; to be done once, before anything else.
    pub fn instantiate(&mut self)
        requires
            old(self).inv(),
            !old(self)@.initialized,
        ensures
            final(self).inv(),
            final(self)@.initialized,
            final(self)@.messages.len() == 0,
    {
        let key = make_counter_key();
        let mut value: Vec<u8> = Vec::new();
        push_word(&mut value, 0);
        proof {
            lemma_word_round_trip(0);
            assert(value@ =~= word(0));
        }
        storage_set(&mut self.storage, key.as_slice(), value.as_slice());
        self.model = Ghost(StoreView { initialized: true, messages: Seq::empty() });
        proof {
            assert forall|id: u128| id >= 0 implies !storage_contents(self.storage).contains_key(
                #[trigger] message_key(id),
            ) by {
                lemma_keys_distinct(id, id);
            }
        }
    }

    /// The id that the next message will get.
    fn load_counter(&self) -> (r: Result<u128, StoreError>)
        requires
            self.inv(),
        ensures
            r == self@.current_id_result(),
    {
        let key = make_counter_key();
        match storage_get(&self.storage, key.as_slice()) {
            None => Err(StoreError::Uninitialized),
            Some(value) => {
                proof {
                    lemma_word_round_trip(self@.messages.len() as u128);
                    assert(value@.subrange(0, 16) =~= value@);
                }
                Ok(read_word(value.as_slice(), 0))
            },
        }
    }

    /// Stores a message from `owner` under the next id and returns that id.
    pub fn add_message(&mut self, owner: String, topic: String, message: String) -> (r: Result<u128, StoreError>)
        requires
            old(self).inv(),
        ensures
            final(self).inv(),
            (r, final(self)@) == old(self)@.add_outcome(owner@, topic@, message@),
    {
        let id = match self.load_counter() {
            Ok(id) => id,
            Err(e) => return Err(e),
        };
        let next = match id.checked_add(1) {
            Some(next) => next,
            None => return Err(StoreError::Overflow),
        };
        let ghost before = storage_contents(self.storage);
        let bytes = encode_message(id, &owner, &topic, &message);
        let key = make_message_key(id);
        storage_set(&mut self.storage, key.as_slice(), bytes.as_slice());
        let counter_key = make_counter_key();
        let mut counter: Vec<u8> = Vec::new();
        push_word(&mut counter, next);
        proof {
            lemma_word_round_trip(next);
        }
        storage_set(&mut self.storage, counter_key.as_slice(), counter.as_slice());
        let ghost old_model = self.model@;
        self.model = Ghost(old_model.added(owner@, topic@, message@));
        proof {
            let c = storage_contents(self.storage);
            let v = self.model@;
            assert(counter@ =~= word(v.messages.len() as u128));
            assert forall|i: int| 0 <= i < v.messages.len() implies {
                &&& (#[trigger] v.messages[i]).id == i
                &&& storable(v.messages[i])
                &&& c.contains_key(message_key(i as u128))
                &&& c[message_key(i as u128)] == message_bytes(v.messages[i])
            } by {
                lemma_keys_distinct(i as u128, id);
                if i < id {
                    assert(v.messages[i] == old_model.messages[i]);
                    assert(before.contains_key(message_key(i as u128)));
                }
            }
            assert forall|k: u128| k >= v.messages.len() implies !c.contains_key(
                #[trigger] message_key(k),
            ) by {
                lemma_keys_distinct(k, id);
                assert(!before.contains_key(message_key(k)));
            }
        }
        Ok(id)
    }

    /// Carries out an `ExecuteMsg` sent by `sender`; returns the new message's id.
    pub fn execute(&mut self, sender: String, msg: ExecuteMsg) -> (r: Result<u128, StoreError>)
        requires
            old(self).inv(),
        ensures
            final(self).inv(),
            match msg {
                ExecuteMsg::AddMessage { topic, message } => (r, final(self)@) == old(self)@.add_outcome(sender@, topic@, message@),
            },
    {
        match msg {
            ExecuteMsg::AddMessage { topic, message } => self.add_message(sender, topic, message),
        }
    }

    /// The messages that `pick` keeps, ascending by id, read one by one
    /// from the storage.
    fn collect(&self, count: u128, pick: &Pick, Ghost(pred): Ghost<spec_fn(MessageView) -> bool>) -> (r: Vec<Message>)
        requires
            self.inv(),
            self@.initialized,
            count == self@.messages.len(),
            forall|m: MessageView| #[trigger] pred(m) == pick.keeps(m),
        ensures
            views(r@) == self@.messages.filter(pred),
    {
        let ghost msgs = self@.messages;
        let mut out: Vec<Message> = Vec::new();
        let mut i: u128 = 0;
        while i < count
            invariant
                self.inv(),
                count == msgs.len(),
                msgs == self@.messages,
                i <= count,
                forall|m: MessageView| #[trigger] pred(m) == pick.keeps(m),
                views(out@) == msgs.take(i as int).filter(pred),
            decreases count - i,
        {
            let key = make_message_key(i);
            proof {
                reveal(Seq::filter);
                assert(msgs.take(i + 1).drop_last() =~= msgs.take(i as int));
                assert(msgs.take(i + 1).last() == msgs[i as int]);
            }
            match storage_get(&self.storage, key.as_slice()) {
                Some(bytes) => {
                    let m = decode_message(bytes.as_slice(), Ghost(msgs[i as int]));
                    if pick.accepts(&m) {
                        let ghost before = out@;
                        out.push(m);
                        assert(views(out@) =~= views(before).push(msgs[i as int]));
                    }
                },
                None => {},
            }
            i = i + 1;
        }
        assert(msgs.take(count as int) =~= msgs);
        out
    }

    /// The next id that `add_message` hands out.
    pub fn query_current_id(&self) -> (r: Result<u128, StoreError>)
        requires
            self.inv(),
        ensures
            r == self@.current_id_result(),
    {
        self.load_counter()
    }

    /// Every message, ascending by id.
    pub fn query_all_messages(&self) -> (r: Result<MessagesResponse, StoreError>)
        requires
            self.inv(),
        ensures
            self@.listed(r, self@.messages),
    {
        let count = match self.load_counter() {
            Ok(n) => n,
            Err(e) => return Err(e),
        };
        let messages = self.collect(count, &Pick::All, Ghost(|m: MessageView| true));
        proof {
            assert(self@.messages.filter(|m: MessageView| true) =~= self@.messages) by {
                self@.messages.lemma_filter_len(|m: MessageView| true);
                lemma_filter_all(self@.messages);
            }
        }
        Ok(MessagesResponse { messages })
    }

    /// The messages sent by `address`, ascending by id.
    pub fn query_messages_by_addr(&self, address: String) -> (r: Result<MessagesResponse, StoreError>)
        requires
            self.inv(),
        ensures
            self@.listed(r, self@.by_owner(address@)),
    {
        let count = match self.load_counter() {
            Ok(n) => n,
            Err(e) => return Err(e),
        };
        let ghost a = address@;
        let messages = self.collect(count, &Pick::Owner(address), Ghost(sent_by(a)));
        Ok(MessagesResponse { messages })
    }

    /// The messages under `topic`, ascending by id.
    pub fn query_messages_by_topic(&self, topic: String) -> (r: Result<MessagesResponse, StoreError>)
        requires
            self.inv(),
        ensures
            self@.listed(r, self@.by_topic(topic@)),
    {
        let count = match self.load_counter() {
            Ok(n) => n,
            Err(e) => return Err(e),
        };
        let ghost t = topic@;
        let messages = self.collect(count, &Pick::Topic(topic), Ghost(filed_under(t)));
        Ok(MessagesResponse { messages })
    }

    /// The message with id `id`, alone in the response.
    pub fn query_messages_by_id(&self, id: u128) -> (r: Result<MessagesResponse, StoreError>)
        requires
            self.inv(),
        ensures
            self@.looked_up(r, id),
    {
        if let Err(e) = self.load_counter() {
            return Err(e);
        }
        let key = make_message_key(id);
        match storage_get(&self.storage, key.as_slice()) {
            None => {
                proof {
                    if id < self@.messages.len() {
                        assert(self@.messages[id as int].id == id);
                    }
                }
                Err(StoreError::NotFound)
            },
            Some(bytes) => {
                let ghost msgs = self@.messages;
                let m = decode_message(bytes.as_slice(), Ghost(msgs[id as int]));
                let mut messages: Vec<Message> = Vec::new();
                messages.push(m);
                assert(views(messages@) =~= seq![msgs[id as int]]);
                Ok(MessagesResponse { messages })
            },
        }
    }

    /// Answers a `QueryMsg`.
    pub fn query(&self, msg: QueryMsg) -> (r: Result<QueryResponse, StoreError>)
        requires
            self.inv(),
        ensures
            match msg {
                QueryMsg::GetCurrentId => match r {
                    Ok(QueryResponse::CurrentId(n)) => self@.current_id_result() == Ok::<u128, StoreError>(n),
                    Ok(QueryResponse::Messages(_)) => false,
                    Err(e) => self@.current_id_result() == Err::<u128, StoreError>(e),
                },
                QueryMsg::GetAllMessage => self@.query_listed(r, self@.messages),
                QueryMsg::GetMessagesByAddr { address } => self@.query_listed(r, self@.by_owner(address@)),
                QueryMsg::GetMessagesByTopic { topic } => self@.query_listed(r, self@.by_topic(topic@)),
                QueryMsg::GetMessagesById { id } => self@.query_looked_up(r, id),
            },
    {
        match msg {
            QueryMsg::GetCurrentId => match self.query_current_id() {
                Ok(n) => Ok(QueryResponse::CurrentId(n)),
                Err(e) => Err(e),
            },
            QueryMsg::GetAllMessage => match self.query_all_messages() {
                Ok(resp) => Ok(QueryResponse::Messages(resp)),
                Err(e) => Err(e),
            },
            QueryMsg::GetMessagesByAddr { address } => match self.query_messages_by_addr(address) {
                Ok(resp) => Ok(QueryResponse::Messages(resp)),
                Err(e) => Err(e),
            },
            QueryMsg::GetMessagesByTopic { topic } => match self.query_messages_by_topic(topic) {
                Ok(resp) => Ok(QueryResponse::Messages(resp)),
                Err(e) => Err(e),
            },
            QueryMsg::GetMessagesById { id } => match self.query_messages_by_id(id) {
                Ok(resp) => Ok(QueryResponse::Messages(resp)),
                Err(e) => Err(e),
            },
        }
    }
}

/// Keeping every element keeps the sequence whole.
proof fn lemma_filter_all(s: Seq<MessageView>)
    ensures
        s.filter(|m: MessageView| true) == s,
    decreases s.len(),
{
    reveal(Seq::filter);
    if s.len() > 0 {
        lemma_filter_all(s.drop_last());
        assert(s.drop_last().push(s.last()) =~= s);
    }
}

} // verus!
