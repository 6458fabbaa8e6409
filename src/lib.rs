//! An append-only message store. Each message gets the next id from a
//! counter; messages are read back by id, all together, by owner or by
//! topic, always ascending by id. The entries live in a key-value storage.
pub mod codec;
pub mod laws;
pub mod record;
pub mod store;
