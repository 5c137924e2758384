//! A name registry with per-name resolver records.
//!
//! The registry maps short names to an owner, a resolver hint and an
//! expiry time; resolver records attach chain addresses, text records, a
//! content hash and an agent identifier to a name. Every operation is a
//! pure state transition on an in-memory account store: the caller passes
//! the signer, the clock reading and the fee destination, and receives the
//! emitted event and the fee transfer to perform.
pub mod name;
pub mod pubkey;
pub mod registry;
pub mod resolver;
