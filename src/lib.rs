//! A host-side key-value service for isolated guests.
//!
//! Guests never hold references into the host: they hold small integer
//! handles. A fixed-capacity [`table::HandleTable`] maps each handle to a
//! [`kv::KvStore`]; [`host::KvHost`] keeps the registry from identifiers to
//! handles, creates a store on the first request for an identifier, and
//! offers get/set/delete/membership/listing through CRUD handles. The laws
//! that tie these operations together are proved in [`laws`].

use vstd::prelude::*;

pub mod host;
pub mod keyed;
pub mod kv;
pub mod laws;
pub mod table;

verus! {

} // verus!
