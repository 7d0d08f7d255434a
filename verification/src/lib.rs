//! Incremental construction of values whose types are known only through reflection.
//!
//! A [`partial::Partial`] keeps a stack of frames, each of which knows which parts of its value are
//! initialized. Fields are entered, set and ended; in deferred mode frames can be left unfinished
//! and entered again. Every operation on memory goes to a [`memory::Host`], and contracts say
//! exactly which operations those are.
pub mod absorb;
pub mod accounting;
pub mod attach;
pub mod authority;
pub mod balance;
pub mod cancel;
pub mod cow;
pub mod cow_laws;
pub mod defaults;
pub mod deferred;
pub mod dropping;
pub mod drops;
pub mod end;
pub mod ending;
pub mod entering;
pub mod error;
pub mod fields;
pub mod fill;
pub mod finish;
pub mod frame;
pub mod inspect;
pub mod iset;
pub mod laws;
pub mod memory;
pub mod moves;
pub mod net;
pub mod order;
pub mod partial;
pub mod path;
pub mod plan;
pub mod pointer;
pub mod pool;
pub mod reentry;
pub mod refusals;
pub mod remnants;
pub mod rope;
pub mod routes;
pub mod settling;
pub mod shape;
pub mod smart_ptr;
pub mod stored;
pub mod takeover;
pub mod terms;
pub mod tracker;
pub mod validation;
