//! A minimal single-threaded cooperative task executor, together with a few
//! small verified companions: a monoid algebra, Peano numerals, heterogeneous
//! compile-time lists, byte-string slices, and `Result` helpers.
//!
//! The executor runs many independently suspendable tasks to completion on one
//! thread with an explicit poll/wake protocol: a handle-indexed task store, a
//! wake signal that records its handle into a shared ready set, and a run loop
//! that drains the ready set and re-polls exactly the tasks that asked for it.

pub mod handle;
pub mod monoid;
pub mod peano;
pub mod ready;
pub mod results;
pub mod runtime;
pub mod tasks;
pub mod timing;
pub mod typelist;
pub mod waker;
pub mod xstr;
