//! Server/client hydration continuity for a reactive UI runtime: a stable
//! structural key allocator, the textual marker format embedded in rendered
//! HTML, the client-side marker index and hydration-mode detector, a suspense
//! boundary's pending-resource counters, and the ordered streaming pipeline
//! that flattens a tree of synchronous and asynchronous HTML chunks.

pub mod key;
pub mod markers;
pub mod index;
pub mod suspense;
pub mod stream;
