//! A pluggable key-ordering extension for a sorted key-value store.
//!
//! The library has two cooperating pieces:
//!
//! - a *callback bridge* that wraps a caller-supplied comparison capability
//!   (a comparison function, or a timestamp-aware comparator) together with a
//!   stable display name into an engine-owned handle with a small set of
//!   entry points (`get_name`, `compare`, `destroy`);
//! - the *timestamp-aware comparison protocol*: three operations
//!   (`compare`, `compare_timestamp`, `compare_without_timestamp`) that keep a
//!   total order over keys of the form `raw_key || timestamp`, ordering raw
//!   keys ascending and, for equal raw keys, timestamps descending so that the
//!   newest version of a key sorts first.
//!
//! `store` holds a small in-memory multi-version store that orders its
//! records through the protocol, exercising the multi-version read and
//! iteration semantics the ordering exists to support.

pub mod bridge;
pub mod comparator;
pub mod ordering;
pub mod store;
