//! The callback bridge: wraps a caller-supplied comparison capability and a
//! stable display name into a handle the engine owns.
//!
//! The engine is the sole holder of a handle. It may invoke the comparison
//! and name entry points at any time, from any thread, and it releases the
//! handle by calling `destroy` exactly once; `destroy` consumes the handle,
//! so no entry point can be reached afterwards, and the wrapped capability
//! is released with it.

use vstd::prelude::*;

use crate::comparator::TimestampAwareComparator;
use crate::comparator::full_cmp;
use crate::comparator::strip_ts;

verus! {

/// A display name the engine can hold across its boundary: non-empty and
/// free of NUL bytes, so it survives conversion to a C string unchanged.
pub open spec fn valid_name(name: Seq<u8>) -> bool {
    name.len() > 0 && (forall|i: int| 0 <= i < name.len() ==> name[i] != 0)
}

/// Why a registration was refused.
#[derive(Debug, Clone, Copy, PartialEq, Eq)]
pub enum ComparatorError {
    /// The display name is empty or holds a NUL byte, so it cannot serve
    /// as a boundary-stable identifier.
    InvalidName,
}

/// True exactly when `name` can serve as a registered display name.
pub fn is_valid_comparator_name(name: &[u8]) -> (ok: bool)
    ensures
        ok == valid_name(name@),
{
    if name.len() == 0 {
        return false;
    }
    let mut i: usize = 0;
    while i < name.len()
        invariant
            0 <= i <= name@.len(),
            forall|j: int| 0 <= j < i ==> name@[j] != 0,
        decreases name@.len() - i,
    {
        if name[i] == 0 {
            return false;
        }
        i = i + 1;
    }
    true
}

/// A plain (non-timestamp-aware) comparison capability behind the bridge:
/// the registered display name and the caller's comparison function, owned
/// by the handle from the moment of creation.
pub struct ComparatorCallback<F> where F: Fn(&[u8], &[u8]) -> i32 {
    name: Vec<u8>,
    compare_fn: F,
}

/// Wraps `compare_fn` under `name` into an engine-ownable handle. Succeeds
/// exactly when the name is a usable display name; the handle then stores
/// the name bytes and the capability unchanged.
pub fn create_comparator<F: Fn(&[u8], &[u8]) -> i32>(name: Vec<u8>, compare_fn: F) -> (r: Result<
    ComparatorCallback<F>,
    ComparatorError,
>)
    ensures
        r is Ok <==> valid_name(name@),
        r is Ok ==> (r->Ok_0.name_spec() == name@ && r->Ok_0.compare_fn_spec() == compare_fn),
        r is Err ==> r->Err_0 == ComparatorError::InvalidName,
{
    if is_valid_comparator_name(name.as_slice()) {
        Ok(ComparatorCallback { name, compare_fn })
    } else {
        Err(ComparatorError::InvalidName)
    }
}

impl<F: Fn(&[u8], &[u8]) -> i32> ComparatorCallback<F> {
    /// The registered display name, as the contracts see it.
    pub closed spec fn name_spec(&self) -> Seq<u8> {
        self.name@
    }

    /// The wrapped comparison function, as the contracts see it.
    pub closed spec fn compare_fn_spec(&self) -> F {
        self.compare_fn
    }

    #[verifier::type_invariant]
    spec fn wf(&self) -> bool {
        valid_name(self.name@)
    }

    /// The registered display name: exactly the bytes stored at creation,
    /// valid and unchanged for the handle's whole lifetime. Reads only;
    /// callable at any time, also between in-flight comparisons.
    pub fn get_name(&self) -> (r: &Vec<u8>)
        ensures
            r@ == self.name_spec(),
            valid_name(r@),
    {
        proof {
            use_type_invariant(self);
        }
        &self.name
    }

    /// Orders two keys by delegating to the wrapped comparison function;
    /// the bridge itself mutates nothing.
    pub fn compare(&self, a: &[u8], b: &[u8]) -> (r: i32)
        requires
            call_requires(self.compare_fn_spec(), (a, b)),
        ensures
            call_ensures(self.compare_fn_spec(), (a, b), r),
    {
        (self.compare_fn)(a, b)
    }

    /// Releases the handle and the capability it owns. The engine, as sole
    /// owner, calls this exactly once and never touches the handle again;
    /// consuming `self` makes any later entry impossible.
    pub fn destroy(self) {
    }
}

/// An engine-owned registration of a timestamp-aware comparator: the
/// display name, the configured timestamp width, and the comparator
/// itself. The width always matches the comparator's, and the name is
/// always a valid display name.
pub struct ComparatorRAIIWrapper<C: TimestampAwareComparator> {
    name: Vec<u8>,
    timestamp_width: usize,
    comparator: C,
}

/// Registers `comparator` under `comparator_name` with timestamp width
/// `ts_sz`. Succeeds exactly when the name is a usable display name; the
/// handle then holds the name bytes, the width and the comparator
/// unchanged.
pub fn new_timestamp_aware_comparator<C: TimestampAwareComparator>(
    comparator_name: Vec<u8>,
    ts_sz: usize,
    comparator: C,
) -> (r: Result<ComparatorRAIIWrapper<C>, ComparatorError>)
    requires
        ts_sz as int == comparator.ts_width(),
    ensures
        r is Ok <==> valid_name(comparator_name@),
        r is Ok ==> (r->Ok_0.name_spec() == comparator_name@ && r->Ok_0.comparator_spec()
            == comparator && r->Ok_0.width_spec() == ts_sz as int),
        r is Err ==> r->Err_0 == ComparatorError::InvalidName,
{
    if is_valid_comparator_name(comparator_name.as_slice()) {
        Ok(
            ComparatorRAIIWrapper {
                name: comparator_name,
                timestamp_width: ts_sz,
                comparator,
            },
        )
    } else {
        Err(ComparatorError::InvalidName)
    }
}

impl<C: TimestampAwareComparator> ComparatorRAIIWrapper<C> {
    /// The registered display name, as the contracts see it.
    pub closed spec fn name_spec(&self) -> Seq<u8> {
        self.name@
    }

    /// The registered comparator, as the contracts see it.
    pub closed spec fn comparator_spec(&self) -> C {
        self.comparator
    }

    /// The registered timestamp width, as the contracts see it.
    pub closed spec fn width_spec(&self) -> int {
        self.timestamp_width as int
    }

    #[verifier::type_invariant]
    spec fn wf(&self) -> bool {
        valid_name(self.name@) && self.timestamp_width as int == self.comparator.ts_width()
    }

    /// The registered display name: exactly the bytes given at creation,
    /// valid and unchanged for the handle's whole lifetime. Reads only;
    /// callable at any time, also between in-flight comparisons.
    pub fn get_name(&self) -> (r: &Vec<u8>)
        ensures
            r@ == self.name_spec(),
            valid_name(r@),
    {
        proof {
            use_type_invariant(self);
        }
        &self.name
    }

    /// The timestamp width this registration hands to the engine: always
    /// the wrapped comparator's own width.
    pub fn timestamp_width(&self) -> (w: usize)
        ensures
            w as int == self.comparator_spec().ts_width(),
            w as int == self.width_spec(),
    {
        proof {
            use_type_invariant(self);
        }
        self.timestamp_width
    }

    /// Entry point for the engine's full-key comparisons: delegates to the
    /// wrapped comparator's `compare`.
    pub fn compare(&self, a: &[u8], b: &[u8]) -> (r: i32)
        requires
            a@.len() > self.comparator_spec().ts_width(),
            b@.len() > self.comparator_spec().ts_width(),
        ensures
            r as int == full_cmp(&self.comparator_spec(), a@, b@),
    {
        self.comparator.compare(a, b)
    }

    /// Entry point for the engine's timestamp-only comparisons.
    pub fn compare_timestamp(&self, a: &[u8], b: &[u8]) -> (r: i32)
        ensures
            r as int == self.comparator_spec().ts_cmp(a@, b@),
    {
        self.comparator.compare_timestamp(a, b)
    }

    /// Entry point for the engine's raw-key comparisons.
    pub fn compare_without_timestamp(&self, a: &[u8], a_has_ts: bool, b: &[u8], b_has_ts: bool) -> (
        r: i32)
        requires
            a_has_ts ==> a@.len() > self.comparator_spec().ts_width(),
            b_has_ts ==> b@.len() > self.comparator_spec().ts_width(),
        ensures
            r as int == self.comparator_spec().raw_cmp(
                if a_has_ts { strip_ts(a@, self.comparator_spec().ts_width()) } else { a@ },
                if b_has_ts { strip_ts(b@, self.comparator_spec().ts_width()) } else { b@ },
            ),
    {
        self.comparator.compare_without_timestamp(a, a_has_ts, b, b_has_ts)
    }

    /// Releases the registration and everything it owns: the name bytes
    /// and the wrapped comparator. The engine, as sole owner, calls this
    /// exactly once, after it has guaranteed that no other entry point is
    /// or will be invoked; consuming `self` makes any later entry
    /// impossible.
    pub fn destroy(self) {
    }
}

} // verus!
