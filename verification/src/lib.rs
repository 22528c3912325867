//! An in-process incremental relational-view engine: presence-counted
//! multimaps as base relations, with filter, join and group-by views that
//! stay consistent as the base data changes, and an ordered multi-subscriber
//! notification substrate underneath.

pub mod message_listeners;
pub mod message_listeners2;
pub mod minimal_code;
pub mod multi_set;
pub mod laws;
pub mod legacy;
pub mod queryable_streaming_multi_map;
pub mod rc_borrow;

use vstd::prelude::*;

verus! {

/// Equality on `T` through `==` in executable code agrees with spec-level
/// (structural) equality. Container operations that compare keys or values
/// need this to relate what the code compares to the mathematical model.
pub open spec fn eq_exact<T: PartialEq>() -> bool {
    &&& <T as vstd::std_specs::cmp::PartialEqSpec>::obeys_eq_spec()
    &&& forall|a: T, b: T|
        #[trigger] <T as vstd::std_specs::cmp::PartialEqSpec>::eq_spec(&a, &b) <==> a == b
}

/// The equality premise is satisfiable — plain integers meet it — so the
/// contracts conditioned on it are not vacuous.
pub proof fn lemma_u64_eq_exact()
    ensures
        eq_exact::<u64>(),
{
}

} // verus!
