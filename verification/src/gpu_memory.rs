//! Choice of a GPU memory type for an allocation.
use vstd::prelude::*;

verus! {

/// Memory type `i`, whose property flags are `flags`, is allowed by
/// `type_filter` and has every flag of `required`.
pub open spec fn memory_type_suits(type_filter: u32, i: u32, flags: u32, required: u32) -> bool {
    &&& (type_filter & (1u32 << i)) != 0
    &&& (flags & required) == required
}

/// The first memory type that `type_filter` allows and that has all of
/// `property_flags`. `memory_type_flags` holds the property flags of the
/// device's memory types, in order (a device has at most 32).
pub fn get_memory_type_index(memory_type_flags: &[u32], type_filter: u32, property_flags: u32) -> (r: Option<u32>)
    requires
        memory_type_flags@.len() <= 32,
    ensures
        match r {
            Some(i) => i < memory_type_flags@.len() && memory_type_suits(
                type_filter,
                i,
                memory_type_flags@[i as int],
                property_flags,
            ) && forall|j: u32| j < i ==> !memory_type_suits(type_filter, j, #[trigger] memory_type_flags@[j as int], property_flags),
            None => forall|j: u32| j < memory_type_flags@.len() ==> !memory_type_suits(
                type_filter,
                j,
                #[trigger] memory_type_flags@[j as int],
                property_flags,
            ),
        },
{
    let count = memory_type_flags.len() as u32;
    let mut i: u32 = 0;
    while i < count
        invariant
            count == memory_type_flags@.len(),
            count <= 32,
            i <= count,
            forall|j: u32| j < i ==> !memory_type_suits(type_filter, j, #[trigger] memory_type_flags@[j as int], property_flags),
        decreases count - i,
    {
        let flags = memory_type_flags[i as usize];
        if (type_filter & (1u32 << i)) != 0 && (flags & property_flags) == property_flags {
            return Some(i);
        }
        i = i + 1;
    }
    None
}

} // verus!
