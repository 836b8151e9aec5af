use vstd::prelude::*;

verus! {

/// Number of prefix bytes sampled when deciding whether file content is binary.
pub const SNIFF_LIMIT: usize = 1024;

/// Length of the sampled prefix: the whole content when it is shorter than the
/// sampling bound, the bound otherwise.
pub open spec fn sniff_len(data: Seq<u8>) -> int {
    if data.len() <= SNIFF_LIMIT as int {
        data.len() as int
    } else {
        SNIFF_LIMIT as int
    }
}

/// Content counts as binary exactly when the sampled prefix holds a NUL byte.
/// Empty content is never binary.
pub open spec fn is_binary_spec(data: Seq<u8>) -> bool {
    exists|i: int| 0 <= i < sniff_len(data) && data[i] == 0u8
}

/// Decides whether file content is binary by scanning its sampled prefix for a
/// NUL byte.
pub fn is_binary_content(data: &Vec<u8>) -> (r: bool)
    ensures
        r == is_binary_spec(data@),
{
    let limit: usize = if data.len() < SNIFF_LIMIT {
        data.len()
    } else {
        SNIFF_LIMIT
    };
    let mut i: usize = 0;
    while i < limit
        invariant
            i <= limit,
            limit as int == sniff_len(data@),
            limit <= data.len(),
            forall|j: int| 0 <= j < i ==> data@[j] != 0u8,
        decreases limit - i,
    {
        if data[i] == 0 {
            return true;
        }
        i += 1;
    }
    false
}

} // verus!
