use vstd::prelude::*;

verus! {

/// The unrolled form of a twenty-element zero array, written out element by
/// element; the single assertion checks the shape survived the unrolling.
pub fn x() {
    let zeros: [u64; 20] = [
        0,
        0,
        0,
        0,
        0,
        0,
        0,
        0,
        0,
        0,
        0,
        0,
        0,
        0,
        0,
        0,
        0,
        0,
        0,
        0,
    ];
    proof {
        assert(zeros@.len() == 20);
        assert(forall|i: int| 0 <= i < 20 ==> zeros@[i] == 0);
    }
    let _ = zeros;
}

} // verus!
