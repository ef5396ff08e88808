//! Small helpers: rotating a buffer in place.

use vstd::prelude::*;

verus! {

/// Rotates `v` left by `idx` places: the first `idx` elements move to
/// the back, everything else slides to the front. `idx` at either end
/// leaves the buffer as it is.
#[verifier::loop_isolation(false)]
pub fn swap_at<T>(v: &mut Vec<T>, idx: usize)
    requires
        idx <= old(v)@.len(),
    ensures
        final(v)@ == old(v)@.skip(idx as int) + old(v)@.take(idx as int),
{
    if idx == 0 || idx == v.len() {
        proof {
            if idx == 0 {
                assert(old(v)@.skip(0) + old(v)@.take(0) =~= old(v)@);
            } else {
                assert(old(v)@.skip(idx as int) + old(v)@.take(idx as int) =~= old(v)@);
            }
        }
        return;
    }
    for k in 0..idx
        invariant
            idx <= old(v)@.len(),
            v@.len() == old(v)@.len(),
            v@ == old(v)@.skip(k as int) + old(v)@.take(k as int),
        decreases idx - k,
    {
        let ghost before = v@;
        let first = v.remove(0);
        v.push(first);
        proof {
            assert(v@ =~= before.skip(1) + before.take(1));
            assert(v@ =~= old(v)@.skip(k as int + 1) + old(v)@.take(k as int + 1));
        }
    }
}

} // verus!
