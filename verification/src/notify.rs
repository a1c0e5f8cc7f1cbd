//! The notification decision for a cycle report: whether the configured
//! mode asks for a notification about the number of files just processed.

use vstd::prelude::*;
use vstd::string::StrSliceExecFns;

verus! {

/// Whether a report of `moved_count` processed files should be announced
/// under `mode`: never under `none`, only for a positive count under
/// `onSuccess`, and always otherwise (`always` included).
pub open spec fn notify_decision(mode: Seq<char>, moved_count: i8) -> bool {
    !(mode == "none"@ || (mode == "onSuccess"@ && moved_count == 0))
}

fn str_eq(a: &str, b: &str) -> (r: bool)
    ensures
        r == (a@ == b@),
{
    let n = a.unicode_len();
    if n != b.unicode_len() {
        proof {
            assert(a@ != b@);
        }
        return false;
    }
    let mut i: usize = 0;
    while i < n
        invariant
            i <= n,
            n == a@.len() && n == b@.len(),
            forall|j: int| 0 <= j < i ==> a@[j] == b@[j],
        decreases n - i,
    {
        if a.get_char(i) != b.get_char(i) {
            proof {
                assert(a@[i as int] != b@[i as int]);
            }
            return false;
        }
        i += 1;
    }
    proof {
        assert(a@ =~= b@);
    }
    true
}

/// Decide whether to announce a cycle that processed `moved_count` files,
/// under the given notification mode.
pub fn should_notify(mode: &str, moved_count: i8) -> (r: bool)
    ensures
        r == notify_decision(mode@, moved_count),
{
    if str_eq(mode, "none") {
        false
    } else if str_eq(mode, "onSuccess") && moved_count == 0 {
        false
    } else {
        true
    }
}

} // verus!
