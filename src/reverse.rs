use vstd::prelude::*;
use vstd::string::{StrSliceExecFns, StringExecFns};

verus! {

/// The characters of `s` in reverse order.
pub fn reverse_string(s: &str) -> (r: String)
    ensures
        r@.len() == s@.len(),
        forall|i: int| 0 <= i < s@.len() ==> #[trigger] r@[i] == s@[s@.len() - 1 - i],
{
    let n = s.unicode_len();
    let mut r = String::new();
    let mut i: usize = n;
    while i > 0
        invariant
            n == s@.len(),
            i <= n,
            r@.len() == n - i,
            forall|k: int| 0 <= k < n - i ==> #[trigger] r@[k] == s@[n - 1 - k],
        decreases i,
    {
        let ghost before = r@;
        r.append(s.substring_char(i - 1, i));
        assert(r@[n - i] == s@[i - 1]);
        assert forall|k: int| 0 <= k < n - i implies #[trigger] r@[k] == before[k] by {}
        i = i - 1;
    }
    r
}

} // verus!
