//! Runs: the longest prefix of a sequence whose characters all belong to one class.

use vstd::prelude::*;
use crate::chars::CharClass;

verus! {

/// The length of the longest prefix of `s` that holds only characters of `class`.
pub open spec fn run_len(s: Seq<char>, class: CharClass) -> nat
    decreases s.len(),
{
    if s.len() > 0 && class.contains(s[0]) {
        1 + run_len(s.drop_first(), class)
    } else {
        0
    }
}

/// Whether every character of `s` belongs to `class`.
pub open spec fn all_in(s: Seq<char>, class: CharClass) -> bool {
    forall|i: int| 0 <= i < s.len() ==> class.contains(#[trigger] s[i])
}

/// A run is a prefix, holds only characters of the class, and stops at the first
/// character outside it.
pub proof fn lemma_run_len(s: Seq<char>, class: CharClass)
    ensures
        run_len(s, class) <= s.len(),
        all_in(s.take(run_len(s, class) as int), class),
        run_len(s, class) < s.len() ==> !class.contains(s[run_len(s, class) as int]),
    decreases s.len(),
{
    if s.len() > 0 && class.contains(s[0]) {
        let rest = s.drop_first();
        lemma_run_len(rest, class);
        let n = run_len(s, class) as int;
        assert forall|i: int| 0 <= i < n implies class.contains(#[trigger] s.take(n)[i]) by {
            if i > 0 {
                assert(s.take(n)[i] == rest.take(n - 1)[i - 1]);
            }
        }
    }
}

/// The run is the only prefix that holds only characters of the class and cannot
/// be made longer.
pub proof fn lemma_run_len_is(s: Seq<char>, class: CharClass, n: int)
    requires
        0 <= n <= s.len(),
        all_in(s.take(n), class),
        n < s.len() ==> !class.contains(s[n]),
    ensures
        run_len(s, class) == n,
    decreases s.len(),
{
    if n > 0 {
        assert(s.take(n)[0] == s[0]);
        let rest = s.drop_first();
        assert forall|i: int| 0 <= i < n - 1 implies class.contains(
            #[trigger] rest.take(n - 1)[i],
        ) by {
            assert(rest.take(n - 1)[i] == s.take(n)[i + 1]);
        }
        lemma_run_len_is(rest, class, n - 1);
    }
}

/// Runs from `from` over the characters of `class`, and stops before `to`.
pub fn scan(chars: &Vec<char>, from: usize, to: usize, class: CharClass) -> (end: usize)
    requires
        from <= to <= chars.len(),
    ensures
        from <= end <= to,
        end - from == run_len(chars@.subrange(from as int, to as int), class),
{
    let mut end: usize = from;
    while end < to && class.has(chars[end])
        invariant
            from <= end <= to <= chars.len(),
            all_in(chars@.subrange(from as int, end as int), class),
        decreases to - end,
    {
        end += 1;
    }
    proof {
        let s = chars@.subrange(from as int, to as int);
        assert(s.take(end - from) =~= chars@.subrange(from as int, end as int));
        lemma_run_len_is(s, class, end - from);
    }
    end
}

} // verus!
