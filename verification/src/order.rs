//! The lexicographic order of texts.

use vstd::prelude::*;

use crate::text::chars_of;

verus! {

/// Whether `left` and `right` agree before index `at` and `left` is the lesser
/// from there on: it ends there, or holds the lesser character.
pub open spec fn lesser_at(left: Seq<char>, right: Seq<char>, at: int) -> bool {
    &&& 0 <= at <= left.len()
    &&& at < right.len()
    &&& forall|i: int| 0 <= i < at ==> #[trigger] left[i] == right[i]
    &&& at == left.len() || left[at] < right[at]
}

/// Whether `left` comes before `right`.
pub open spec fn precedes(left: Seq<char>, right: Seq<char>) -> bool {
    exists|at: int| lesser_at(left, right, at)
}

/// No text comes before itself.
pub proof fn precedes_irreflexive(text: Seq<char>)
    ensures
        !precedes(text, text),
{
}

/// The order is transitive.
pub proof fn precedes_transitive(a: Seq<char>, b: Seq<char>, c: Seq<char>)
    requires
        precedes(a, b),
        precedes(b, c),
    ensures
        precedes(a, c),
{
    let i = choose|at: int| lesser_at(a, b, at);
    let j = choose|at: int| lesser_at(b, c, at);
    if i < j {
        assert(b[i] == c[i]);
        assert(lesser_at(a, c, i));
    } else {
        assert forall|k: int| 0 <= k < j implies #[trigger] a[k] == c[k] by {
            assert(a[k] == b[k]);
            assert(b[k] == c[k]);
        }
        assert(lesser_at(a, c, j));
    }
}

/// Of two texts at most one comes before the other.
pub proof fn precedes_asymmetric(a: Seq<char>, b: Seq<char>)
    requires
        precedes(a, b),
    ensures
        !precedes(b, a),
{
    if precedes(b, a) {
        precedes_transitive(a, b, a);
        precedes_irreflexive(a);
    }
}

/// Of two different texts one comes before the other.
pub proof fn precedes_total(a: Seq<char>, b: Seq<char>)
    ensures
        a == b || precedes(a, b) || precedes(b, a),
{
    first_difference(a, b, 0);
}

proof fn first_difference(a: Seq<char>, b: Seq<char>, from: int)
    requires
        0 <= from <= a.len(),
        from <= b.len(),
        forall|i: int| 0 <= i < from ==> #[trigger] a[i] == b[i],
    ensures
        a == b || precedes(a, b) || precedes(b, a),
    decreases a.len() - from,
{
    if from == a.len() && from == b.len() {
        assert(a =~= b);
    } else if from == a.len() {
        assert(lesser_at(a, b, from));
    } else if from == b.len() {
        assert(lesser_at(b, a, from));
    } else if a[from] == b[from] {
        first_difference(a, b, from + 1);
    } else if a[from] < b[from] {
        assert(lesser_at(a, b, from));
    } else {
        assert(lesser_at(b, a, from));
    }
}

/// Whether `left` comes before `right`.
pub fn less(left: &str, right: &str) -> (yes: bool)
    ensures
        yes == precedes(left@, right@),
{
    let a = chars_of(left);
    let b = chars_of(right);
    let mut i: usize = 0;
    while i < a.len() && i < b.len()
        invariant
            i <= a@.len(),
            i <= b@.len(),
            a@ == left@,
            b@ == right@,
            forall|j: int| 0 <= j < i ==> #[trigger] left@[j] == right@[j],
        decreases a.len() - i,
    {
        if a[i] < b[i] {
            proof {
                assert(lesser_at(left@, right@, i as int));
            }
            return true;
        }
        if b[i] < a[i] {
            proof {
                assert(lesser_at(right@, left@, i as int));
                precedes_asymmetric(right@, left@);
            }
            return false;
        }
        i = i + 1;
    }
    if i < b.len() {
        proof {
            assert(lesser_at(left@, right@, i as int));
        }
        true
    } else {
        proof {
            if i < a@.len() {
                assert(lesser_at(right@, left@, i as int));
                precedes_asymmetric(right@, left@);
            } else {
                assert(left@ =~= right@);
            }
        }
        false
    }
}

/// The first character in which two texts differ decides, the lesser one first; of two
/// texts of which one leads the other, the shorter comes first.
pub proof fn the_first_difference_decides(
    start: Seq<char>,
    low: char,
    high: char,
    left: Seq<char>,
    right: Seq<char>,
)
    requires
        low < high,
    ensures
        precedes(start.push(low) + left, start.push(high) + right),
        precedes(start, start.push(low) + left),
{
    let at = start.len() as int;
    assert(lesser_at(start.push(low) + left, start.push(high) + right, at));
    assert(lesser_at(start, start.push(low) + left, at));
}

} // verus!
