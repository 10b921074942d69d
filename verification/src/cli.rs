//! Values that go through tmux.

use vstd::prelude::*;

use crate::text::chars_of;

verus! {

/// A value as tmux options keep it: the separators of the fields and rows of a
/// listing are spaces in it.
pub open spec fn sanitized(value: Seq<char>) -> Seq<char> {
    value.map_values(
        |ch: char|
            if ch == '|' || ch == '\n' {
                ' '
            } else {
                ch
            },
    )
}

/// A value as tmux options keep it.
pub fn sanitize_tmux_value(value: &str) -> (kept: String)
    ensures
        kept@ == sanitized(value@),
{
    let chars = chars_of(value);
    let mut kept = String::new();
    let mut i: usize = 0;
    while i < chars.len()
        invariant
            i <= chars@.len(),
            chars@ == value@,
            kept@ == sanitized(value@).take(i as int),
        decreases chars@.len() - i,
    {
        let ch = chars[i];
        if ch == '|' || ch == '\n' {
            kept.push(' ');
        } else {
            kept.push(ch);
        }
        i = i + 1;
        proof {
            assert(sanitized(value@).take(i as int) =~= sanitized(value@).take(i - 1).push(
                sanitized(value@)[i - 1],
            ));
        }
    }
    proof {
        assert(sanitized(value@).take(i as int) =~= sanitized(value@));
    }
    kept
}

/// A value that was kept once is kept as it is.
pub proof fn sanitized_twice(value: Seq<char>)
    ensures
        sanitized(sanitized(value)) == sanitized(value),
{
    assert(sanitized(sanitized(value)) =~= sanitized(value));
}

/// What is stored in an option keeps every character but those that would break its line
/// or its fields: in their places stand blanks.
pub proof fn only_separators_are_lost(value: Seq<char>, i: int)
    requires
        0 <= i < value.len(),
    ensures
        sanitized(value).len() == value.len(),
        sanitized(value)[i] != '|' && sanitized(value)[i] != '\n',
        value[i] == '|' || value[i] == '\n' ==> sanitized(value)[i] == ' ',
        value[i] != '|' && value[i] != '\n' ==> sanitized(value)[i] == value[i],
{
}

} // verus!
