//! Character classes, trimming, searching and cutting.

use vstd::prelude::*;

use crate::text::{chars_of, text_of};

verus! {

/// The characters of the Unicode property `White_Space`.
pub open spec fn is_space(ch: char) -> bool {
    let code = ch as u32;
    ||| 0x09 <= code <= 0x0D
    ||| code == 0x20
    ||| code == 0x85
    ||| code == 0xA0
    ||| code == 0x1680
    ||| 0x2000 <= code <= 0x200A
    ||| code == 0x2028
    ||| code == 0x2029
    ||| code == 0x202F
    ||| code == 0x205F
    ||| code == 0x3000
}

/// Whether a character is white space.
pub fn space(ch: char) -> (yes: bool)
    ensures
        yes == is_space(ch),
{
    let code: u32 = ch as u32;
    (0x09 <= code && code <= 0x0D) || code == 0x20 || code == 0x85 || code == 0xA0 || code == 0x1680
        || (0x2000 <= code && code <= 0x200A) || code == 0x2028 || code == 0x2029 || code == 0x202F
        || code == 0x205F || code == 0x3000
}

/// The characters of the Unicode category `Cc`.
pub open spec fn is_control(ch: char) -> bool {
    let code = ch as u32;
    code <= 0x1F || 0x7F <= code <= 0x9F
}

/// Whether a character is a control character.
pub fn control(ch: char) -> (yes: bool)
    ensures
        yes == is_control(ch),
{
    let code: u32 = ch as u32;
    code <= 0x1F || (0x7F <= code && code <= 0x9F)
}

/// Whether a text holds a control character.
pub open spec fn has_control(text: Seq<char>) -> bool {
    exists|i: int| 0 <= i < text.len() && is_control(#[trigger] text[i])
}

/// Whether a text holds a control character.
pub fn any_control(text: &str) -> (yes: bool)
    ensures
        yes == has_control(text@),
{
    let chars = chars_of(text);
    let mut i: usize = 0;
    while i < chars.len()
        invariant
            i <= chars.len(),
            chars@ == text@,
            forall|j: int| 0 <= j < i ==> !is_control(#[trigger] text@[j]),
        decreases chars.len() - i,
    {
        if control(chars[i]) {
            return true;
        }
        i = i + 1;
    }
    false
}

/// A text without the white space it starts with.
pub open spec fn trim_start_of(text: Seq<char>) -> Seq<char>
    decreases text.len(),
{
    if text.len() > 0 && is_space(text[0]) {
        trim_start_of(text.drop_first())
    } else {
        text
    }
}

/// A text without the white space it ends with.
pub open spec fn trim_end_of(text: Seq<char>) -> Seq<char>
    decreases text.len(),
{
    if text.len() > 0 && is_space(text.last()) {
        trim_end_of(text.drop_last())
    } else {
        text
    }
}

/// A text without the white space at either end.
pub open spec fn trim_of(text: Seq<char>) -> Seq<char> {
    trim_end_of(trim_start_of(text))
}

/// The bounds of `chars[from..to]` once its outer white space is gone.
fn trim_bounds(chars: &[char], from: usize, to: usize) -> (bounds: (usize, usize))
    requires
        from <= to <= chars@.len(),
    ensures
        from <= bounds.0 <= bounds.1 <= to,
        chars@.subrange(bounds.0 as int, bounds.1 as int) == trim_of(
            chars@.subrange(from as int, to as int),
        ),
{
    let mut start: usize = from;
    while start < to && space(chars[start])
        invariant
            from <= start <= to <= chars@.len(),
            trim_start_of(chars@.subrange(start as int, to as int)) == trim_start_of(
                chars@.subrange(from as int, to as int),
            ),
        decreases to - start,
    {
        proof {
            assert(chars@.subrange(start as int, to as int).drop_first() =~= chars@.subrange(
                start + 1,
                to as int,
            ));
        }
        start = start + 1;
    }
    let ghost middle = chars@.subrange(start as int, to as int);
    proof {
        assert(trim_start_of(middle) == middle);
    }
    let mut end: usize = to;
    while end > start && space(chars[end - 1])
        invariant
            from <= start <= end <= to <= chars@.len(),
            trim_end_of(chars@.subrange(start as int, end as int)) == trim_end_of(middle),
        decreases end - start,
    {
        proof {
            assert(chars@.subrange(start as int, end as int).drop_last() =~= chars@.subrange(
                start as int,
                end - 1,
            ));
        }
        end = end - 1;
    }
    (start, end)
}

/// A text without the white space at either end.
pub fn trim(text: &str) -> (trimmed: String)
    ensures
        trimmed@ == trim_of(text@),
{
    let chars = chars_of(text);
    let (start, end) = trim_bounds(chars.as_slice(), 0, chars.len());
    proof {
        assert(chars@.subrange(0, chars@.len() as int) =~= text@);
    }
    text_of(chars.as_slice(), start, end)
}

/// Whether `pattern` stands at index `at` of `text`.
pub open spec fn stands_at<T>(text: Seq<T>, pattern: Seq<T>, at: int) -> bool {
    0 <= at && at + pattern.len() <= text.len() && text.subrange(at, at + pattern.len()) == pattern
}

/// Whether `pattern` stands at index `at`.
pub fn chars_at(text: &[char], pattern: &[char], at: usize) -> (yes: bool)
    requires
        at <= text@.len(),
    ensures
        yes == stands_at(text@, pattern@, at as int),
{
    if pattern.len() > text.len() - at {
        return false;
    }
    let mut i: usize = 0;
    while i < pattern.len()
        invariant
            i <= pattern@.len(),
            at + pattern@.len() <= text.len(),
            forall|j: int| 0 <= j < i ==> #[trigger] pattern@[j] == text@[at + j],
        decreases pattern@.len() - i,
    {
        if text[at + i] != pattern[i] {
            proof {
                let sub = text@.subrange(at as int, at + pattern@.len());
                assert(sub[i as int] == text@[at + i]);
            }
            return false;
        }
        i = i + 1;
    }
    proof {
        assert(text@.subrange(at as int, at + pattern@.len()) =~= pattern@);
    }
    true
}

/// Whether `pattern` stands at index `at` of a byte string.
pub fn bytes_at(text: &[u8], pattern: &[u8], at: usize) -> (yes: bool)
    requires
        at <= text@.len(),
    ensures
        yes == stands_at(text@, pattern@, at as int),
{
    if pattern.len() > text.len() - at {
        return false;
    }
    let mut i: usize = 0;
    while i < pattern.len()
        invariant
            i <= pattern@.len(),
            at + pattern@.len() <= text.len(),
            forall|j: int| 0 <= j < i ==> #[trigger] pattern@[j] == text@[at + j],
        decreases pattern@.len() - i,
    {
        if text[at + i] != pattern[i] {
            proof {
                let sub = text@.subrange(at as int, at + pattern@.len());
                assert(sub[i as int] == text@[at + i]);
            }
            return false;
        }
        i = i + 1;
    }
    proof {
        assert(text@.subrange(at as int, at + pattern@.len()) =~= pattern@);
    }
    true
}

/// Whether `text` starts with `prefix`.
pub open spec fn starts<T>(text: Seq<T>, prefix: Seq<T>) -> bool {
    stands_at(text, prefix, 0)
}

/// Whether `text` ends with `suffix`.
pub open spec fn ends<T>(text: Seq<T>, suffix: Seq<T>) -> bool {
    stands_at(text, suffix, text.len() - suffix.len())
}

/// Whether `text` starts with `prefix`.
pub fn starts_with(text: &str, prefix: &str) -> (yes: bool)
    ensures
        yes == starts(text@, prefix@),
{
    let chars = chars_of(text);
    let pattern = chars_of(prefix);
    chars_at(chars.as_slice(), pattern.as_slice(), 0)
}

/// Whether `text` ends with `suffix`.
pub fn ends_with(text: &str, suffix: &str) -> (yes: bool)
    ensures
        yes == ends(text@, suffix@),
{
    let chars = chars_of(text);
    let pattern = chars_of(suffix);
    if pattern.len() > chars.len() {
        return false;
    }
    let at: usize = chars.len() - pattern.len();
    chars_at(chars.as_slice(), pattern.as_slice(), at)
}

/// What follows `prefix`, where `text` starts with it.
pub open spec fn after_prefix(text: Seq<char>, prefix: Seq<char>) -> Option<Seq<char>> {
    if starts(text, prefix) {
        Some(text.skip(prefix.len() as int))
    } else {
        None
    }
}

/// What precedes `suffix`, where `text` ends with it.
pub open spec fn before_suffix(text: Seq<char>, suffix: Seq<char>) -> Option<Seq<char>> {
    if ends(text, suffix) {
        Some(text.take(text.len() - suffix.len()))
    } else {
        None
    }
}

/// What follows `prefix`, where `text` starts with it.
pub fn strip_prefix(text: &str, prefix: &str) -> (rest: Option<String>)
    ensures
        crate::text::opt(rest) == after_prefix(text@, prefix@),
{
    let chars = chars_of(text);
    let pattern = chars_of(prefix);
    if chars_at(chars.as_slice(), pattern.as_slice(), 0) {
        let rest = text_of(chars.as_slice(), pattern.len(), chars.len());
        proof {
            assert(text@.skip(prefix@.len() as int) =~= text@.subrange(
                prefix@.len() as int,
                text@.len() as int,
            ));
        }
        Some(rest)
    } else {
        None
    }
}

/// What precedes `suffix`, where `text` ends with it.
pub fn strip_suffix(text: &str, suffix: &str) -> (rest: Option<String>)
    ensures
        crate::text::opt(rest) == before_suffix(text@, suffix@),
{
    let chars = chars_of(text);
    let pattern = chars_of(suffix);
    if pattern.len() > chars.len() {
        return None;
    }
    let at: usize = chars.len() - pattern.len();
    if chars_at(chars.as_slice(), pattern.as_slice(), at) {
        let rest = text_of(chars.as_slice(), 0, at);
        proof {
            assert(text@.take(at as int) =~= text@.subrange(0, at as int));
        }
        Some(rest)
    } else {
        None
    }
}

/// The first index at or after `from` at which `pattern` stands.
pub open spec fn find_from<T>(text: Seq<T>, pattern: Seq<T>, from: int) -> Option<int>
    decreases text.len() - from + 1,
{
    if from < 0 || from > text.len() {
        None
    } else if stands_at(text, pattern, from) {
        Some(from)
    } else {
        find_from(text, pattern, from + 1)
    }
}

/// Whether `pattern` stands anywhere in `text`.
pub open spec fn contains_text<T>(text: Seq<T>, pattern: Seq<T>) -> bool {
    exists|at: int| stands_at(text, pattern, at)
}

/// `find_from` gives the least index of an occurrence, and misses none.
pub proof fn find_from_is_first<T>(text: Seq<T>, pattern: Seq<T>, from: int)
    requires
        0 <= from <= text.len(),
    ensures
        find_from(text, pattern, from) matches Some(at) ==> {
            &&& from <= at
            &&& stands_at(text, pattern, at)
            &&& forall|i: int| from <= i < at ==> !stands_at(text, pattern, i)
        },
        find_from(text, pattern, from) is None ==> forall|i: int|
            from <= i ==> !stands_at(text, pattern, i),
    decreases text.len() - from,
{
    if from < text.len() && !stands_at(text, pattern, from) {
        find_from_is_first(text, pattern, from + 1);
    } else {
        reveal_with_fuel(find_from, 2);
    }
}

/// The first index at or after `from` at which `pattern` stands.
pub fn find_chars(text: &[char], pattern: &[char], from: usize) -> (found: Option<usize>)
    requires
        from <= text@.len(),
    ensures
        match found {
            Some(at) => find_from(text@, pattern@, from as int) == Some(at as int) && from <= at
                && at + pattern@.len() <= text@.len() && stands_at(text@, pattern@, at as int),
            None => find_from(text@, pattern@, from as int) is None,
        },
{
    let mut at: usize = from;
    loop
        invariant
            from <= at <= text@.len(),
            find_from(text@, pattern@, from as int) == find_from(text@, pattern@, at as int),
        decreases text@.len() - at,
    {
        if chars_at(text, pattern, at) {
            return Some(at);
        }
        if at == text.len() {
            proof {
                assert(find_from(text@, pattern@, at + 1) is None);
            }
            return None;
        }
        at = at + 1;
    }
}

/// Whether `pattern` stands anywhere in `text`.
pub fn contains(text: &str, pattern: &str) -> (yes: bool)
    ensures
        yes == contains_text(text@, pattern@),
{
    let chars = chars_of(text);
    let wanted = chars_of(pattern);
    proof {
        find_from_is_first(text@, pattern@, 0);
    }
    find_chars(chars.as_slice(), wanted.as_slice(), 0).is_some()
}

/// A character with `A` to `Z` in lower case.
pub open spec fn lower_char(ch: char) -> char {
    if 'A' <= ch && ch <= 'Z' {
        (ch as u32 + 32) as char
    } else {
        ch
    }
}

/// A text with `A` to `Z` in lower case.
pub open spec fn lower_of(text: Seq<char>) -> Seq<char> {
    text.map_values(|ch: char| lower_char(ch))
}

/// A text with `A` to `Z` in lower case.
pub fn lower(text: &str) -> (result: String)
    ensures
        result@ == lower_of(text@),
{
    let chars = chars_of(text);
    let mut out = String::new();
    let mut i: usize = 0;
    while i < chars.len()
        invariant
            i <= chars@.len(),
            chars@ == text@,
            out@ == lower_of(text@.take(i as int)),
        decreases chars@.len() - i,
    {
        let ch = chars[i];
        let low = if 'A' <= ch && ch <= 'Z' {
            (ch as u8 + 32) as char
        } else {
            ch
        };
        out.push(low);
        i = i + 1;
        proof {
            assert(lower_of(text@.take(i as int)) =~= lower_of(text@.take(i - 1)).push(
                lower_char(text@[i - 1]),
            ));
        }
    }
    proof {
        assert(text@.take(i as int) =~= text@);
    }
    out
}

// Laws.

proof fn start_is_trimmed(before: Seq<char>, rest: Seq<char>)
    requires
        forall|i: int| 0 <= i < before.len() ==> is_space(#[trigger] before[i]),
    ensures
        trim_start_of(before + rest) == trim_start_of(rest),
    decreases before.len(),
{
    if before.len() > 0 {
        assert((before + rest).drop_first() =~= before.drop_first() + rest);
        start_is_trimmed(before.drop_first(), rest);
    } else {
        assert(before + rest =~= rest);
    }
}

proof fn end_is_trimmed(rest: Seq<char>, after: Seq<char>)
    requires
        forall|i: int| 0 <= i < after.len() ==> is_space(#[trigger] after[i]),
    ensures
        trim_end_of(rest + after) == trim_end_of(rest),
    decreases after.len(),
{
    if after.len() > 0 {
        assert((rest + after).drop_last() =~= rest + after.drop_last());
        end_is_trimmed(rest, after.drop_last());
    } else {
        assert(rest + after =~= rest);
    }
}

/// Trimming takes away the white space around a text, and nothing else.
pub proof fn trim_takes_the_space_around(before: Seq<char>, text: Seq<char>, after: Seq<char>)
    requires
        forall|i: int| 0 <= i < before.len() ==> is_space(#[trigger] before[i]),
        forall|i: int| 0 <= i < after.len() ==> is_space(#[trigger] after[i]),
        text.len() > 0 ==> !is_space(text[0]) && !is_space(text.last()),
    ensures
        trim_of(before + text + after) == text,
{
    assert(before + text + after =~= before + (text + after));
    start_is_trimmed(before, text + after);
    if text.len() > 0 {
        end_is_trimmed(text, after);
        assert((text + after)[0] == text[0]);
        assert(trim_start_of(text + after) == text + after);
        assert(trim_end_of(text) == text);
    } else {
        assert(text + after =~= after + Seq::<char>::empty());
        start_is_trimmed(after, Seq::<char>::empty());
        assert(trim_of(before + text + after) =~= text);
    }
}

/// What is left of a text by trimming stands in the text between white space, and has
/// none at its ends.
pub proof fn trimmed_text_has_bare_ends(text: Seq<char>)
    ensures
        trim_of(text).len() > 0 ==> !is_space(trim_of(text)[0]) && !is_space(trim_of(text).last()),
        exists|before: Seq<char>, after: Seq<char>|
            #![trigger before + trim_of(text) + after]
            text == before + trim_of(text) + after && (forall|i: int|
                0 <= i < before.len() ==> is_space(#[trigger] before[i])) && (forall|i: int|
                0 <= i < after.len() ==> is_space(#[trigger] after[i])),
{
    let start = trim_start_of(text);
    let before = start_taken(text);
    let after = end_taken(start);
    assert(text =~= before + trim_of(text) + after);
    if trim_of(text).len() > 0 {
        assert(trim_of(text)[0] == start[0]);
    }
}

proof fn start_taken(text: Seq<char>) -> (before: Seq<char>)
    ensures
        text == before + trim_start_of(text),
        forall|i: int| 0 <= i < before.len() ==> is_space(#[trigger] before[i]),
        trim_start_of(text).len() > 0 ==> !is_space(trim_start_of(text)[0]),
    decreases text.len(),
{
    if text.len() > 0 && is_space(text[0]) {
        let rest = start_taken(text.drop_first());
        let before = seq![text[0]] + rest;
        assert(text =~= seq![text[0]] + text.drop_first());
        assert(text =~= before + trim_start_of(text));
        before
    } else {
        assert(text =~= Seq::<char>::empty() + trim_start_of(text));
        Seq::<char>::empty()
    }
}

proof fn end_taken(text: Seq<char>) -> (after: Seq<char>)
    ensures
        text == trim_end_of(text) + after,
        forall|i: int| 0 <= i < after.len() ==> is_space(#[trigger] after[i]),
        trim_end_of(text).len() > 0 ==> !is_space(trim_end_of(text).last()),
    decreases text.len(),
{
    if text.len() > 0 && is_space(text.last()) {
        let rest = end_taken(text.drop_last());
        let after = rest.push(text.last());
        assert(text =~= text.drop_last().push(text.last()));
        assert(text =~= trim_end_of(text) + after);
        after
    } else {
        assert(text =~= trim_end_of(text) + Seq::<char>::empty());
        Seq::<char>::empty()
    }
}

/// Blanks, tabs and line ends are white space; letters, digits and signs are not.
pub proof fn signs_are_no_space(ch: char)
    ensures
        is_space(' ') && is_space('\t') && is_space('\n') && is_space('\r'),
        '!' <= ch <= '~' ==> !is_space(ch),
        '!' <= ch <= '~' ==> !is_control(ch),
        is_control('\n') && is_control('\t') && is_control('\r') && !is_control(' '),
{
}

/// A text in lower case has the small letter of each capital and keeps all else.
pub proof fn capitals_become_small(text: Seq<char>, i: int)
    requires
        0 <= i < text.len(),
    ensures
        lower_of(text).len() == text.len(),
        text[i] == 'A' ==> lower_of(text)[i] == 'a',
        text[i] == 'Z' ==> lower_of(text)[i] == 'z',
        'A' <= text[i] <= 'Z' ==> lower_of(text)[i] as int - 'a' as int == text[i] as int
            - 'A' as int,
        !('A' <= text[i] <= 'Z') ==> lower_of(text)[i] == text[i],
{
}

/// What stands between a start and an end is found there: a text that leads or ends another
/// can be taken off it again.
pub proof fn starts_and_ends_come_off(start: Seq<char>, text: Seq<char>)
    ensures
        after_prefix(start + text, start) == Some(text),
        before_suffix(start + text, text) == Some(start),
        contains_text(start + text, start),
        contains_text(start + text, text),
        starts(start + text, start),
        ends(start + text, text),
        text.len() > 0 ==> !starts(start, start + text) && !ends(start, text + start),
{
    let whole = start + text;
    assert(whole.subrange(0, start.len() as int) =~= start);
    assert(whole.skip(start.len() as int) =~= text);
    assert(whole.subrange(start.len() as int, whole.len() as int) =~= text);
    assert(whole.take(start.len() as int) =~= start);
    assert(stands_at(whole, start, 0));
    assert(stands_at(whole, text, start.len() as int));
}

} // verus!
