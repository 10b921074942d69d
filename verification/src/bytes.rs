//! Byte strings.

use vstd::prelude::*;

use crate::scan;
use crate::scan::bytes_at;

verus! {

/// The bytes of a list of byte strings.
pub open spec fn lists(list: Seq<Vec<u8>>) -> Seq<Seq<u8>> {
    list.map_values(|item: Vec<u8>| item@)
}

/// The bytes of an optional byte string.
pub open spec fn opt(bytes: Option<Vec<u8>>) -> Option<Seq<u8>> {
    match bytes {
        Some(inner) => Some(inner@),
        None => None,
    }
}

/// The bytes from `from` up to `to`.
pub fn copy_range(bytes: &[u8], from: usize, to: usize) -> (copy: Vec<u8>)
    requires
        from <= to <= bytes@.len(),
    ensures
        copy@ == bytes@.subrange(from as int, to as int),
{
    let mut copy: Vec<u8> = Vec::new();
    let mut i: usize = from;
    while i < to
        invariant
            from <= i <= to <= bytes@.len(),
            copy@ == bytes@.subrange(from as int, i as int),
        decreases to - i,
    {
        copy.push(bytes[i]);
        i = i + 1;
        proof {
            assert(bytes@.subrange(from as int, i as int) =~= bytes@.subrange(
                from as int,
                i - 1,
            ).push(bytes@[i - 1]));
        }
    }
    copy
}

/// A copy of bytes.
pub fn copy_all(bytes: &[u8]) -> (copy: Vec<u8>)
    ensures
        copy@ == bytes@,
{
    let copy = copy_range(bytes, 0, bytes.len());
    proof {
        assert(bytes@.subrange(0, bytes@.len() as int) =~= bytes@);
    }
    copy
}

/// A copy of an optional byte string.
pub fn copy_opt(bytes: &Option<Vec<u8>>) -> (copy: Option<Vec<u8>>)
    ensures
        opt(copy) == opt(*bytes),
{
    match bytes {
        Some(inner) => Some(copy_all(inner.as_slice())),
        None => None,
    }
}

/// Appends bytes.
pub fn append(target: &mut Vec<u8>, bytes: &[u8])
    ensures
        final(target)@ == old(target)@ + bytes@,
{
    let ghost before = target@;
    let mut i: usize = 0;
    proof {
        assert(before + bytes@.take(0) =~= before);
    }
    while i < bytes.len()
        invariant
            i <= bytes@.len(),
            target@ == before + bytes@.take(i as int),
        decreases bytes@.len() - i,
    {
        target.push(bytes[i]);
        i = i + 1;
        proof {
            assert(bytes@.take(i as int) =~= bytes@.take(i - 1).push(bytes@[i - 1]));
            assert(target@ =~= before + bytes@.take(i as int));
        }
    }
    proof {
        assert(bytes@.take(i as int) =~= bytes@);
    }
}

/// Whether two byte strings are the same.
pub fn same_bytes(left: &[u8], right: &[u8]) -> (same: bool)
    ensures
        same == (left@ == right@),
{
    if left.len() != right.len() {
        return false;
    }
    let same = bytes_at(left, right, 0);
    proof {
        assert(left@.subrange(0, right@.len() as int) =~= left@);
    }
    same
}

/// Whether two optional byte strings are the same.
pub fn same_opt(left: &Option<Vec<u8>>, right: &Option<Vec<u8>>) -> (same: bool)
    ensures
        same == (opt(*left) == opt(*right)),
{
    match (left, right) {
        (Some(a), Some(b)) => same_bytes(a.as_slice(), b.as_slice()),
        (None, None) => true,
        _ => false,
    }
}

/// The pieces between separators; bytes without separators are one piece.
pub open spec fn pieces(bytes: Seq<u8>, separator: u8) -> Seq<Seq<u8>>
    decreases bytes.len(),
{
    if bytes.len() == 0 {
        seq![Seq::<u8>::empty()]
    } else {
        let before = pieces(bytes.drop_last(), separator);
        if bytes.last() == separator {
            before.push(Seq::<u8>::empty())
        } else {
            before.drop_last().push(before.last().push(bytes.last()))
        }
    }
}

/// The pieces between separators.
pub fn split(bytes: &[u8], separator: u8) -> (list: Vec<Vec<u8>>)
    ensures
        lists(list@) == pieces(bytes@, separator),
        list@.len() > 0,
{
    let mut list: Vec<Vec<u8>> = Vec::new();
    let mut start: usize = 0;
    let mut i: usize = 0;
    proof {
        assert(bytes@.take(0) =~= Seq::<u8>::empty());
        assert(lists(list@).push(bytes@.subrange(0, 0)) =~= pieces(bytes@.take(0), separator));
    }
    while i < bytes.len()
        invariant
            start <= i <= bytes.len(),
            lists(list@).push(bytes@.subrange(start as int, i as int)) == pieces(
                bytes@.take(i as int),
                separator,
            ),
        decreases bytes.len() - i,
    {
        let ghost before = pieces(bytes@.take(i as int), separator);
        let ghost old_list = lists(list@);
        proof {
            assert(bytes@.take(i + 1).drop_last() =~= bytes@.take(i as int));
            assert(before.drop_last() =~= old_list);
        }
        if bytes[i] == separator {
            let piece = copy_range(bytes, start, i);
            list.push(piece);
            start = i + 1;
            proof {
                assert(lists(list@) =~= old_list.push(piece@));
                assert(bytes@.subrange(start as int, i + 1) =~= Seq::<u8>::empty());
            }
        } else {
            proof {
                assert(bytes@.subrange(start as int, i + 1) =~= bytes@.subrange(
                    start as int,
                    i as int,
                ).push(bytes@[i as int]));
            }
        }
        i = i + 1;
    }
    let ghost old_list = lists(list@);
    let rest = copy_range(bytes, start, bytes.len());
    list.push(rest);
    proof {
        assert(bytes@.take(i as int) =~= bytes@);
        assert(lists(list@) =~= old_list.push(rest@));
    }
    list
}

/// The first index at or after `from` at which `pattern` stands.
pub fn find(bytes: &[u8], pattern: &[u8], from: usize) -> (found: Option<usize>)
    requires
        from <= bytes@.len(),
    ensures
        match found {
            Some(at) => scan::find_from(bytes@, pattern@, from as int) == Some(at as int) && from
                <= at && at + pattern@.len() <= bytes@.len() && scan::stands_at(
                bytes@,
                pattern@,
                at as int,
            ),
            None => scan::find_from(bytes@, pattern@, from as int) is None,
        },
{
    let mut at: usize = from;
    loop
        invariant
            from <= at <= bytes@.len(),
            scan::find_from(bytes@, pattern@, from as int) == scan::find_from(
                bytes@,
                pattern@,
                at as int,
            ),
        decreases bytes@.len() - at,
    {
        if bytes_at(bytes, pattern, at) {
            return Some(at);
        }
        if at == bytes.len() {
            proof {
                assert(scan::find_from(bytes@, pattern@, at + 1) is None);
            }
            return None;
        }
        at = at + 1;
    }
}

/// Whether `pattern` stands anywhere in the bytes.
pub fn contains(bytes: &[u8], pattern: &[u8]) -> (yes: bool)
    ensures
        yes == scan::contains_text(bytes@, pattern@),
{
    proof {
        scan::find_from_is_first(bytes@, pattern@, 0);
    }
    match find(bytes, pattern, 0) {
        Some(_) => true,
        None => false,
    }
}


// Text in bytes.

/// The text that bytes hold, with a replacement where they are not UTF-8.
pub uninterp spec fn lossy_text(bytes: Seq<u8>) -> Seq<char>;

/// Calls `String::from_utf8_lossy`. The text is a function of the bytes, and where
/// they are valid UTF-8, it is what they encode.
#[verifier::external_body]
pub(crate) fn lossy(bytes: &[u8]) -> (text: String)
    ensures
        text@ == lossy_text(bytes@),
        vstd::utf8::valid_utf8(bytes@) ==> text@ == vstd::utf8::decode_utf8(bytes@),
{
    String::from_utf8_lossy(bytes).into_owned()
}

/// Calls `String::from_utf8`. It gives the text that the bytes encode, and fails
/// where they are not valid UTF-8.
#[verifier::external_body]
pub(crate) fn exact(bytes: Vec<u8>) -> (text: Option<String>)
    ensures
        match text {
            Some(found) => {
                &&& vstd::utf8::valid_utf8(bytes@)
                &&& found@ == vstd::utf8::decode_utf8(bytes@)
            },
            None => !vstd::utf8::valid_utf8(bytes@),
        },
{
    String::from_utf8(bytes).ok()
}

// Laws.

/// Pieces with a byte between each two of them.
pub open spec fn rejoined(list: Seq<Seq<u8>>, separator: u8) -> Seq<u8>
    decreases list.len(),
{
    if list.len() == 0 {
        Seq::empty()
    } else if list.len() == 1 {
        list[0]
    } else {
        rejoined(list.drop_last(), separator).push(separator) + list.last()
    }
}

/// The pieces of bytes, with the separator between each two, are the bytes; none of them
/// holds the separator; and there is one more than there are separators.
pub proof fn pieces_are_the_bytes(bytes: Seq<u8>, separator: u8)
    ensures
        rejoined(pieces(bytes, separator), separator) == bytes,
        forall|i: int|
            0 <= i < pieces(bytes, separator).len() ==> !(#[trigger] pieces(
                bytes,
                separator,
            )[i]).contains(separator),
        pieces(bytes, separator).len() == bytes.filter(|byte: u8| byte == separator).len() + 1,
    decreases bytes.len(),
{
    reveal(Seq::filter);
    let parts = pieces(bytes, separator);
    if bytes.len() == 0 {
        assert(rejoined(parts, separator) =~= bytes);
    } else {
        let shorter = bytes.drop_last();
        let before = pieces(shorter, separator);
        pieces_are_the_bytes(shorter, separator);
        if bytes.last() == separator {
            assert(parts.drop_last() =~= before);
            assert(rejoined(parts, separator) =~= bytes);
        } else {
            let grown = before.last().push(bytes.last());
            assert(parts.last() == grown);
            assert(!before[before.len() - 1].contains(separator));
            assert(!grown.contains(separator)) by {
                if grown.contains(separator) {
                    let at = grown.index_of(separator);
                    assert(before.last()[at] == separator);
                    assert(before.last().contains(separator));
                }
            }
            assert(parts.drop_last() =~= before.drop_last());
            assert forall|i: int| 0 <= i < parts.len() implies !(#[trigger] parts[i]).contains(
                separator,
            ) by {
                if i < parts.len() - 1 {
                    assert(parts[i] == before[i]);
                }
            }
            if parts.len() > 1 {
                assert(rejoined(parts, separator) =~= rejoined(before, separator).push(
                    bytes.last(),
                ));
            }
            assert(rejoined(parts, separator) =~= bytes);
        }
    }
}

} // verus!
