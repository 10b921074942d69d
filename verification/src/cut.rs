//! Cutting a text into pieces, and putting pieces together.

use vstd::prelude::*;
use vstd::string::StringExecFns;

use crate::scan;
use crate::scan::{chars_at, space};
use crate::text;
use crate::text::{chars_of, text_of};

verus! {

/// What separates two pieces of a text.
#[derive(Clone, Copy)]
pub enum Separator {
    /// One given character.
    Char(char),
    /// Any white space character.
    Space,
}

impl Separator {
    /// Whether a character separates.
    pub open spec fn hits(self, ch: char) -> bool {
        match self {
            Separator::Char(wanted) => ch == wanted,
            Separator::Space => scan::is_space(ch),
        }
    }

    fn hit(&self, ch: char) -> (yes: bool)
        ensures
            yes == self.hits(ch),
    {
        match self {
            Separator::Char(wanted) => ch == *wanted,
            Separator::Space => space(ch),
        }
    }
}

/// The pieces between separators; a text without separators is one piece.
pub open spec fn pieces(text: Seq<char>, separator: Separator) -> Seq<Seq<char>>
    decreases text.len(),
{
    if text.len() == 0 {
        seq![Seq::<char>::empty()]
    } else {
        let before = pieces(text.drop_last(), separator);
        if separator.hits(text.last()) {
            before.push(Seq::<char>::empty())
        } else {
            before.drop_last().push(before.last().push(text.last()))
        }
    }
}

/// There is always at least one piece.
pub proof fn pieces_not_empty(text: Seq<char>, separator: Separator)
    ensures
        pieces(text, separator).len() > 0,
    decreases text.len(),
{
    if text.len() > 0 {
        pieces_not_empty(text.drop_last(), separator);
    }
}

/// The pieces of a text.
pub fn split(text: &str, separator: Separator) -> (list: Vec<String>)
    ensures
        text::texts(list@) == pieces(text@, separator),
        list@.len() > 0,
{
    let chars = chars_of(text);
    let mut list: Vec<String> = Vec::new();
    let mut start: usize = 0;
    let mut i: usize = 0;
    proof {
        assert(chars@.take(0) =~= Seq::<char>::empty());
        assert(text::texts(list@).push(chars@.subrange(0, 0)) =~= pieces(chars@.take(0), separator));
    }
    while i < chars.len()
        invariant
            start <= i <= chars.len(),
            chars@ == text@,
            text::texts(list@).push(chars@.subrange(start as int, i as int)) == pieces(
                chars@.take(i as int),
                separator,
            ),
        decreases chars.len() - i,
    {
        let ghost before = pieces(chars@.take(i as int), separator);
        let ghost old_list = text::texts(list@);
        proof {
            assert(chars@.take(i + 1).drop_last() =~= chars@.take(i as int));
            assert(before.drop_last() =~= old_list);
        }
        if separator.hit(chars[i]) {
            let piece = text_of(chars.as_slice(), start, i);
            list.push(piece);
            start = i + 1;
            proof {
                assert(text::texts(list@) =~= old_list.push(piece@));
                assert(chars@.subrange(start as int, i + 1) =~= Seq::<char>::empty());
            }
        } else {
            proof {
                assert(chars@.subrange(start as int, i + 1) =~= chars@.subrange(
                    start as int,
                    i as int,
                ).push(chars@[i as int]));
            }
        }
        i = i + 1;
    }
    let piece = text_of(chars.as_slice(), start, chars.len());
    let ghost old_list = text::texts(list@);
    list.push(piece);
    proof {
        assert(text::texts(list@) =~= old_list.push(piece@));
        assert(chars@.take(chars@.len() as int) =~= text@);
    }
    list
}

/// The words of a text: its non-empty pieces between white space.
pub open spec fn words_of(text: Seq<char>) -> Seq<Seq<char>> {
    pieces(text, Separator::Space).filter(|piece: Seq<char>| piece.len() > 0)
}

/// The list without its empty texts.
fn non_empty(list: Vec<String>) -> (kept: Vec<String>)
    ensures
        text::texts(kept@) == text::texts(list@).filter(|piece: Seq<char>| piece.len() > 0),
{
    let ghost keep = |piece: Seq<char>| piece.len() > 0;
    let mut kept: Vec<String> = Vec::new();
    let mut i: usize = 0;
    proof {
        assert(text::texts(list@).take(0) =~= Seq::<Seq<char>>::empty());
        assert(text::texts(kept@) =~= Seq::<Seq<char>>::empty());
    }
    while i < list.len()
        invariant
            i <= list.len(),
            keep == (|piece: Seq<char>| piece.len() > 0),
            text::texts(kept@) == text::texts(list@).take(i as int).filter(keep),
        decreases list.len() - i,
    {
        let ghost old_kept = text::texts(kept@);
        proof {
            let head = text::texts(list@).take(i + 1);
            assert(head.drop_last() =~= text::texts(list@).take(i as int));
            assert(head.last() == list@[i as int]@);
            reveal(Seq::filter);
        }
        if !list[i].as_str().is_empty() {
            kept.push(list[i].clone());
            proof {
                assert(text::texts(kept@) =~= old_kept.push(list@[i as int]@));
            }
        }
        i = i + 1;
    }
    proof {
        assert(text::texts(list@).take(list@.len() as int) =~= text::texts(list@));
    }
    kept
}

/// The words of a text.
pub fn words(text: &str) -> (list: Vec<String>)
    ensures
        text::texts(list@) == words_of(text@),
{
    non_empty(split(text, Separator::Space))
}

/// A line without the carriage return it ends with.
pub open spec fn without_return(line: Seq<char>) -> Seq<char> {
    if line.len() > 0 && line.last() == '\r' {
        line.drop_last()
    } else {
        line
    }
}

/// The lines of a text. A line ends at `\n` or `\r\n`; what follows the last
/// line end is a line only where it is not empty.
pub open spec fn lines_of(text: Seq<char>) -> Seq<Seq<char>> {
    let parts = pieces(text, Separator::Char('\n'));
    let ended = parts.drop_last().map_values(|line: Seq<char>| without_return(line));
    if parts.last().len() == 0 {
        ended
    } else {
        ended.push(parts.last())
    }
}

/// The lines of a text.
pub fn lines(text: &str) -> (list: Vec<String>)
    ensures
        text::texts(list@) == lines_of(text@),
{
    let parts = split(text, Separator::Char('\n'));
    let mut list: Vec<String> = Vec::new();
    let mut i: usize = 0;
    let ghost all = pieces(text@, Separator::Char('\n'));
    while i + 1 < parts.len()
        invariant
            i < parts.len(),
            all == text::texts(parts@),
            all == pieces(text@, Separator::Char('\n')),
            text::texts(list@) == all.take(i as int).map_values(|line: Seq<char>| without_return(line)),
        decreases parts.len() - i,
    {
        let chars = chars_of(parts[i].as_str());
        let ghost old_list = text::texts(list@);
        let line = if chars.len() > 0 && chars[chars.len() - 1] == '\r' {
            text_of(chars.as_slice(), 0, chars.len() - 1)
        } else {
            parts[i].clone()
        };
        proof {
            assert(parts@[i as int]@ == all[i as int]);
            if chars@.len() > 0 && chars@.last() == '\r' {
                assert(line@ =~= all[i as int].drop_last());
            }
            assert(line@ == without_return(all[i as int]));
        }
        list.push(line);
        proof {
            assert(text::texts(list@) =~= old_list.push(line@));
            assert(all.take(i + 1).map_values(|line: Seq<char>| without_return(line))
                =~= all.take(i as int).map_values(|line: Seq<char>| without_return(line)).push(
                without_return(all[i as int]),
            ));
        }
        i = i + 1;
    }
    let ghost ended = text::texts(list@);
    proof {
        assert(all.drop_last() =~= all.take(i as int));
        assert(all.last() == parts@[i as int]@);
    }
    if !parts[i].as_str().is_empty() {
        list.push(parts[i].clone());
        proof {
            assert(text::texts(list@) =~= ended.push(all.last()));
        }
    }
    list
}

/// The pieces with `glue` between each two of them.
pub open spec fn joined(list: Seq<Seq<char>>, glue: Seq<char>) -> Seq<char>
    decreases list.len(),
{
    if list.len() == 0 {
        Seq::<char>::empty()
    } else if list.len() == 1 {
        list[0]
    } else {
        joined(list.drop_last(), glue) + glue + list.last()
    }
}

/// The texts with `glue` between each two of them.
pub fn join(list: &Vec<String>, glue: &str) -> (text: String)
    ensures
        text@ == joined(text::texts(list@), glue@),
{
    let mut out = String::new();
    let mut i: usize = 0;
    proof {
        assert(text::texts(list@).take(0) =~= Seq::<Seq<char>>::empty());
    }
    while i < list.len()
        invariant
            i <= list.len(),
            out@ == joined(text::texts(list@).take(i as int), glue@),
        decreases list.len() - i,
    {
        proof {
            let head = text::texts(list@).take(i + 1);
            assert(head.drop_last() =~= text::texts(list@).take(i as int));
            assert(head.last() == list@[i as int]@);
        }
        if i > 0 {
            out.append(glue);
        }
        out.append(list[i].as_str());
        proof {
            if i == 0 {
                assert(out@ =~= list@[0]@);
            }
        }
        i = i + 1;
    }
    proof {
        assert(text::texts(list@).take(list@.len() as int) =~= text::texts(list@));
    }
    out
}

/// `text` from index `at` on, with each occurrence of `pattern`, found from
/// left to right, replaced by `by`.
pub open spec fn replaced_from(
    text: Seq<char>,
    pattern: Seq<char>,
    by: Seq<char>,
    at: int,
) -> Seq<char>
    decreases text.len() - at,
{
    if at < 0 || at >= text.len() || pattern.len() == 0 {
        Seq::<char>::empty()
    } else if scan::stands_at(text, pattern, at) {
        by + replaced_from(text, pattern, by, at + pattern.len())
    } else {
        seq![text[at]] + replaced_from(text, pattern, by, at + 1)
    }
}

/// `text` with each occurrence of `pattern` replaced by `by`.
pub open spec fn replaced(text: Seq<char>, pattern: Seq<char>, by: Seq<char>) -> Seq<char> {
    replaced_from(text, pattern, by, 0)
}

/// `text` with each occurrence of `pattern` replaced by `by`.
pub fn replace(text: &str, pattern: &str, by: &str) -> (result: String)
    requires
        pattern@.len() > 0,
    ensures
        result@ == replaced(text@, pattern@, by@),
{
    let chars = chars_of(text);
    let wanted = chars_of(pattern);
    let mut out = String::new();
    let mut at: usize = 0;
    while at < chars.len()
        invariant
            at <= chars.len(),
            chars@ == text@,
            wanted@ == pattern@,
            pattern@.len() > 0,
            out@ + replaced_from(text@, pattern@, by@, at as int) == replaced(
                text@,
                pattern@,
                by@,
            ),
        decreases chars.len() - at,
    {
        let ghost start = out@;
        if chars_at(chars.as_slice(), wanted.as_slice(), at) {
            out.append(by);
            proof {
                assert(out@ + replaced_from(text@, pattern@, by@, at + pattern@.len()) =~= start + (
                by@ + replaced_from(text@, pattern@, by@, at + pattern@.len())));
            }
            at = at + wanted.len();
        } else {
            out.push(chars[at]);
            proof {
                assert(out@ + replaced_from(text@, pattern@, by@, at + 1) =~= start + (
                seq![text@[at as int]] + replaced_from(text@, pattern@, by@, at + 1)));
            }
            at = at + 1;
        }
    }
    proof {
        assert(out@ + Seq::<char>::empty() =~= out@);
    }
    out
}

// Laws.

proof fn a_piece_grows(text: Seq<char>, piece: Seq<char>, separator: Separator)
    requires
        forall|i: int| 0 <= i < piece.len() ==> !separator.hits(#[trigger] piece[i]),
    ensures
        pieces(text + piece, separator) == pieces(text, separator).drop_last().push(
            pieces(text, separator).last() + piece,
        ),
    decreases piece.len(),
{
    pieces_not_empty(text, separator);
    let parts = pieces(text, separator);
    if piece.len() == 0 {
        assert(text + piece =~= text);
        assert(parts.last() + piece =~= parts.last());
        assert(parts =~= parts.drop_last().push(parts.last()));
    } else {
        let shorter = piece.drop_last();
        a_piece_grows(text, shorter, separator);
        assert((text + piece).drop_last() =~= text + shorter);
        assert((parts.last() + shorter).push(piece.last()) =~= parts.last() + piece);
        assert(parts.drop_last().push(parts.last() + shorter).drop_last() =~= parts.drop_last());
    }
}

/// Pieces that were put together with a separator which none of them holds come out as
/// they went in.
pub proof fn joined_pieces_come_apart(list: Seq<Seq<char>>, ch: char)
    requires
        list.len() > 0,
        forall|i: int| 0 <= i < list.len() ==> !(#[trigger] list[i]).contains(ch),
    ensures
        pieces(joined(list, seq![ch]), Separator::Char(ch)) == list,
    decreases list.len(),
{
    let separator = Separator::Char(ch);
    let last = list.last();
    assert forall|i: int| 0 <= i < last.len() implies !separator.hits(#[trigger] last[i]) by {
        assert(last.contains(last[i]));
    }
    if list.len() == 1 {
        let none = Seq::<char>::empty();
        a_piece_grows(none, last, separator);
        assert(none + last =~= last);
        assert(pieces(last, separator) =~= list);
    } else {
        let rest = list.drop_last();
        let before = joined(rest, seq![ch]);
        joined_pieces_come_apart(rest, ch);
        assert(before + seq![ch] =~= before.push(ch));
        assert(before.push(ch).drop_last() =~= before);
        a_piece_grows(before.push(ch), last, separator);
        assert(rest.push(Seq::<char>::empty()).drop_last() =~= rest);
        assert(Seq::<char>::empty() + last =~= last);
        assert(rest.push(last) =~= list);
    }
}

/// The pieces of a text, with the separator between each two, are the text; and none of
/// them holds the separator.
pub proof fn pieces_are_the_text(text: Seq<char>, ch: char)
    ensures
        joined(pieces(text, Separator::Char(ch)), seq![ch]) == text,
        forall|i: int|
            0 <= i < pieces(text, Separator::Char(ch)).len() ==> !(#[trigger] pieces(
                text,
                Separator::Char(ch),
            )[i]).contains(ch),
    decreases text.len(),
{
    let separator = Separator::Char(ch);
    let parts = pieces(text, separator);
    if text.len() == 0 {
        assert(joined(parts, seq![ch]) =~= text);
    } else {
        let shorter = text.drop_last();
        let before = pieces(shorter, separator);
        pieces_are_the_text(shorter, ch);
        pieces_not_empty(shorter, separator);
        if text.last() == ch {
            assert(parts.drop_last() =~= before);
            assert(joined(parts, seq![ch]) =~= text);
        } else {
            let grown = before.last().push(text.last());
            assert(parts.last() == grown);
            assert(!before[before.len() - 1].contains(ch));
            assert(!grown.contains(ch)) by {
                if grown.contains(ch) {
                    let at = grown.index_of(ch);
                    assert(before.last()[at] == ch);
                    assert(before.last().contains(ch));
                }
            }
            assert(parts.drop_last() =~= before.drop_last());
            assert forall|i: int| 0 <= i < parts.len() implies !(#[trigger] parts[i]).contains(
                ch,
            ) by {
                if i < parts.len() - 1 {
                    assert(parts[i] == before[i]);
                }
            }
            if parts.len() > 1 {
                assert(joined(parts, seq![ch]) =~= joined(before, seq![ch]).push(text.last()));
            }
            assert(joined(parts, seq![ch]) =~= text);
        }
    }
}

/// Lines that were written one below the other are read as they were written, with or
/// without a line end behind the last.
pub proof fn written_lines_are_read(list: Seq<Seq<char>>)
    requires
        list.len() > 0,
        forall|i: int|
            0 <= i < list.len() ==> !(#[trigger] list[i]).contains('\n') && !list[i].contains('\r'),
    ensures
        lines_of(joined(list, seq!['\n']).push('\n')) == list,
        list.last().len() > 0 ==> lines_of(joined(list, seq!['\n'])) == list,
{
    let nl = Separator::Char('\n');
    let text = joined(list, seq!['\n']);
    joined_pieces_come_apart(list, '\n');
    assert forall|i: int| 0 <= i < list.len() implies without_return(#[trigger] list[i])
        == list[i] by {
        if list[i].len() > 0 {
            assert(list[i].contains(list[i].last()));
        }
    }
    assert(text.push('\n').drop_last() =~= text);
    let parts = pieces(text.push('\n'), nl);
    assert(parts.drop_last() =~= list);
    assert(list.map_values(|line: Seq<char>| without_return(line)) =~= list);
    if list.last().len() > 0 {
        assert(lines_of(text) =~= list);
    }
}

proof fn kept_all(list: Seq<Seq<char>>)
    requires
        forall|i: int| 0 <= i < list.len() ==> (#[trigger] list[i]).len() > 0,
    ensures
        list.filter(|piece: Seq<char>| piece.len() > 0) == list,
    decreases list.len(),
{
    reveal(Seq::filter);
    if list.len() > 0 {
        kept_all(list.drop_last());
        assert(list =~= list.drop_last().push(list.last()));
    } else {
        assert(list =~= Seq::<Seq<char>>::empty());
    }
}

proof fn spaced_words_come_apart(list: Seq<Seq<char>>)
    requires
        list.len() > 0,
        forall|i: int, k: int|
            0 <= i < list.len() && 0 <= k < list[i].len() ==> !scan::is_space(#[trigger] list[i][k]),
    ensures
        pieces(joined(list, seq![' ']), Separator::Space) == list,
    decreases list.len(),
{
    let last = list.last();
    assert forall|k: int| 0 <= k < last.len() implies !Separator::Space.hits(#[trigger] last[k]) by {
        assert(list[list.len() - 1][k] == last[k]);
    }
    if list.len() == 1 {
        let none = Seq::<char>::empty();
        a_piece_grows(none, last, Separator::Space);
        assert(none + last =~= last);
        assert(pieces(last, Separator::Space) =~= list);
    } else {
        let rest = list.drop_last();
        let before = joined(rest, seq![' ']);
        spaced_words_come_apart(rest);
        assert(before + seq![' '] =~= before.push(' '));
        assert(before.push(' ').drop_last() =~= before);
        a_piece_grows(before.push(' '), last, Separator::Space);
        assert(rest.push(Seq::<char>::empty()).drop_last() =~= rest);
        assert(Seq::<char>::empty() + last =~= last);
        assert(rest.push(last) =~= list);
    }
}

/// Words with a blank between each two are read as they were written.
pub proof fn written_words_are_read(list: Seq<Seq<char>>)
    requires
        list.len() > 0,
        forall|i: int| 0 <= i < list.len() ==> (#[trigger] list[i]).len() > 0,
        forall|i: int, k: int|
            0 <= i < list.len() && 0 <= k < list[i].len() ==> !scan::is_space(#[trigger] list[i][k]),
    ensures
        words_of(joined(list, seq![' '])) == list,
{
    spaced_words_come_apart(list);
    kept_all(list);
}

proof fn replaced_one_by_one(text: Seq<char>, from: char, to: char, at: int)
    requires
        0 <= at <= text.len(),
    ensures
        replaced_from(text, seq![from], seq![to], at) == text.skip(at).map_values(
            |ch: char|
                if ch == from {
                    to
                } else {
                    ch
                },
        ),
    decreases text.len() - at,
{
    let turned = |ch: char|
        if ch == from {
            to
        } else {
            ch
        };
    let all = replaced_from(text, seq![from], seq![to], at);
    if at < text.len() {
        replaced_one_by_one(text, from, to, at + 1);
        assert(text.subrange(at, at + 1) =~= seq![text[at]]);
        assert(scan::stands_at(text, seq![from], at) <==> text[at] == from) by {
            if scan::stands_at(text, seq![from], at) {
                assert(text.subrange(at, at + 1)[0] == seq![from][0]);
            }
        }
        assert(all =~= seq![turned(text[at])] + text.skip(at + 1).map_values(turned));
        assert(all =~= text.skip(at).map_values(turned));
    } else {
        assert(all =~= text.skip(at).map_values(turned));
    }
}

/// Where one character is replaced by another, it is so in every place, and all other
/// characters stay.
pub proof fn each_character_is_replaced(text: Seq<char>, from: char, to: char)
    ensures
        replaced(text, seq![from], seq![to]).len() == text.len(),
        forall|i: int|
            0 <= i < text.len() ==> #[trigger] replaced(text, seq![from], seq![to])[i] == if text[i]
                == from {
                to
            } else {
                text[i]
            },
{
    replaced_one_by_one(text, from, to, 0);
    assert(text.skip(0) =~= text);
}

/// A text in which the first character of a pattern does not occur stays as it is.
pub proof fn nothing_to_replace(text: Seq<char>, pattern: Seq<char>, by: Seq<char>, at: int)
    requires
        pattern.len() > 0,
        0 <= at <= text.len(),
        forall|i: int| at <= i < text.len() ==> text[i] != pattern[0],
    ensures
        replaced_from(text, pattern, by, at) == text.skip(at),
    decreases text.len() - at,
{
    if at < text.len() {
        nothing_to_replace(text, pattern, by, at + 1);
        if scan::stands_at(text, pattern, at) {
            assert(text.subrange(at, at + pattern.len())[0] == text[at]);
        }
        assert(seq![text[at]] + text.skip(at + 1) =~= text.skip(at));
    } else {
        assert(text.skip(at) =~= Seq::<char>::empty());
    }
}

proof fn plain_line(line: Seq<char>)
    requires
        line.len() > 0,
        !line.contains('\n'),
    ensures
        lines_of(line.push('\r').push('\n')) == seq![line],
        lines_of(line.push('\n')) == seq![without_return(line)],
{
    let separator = Separator::Char('\n');
    let first = line.push('\r');
    let one = seq![first];
    assert forall|i: int| 0 <= i < one.len() implies !(#[trigger] one[i]).contains('\n') by {
        if one[i].contains('\n') {
            let at = one[i].index_of('\n');
            if at < line.len() {
                assert(line.contains(line[at]));
            }
        }
    }
    joined_pieces_come_apart(one, '\n');
    assert(one.drop_last() =~= Seq::<Seq<char>>::empty());
    assert(joined(one, seq!['\n']) =~= first);
    assert(first.push('\n').drop_last() =~= first);
    let parts = pieces(first.push('\n'), separator);
    assert(parts =~= seq![first, Seq::<char>::empty()]);
    assert(parts.drop_last() =~= seq![first]);
    assert(first.drop_last() =~= line);
    assert(lines_of(first.push('\n')) =~= seq![line]);

    let two = seq![line];
    joined_pieces_come_apart(two, '\n');
    assert(two.drop_last() =~= Seq::<Seq<char>>::empty());
    assert(joined(two, seq!['\n']) =~= line);
    assert(line.push('\n').drop_last() =~= line);
    let others = pieces(line.push('\n'), separator);
    assert(others =~= seq![line, Seq::<char>::empty()]);
    assert(others.drop_last() =~= seq![line]);
    assert(lines_of(line.push('\n')) =~= seq![without_return(line)]);
}

/// A line may end with a return before its line end: it is no part of the line.
pub proof fn returns_are_no_part_of_a_line(line: Seq<char>)
    requires
        line.len() > 0,
        !line.contains('\n'),
        line.last() != '\r',
    ensures
        lines_of(line.push('\r').push('\n')) == seq![line],
        lines_of(line.push('\n')) == seq![line],
        lines_of(Seq::<char>::empty()).len() == 0,
{
    plain_line(line);
    assert(pieces(Seq::<char>::empty(), Separator::Char('\n')) =~= seq![Seq::<char>::empty()]);
}

} // verus!
