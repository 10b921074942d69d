//! Rows of text with something at either end.

use vstd::prelude::*;

use crate::text;
use crate::ui::text as cells;
use crate::ui::text::display_width;

verus! {

/// What is left of a width when a part of it is taken.
pub open spec fn less(width: nat, part: nat) -> nat {
    if part < width {
        (width - part) as nat
    } else {
        0
    }
}

/// How many cells of a width are left behind texts.
pub open spec fn room_behind(width: nat, pieces: Seq<Seq<char>>) -> nat
    decreases pieces.len(),
{
    if pieces.len() == 0 {
        width
    } else {
        less(room_behind(width, pieces.drop_last()), cells::text_cells(pieces.last()) as nat)
    }
}

/// How many cells of a width are left behind texts.
pub fn room_left(width: usize, pieces: &Vec<String>) -> (room: usize)
    ensures
        room == room_behind(width as nat, text::texts(pieces@)),
{
    let ghost all = text::texts(pieces@);
    let mut room: usize = width;
    let mut i: usize = 0;
    proof {
        assert(all.take(0) =~= Seq::empty());
    }
    while i < pieces.len()
        invariant
            i <= pieces@.len(),
            all == text::texts(pieces@),
            room == room_behind(width as nat, all.take(i as int)),
        decreases pieces@.len() - i,
    {
        proof {
            assert(all.take(i + 1).drop_last() =~= all.take(i as int));
        }
        room = room.saturating_sub(display_width(pieces[i].as_str()));
        i = i + 1;
    }
    proof {
        assert(all.take(i as int) =~= all);
    }
    room
}

/// No text.
pub fn no_texts() -> (list: Vec<String>)
    ensures
        text::texts(list@) == Seq::<Seq<char>>::empty(),
{
    let list: Vec<String> = Vec::new();
    proof {
        assert(text::texts(list@) =~= Seq::<Seq<char>>::empty());
    }
    list
}

/// One text.
pub fn one_text(first: String) -> (list: Vec<String>)
    ensures
        text::texts(list@) == seq![first@],
{
    let ghost model = first@;
    let mut list: Vec<String> = Vec::new();
    list.push(first);
    proof {
        assert(text::texts(list@) =~= seq![model]);
    }
    list
}

/// Two texts.
pub fn two_texts(first: String, second: String) -> (list: Vec<String>)
    ensures
        text::texts(list@) == seq![first@, second@],
{
    let ghost models = seq![first@, second@];
    let mut list: Vec<String> = Vec::new();
    list.push(first);
    list.push(second);
    proof {
        assert(text::texts(list@) =~= models);
    }
    list
}

/// Three texts.
pub fn three_texts(first: String, second: String, third: String) -> (list: Vec<String>)
    ensures
        text::texts(list@) == seq![first@, second@, third@],
{
    let ghost models = seq![first@, second@, third@];
    let mut list: Vec<String> = Vec::new();
    list.push(first);
    list.push(second);
    list.push(third);
    proof {
        assert(text::texts(list@) =~= models);
    }
    list
}

/// A row: the texts at its left, blanks, and the texts at its right. The texts stand in
/// pieces, so that each can have a colour of its own.
#[derive(Debug)]
pub struct RowText {
    pub left: Vec<String>,
    pub gap: usize,
    pub right: Vec<String>,
}

/// The model of a row.
pub struct RowModel {
    pub left: Seq<Seq<char>>,
    pub gap: nat,
    pub right: Seq<Seq<char>>,
}

impl View for RowText {
    type V = RowModel;

    open spec fn view(&self) -> RowModel {
        RowModel {
            left: text::texts(self.left@),
            gap: self.gap as nat,
            right: text::texts(self.right@),
        }
    }
}

/// A row whose right end stands at the right edge of a width.
pub open spec fn spread(left: Seq<Seq<char>>, right: Seq<Seq<char>>, width: nat) -> RowModel {
    RowModel {
        left,
        gap: if right.len() == 0 {
            0
        } else {
            room_behind(room_behind(width, left), right)
        },
        right,
    }
}

/// Texts, one behind the other.
pub open spec fn joined(pieces: Seq<Seq<char>>) -> Seq<char>
    decreases pieces.len(),
{
    if pieces.len() == 0 {
        Seq::empty()
    } else {
        joined(pieces.drop_last()) + pieces.last()
    }
}

/// A character, over and over.
pub open spec fn repeated(ch: char, count: nat) -> Seq<char> {
    Seq::new(count, |i: int| ch)
}

/// A row as one text.
pub open spec fn line_of(row: RowModel) -> Seq<char> {
    joined(row.left) + repeated(' ', row.gap) + joined(row.right)
}

/// Puts a character behind a text, over and over.
pub fn push_repeated(line: &mut String, ch: char, count: usize)
    ensures
        final(line)@ == old(line)@ + repeated(ch, count as nat),
{
    let ghost before = line@;
    let mut i: usize = 0;
    proof {
        assert(line@ =~= before + repeated(ch, 0));
    }
    while i < count
        invariant
            i <= count,
            line@ == before + repeated(ch, i as nat),
        decreases count - i,
    {
        line.push(ch);
        i = i + 1;
        proof {
            assert(line@ =~= before + repeated(ch, i as nat));
        }
    }
}

fn push_pieces(line: &mut String, pieces: &Vec<String>)
    ensures
        final(line)@ == old(line)@ + joined(text::texts(pieces@)),
{
    let ghost before = line@;
    let ghost all = text::texts(pieces@);
    let mut i: usize = 0;
    proof {
        assert(all.take(0) =~= Seq::empty());
        assert(line@ =~= before + joined(all.take(0)));
    }
    while i < pieces.len()
        invariant
            i <= pieces@.len(),
            all == text::texts(pieces@),
            line@ == before + joined(all.take(i as int)),
        decreases pieces@.len() - i,
    {
        proof {
            assert(all.take(i + 1).drop_last() =~= all.take(i as int));
        }
        line.append(pieces[i].as_str());
        i = i + 1;
        proof {
            assert(line@ =~= before + joined(all.take(i as int)));
        }
    }
    proof {
        assert(all.take(i as int) =~= all);
    }
}

impl RowText {
    /// A row whose right end stands at the right edge of a width.
    pub fn new(left: Vec<String>, right: Vec<String>, width: usize) -> (row: Self)
        ensures
            row@ == spread(text::texts(left@), text::texts(right@), width as nat),
    {
        let gap: usize = if right.len() == 0 {
            0
        } else {
            room_left(room_left(width, &left), &right)
        };
        RowText { left, gap, right }
    }

    /// The row as one text.
    pub fn line(&self) -> (line: String)
        ensures
            line@ == line_of(self@),
    {
        let mut line = String::new();
        push_pieces(&mut line, &self.left);
        push_repeated(&mut line, ' ', self.gap);
        push_pieces(&mut line, &self.right);
        proof {
            assert(line@ =~= line_of(self@));
        }
        line
    }
}

/// How many cells texts take.
pub open spec fn cells_of_all(pieces: Seq<Seq<char>>) -> nat
    decreases pieces.len(),
{
    if pieces.len() == 0 {
        0
    } else {
        cells_of_all(pieces.drop_last()) + cells::text_cells(pieces.last()) as nat
    }
}

proof fn room_is_what_is_not_taken(width: nat, pieces: Seq<Seq<char>>)
    ensures
        room_behind(width, pieces) == less(width, cells_of_all(pieces)),
    decreases pieces.len(),
{
    if pieces.len() > 0 {
        room_is_what_is_not_taken(width, pieces.drop_last());
    }
}

/// Where both ends fit, a row with a right end fills its width.
pub proof fn rows_fill_their_width(left: Seq<Seq<char>>, right: Seq<Seq<char>>, width: nat)
    requires
        right.len() > 0,
        cells_of_all(left) + cells_of_all(right) <= width,
    ensures
        cells_of_all(left) + spread(left, right, width).gap + cells_of_all(right) == width,
{
    room_is_what_is_not_taken(width, left);
    room_is_what_is_not_taken(room_behind(width, left), right);
}

proof fn first_joined(pieces: Seq<Seq<char>>)
    requires
        pieces.len() > 0,
    ensures
        joined(pieces) == pieces[0] + joined(pieces.skip(1)),
    decreases pieces.len(),
{
    if pieces.len() > 1 {
        let rest = pieces.drop_last();
        first_joined(rest);
        assert(rest.skip(1) =~= pieces.skip(1).drop_last());
        assert(joined(pieces) =~= pieces[0] + joined(pieces.skip(1)));
    } else {
        assert(pieces.drop_last() =~= Seq::<Seq<char>>::empty());
        assert(pieces.skip(1) =~= Seq::<Seq<char>>::empty());
        assert(joined(pieces) =~= pieces[0] + joined(pieces.skip(1)));
    }
}

/// A row starts with what stands left, ends with what stands right, and holds nothing but
/// blanks between; the pieces of a side stand behind each other.
pub proof fn rows_hold_both_sides(left: Seq<Seq<char>>, right: Seq<Seq<char>>, width: nat, i: int)
    ensures
        ({
            let row = spread(left, right, width);
            let shown = line_of(row);
            let from = joined(left).len() as int;
            let to = shown.len() - joined(right).len();
            &&& row.left == left && row.right == right
            &&& from <= to
            &&& shown.take(from) == joined(left)
            &&& shown.skip(to) == joined(right)
            &&& from <= i < to ==> shown[i] == ' '
            &&& right.len() == 0 ==> shown == joined(left)
        }),
        left.len() > 0 ==> joined(left) == left[0] + joined(left.skip(1)),
        joined(Seq::<Seq<char>>::empty()).len() == 0,
{
    let row = spread(left, right, width);
    let shown = line_of(row);
    let from = joined(left).len() as int;
    let to = shown.len() - joined(right).len();
    assert(shown.take(from) =~= joined(left));
    assert(shown.skip(to) =~= joined(right));
    if right.len() == 0 {
        assert(shown =~= joined(left));
    }
    if left.len() > 0 {
        first_joined(left);
    }
}

} // verus!
