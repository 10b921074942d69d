//! How wide text is on the screen.

use vstd::prelude::*;
use vstd::string::StringExecFns;

use crate::scan;
use crate::text::{chars_of, owned, text_of};

verus! {

/// How many cells of the screen a character takes, where it has a width.
pub uninterp spec fn char_cells(ch: char) -> Option<usize>;

/// How many cells of the screen a text takes.
pub uninterp spec fn text_cells(text: Seq<char>) -> usize;

/// Calls `unicode_width::UnicodeWidthChar::width`: the width that its tables give
/// a character outside East Asian contexts. Control characters have none, and
/// the printable characters of ASCII take one cell.
#[verifier::external_body]
fn char_width(ch: char) -> (cells: Option<usize>)
    ensures
        cells == char_cells(ch),
        cells is None <==> scan::is_control(ch),
        ' ' <= ch <= '~' ==> cells == Some(1usize),
{
    unicode_width::UnicodeWidthChar::width(ch)
}

/// Whether a text is made of the printable characters of ASCII.
pub open spec fn is_plain(text: Seq<char>) -> bool {
    forall|i: int| 0 <= i < text.len() ==> ' ' <= #[trigger] text[i] <= '~'
}

/// Calls `unicode_width::UnicodeWidthStr::width`: the width that its tables give a
/// text outside East Asian contexts. Of the printable characters of ASCII each takes
/// one cell.
#[verifier::external_body]
fn str_width(text: &str) -> (cells: usize)
    ensures
        cells == text_cells(text@),
        is_plain(text@) ==> cells == text@.len(),
{
    unicode_width::UnicodeWidthStr::width(text)
}

/// How many cells of the screen a text takes.
pub fn display_width(text: &str) -> (cells: usize)
    ensures
        cells == text_cells(text@),
        is_plain(text@) ==> cells == text@.len(),
{
    str_width(text)
}

/// How many cells each character takes; one without a width takes none.
pub open spec fn cells_of(text: Seq<char>) -> Seq<usize> {
    text.map_values(
        |ch: char|
            match char_cells(ch) {
                Some(cells) => cells,
                None => 0,
            },
    )
}

/// How many cells each character of a text takes.
pub fn char_widths(text: &str) -> (cells: Vec<usize>)
    ensures
        cells@ == cells_of(text@),
{
    let chars = chars_of(text);
    let mut cells: Vec<usize> = Vec::new();
    let mut i: usize = 0;
    while i < chars.len()
        invariant
            i <= chars@.len(),
            chars@ == text@,
            cells@ == cells_of(text@).take(i as int),
        decreases chars@.len() - i,
    {
        let width: usize = match char_width(chars[i]) {
            Some(found) => found,
            None => 0,
        };
        cells.push(width);
        i = i + 1;
        proof {
            assert(cells_of(text@).take(i as int) =~= cells_of(text@).take(i - 1).push(
                cells_of(text@)[i - 1],
            ));
        }
    }
    proof {
        assert(cells_of(text@).take(i as int) =~= cells_of(text@));
    }
    cells
}

/// Where the longest tail before `end` starts that takes at most `budget` cells.
pub open spec fn tail_start(cells: Seq<usize>, end: int, budget: int) -> int
    decreases end,
{
    if end <= 0 || end > cells.len() || cells[end - 1] > budget {
        end
    } else {
        tail_start(cells, end - 1, budget - cells[end - 1])
    }
}

/// The sum of the cells of a range.
pub open spec fn cells_between(cells: Seq<usize>, from: int, to: int) -> int
    decreases to - from,
{
    if from < 0 || from >= to || to > cells.len() {
        0
    } else {
        cells_between(cells, from, to - 1) + cells[to - 1]
    }
}

/// The end of a text that fits into `max_width` cells, behind a mark where
/// something was left out. `width` is how many cells the text takes, and `cells`
/// how many each character does.
pub open spec fn fitted_tail(
    text: Seq<char>,
    max_width: usize,
    width: usize,
    cells: Seq<usize>,
) -> Seq<char> {
    if max_width == 0 {
        Seq::<char>::empty()
    } else if width <= max_width {
        text
    } else {
        seq!['…'] + text.skip(tail_start(cells, text.len() as int, max_width - 1))
    }
}

/// The end of a text that fits into `max_width` cells, by the widths given.
pub fn fit_tail(text: &str, max_width: usize, width: usize, cells: &Vec<usize>) -> (tail: String)
    requires
        cells@.len() == text@.len(),
    ensures
        tail@ == fitted_tail(text@, max_width, width, cells@),
{
    if max_width == 0 {
        let tail = String::new();
        proof {
            assert(tail@ =~= Seq::<char>::empty());
        }
        return tail;
    }
    if width <= max_width {
        return owned(text);
    }
    let chars = chars_of(text);
    let mut budget: usize = max_width - 1;
    let mut start: usize = chars.len();
    while start > 0 && cells[start - 1] <= budget
        invariant
            start <= chars@.len() == cells@.len(),
            tail_start(cells@, chars@.len() as int, max_width - 1) == tail_start(
                cells@,
                start as int,
                budget as int,
            ),
        decreases start,
    {
        start = start - 1;
        budget = budget - cells[start];
    }
    let mut tail = String::new();
    tail.push('…');
    let rest = text_of(chars.as_slice(), start, chars.len());
    tail.append(rest.as_str());
    proof {
        assert(rest@ =~= text@.skip(start as int));
        assert(tail@ =~= seq!['…'] + text@.skip(start as int));
    }
    tail
}

/// The end of a text that fits into `max_width` cells, so that a cursor behind it
/// stays visible in a narrow box. A mark comes first where something was left
/// out.
pub fn tail_fit(text: &str, max_width: usize) -> (tail: String)
    ensures
        tail@ == fitted_tail(text@, max_width, text_cells(text@), cells_of(text@)),
{
    let cells = char_widths(text);
    fit_tail(text, max_width, display_width(text), &cells)
}

proof fn tail_fits(cells: Seq<usize>, end: int, budget: int)
    requires
        0 <= end <= cells.len(),
        0 <= budget,
    ensures
        0 <= tail_start(cells, end, budget) <= end,
        cells_between(cells, tail_start(cells, end, budget), end) <= budget,
    decreases end,
{
    if end > 0 && cells[end - 1] <= budget {
        tail_fits(cells, end - 1, budget - cells[end - 1]);
    }
}

/// What is kept of a text that is too wide takes fewer cells than there are, so
/// that the mark fits before it; and no longer end would.
pub proof fn kept_tail_fits(cells: Seq<usize>, max_width: usize)
    requires
        max_width > 0,
    ensures
        ({
            let start = tail_start(cells, cells.len() as int, max_width - 1);
            &&& 0 <= start <= cells.len()
            &&& cells_between(cells, start, cells.len() as int) < max_width
            &&& start > 0 ==> cells_between(cells, start - 1, cells.len() as int) >= max_width
        }),
{
    tail_fits(cells, cells.len() as int, max_width - 1);
    tail_is_longest(cells, cells.len() as int, max_width - 1);
}

proof fn tail_is_longest(cells: Seq<usize>, end: int, budget: int)
    requires
        0 <= end <= cells.len(),
        0 <= budget,
    ensures
        ({
            let start = tail_start(cells, end, budget);
            start > 0 ==> cells_between(cells, start - 1, end) > budget
        }),
    decreases end,
{
    tail_fits(cells, end, budget);
    if end > 0 && cells[end - 1] <= budget {
        tail_fits(cells, end - 1, budget - cells[end - 1]);
        tail_is_longest(cells, end - 1, budget - cells[end - 1]);
    } else if end > 0 {
        assert(cells_between(cells, end - 1, end - 1) == 0);
        assert(cells_between(cells, end - 1, end) == cells[end - 1]);
    }
}


// The beginning of a text.

/// Where the longest beginning from `from` on ends that takes at most `budget`
/// cells.
pub open spec fn head_end(cells: Seq<usize>, from: int, budget: int) -> int
    decreases cells.len() - from,
{
    if from < 0 || from >= cells.len() || cells[from] > budget {
        from
    } else {
        head_end(cells, from + 1, budget - cells[from])
    }
}

/// The beginning of a text that fits into `max_width` cells, before a mark where
/// something was left out. `width` is how many cells the text takes, and `cells`
/// how many each character does.
pub open spec fn fitted_head(
    text: Seq<char>,
    max_width: usize,
    width: usize,
    cells: Seq<usize>,
) -> Seq<char> {
    if max_width == 0 {
        Seq::<char>::empty()
    } else if width <= max_width {
        text
    } else {
        text.take(head_end(cells, 0, max_width - 1)).push('…')
    }
}

/// A text as it is shown in `max_width` cells.
pub open spec fn cut_to(text: Seq<char>, max_width: usize) -> Seq<char> {
    fitted_head(text, max_width, text_cells(text), cells_of(text))
}

/// The beginning of a text that fits into `max_width` cells, by the widths given.
pub fn fit_head(text: &str, max_width: usize, width: usize, cells: &Vec<usize>) -> (head: String)
    requires
        cells@.len() == text@.len(),
    ensures
        head@ == fitted_head(text@, max_width, width, cells@),
{
    if max_width == 0 {
        let head = String::new();
        proof {
            assert(head@ =~= Seq::<char>::empty());
        }
        return head;
    }
    if width <= max_width {
        return owned(text);
    }
    let chars = chars_of(text);
    let mut budget: usize = max_width - 1;
    let mut end: usize = 0;
    while end < chars.len() && cells[end] <= budget
        invariant
            end <= chars@.len() == cells@.len(),
            head_end(cells@, 0, max_width - 1) == head_end(cells@, end as int, budget as int),
        decreases chars@.len() - end,
    {
        budget = budget - cells[end];
        end = end + 1;
    }
    let mut head = text_of(chars.as_slice(), 0, end);
    proof {
        assert(head@ =~= text@.take(end as int));
    }
    head.push('…');
    head
}

/// A text as it is shown in `max_width` cells: whole where it fits, else its
/// beginning and a mark.
pub fn truncate_to_width(text: &str, max_width: usize) -> (shown: String)
    ensures
        shown@ == cut_to(text@, max_width),
{
    let cells = char_widths(text);
    fit_head(text, max_width, display_width(text), &cells)
}

proof fn head_fits(cells: Seq<usize>, from: int, budget: int)
    requires
        0 <= from <= cells.len(),
        0 <= budget,
    ensures
        from <= head_end(cells, from, budget) <= cells.len(),
        cells_between(cells, from, head_end(cells, from, budget)) <= budget,
        head_end(cells, from, budget) < cells.len() ==> cells_between(
            cells,
            from,
            head_end(cells, from, budget) + 1,
        ) > budget,
    decreases cells.len() - from,
{
    if from < cells.len() {
        if cells[from] <= budget {
            let end = head_end(cells, from, budget);
            head_fits(cells, from + 1, budget - cells[from]);
            cells_from_the_left(cells, from, end);
            if end < cells.len() {
                cells_from_the_left(cells, from, end + 1);
            }
        } else {
            assert(cells_between(cells, from, from) == 0);
            assert(cells_between(cells, from, from + 1) == cells[from]);
        }
    }
}

proof fn cells_from_the_left(cells: Seq<usize>, from: int, to: int)
    requires
        0 <= from < to <= cells.len(),
    ensures
        cells_between(cells, from, to) == cells[from] + cells_between(cells, from + 1, to),
    decreases to - from,
{
    if from + 1 < to {
        cells_from_the_left(cells, from, to - 1);
    } else {
        assert(cells_between(cells, from, from) == 0);
    }
}

/// What is kept of the beginning of a text that is too wide takes fewer cells than
/// there are, so that the mark fits behind it; and no longer beginning would.
pub proof fn kept_head_fits(cells: Seq<usize>, max_width: usize)
    requires
        max_width > 0,
    ensures
        ({
            let end = head_end(cells, 0, max_width - 1);
            &&& 0 <= end <= cells.len()
            &&& cells_between(cells, 0, end) < max_width
            &&& end < cells.len() ==> cells_between(cells, 0, end + 1) >= max_width
        }),
{
    head_fits(cells, 0, max_width - 1);
}

/// A text that fits is shown whole. One that does not is shown as far as it fits, from its
/// start or up to its end, with one mark in the place of the rest.
pub proof fn cut_texts_keep_what_fits(text: Seq<char>, max_width: usize)
    ensures
        text_cells(text) <= max_width && max_width > 0 ==> cut_to(text, max_width) == text,
        max_width == 0 ==> cut_to(text, max_width).len() == 0,
        text_cells(text) > max_width && max_width > 0 ==> {
            let shown = cut_to(text, max_width);
            &&& shown.last() == '…'
            &&& shown.len() <= text.len() + 1
            &&& shown.drop_last() == text.take(shown.len() - 1)
            &&& cells_between(cells_of(text), 0, shown.len() - 1) < max_width
            &&& shown.len() - 1 < text.len() ==> cells_between(cells_of(text), 0, shown.len() as int)
                >= max_width
        },
        text_cells(text) > max_width && max_width > 0 ==> {
            let shown = fitted_tail(text, max_width, text_cells(text), cells_of(text));
            &&& shown[0] == '…'
            &&& shown.drop_first() == text.skip(text.len() - (shown.len() - 1))
            &&& cells_between(
                cells_of(text),
                text.len() - (shown.len() - 1),
                text.len() as int,
            ) < max_width
        },
{
    let widths = cells_of(text);
    if max_width > 0 {
        kept_head_fits(widths, max_width);
        kept_tail_fits(widths, max_width);
        let end = head_end(widths, 0, max_width - 1);
        let start = tail_start(widths, text.len() as int, max_width - 1);
        assert(text.take(end).push('…').drop_last() =~= text.take(end));
        assert((seq!['…'] + text.skip(start)).drop_first() =~= text.skip(start));
    }
}

} // verus!
