//! One record to a line, tabs between its fields: what every file this browser
//! keeps looks like, and why what is written to one reads back.

use vstd::prelude::*;

use crate::list;
use crate::text;

verus! {

/// Whether a text holds `c` nowhere.
pub open spec fn free_of(s: Seq<char>, c: char) -> bool {
    forall|i: int| 0 <= i < s.len() ==> s[i] != c
}

/// Whether a text can be a line of its own: no newline in it, and no carriage
/// return at its end.
pub open spec fn one_line(s: Seq<char>) -> bool {
    free_of(s, '\n') && !(s.len() > 0 && s.last() == '\r')
}

/// Every row on a line of its own, each ended by a newline.
pub open spec fn sheet(rows: Seq<Seq<char>>) -> Seq<char>
    decreases rows.len(),
{
    if rows.len() == 0 {
        Seq::empty()
    } else {
        sheet(rows.drop_last()) + rows.last() + seq!['\n']
    }
}

/// Text without the separator only makes the last piece longer.
pub proof fn lemma_pieces_extend(a: Seq<char>, b: Seq<char>, sep: char)
    requires
        free_of(b, sep),
    ensures
        text::pieces(a, sep).len() >= 1,
        text::pieces(a + b, sep) == text::pieces(a, sep).drop_last().push(text::pieces(a, sep).last() + b),
    decreases b.len(),
{
    text::lemma_pieces_nonempty(a, sep);
    if b.len() == 0 {
        assert(a + b =~= a);
        assert(text::pieces(a, sep).last() + b =~= text::pieces(a, sep).last());
        assert(text::pieces(a, sep).drop_last().push(text::pieces(a, sep).last()) =~= text::pieces(a, sep));
    } else {
        let shorter = b.drop_last();
        lemma_pieces_extend(a, shorter, sep);
        assert((a + b).drop_last() =~= a + shorter);
        assert((a + b).last() == b.last());
        let before = text::pieces(a + shorter, sep);
        assert(before.drop_last() =~= text::pieces(a, sep).drop_last());
        assert((text::pieces(a, sep).last() + shorter).push(b.last()) =~= text::pieces(a, sep).last() + b);
        assert(text::pieces(a + b, sep) =~= text::pieces(a, sep).drop_last().push(text::pieces(a, sep).last() + b));
    }
}

/// The lines of a sheet are its rows.
pub proof fn lemma_lines_of_sheet(rows: Seq<Seq<char>>)
    requires
        forall|i: int| 0 <= i < rows.len() ==> one_line(#[trigger] rows[i]),
    ensures
        text::lines(sheet(rows)) == rows,
        text::pieces(sheet(rows), '\n') == rows.push(Seq::empty()),
    decreases rows.len(),
{
    if rows.len() == 0 {
        assert(text::pieces(sheet(rows), '\n') =~= rows.push(Seq::empty()));
    } else {
        let front = rows.drop_last();
        assert forall|i: int| 0 <= i < front.len() implies one_line(#[trigger] front[i]) by {
            assert(front[i] == rows[i]);
        }
        lemma_lines_of_sheet(front);
        let row = rows.last();
        assert(one_line(rows[rows.len() - 1]));
        lemma_pieces_extend(sheet(front), row, '\n');
        let text = sheet(front) + row;
        assert(text::pieces(text, '\n') =~= front.push(row)) by {
            assert(front.push(Seq::<char>::empty()).drop_last() =~= front);
            assert(Seq::<char>::empty() + row =~= row);
        }
        assert((text + seq!['\n']).drop_last() =~= text);
        assert((text + seq!['\n']).last() == '\n');
        assert(text::pieces(sheet(rows), '\n') =~= rows.push(Seq::empty()));
    }
    let all = text::pieces(sheet(rows), '\n');
    let ended = all.drop_last().map_values(|l: Seq<char>| text::line_end(l));
    assert(all.last().len() == 0);
    assert forall|i: int| 0 <= i < rows.len() implies ended[i] == rows[i] by {
        assert(one_line(rows[i]));
    }
    assert(ended =~= rows);
}

/// A field with no separator in it is cut off whole.
pub proof fn lemma_cut_field(field: Seq<char>, rest: Seq<char>, sep: char)
    requires
        free_of(field, sep),
    ensures
        text::cut_first(field + seq![sep] + rest, sep) == Some((field, rest)),
{
    let whole = field + seq![sep] + rest;
    assert forall|j: int| 0 <= j < field.len() implies whole[j] != sep by {
        assert(whole[j] == field[j]);
    }
    text::lemma_first_of(whole, sep, field.len() as int);
    assert(whole.take(field.len() as int) =~= field);
    assert(whole.skip(field.len() as int + 1) =~= rest);
}

/// A field with no separator after it is the only one left.
pub proof fn lemma_last_field(field: Seq<char>, n: nat, sep: char)
    requires
        free_of(field, sep) || n <= 1,
    ensures
        text::fields(field, n, sep) == seq![field],
{
    if n > 1 {
        text::lemma_first_of(field, sep, field.len() as int);
    }
}

/// A sheet of records reads back as the records, where each row reads back as
/// its record.
pub proof fn lemma_sheet_reads_back<T>(
    rows: Seq<Seq<char>>,
    read: spec_fn(Seq<char>) -> Option<T>,
    records: Seq<T>,
)
    requires
        rows.len() == records.len(),
        forall|i: int| 0 <= i < rows.len() ==> one_line(#[trigger] rows[i]),
        forall|i: int| 0 <= i < rows.len() ==> read(#[trigger] rows[i]) == Some(records[i]),
    ensures
        list::collected(text::lines(sheet(rows)), read) == records,
{
    lemma_lines_of_sheet(rows);
    list::lemma_collected_all(rows, read, records);
}

/// Lines with newlines between them are cut apart into the lines.
pub proof fn lemma_pieces_of_joined(rows: Seq<Seq<char>>)
    requires
        rows.len() > 0,
        forall|i: int| 0 <= i < rows.len() ==> free_of(#[trigger] rows[i], '\n'),
    ensures
        text::pieces(text::joined(rows, seq!['\n']), '\n') == rows,
    decreases rows.len(),
{
    let front = rows.drop_last();
    let row = rows.last();
    assert(free_of(rows[rows.len() - 1], '\n'));
    if rows.len() == 1 {
        let nothing = Seq::<char>::empty();
        lemma_pieces_extend(nothing, row, '\n');
        assert(nothing + row =~= row);
        assert(text::pieces(row, '\n') =~= rows);
    } else {
        assert forall|i: int| 0 <= i < front.len() implies free_of(#[trigger] front[i], '\n') by {
            assert(front[i] == rows[i]);
        }
        lemma_pieces_of_joined(front);
        let before = text::joined(front, seq!['\n']);
        let ended = before + seq!['\n'];
        assert(ended.drop_last() =~= before);
        assert(text::pieces(ended, '\n') =~= front.push(Seq::empty()));
        lemma_pieces_extend(ended, row, '\n');
        assert(Seq::<char>::empty() + row =~= row);
        assert(front.push(Seq::<char>::empty()).drop_last() =~= front);
        assert(text::pieces(ended + row, '\n') =~= rows);
    }
}

} // verus!
