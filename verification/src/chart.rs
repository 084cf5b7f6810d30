//! The strip chart: a row of cells in which values are marked.
//!
//! A chart borrows a row of bytes and draws on an axis of as many columns.
//! A value gets its column from the chart's columnizer. A value off the axis
//! is not dropped: it is drawn in the nearest outer column with a mark of its
//! own, so that a reader can tell a value at the edge from one beyond it.

use vstd::prelude::*;
use crate::columnizer::lemma_range_stays_on_chart;
use crate::columnizer::Columnizer;
use crate::columnizer::RoundingColumnizer;

verus! {

/// The mark `<` of a value that lies before the first column.
pub const BELOW: u8 = 0x3c;

/// The mark `>` of a value that lies beyond the last column.
pub const ABOVE: u8 = 0x3e;

/// A row of cells, one per column, and the axis on which values are drawn
/// into it.
pub struct AsciiStripChart<'a> {
    columnizer: RoundingColumnizer,
    buf: &'a mut [u8],
}

impl<'a> View for AsciiStripChart<'a> {
    type V = Seq<u8>;

    /// The cells of the chart, column 0 first.
    closed spec fn view(&self) -> Seq<u8> {
        self.buf@
    }
}

impl<'a> AsciiStripChart<'a> {
    /// The columnizer by which the chart places its values.
    pub closed spec fn columnizer(&self) -> RoundingColumnizer {
        self.columnizer
    }

    /// The number of the last column.
    pub open spec fn max_col(&self) -> int {
        self@.len() - 1
    }

    /// A chart has one cell for each column of its columnizer, and so at
    /// least two.
    #[verifier::type_invariant]
    pub open spec fn wf(&self) -> bool {
        &&& self.columnizer().wf()
        &&& self.columnizer().max_col() == self.max_col()
    }

    /// True when `other` has the axis and the number of cells of `self`,
    /// whatever its cells hold.
    pub open spec fn same_frame(&self, other: &Self) -> bool {
        &&& other.columnizer() == self.columnizer()
        &&& other@.len() == self@.len()
    }

    /// The cell in which `at` is drawn, and the mark it gets there: `mark` in
    /// its own column where that is on the chart, `BELOW` in column 0 where
    /// its column is negative, `ABOVE` in the last column where its column is
    /// beyond the last.
    pub open spec fn cell_of(&self, mark: u8, at: i64) -> (usize, u8) {
        let col = self.columnizer().raw_col(at);
        if col < 0 {
            (0usize, BELOW)
        } else if col > self.max_col() {
            (self.max_col() as usize, ABOVE)
        } else {
            (col as usize, mark)
        }
    }

    /// True when `cells` holds what the chart holds in every cell but the one
    /// in which `at` is drawn, whatever it holds in that one.
    pub open spec fn same_elsewhere(&self, cells: Seq<u8>, mark: u8, at: i64) -> bool {
        &&& cells.len() == self@.len()
        &&& forall|j: int|
            0 <= j < cells.len() && j != self.cell_of(mark, at).0 ==> cells[j] == self@[j]
    }

    /// The cells once `at` is drawn with `mark`.
    pub open spec fn marked(&self, mark: u8, at: i64) -> Seq<u8> {
        self@.update(self.cell_of(mark, at).0 as int, self.cell_of(mark, at).1)
    }

    /// The cells `left`, with the cell in which `at` is drawn holding again
    /// what it holds in this chart.
    pub open spec fn put_back(&self, left: Seq<u8>, mark: u8, at: i64) -> Seq<u8> {
        left.update(self.cell_of(mark, at).0 as int, self@[self.cell_of(mark, at).0 as int])
    }

    /// Returns a chart that draws the values from `lo` to `hi` into `buf`:
    /// `lo` in the middle of the first cell, `hi` in the middle of the last.
    /// The cells keep what they hold.
    pub fn new(buf: &'a mut [u8], lo: i64, hi: i64) -> (chart: AsciiStripChart<'a>)
        requires
            old(buf)@.len() >= 2,
            lo != hi,
        ensures
            chart.wf(),
            chart@ == old(buf)@,
            chart.columnizer().lo() == lo,
            chart.columnizer().hi() == hi,
            chart.columnizer().max_col() == old(buf)@.len() - 1,
    {
        let max_col: usize = buf.len() - 1;
        AsciiStripChart { columnizer: RoundingColumnizer::new(lo, hi, max_col), buf }
    }

    /// Draws `at` with `mark` for as long as `f` runs, and puts back what the
    /// cell held before. `f` gets the chart with the mark in place and may
    /// draw on it in turn, so that several marks stand at once; it has to
    /// leave the chart its axis and its length.
    ///
    /// The cells afterwards are those that `f` left, with the one cell put
    /// back. Where `f` leaves the other cells as it found them, as `with`
    /// itself does, the whole row is as it was before the call: marks drawn
    /// inside one another come off in the reverse order.
    pub fn with<F: FnOnce(&mut Self)>(&mut self, mark: u8, at: i64, f: F)
        requires
            forall|c: &mut Self|
                c.wf() && old(self).same_frame(c) && c@ == old(self).marked(mark, at)
                    ==> #[trigger] f.requires((c,)),
            forall|c: &mut Self|
                c.wf() && old(self).same_frame(c) && c@ == old(self).marked(mark, at)
                    && #[trigger] f.ensures((c,), ()) ==> c.same_frame(final(c)),
        ensures
            old(self).same_frame(final(self)),
            exists|c: &mut Self|
                {
                    &&& c.wf()
                    &&& old(self).same_frame(c)
                    &&& c@ == old(self).marked(mark, at)
                    &&& #[trigger] f.ensures((c,), ())
                    &&& final(self)@ == old(self).put_back(final(c)@, mark, at)
                },
            (forall|c: &mut Self|
                old(self).same_frame(c) && c@ == old(self).marked(mark, at)
                    && #[trigger] f.ensures((c,), ())
                    ==> old(self).same_elsewhere(final(c)@, mark, at))
                ==> final(self)@ == old(self)@,
    {
        proof {
            use_type_invariant(&*self);
        }
        let (i, ch) = self.get_col(mark, at);
        let prev: u8 = self.buf[i];
        self.buf[i] = ch;
        f(self);
        proof {
            use_type_invariant(&*self);
        }
        self.buf[i] = prev;
    }

    /// Draws `at` with `mark` and returns what the cell held before. The mark
    /// stays: to take it off again is left to the caller.
    pub fn set(&mut self, mark: u8, at: i64) -> (prev: u8)
        ensures
            old(self).same_frame(final(self)),
            prev == old(self)@[old(self).cell_of(mark, at).0 as int],
            final(self)@ == old(self).marked(mark, at),
    {
        proof {
            use_type_invariant(&*self);
        }
        let (i, ch) = self.get_col(mark, at);
        let prev: u8 = self.buf[i];
        self.buf[i] = ch;
        prev
    }

    /// Given a value and a mark to draw it with, returns the cell to draw in,
    /// which is always one of the chart, and the mark to draw there. That is
    /// the mark given, unless the value is too low or too high, for which it
    /// is `BELOW` or `ABOVE`.
    pub fn get_col(&self, mark: u8, at: i64) -> (cell: (usize, u8))
        ensures
            cell == self.cell_of(mark, at),
            cell.0 <= self.max_col(),
            self.columnizer().raw_col(at) < 0 ==> cell == (0usize, BELOW),
            self.columnizer().raw_col(at) > self.max_col() ==> cell == (
                self.max_col() as usize,
                ABOVE,
            ),
    {
        proof {
            use_type_invariant(self);
        }
        let max_col: usize = self.buf.len() - 1;
        let col: isize = self.get_raw_col(at);
        if col < 0 {
            (0, BELOW)
        } else {
            let col: usize = col as usize;
            if col > max_col {
                (max_col, ABOVE)
            } else {
                (col, mark)
            }
        }
    }

    /// Gets the raw column number of `at`. It can be negative or beyond the
    /// last column: the caller has to check.
    pub fn get_raw_col(&self, at: i64) -> (col: isize)
        ensures
            col == self.columnizer().raw_col(at),
    {
        self.columnizer.get_raw_col(at)
    }

    /// The cells as they stand, column 0 first.
    pub fn as_bytes(&self) -> (cells: &[u8])
        ensures
            cells@ == self@,
    {
        &*self.buf
    }
}

/// A value from `lo` to `hi`, both included, is drawn in its own column with
/// its own mark: only values off the axis are flagged.
pub proof fn lemma_range_keeps_its_mark(chart: &AsciiStripChart<'_>, mark: u8, at: i64)
    requires
        chart.wf(),
        chart.columnizer().lo() <= at <= chart.columnizer().hi() || chart.columnizer().hi() <= at
            <= chart.columnizer().lo(),
    ensures
        chart.cell_of(mark, at) == (chart.columnizer().raw_col(at) as usize, mark),
{
    lemma_range_stays_on_chart(chart.columnizer(), at);
}

} // verus!
