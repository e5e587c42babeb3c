//! A cursor over a sequence with one element of lookahead and a line counter.

use vstd::prelude::*;

verus! {

/// Elements that can tell whether they end a line.
pub trait Newline {
    spec fn newline(&self) -> bool;

    fn is_newline(&self) -> (b: bool)
        ensures
            b == self.newline(),
    ;
}

/// Elements that can be compared by kind, whatever they carry.
pub trait CmpType: Sized {
    spec fn same_type(&self, other: &Self) -> bool;

    fn cmp_type(&self, other: &Self) -> (b: bool)
        ensures
            b == self.same_type(other),
    ;
}

/// Elements with a value that stands for "nothing left".
pub trait Terminal: Sized {
    spec fn terminal_spec() -> Self;

    fn terminal() -> (t: Self)
        ensures
            t == Self::terminal_spec(),
    ;
}

/// How many of the first `n` elements of `items` end a line.
pub open spec fn newlines_before<T: Newline>(items: Seq<T>, n: int) -> nat
    decreases n,
{
    if n <= 0 || n > items.len() {
        0
    } else if items[n - 1].newline() {
        newlines_before(items, n - 1) + 1
    } else {
        newlines_before(items, n - 1)
    }
}

/// The number of the line reached after `newlines` line ends. Lines count
/// from 1, and the count stays at `usize::MAX` once it has got there.
pub open spec fn line_number(newlines: nat) -> usize {
    if newlines < usize::MAX {
        (newlines + 1) as usize
    } else {
        usize::MAX
    }
}

/// The element at index `i`, or the terminal element outside the sequence.
pub open spec fn element_at<T: Terminal>(items: Seq<T>, i: int) -> T {
    if 0 <= i < items.len() {
        items[i]
    } else {
        T::terminal_spec()
    }
}

/// A stretch without a line end leaves the count of line ends as it is.
pub proof fn lemma_newlines_same<T: Newline>(items: Seq<T>, from: int, to: int)
    requires
        0 <= from <= to <= items.len(),
        forall|k: int| from <= k < to ==> !(#[trigger] items[k]).newline(),
    ensures
        newlines_before(items, to) == newlines_before(items, from),
    decreases to - from,
{
    if from < to {
        lemma_newlines_same(items, from, to - 1);
    }
}

/// A read position in a sequence, with the number of the line it is on.
pub struct ScanIter<T> {
    items: Vec<T>,
    current: usize,
    line: usize,
    end: T,
}

impl<T: Newline + CmpType + Terminal> ScanIter<T> {
    /// The whole sequence, consumed part included.
    pub closed spec fn items(&self) -> Seq<T> {
        self.items@
    }

    /// How many elements have been consumed.
    pub closed spec fn position(&self) -> int {
        self.current as int
    }

    /// The line counter as it is stored.
    pub closed spec fn line_spec(&self) -> usize {
        self.line
    }

    /// The element handed out once the sequence is used up.
    pub closed spec fn end(&self) -> T {
        self.end
    }

    /// The position lies inside the sequence or just behind it, and the line
    /// counter agrees with the line ends consumed so far.
    pub open spec fn wf(&self) -> bool {
        &&& 0 <= self.position() <= self.items().len()
        &&& self.line_spec() == line_number(newlines_before(self.items(), self.position()))
        &&& self.end() == T::terminal_spec()
    }

    /// The element that `peek` shows.
    pub open spec fn current(&self) -> T {
        element_at(self.items(), self.position())
    }

    /// The position after one `advance`.
    pub open spec fn next_position(&self) -> int {
        if self.position() < self.items().len() {
            self.position() + 1
        } else {
            self.position()
        }
    }

    /// A cursor at the start of `items`, on line 1.
    pub fn new(items: Vec<T>) -> (s: Self)
        ensures
            s.wf(),
            s.items() == items@,
            s.position() == 0,
    {
        ScanIter { items, current: 0, line: 1, end: T::terminal() }
    }

    /// Whether every element has been consumed.
    pub fn is_at_end(&self) -> (b: bool)
        requires
            self.wf(),
        ensures
            b == (self.position() == self.items().len()),
    {
        self.current >= self.items.len()
    }

    /// The element at the position, which stays where it is. At the end it
    /// is the terminal element.
    pub fn peek(&self) -> (t: &T)
        requires
            self.wf(),
        ensures
            *t == self.current(),
    {
        if self.current < self.items.len() {
            &self.items[self.current]
        } else {
            &self.end
        }
    }

    /// The element consumed last.
    pub fn previous(&self) -> (t: &T)
        requires
            self.wf(),
            self.position() > 0,
        ensures
            *t == self.items()[self.position() - 1],
    {
        &self.items[self.current - 1]
    }

    /// Consumes one element, and counts it if it ends a line. At the end
    /// nothing changes.
    pub fn advance(&mut self)
        requires
            old(self).wf(),
        ensures
            final(self).wf(),
            final(self).items() == old(self).items(),
            final(self).position() == old(self).next_position(),
    {
        if self.current < self.items.len() {
            if self.items[self.current].is_newline() && self.line < usize::MAX {
                self.line = self.line + 1;
            }
            self.current = self.current + 1;
        }
    }

    /// The number of the line that the position is on.
    pub fn line(&self) -> (n: usize)
        requires
            self.wf(),
        ensures
            n == line_number(newlines_before(self.items(), self.position())),
    {
        self.line
    }

    /// Whether the element at the position is of the type of `expected`.
    pub fn check_item(&self, expected: T) -> (b: bool)
        requires
            self.wf(),
        ensures
            b == self.current().same_type(&expected),
    {
        self.peek().cmp_type(&expected)
    }

    /// Consumes the element at the position if it is of the type of
    /// `expected`, and says whether it was.
    pub fn match_item(&mut self, expected: T) -> (b: bool)
        requires
            old(self).wf(),
        ensures
            final(self).wf(),
            final(self).items() == old(self).items(),
            b == old(self).current().same_type(&expected),
            final(self).position() == if b {
                old(self).next_position()
            } else {
                old(self).position()
            },
    {
        if self.check_item(expected) {
            self.advance();
            true
        } else {
            false
        }
    }
}

} // verus!
