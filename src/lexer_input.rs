use vstd::prelude::*;
use crate::input_range::InputRange;

verus! {

/// A point of the source: line, column and absolute offset.
#[derive(Clone, Copy, Debug, PartialEq, Eq, Structural)]
pub struct Position {
    pub line: isize,
    pub column: isize,
    pub position: isize,
}

/// A rewind point of an input source, made by `create_mark` and handed back to `reset`.
#[derive(Clone, Copy, Debug, PartialEq, Eq, Structural)]
pub struct Mark {
    pub offset: usize,
    pub line: isize,
    pub column: isize,
}

/// The character at offset `k` of `text`, or `None` past its end.
pub open spec fn char_at(text: Seq<char>, k: int) -> Option<char> {
    if 0 <= k < text.len() {
        Some(text[k])
    } else {
        None
    }
}

/// The line of offset `k`: the first line, plus one for each newline before `k`.
pub open spec fn line_at(text: Seq<char>, k: int) -> int
    decreases k,
{
    if k <= 0 {
        InputRange::MIN_LINE as int
    } else {
        line_at(text, k - 1) + if text[k - 1] == '\n' {
            1int
        } else {
            0int
        }
    }
}

/// The column of offset `k`: the number of characters since the last newline before `k`.
pub open spec fn column_at(text: Seq<char>, k: int) -> int
    decreases k,
{
    if k <= 0 {
        InputRange::MIN_COLUMN as int
    } else if text[k - 1] == '\n' {
        InputRange::MIN_COLUMN as int
    } else {
        column_at(text, k - 1) + 1
    }
}

/// The position of offset `k` of `text`.
pub open spec fn position_at(text: Seq<char>, k: int) -> Position {
    Position {
        line: line_at(text, k) as isize,
        column: column_at(text, k) as isize,
        position: k as isize,
    }
}

/// `m` is a rewind point of `text`: an offset within it with its line and column.
pub open spec fn marks(text: Seq<char>, m: Mark) -> bool {
    &&& m.offset <= text.len()
    &&& m.line == line_at(text, m.offset as int)
    &&& m.column == column_at(text, m.offset as int)
}

/// How many code points `consume(n)` moves over: `n`, one by default.
pub open spec fn steps(n: Option<usize>) -> nat {
    match n {
        Some(k) => k as nat,
        None => 1,
    }
}

/// Lines and columns stay within the offset that they describe.
pub proof fn lemma_line_column_bounds(text: Seq<char>, k: int)
    requires
        0 <= k <= text.len(),
    ensures
        InputRange::MIN_LINE <= line_at(text, k) <= k + 1,
        InputRange::MIN_COLUMN <= column_at(text, k) <= k,
    decreases k,
{
    if k > 0 {
        lemma_line_column_bounds(text, k - 1);
    }
}

/// A read-only, rewindable cursor over a source text, with line and column tracking.
pub trait LexerInput: Sized {
    /// The whole source text.
    spec fn text(&self) -> Seq<char>;

    /// The offset of the cursor in the text.
    spec fn cursor(&self) -> nat;

    /// The implementation's own well-formedness.
    spec fn inv(&self) -> bool;

    /// A well-formed input keeps its cursor within a text whose offsets fit an `isize`.
    proof fn lemma_inv(&self)
        requires
            self.inv(),
        ensures
            self.cursor() <= self.text().len(),
            self.text().len() < isize::MAX,
    ;

    /// The code point at the cursor, or `None` at the end of the input.
    fn current(&self) -> (r: Option<char>)
        requires
            self.inv(),
        ensures
            r == char_at(self.text(), self.cursor() as int),
    ;

    /// The absolute offset (0..n) of the current character.
    fn offset(&self) -> (r: isize)
        requires
            self.inv(),
        ensures
            r == self.cursor(),
    ;

    /// The column of the current character.
    fn column(&self) -> (r: isize)
        requires
            self.inv(),
        ensures
            r == column_at(self.text(), self.cursor() as int),
    ;

    /// The line of the current character.
    fn line(&self) -> (r: isize)
        requires
            self.inv(),
        ensures
            r == line_at(self.text(), self.cursor() as int),
    ;

    /// The triple (line, column, offset).
    fn position(&self) -> (r: (isize, isize, isize))
        requires
            self.inv(),
        ensures
            r.0 == line_at(self.text(), self.cursor() as int),
            r.1 == column_at(self.text(), self.cursor() as int),
            r.2 == self.cursor(),
    ;

    /// Consumes `n` code points (one when `n` is `None`), stopping at the end of the input.
    fn consume(&mut self, n: Option<usize>)
        requires
            old(self).inv(),
        ensures
            final(self).inv(),
            final(self).text() == old(self).text(),
            final(self).cursor() == if old(self).cursor() + steps(n) <= old(self).text().len() {
                old(self).cursor() + steps(n)
            } else {
                old(self).text().len()
            },
    ;

    /// Consumes code points while `p` holds of them, up to the end of the input.
    fn consume_while<F: Fn(char) -> bool>(&mut self, p: F)
        requires
            old(self).inv(),
            forall|c: char| call_requires(p, (c,)),
        ensures
            final(self).inv(),
            final(self).text() == old(self).text(),
            old(self).cursor() <= final(self).cursor() <= old(self).text().len(),
            forall|i: int|
                old(self).cursor() <= i < final(self).cursor() ==> call_ensures(
                    p,
                    (#[trigger] old(self).text()[i],),
                    true,
                ),
            final(self).cursor() < old(self).text().len() ==> call_ensures(
                p,
                (old(self).text()[final(self).cursor() as int],),
                false,
            ),
    {
        proof {
            self.lemma_inv();
        }
        loop
            invariant
                self.inv(),
                self.text() == old(self).text(),
                old(self).cursor() <= self.cursor() <= old(self).text().len(),
                forall|c: char| call_requires(p, (c,)),
                forall|i: int|
                    old(self).cursor() <= i < self.cursor() ==> call_ensures(
                        p,
                        (#[trigger] old(self).text()[i],),
                        true,
                    ),
            ensures
                self.inv(),
                self.text() == old(self).text(),
                old(self).cursor() <= self.cursor() <= old(self).text().len(),
                forall|i: int|
                    old(self).cursor() <= i < self.cursor() ==> call_ensures(
                        p,
                        (#[trigger] old(self).text()[i],),
                        true,
                    ),
                self.cursor() < old(self).text().len() ==> call_ensures(
                    p,
                    (old(self).text()[self.cursor() as int],),
                    false,
                ),
            decreases old(self).text().len() - self.cursor(),
        {
            match self.current() {
                Some(c) => {
                    if p(c) {
                        self.consume(None);
                        proof {
                            self.lemma_inv();
                        }
                    } else {
                        break ;
                    }
                },
                None => {
                    break ;
                },
            }
        }
    }

    /// Creates a mark in the input, so that it can be reset to it later.
    fn create_mark(&self) -> (m: Mark)
        requires
            self.inv(),
        ensures
            marks(self.text(), m),
            m.offset == self.cursor(),
    ;

    /// Resets the input to the point of `mark`.
    fn reset(&mut self, mark: Mark)
        requires
            old(self).inv(),
            marks(old(self).text(), mark),
        ensures
            final(self).inv(),
            final(self).text() == old(self).text(),
            final(self).cursor() == mark.offset,
    ;

    /// The character `i` code points ahead of the cursor (`i == 0` is the
    /// current one), or `None` past the end of the input.
    fn look_ahead(&self, i: usize) -> (r: Option<char>)
        requires
            self.inv(),
        ensures
            r == char_at(self.text(), self.cursor() + i),
    ;

    /// The code points from offset `start` up to offset `end`.
    fn sub_sequence(&self, start: usize, end: usize) -> (r: Vec<char>)
        requires
            self.inv(),
            start <= end <= self.text().len(),
        ensures
            r@ == self.text().subrange(start as int, end as int),
    ;

    /// The code points from offset `start` up to offset `end`, as a string.
    fn sub_string(&self, start: usize, end: usize) -> (r: String)
        requires
            self.inv(),
            start <= end <= self.text().len(),
        ensures
            r@ == self.text().subrange(start as int, end as int),
    ;

    /// The name of the source, if any (usually a file name); empty by default.
    fn source_name(&self) -> String {
        String::new()
    }

    /// True when the cursor is not at the end of the input.
    fn non_eof(&self) -> (r: bool)
        requires
            self.inv(),
        ensures
            r == (self.cursor() < self.text().len()),
    ;
}

} // verus!
