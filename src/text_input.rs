use vstd::prelude::*;
use vstd::string::StrSliceExecFns;
use crate::input_range::InputRange;
use crate::lexer_input::{
    column_at, lemma_line_column_bounds, line_at, steps, LexerInput, Mark,
};

verus! {

/// An input source over a text held in memory.
pub struct TextInput {
    source: String,
    chars: Vec<char>,
    offset: usize,
    line: isize,
    column: isize,
    name: String,
}

impl TextInput {
    /// A cursor at the start of `source`, from the source called `name`.
    pub fn new(source: String, name: String) -> (r: TextInput)
        requires
            source@.len() < isize::MAX,
        ensures
            r.inv(),
            r.text() == source@,
            r.cursor() == 0,
    {
        let len = source.as_str().unicode_len();
        let mut chars: Vec<char> = Vec::new();
        let mut i: usize = 0;
        while i < len
            invariant
                len == source@.len(),
                i <= len,
                chars@ == source@.subrange(0, i as int),
            decreases len - i,
        {
            chars.push(source.as_str().get_char(i));
            i = i + 1;
            assert(chars@ =~= source@.subrange(0, i as int));
        }
        assert(chars@ =~= source@);
        TextInput {
            source,
            chars,
            offset: 0,
            line: InputRange::MIN_LINE,
            column: InputRange::MIN_COLUMN,
            name,
        }
    }

    /// Moves the cursor over one code point, unless it is at the end.
    fn step(&mut self)
        requires
            old(self).inv(),
        ensures
            final(self).inv(),
            final(self).text() == old(self).text(),
            final(self).cursor() == if old(self).cursor() < old(self).text().len() {
                old(self).cursor() + 1int
            } else {
                old(self).cursor() as int
            },
    {
        if self.offset < self.chars.len() {
            proof {
                lemma_line_column_bounds(self.chars@, self.offset + 1);
            }
            let c = self.chars[self.offset];
            self.offset = self.offset + 1;
            if c == '\n' {
                self.line = self.line + 1;
                self.column = InputRange::MIN_COLUMN;
            } else {
                self.column = self.column + 1;
            }
        }
    }
}

impl LexerInput for TextInput {
    closed spec fn text(&self) -> Seq<char> {
        self.chars@
    }

    closed spec fn cursor(&self) -> nat {
        self.offset as nat
    }

    closed spec fn inv(&self) -> bool {
        &&& self.source@ == self.chars@
        &&& self.chars@.len() < isize::MAX
        &&& self.offset <= self.chars@.len()
        &&& self.line == line_at(self.chars@, self.offset as int)
        &&& self.column == column_at(self.chars@, self.offset as int)
    }

    proof fn lemma_inv(&self) {
    }

    fn current(&self) -> (r: Option<char>) {
        if self.offset < self.chars.len() {
            Some(self.chars[self.offset])
        } else {
            None
        }
    }

    fn offset(&self) -> (r: isize) {
        self.offset as isize
    }

    fn column(&self) -> (r: isize) {
        self.column
    }

    fn line(&self) -> (r: isize) {
        self.line
    }

    fn position(&self) -> (r: (isize, isize, isize)) {
        (self.line, self.column, self.offset as isize)
    }

    fn consume(&mut self, n: Option<usize>) {
        let count: usize = match n {
            Some(k) => k,
            None => 1,
        };
        let start: Ghost<nat> = Ghost(self.offset as nat);
        let mut i: usize = 0;
        while i < count && self.offset < self.chars.len()
            invariant
                self.inv(),
                self.chars@ == old(self).chars@,
                count == steps(n),
                start@ == old(self).offset,
                i <= count,
                self.offset == start@ + i,
            decreases count - i,
        {
            self.step();
            i = i + 1;
        }
    }

    fn create_mark(&self) -> (m: Mark) {
        Mark { offset: self.offset, line: self.line, column: self.column }
    }

    fn reset(&mut self, mark: Mark) {
        self.offset = mark.offset;
        self.line = mark.line;
        self.column = mark.column;
    }

    fn look_ahead(&self, i: usize) -> (r: Option<char>) {
        if i < self.chars.len() - self.offset {
            Some(self.chars[self.offset + i])
        } else {
            None
        }
    }

    fn sub_sequence(&self, start: usize, end: usize) -> (r: Vec<char>) {
        let mut r: Vec<char> = Vec::new();
        let mut i: usize = start;
        while i < end
            invariant
                start <= i <= end <= self.chars@.len(),
                r@ == self.chars@.subrange(start as int, i as int),
            decreases end - i,
        {
            r.push(self.chars[i]);
            i = i + 1;
            assert(r@ =~= self.chars@.subrange(start as int, i as int));
        }
        r
    }

    fn sub_string(&self, start: usize, end: usize) -> (r: String) {
        self.source.as_str().substring_char(start, end).to_owned()
    }

    fn source_name(&self) -> String {
        self.name.clone()
    }

    fn non_eof(&self) -> (r: bool) {
        self.offset < self.chars.len()
    }
}

} // verus!
