use vstd::prelude::*;
use vstd::string::StrSliceExecFns;
use vstd::utf8::encode_utf8;
use crate::input_range::{range_of, InputRange};
use crate::lexer_input::{char_at, column_at, marks, position_at, steps, LexerInput, Mark, Position};
use crate::queue::Queue;
use crate::token::{Token, TokenData};

verus! {

/// A checkpoint of the lexer: the size of the token queue, the position mark
/// and a rewind point of the input.
pub struct LexerState {
    pub queue_size: usize,
    pub position: Position,
    pub mark: Mark,
}

/// What can be observed of a lexer: the queued tokens, the position mark, the
/// source text and the offset of the input's cursor.
pub struct LexerView<T: Token> {
    pub items: Seq<TokenData<T>>,
    pub mark: Position,
    pub text: Seq<char>,
    pub cursor: nat,
}

impl<T: Token> LexerView<T> {
    /// `after` is reached from `self` without changing the text or taking
    /// back a queued token: the tokens of `self` stay first in `after`.
    pub open spec fn grows_to(self, after: LexerView<T>) -> bool {
        &&& after.text == self.text
        &&& self.items.len() <= after.items.len()
        &&& after.items.subrange(0, self.items.len() as int) == self.items
    }

    /// The view after restoring the checkpoint `s`.
    pub open spec fn restored(self, s: LexerState) -> LexerView<T> {
        LexerView {
            items: self.items.subrange(0, s.queue_size as int),
            mark: s.position,
            text: self.text,
            cursor: s.mark.offset as nat,
        }
    }

    /// The view with the position mark moved to `m`.
    pub open spec fn with_mark(self, m: Position) -> LexerView<T> {
        LexerView { mark: m, ..self }
    }
}

/// The checkpoint `s` was taken of a lexer that looked like `v`.
pub open spec fn saved<T: Token>(s: LexerState, v: LexerView<T>) -> bool {
    &&& s.queue_size == v.items.len()
    &&& s.position == v.mark
    &&& s.mark.offset == v.cursor
    &&& marks(v.text, s.mark)
}

/// The token data for `token` over the input from `from` to `to`.
pub open spec fn token_over<T: Token>(token: T, from: Position, to: Position) -> TokenData<T> {
    TokenData {
        token,
        range: range_of(from.line, from.column, to.line, to.column),
        start: from.position,
        end: to.position,
    }
}

/// `s` sits at offset `k` of `text`.
pub open spec fn text_at(text: Seq<char>, k: int, s: Seq<char>) -> bool {
    &&& k + s.len() <= text.len()
    &&& text.subrange(k, k + s.len()) == s
}

/// Growing is transitive.
pub proof fn lemma_grows_transitive<T: Token>(a: LexerView<T>, b: LexerView<T>, c: LexerView<T>)
    requires
        a.grows_to(b),
        b.grows_to(c),
    ensures
        a.grows_to(c),
{
    assert(c.items.subrange(0, a.items.len() as int) =~= b.items.subrange(
        0,
        a.items.len() as int,
    ));
}

/// Restoring a checkpoint undoes whatever was emitted and consumed since it
/// was taken: the lexer looks exactly as it did at that moment.
pub proof fn lemma_restore_undoes<T: Token>(before: LexerView<T>, s: LexerState, after: LexerView<T>)
    requires
        saved(s, before),
        before.grows_to(after),
    ensures
        after.restored(s) == before,
{
    assert(after.restored(s).items =~= before.items);
}

/// A piece of grammar that the lexer can try: it may consume input and emit
/// tokens, and reports whether it matched.
pub trait Pattern<T: Token, L: LexerInput> {
    /// What an attempt from a lexer that looks like `before` may leave: the
    /// lexer looks like `after` and the attempt reported `matched`. By
    /// default nothing is known beyond what `attempt` states for every pattern.
    open spec fn outcome(&self, before: LexerView<T>, after: LexerView<T>, matched: bool) -> bool {
        true
    }

    /// Tries the pattern at the lexer's cursor.
    fn attempt(&self, lexer: &mut LexerEngine<T, L>) -> (matched: bool)
        requires
            old(lexer).wf(),
        ensures
            final(lexer).wf(),
            old(lexer)@.grows_to(final(lexer)@),
            self.outcome(old(lexer)@, final(lexer)@, matched),
    ;
}

/// `chain` is a run of matching attempts of `p`: each view is what a
/// matching attempt from the one before it may leave.
pub open spec fn matched_run<T: Token, L: LexerInput, P: Pattern<T, L>>(
    p: P,
    chain: Seq<LexerView<T>>,
) -> bool {
    forall|i: int| 0 < i < chain.len() ==> #[trigger] p.outcome(chain[i - 1], chain[i], true)
}

/// A repetition of `p` may end at the last view of `chain`: at the end of the
/// input, where an attempt of `p` may fail, or after a match that did not
/// move the cursor forward.
pub open spec fn run_ends<T: Token, L: LexerInput, P: Pattern<T, L>>(
    p: P,
    chain: Seq<LexerView<T>>,
) -> bool {
    let last = chain.last();
    ||| last.cursor >= last.text.len()
    ||| exists|after: LexerView<T>| p.outcome(last, after, false)
    ||| (chain.len() >= 2 && last.cursor <= chain[chain.len() - 2].cursor)
}

/// The lexer went from `before` to `after` by repeating `p` as long as it
/// matched, keeping every match and nothing of the attempt that failed.
pub open spec fn repeated<T: Token, L: LexerInput, P: Pattern<T, L>>(
    p: P,
    before: LexerView<T>,
    after: LexerView<T>,
) -> bool {
    exists|chain: Seq<LexerView<T>>|
        {
            &&& chain.len() >= 1
            &&& chain[0] == before
            &&& chain.last() == after
            &&& matched_run(p, chain)
            &&& run_ends(p, chain)
        }
}

/// A grammar: the hooks through which the lexer turns characters into tokens.
pub trait Lexer<T: Token, L: LexerInput> {
    /// What `find_token` on `chr` may leave, from a lexer that looks like
    /// `before`. By default nothing is known beyond what `find_token` states
    /// for every grammar.
    open spec fn finds(&self, before: LexerView<T>, chr: char, after: LexerView<T>) -> bool {
        true
    }

    /// What `process_pending` may leave, from a lexer that looks like
    /// `before`. By default nothing is known beyond what `process_pending`
    /// states for every grammar.
    open spec fn drains(&self, before: LexerView<T>, after: LexerView<T>) -> bool {
        true
    }

    /// Looks at the input from its current character `chr` on: consumes input
    /// or emits a token, or both, and never takes a queued token back.
    fn find_token(&mut self, lexer: &mut LexerEngine<T, L>, chr: char)
        requires
            old(lexer).wf(),
            char_at(old(lexer)@.text, old(lexer)@.cursor as int) == Some(chr),
        ensures
            final(lexer).wf(),
            old(lexer)@.grows_to(final(lexer)@),
            final(lexer)@.cursor >= old(lexer)@.cursor,
            final(lexer)@.cursor > old(lexer)@.cursor || final(lexer)@.items.len() > old(
                lexer,
            )@.items.len(),
            old(self).finds(old(lexer)@, chr, final(lexer)@),
    ;

    /// Called at the end of the input: emits at least one token, such as the
    /// end-of-input token.
    fn process_pending(&mut self, lexer: &mut LexerEngine<T, L>)
        requires
            old(lexer).wf(),
            old(lexer)@.cursor >= old(lexer)@.text.len(),
        ensures
            final(lexer).wf(),
            old(lexer)@.grows_to(final(lexer)@),
            final(lexer)@.cursor >= old(lexer)@.cursor,
            final(lexer)@.items.len() > old(lexer)@.items.len(),
            old(self).drains(old(lexer)@, final(lexer)@),
    ;
}

/// One call of a hook of `g` that `advance` makes from `before`, leaving
/// `after`: `find_token` on the current character, or `process_pending` at
/// the end of the input.
pub open spec fn hook_step<T: Token, L: LexerInput, G: Lexer<T, L>>(
    g: G,
    before: LexerView<T>,
    after: LexerView<T>,
) -> bool {
    &&& before.grows_to(after)
    &&& after.cursor >= before.cursor
    &&& if before.cursor < before.text.len() {
        &&& g.finds(before, before.text[before.cursor as int], after)
        &&& (after.cursor > before.cursor || after.items.len() > before.items.len())
    } else {
        &&& g.drains(before, after)
        &&& after.items.len() > before.items.len()
    }
}

/// `views` and `grammars` are the states of a lexer and its grammar along the
/// hook calls of `advance`: each pair is one hook step from the one before,
/// and only the last lexer has a token queued.
pub open spec fn hook_run<T: Token, L: LexerInput, G: Lexer<T, L>>(
    grammars: Seq<G>,
    views: Seq<LexerView<T>>,
) -> bool {
    &&& grammars.len() == views.len()
    &&& views.len() >= 1
    &&& forall|i: int|
        0 < i < views.len() ==> #[trigger] hook_step(grammars[i - 1], views[i - 1], views[i])
    &&& forall|i: int| 0 <= i < views.len() - 1 ==> (#[trigger] views[i]).items.len() == 0
    &&& views.last().items.len() > 0
}

/// The engine of a lexer: an input source, the queue of emitted tokens, the
/// position where the next token starts, and the current token.
pub struct LexerEngine<T: Token, L: LexerInput> {
    input: L,
    queue: Queue<TokenData<T>>,
    mark: Position,
    current: Option<TokenData<T>>,
}

impl<T: Token, L: LexerInput> View for LexerEngine<T, L> {
    type V = LexerView<T>;

    closed spec fn view(&self) -> LexerView<T> {
        LexerView {
            items: self.queue@,
            mark: self.mark,
            text: self.input.text(),
            cursor: self.input.cursor(),
        }
    }
}

impl<T: Token, L: LexerInput> LexerEngine<T, L> {
    /// The input source.
    pub closed spec fn source(&self) -> L {
        self.input
    }

    /// The current token, set by `advance`.
    pub closed spec fn current_token(&self) -> Option<TokenData<T>> {
        self.current
    }

    /// Well-formedness: the input is well formed.
    pub closed spec fn wf(&self) -> bool {
        self.input.inv()
    }

    /// The position of the input's cursor.
    pub open spec fn here(&self) -> Position {
        position_at(self@.text, self@.cursor as int)
    }

    /// Facts that every well-formed engine has.
    pub proof fn lemma_wf(&self)
        requires
            self.wf(),
        ensures
            self@.cursor <= self@.text.len(),
            self@.text.len() < isize::MAX,
            self@.text == self.source().text(),
            self@.cursor == self.source().cursor(),
            self.source().inv(),
    {
        self.input.lemma_inv();
    }

    /// A lexer over `input`, with no token yet and the mark at the input's cursor.
    pub fn new(input: L) -> (r: Self)
        requires
            input.inv(),
        ensures
            r.wf(),
            r.source() == input,
            r@.items == Seq::<TokenData<T>>::empty(),
            r@.mark == position_at(input.text(), input.cursor() as int),
            r.current_token() is None,
    {
        let (line, column, position) = input.position();
        LexerEngine {
            input,
            queue: Queue::build(),
            mark: Position { line, column, position },
            current: None,
        }
    }

    /// The input source.
    pub fn input(&self) -> (r: &L)
        ensures
            *r == self.source(),
    {
        &self.input
    }

    /// The current token in the input stream, if `advance` has set one.
    pub fn token(&self) -> (r: Option<&T>)
        ensures
            match self.current_token() {
                Some(d) => r == Some(&d.token),
                None => r is None,
            },
    {
        match &self.current {
            Some(d) => Some(&d.token),
            None => None,
        }
    }

    /// All the data of the current token, if `advance` has set one.
    pub fn token_data(&self) -> (r: Option<&TokenData<T>>)
        ensures
            match self.current_token() {
                Some(d) => r == Some(&d),
                None => r is None,
            },
    {
        match &self.current {
            Some(d) => Some(d),
            None => None,
        }
    }

    /// The offsets of the current token, if there is a current token and
    /// its offsets lie within the input.
    fn token_bounds(&self) -> (r: Option<(usize, usize)>)
        requires
            self.wf(),
        ensures
            match self.current_token() {
                Some(d) => if 0 <= d.start <= d.end <= self@.text.len() {
                    r == Some((d.start as usize, d.end as usize))
                } else {
                    r is None
                },
                None => r is None,
            },
    {
        proof {
            self.lemma_wf();
        }
        match &self.current {
            Some(d) => {
                if d.start < 0 || d.start > d.end {
                    return None;
                }
                let offset = self.input.offset();
                // Past the cursor, the end lies within the input when the
                // character just before it exists.
                if d.end > offset && self.input.look_ahead((d.end - offset - 1) as usize).is_none() {
                    return None;
                }
                Some((d.start as usize, d.end as usize))
            },
            None => None,
        }
    }

    /// The code points that the current token was emitted over, if there is
    /// a current token and its offsets lie within the input.
    pub fn token_text(&self) -> (r: Option<Vec<char>>)
        requires
            self.wf(),
        ensures
            match self.current_token() {
                Some(d) => if 0 <= d.start <= d.end <= self@.text.len() {
                    r matches Some(t) && t@ == self@.text.subrange(d.start as int, d.end as int)
                } else {
                    r is None
                },
                None => r is None,
            },
    {
        match self.token_bounds() {
            Some((start, end)) => Some(self.input.sub_sequence(start, end)),
            None => None,
        }
    }

    /// The text that the current token was emitted over, if there is a
    /// current token and its offsets lie within the input.
    pub fn token_string(&self) -> (r: Option<String>)
        requires
            self.wf(),
        ensures
            match self.current_token() {
                Some(d) => if 0 <= d.start <= d.end <= self@.text.len() {
                    r matches Some(t) && t@ == self@.text.subrange(d.start as int, d.end as int)
                } else {
                    r is None
                },
                None => r is None,
            },
    {
        match self.token_bounds() {
            Some((start, end)) => Some(self.input.sub_string(start, end)),
            None => None,
        }
    }

    /// The position where the next token starts.
    pub fn mark(&self) -> (r: Position)
        ensures
            r == self@.mark,
    {
        self.mark
    }

    /// Moves the position where the next token starts.
    pub fn set_mark(&mut self, mark: Position)
        ensures
            final(self).wf() == old(self).wf(),
            final(self)@ == old(self)@.with_mark(mark),
            final(self).current_token() == old(self).current_token(),
    {
        self.mark = mark;
    }

    /// The position of the input's cursor.
    pub fn position(&self) -> (r: Position)
        requires
            self.wf(),
        ensures
            r == self.here(),
    {
        let (line, column, position) = self.input.position();
        Position { line, column, position }
    }

    /// True if no token is waiting in the queue.
    pub fn non_token_emitted(&self) -> (r: bool)
        ensures
            r == (self@.items.len() == 0),
    {
        self.queue.is_empty()
    }

    /// Emits a token for the region from the mark to the cursor, and moves
    /// the mark to the cursor.
    pub fn emit1(&mut self, token: T) -> (r: bool)
        requires
            old(self).wf(),
        ensures
            r,
            final(self).wf(),
            final(self)@ == (LexerView {
                items: old(self)@.items.push(token_over(token, old(self)@.mark, old(self).here())),
                mark: old(self).here(),
                ..old(self)@
            }),
            final(self).current_token() == old(self).current_token(),
    {
        let mark = self.mark;
        let new_mark = self.position();
        let range = InputRange::build(mark.line, mark.column, new_mark.line, new_mark.column);
        let token_data = TokenData { token, range, start: mark.position, end: new_mark.position };
        self.queue.append(token_data);
        self.mark = new_mark;
        true
    }

    /// Emits two tokens: the first from the mark to the cursor, the second
    /// empty, at the cursor.
    pub fn emit2(&mut self, token1: T, token2: T) -> (r: bool)
        requires
            old(self).wf(),
        ensures
            r,
            final(self).wf(),
            final(self)@ == (LexerView {
                items: old(self)@.items.push(
                    token_over(token1, old(self)@.mark, old(self).here()),
                ).push(token_over(token2, old(self).here(), old(self).here())),
                mark: old(self).here(),
                ..old(self)@
            }),
            final(self).current_token() == old(self).current_token(),
    {
        self.emit1(token1);
        self.emit1(token2)
    }

    /// Emits two tokens over the same region, from the mark to the cursor.
    pub fn emit2_for_mark(&mut self, token1: T, token2: T) -> (r: bool)
        requires
            old(self).wf(),
        ensures
            r,
            final(self).wf(),
            final(self)@ == (LexerView {
                items: old(self)@.items.push(
                    token_over(token1, old(self)@.mark, old(self).here()),
                ).push(token_over(token2, old(self)@.mark, old(self).here())),
                mark: old(self).here(),
                ..old(self)@
            }),
            final(self).current_token() == old(self).current_token(),
    {
        let initial_mark = self.mark;
        self.emit1(token1);
        self.set_mark(initial_mark);
        self.emit1(token2)
    }

    /// Moves the mark to the cursor, so that the next token starts there.
    pub fn reset(&mut self)
        requires
            old(self).wf(),
        ensures
            final(self).wf(),
            final(self)@ == old(self)@.with_mark(old(self).here()),
            final(self).current_token() == old(self).current_token(),
    {
        let current_position = self.position();
        self.set_mark(current_position)
    }

    /// Takes a checkpoint of the queue size, the mark and the input.
    pub fn save_state(&self) -> (r: LexerState)
        requires
            self.wf(),
        ensures
            saved(r, self@),
    {
        let queue_size = self.queue.size();
        let mark = self.mark;
        let input_mark = self.input.create_mark();
        LexerState { queue_size, position: mark, mark: input_mark }
    }

    /// Goes back to the checkpoint `lexer_state`: drops the tokens queued
    /// since, and rewinds the mark and the input.
    pub fn restore_state(&mut self, lexer_state: LexerState)
        requires
            old(self).wf(),
            lexer_state.queue_size <= old(self)@.items.len(),
            marks(old(self)@.text, lexer_state.mark),
        ensures
            final(self).wf(),
            final(self)@ == old(self)@.restored(lexer_state),
            final(self).current_token() == old(self).current_token(),
    {
        self.queue.reduce_to(lexer_state.queue_size);
        self.mark = lexer_state.position;
        self.input.reset(lexer_state.mark);
        assert(self@.items =~= old(self)@.restored(lexer_state).items);
    }

    /// The character at the cursor, or `None` at the end of the input.
    pub fn current_char(&self) -> (r: Option<char>)
        requires
            self.wf(),
        ensures
            r == char_at(self@.text, self@.cursor as int),
    {
        self.input.current()
    }

    /// The character `n` code points ahead of the cursor, or `None` past the end.
    pub fn look_ahead(&self, n: usize) -> (r: Option<char>)
        requires
            self.wf(),
        ensures
            r == char_at(self@.text, self@.cursor + n),
    {
        self.input.look_ahead(n)
    }

    /// Consumes `n` code points (one when `n` is `None`), stopping at the end of the input.
    pub fn consume(&mut self, n: Option<usize>)
        requires
            old(self).wf(),
        ensures
            final(self).wf(),
            final(self)@ == (LexerView {
                cursor: if old(self)@.cursor + steps(n) <= old(self)@.text.len() {
                    old(self)@.cursor + steps(n)
                } else {
                    old(self)@.text.len()
                },
                ..old(self)@
            }),
            final(self).current_token() == old(self).current_token(),
    {
        self.input.consume(n);
    }

    /// Consumes code points while `p` holds of them, up to the end of the input.
    pub fn consume_while<F: Fn(char) -> bool>(&mut self, p: F)
        requires
            old(self).wf(),
            forall|c: char| call_requires(p, (c,)),
        ensures
            final(self).wf(),
            final(self)@ == (LexerView { cursor: final(self)@.cursor, ..old(self)@ }),
            old(self)@.cursor <= final(self)@.cursor <= old(self)@.text.len(),
            forall|i: int|
                old(self)@.cursor <= i < final(self)@.cursor ==> call_ensures(
                    p,
                    (#[trigger] old(self)@.text[i],),
                    true,
                ),
            final(self)@.cursor < old(self)@.text.len() ==> call_ensures(
                p,
                (old(self)@.text[final(self)@.cursor as int],),
                false,
            ),
            final(self).current_token() == old(self).current_token(),
    {
        self.input.consume_while(p)
    }

    /// Consumes the current character if it is `c`.
    pub fn consume_char(&mut self, c: char) -> (r: bool)
        requires
            old(self).wf(),
        ensures
            final(self).wf(),
            r == (char_at(old(self)@.text, old(self)@.cursor as int) == Some(c)),
            final(self)@ == (LexerView {
                cursor: if r {
                    old(self)@.cursor + 1
                } else {
                    old(self)@.cursor
                },
                ..old(self)@
            }),
            final(self).current_token() == old(self).current_token(),
    {
        match self.current_char() {
            Some(current) => {
                if current == c {
                    self.consume(None);
                    true
                } else {
                    false
                }
            },
            None => false,
        }
    }

    /// True when the input at the cursor starts with `t`.
    fn text_follows(&self, t: &str) -> (r: bool)
        requires
            self.wf(),
        ensures
            r == text_at(self@.text, self@.cursor as int, t@),
    {
        let len = t.unicode_len();
        let mut i: usize = 0;
        while i < len
            invariant
                self.wf(),
                len == t@.len(),
                i <= len,
                forall|j: int|
                    0 <= j < i ==> char_at(self@.text, self@.cursor + j) == Some(#[trigger] t@[j]),
            decreases len - i,
        {
            if self.look_ahead(i) != Some(t.get_char(i)) {
                proof {
                    if text_at(self@.text, self@.cursor as int, t@) {
                        let window = self@.text.subrange(
                            self@.cursor as int,
                            (self@.cursor + t@.len()) as int,
                        );
                        assert(window[i as int] == t@[i as int]);
                    }
                }
                return false;
            }
            i = i + 1;
        }
        proof {
            self.lemma_wf();
            if len > 0 {
                assert(char_at(self@.text, self@.cursor + (len - 1)) == Some(t@[len - 1]));
            }
            let window = self@.text.subrange(
                self@.cursor as int,
                (self@.cursor + t@.len()) as int,
            );
            assert(window =~= t@);
        }
        true
    }

    /// The length of `s` in UTF-8 bytes if the input at the cursor starts
    /// with it, else 0.
    pub fn check(&self, s: &String) -> (r: usize)
        requires
            self.wf(),
        ensures
            r == if text_at(self@.text, self@.cursor as int, s@) {
                encode_utf8(s@).len() as usize
            } else {
                0
            },
    {
        let t = s.as_str();
        if self.text_follows(t) {
            t.len()
        } else {
            0
        }
    }

    /// Consumes `s` if it is not empty and the input at the cursor starts with it.
    pub fn consume_string(&mut self, s: &String) -> (r: bool)
        requires
            old(self).wf(),
        ensures
            final(self).wf(),
            r == (s@.len() > 0 && text_at(old(self)@.text, old(self)@.cursor as int, s@)),
            final(self)@ == (LexerView {
                cursor: if r {
                    old(self)@.cursor + s@.len()
                } else {
                    old(self)@.cursor
                },
                ..old(self)@
            }),
            final(self).current_token() == old(self).current_token(),
    {
        let t = s.as_str();
        let n = t.unicode_len();
        if n == 0 || !self.text_follows(t) {
            return false;
        }
        let ghost start = self@;
        let mut i: usize = 0;
        while i < n
            invariant
                self.wf(),
                t@ == s@,
                n == s@.len(),
                i <= n,
                text_at(start.text, start.cursor as int, s@),
                self@ == (LexerView { cursor: (start.cursor + i) as nat, ..start }),
                self.current_token() == old(self).current_token(),
            decreases n - i,
        {
            let c = t.get_char(i);
            proof {
                let window = start.text.subrange(
                    start.cursor as int,
                    (start.cursor + s@.len()) as int,
                );
                assert(window[i as int] == s@[i as int]);
            }
            let matched = self.consume_char(c);
            assert(matched);
            i = i + 1;
        }
        true
    }

    /// Consumes `n` code points (one when `n` is `None`) and emits a token up to the cursor.
    pub fn consume_and_emit(&mut self, n: Option<usize>, token: T) -> (r: bool)
        requires
            old(self).wf(),
        ensures
            r,
            final(self).wf(),
            ({
                let k = if old(self)@.cursor + steps(n) <= old(self)@.text.len() {
                    (old(self)@.cursor + steps(n)) as int
                } else {
                    old(self)@.text.len() as int
                };
                let to = position_at(old(self)@.text, k);
                final(self)@ == (LexerView {
                    items: old(self)@.items.push(token_over(token, old(self)@.mark, to)),
                    mark: to,
                    cursor: k as nat,
                    ..old(self)@
                })
            }),
            final(self).current_token() == old(self).current_token(),
    {
        self.consume(n);
        self.emit1(token)
    }

    /// Consumes one code point, then emits `token1` up to the cursor and an
    /// empty `token2` at the cursor.
    pub fn consume_and_emit2(&mut self, token1: T, token2: T) -> (r: bool)
        requires
            old(self).wf(),
        ensures
            r,
            final(self).wf(),
            ({
                let k = if old(self)@.cursor < old(self)@.text.len() {
                    (old(self)@.cursor + 1) as int
                } else {
                    old(self)@.cursor as int
                };
                let to = position_at(old(self)@.text, k);
                final(self)@ == (LexerView {
                    items: old(self)@.items.push(token_over(token1, old(self)@.mark, to)).push(
                        token_over(token2, to, to),
                    ),
                    mark: to,
                    cursor: k as nat,
                    ..old(self)@
                })
            }),
            final(self).current_token() == old(self).current_token(),
    {
        proof {
            self.lemma_wf();
        }
        self.consume(None);
        self.emit1(token1);
        self.emit1(token2)
    }

    /// True when the cursor is not at the end of the input.
    pub fn non_eof(&self) -> (r: bool)
        requires
            self.wf(),
        ensures
            r == (self@.cursor < self@.text.len()),
    {
        self.input.non_eof()
    }

    /// True when the cursor stands at the start of a line.
    pub fn begin_of_line(&self) -> (r: bool)
        requires
            self.wf(),
        ensures
            r == (column_at(self@.text, self@.cursor as int) == InputRange::MIN_COLUMN),
    {
        self.input.column() == InputRange::MIN_COLUMN
    }

    /// Marks a part of a rule as optional: whether or not it matched, the rule goes on.
    pub fn optional(_matched: bool) -> (r: bool)
        ensures
            r,
    {
        true
    }

    /// Tries `p`; where it does not match, everything it consumed and emitted is undone.
    pub fn matches<P: Pattern<T, L>>(&mut self, p: &P) -> (r: bool)
        requires
            old(self).wf(),
        ensures
            final(self).wf(),
            old(self)@.grows_to(final(self)@),
            r ==> p.outcome(old(self)@, final(self)@, true),
            !r ==> final(self)@ == old(self)@,
            !r ==> exists|after: LexerView<T>| p.outcome(old(self)@, after, false),
    {
        let s = self.save_state();
        let ghost before = self@;
        proof {
            assert(before.items.subrange(0, before.items.len() as int) =~= before.items);
        }
        let result = p.attempt(self);
        if !result {
            let ghost after = self@;
            proof {
                lemma_restore_undoes(before, s, after);
            }
            self.restore_state(s);
        }
        result
    }

    /// Repeats `p` from the lexer's state `start` (taken as checkpoint `s`)
    /// while the input lasts, `p` matches and the cursor moves forward; keeps
    /// every match and undoes the attempt that failed.
    fn repeat<P: Pattern<T, L>>(&mut self, p: &P, s: LexerState, Ghost(run): Ghost<Seq<LexerView<T>>>)
        requires
            old(self).wf(),
            run.len() >= 1,
            run.last() == old(self)@,
            saved(s, old(self)@),
            matched_run(*p, run),
            run[0].grows_to(old(self)@),
        ensures
            final(self).wf(),
            run[0].grows_to(final(self)@),
            repeated(*p, run[0], final(self)@),
            old(self)@.cursor >= old(self)@.text.len() ==> final(self)@ == old(self)@,
    {
        let mut s = s;
        let ghost mut chain = run;
        loop
            invariant
                chain[0] == run[0],
                old(self)@.cursor >= old(self)@.text.len() ==> self@ == old(self)@,
                self.wf(),
                chain.len() >= 1,
                chain.last() == self@,
                saved(s, self@),
                matched_run(*p, chain),
                chain[0].grows_to(self@),
            ensures
                chain[0] == run[0],
                old(self)@.cursor >= old(self)@.text.len() ==> self@ == old(self)@,
                self.wf(),
                chain.len() >= 1,
                chain.last() == self@,
                matched_run(*p, chain),
                run_ends(*p, chain),
                chain[0].grows_to(self@),
            decreases self@.text.len() - self@.cursor,
        {
            proof {
                self.lemma_wf();
            }
            if !self.non_eof() {
                break ;
            }
            let before = self.input.offset();
            let ghost prev = self@;
            let matched = p.attempt(self);
            if !matched {
                let ghost after = self@;
                proof {
                    lemma_restore_undoes(prev, s, after);
                }
                self.restore_state(s);
                break ;
            }
            proof {
                lemma_grows_transitive(chain[0], prev, self@);
                let ghost old_chain = chain;
                chain = chain.push(self@);
                assert forall|i: int| 0 < i < chain.len() implies #[trigger] p.outcome(
                    chain[i - 1],
                    chain[i],
                    true,
                ) by {
                    if i < chain.len() - 1 {
                        assert(old_chain[i - 1] == chain[i - 1] && old_chain[i] == chain[i]);
                        assert(p.outcome(old_chain[i - 1], old_chain[i], true));
                    }
                }
            }
            s = self.save_state();
            proof {
                self.lemma_wf();
            }
            if self.input.offset() <= before {
                break ;
            }
        }
        proof {
            assert(chain[0] == run[0] && chain.last() == self@);
        }
    }

    /// Repeats `p` as long as the input lasts and `p` matches: keeps every
    /// match, undoes the attempt that failed, and always succeeds. A match
    /// that does not move the cursor forward ends the repetition, which could
    /// not end otherwise.
    pub fn zero_or_more<P: Pattern<T, L>>(&mut self, p: &P) -> (r: bool)
        requires
            old(self).wf(),
        ensures
            r,
            final(self).wf(),
            old(self)@.grows_to(final(self)@),
            repeated(*p, old(self)@, final(self)@),
            old(self)@.cursor >= old(self)@.text.len() ==> final(self)@ == old(self)@,
    {
        let s = self.save_state();
        let ghost chain = seq![self@];
        proof {
            assert(self@.items.subrange(0, self@.items.len() as int) =~= self@.items);
        }
        self.repeat(p, s, Ghost(chain));
        true
    }

    /// Like `zero_or_more`, but the first attempt must match: where it does
    /// not, everything it did is undone and the result is false.
    pub fn one_or_more<P: Pattern<T, L>>(&mut self, p: &P) -> (r: bool)
        requires
            old(self).wf(),
        ensures
            final(self).wf(),
            old(self)@.grows_to(final(self)@),
            !r ==> final(self)@ == old(self)@,
            !r ==> exists|after: LexerView<T>| p.outcome(old(self)@, after, false),
            r ==> exists|first: LexerView<T>|
                {
                    &&& p.outcome(old(self)@, first, true)
                    &&& repeated(*p, first, final(self)@)
                },
    {
        let ghost start = self@;
        let result = self.matches(p);
        if result {
            let ghost first = self@;
            let s = self.save_state();
            let ghost chain = seq![self@];
            proof {
                assert(self@.items.subrange(0, self@.items.len() as int) =~= self@.items);
            }
            self.repeat(p, s, Ghost(chain));
            proof {
                lemma_grows_transitive(start, first, self@);
            }
        }
        result
    }

    /// Moves to the next token: while no token is queued, hands the current
    /// character to the grammar's `find_token`, or calls its
    /// `process_pending` at the end of the input; then takes the first queued
    /// token as the current one.
    pub fn advance<G: Lexer<T, L>>(&mut self, grammar: &mut G)
        requires
            old(self).wf(),
        ensures
            final(self).wf(),
            exists|grammars: Seq<G>, views: Seq<LexerView<T>>|
                {
                    &&& hook_run(grammars, views)
                    &&& grammars[0] == *old(grammar)
                    &&& views[0] == old(self)@
                    &&& grammars.last() == *final(grammar)
                    &&& final(self)@ == (LexerView {
                        items: views.last().items.drop_first(),
                        ..views.last()
                    })
                    &&& final(self).current_token() == Some(views.last().items[0])
                },
            old(self)@.items.len() > 0 ==> final(self)@ == (LexerView {
                items: old(self)@.items.drop_first(),
                ..old(self)@
            }) && final(self).current_token() == Some(old(self)@.items[0]),
            old(self)@.cursor >= old(self)@.text.len() && old(self)@.items.len() == 0 ==> exists|
                after: LexerView<T>,
            |
                {
                    &&& old(grammar).drains(old(self)@, after)
                    &&& after.items.len() > 0
                    &&& final(self)@ == (LexerView { items: after.items.drop_first(), ..after })
                    &&& final(self).current_token() == Some(after.items[0])
                },
    {
        proof {
            assert(self@.items.subrange(0, self@.items.len() as int) =~= self@.items);
        }
        let ghost mut grammars: Seq<G> = seq![*grammar];
        let ghost mut views: Seq<LexerView<T>> = seq![self@];
        while self.queue.is_empty()
            invariant
                self.wf(),
                grammars.len() == views.len(),
                views.len() >= 1,
                grammars[0] == *old(grammar),
                views[0] == old(self)@,
                grammars.last() == *grammar,
                views.last() == self@,
                forall|i: int|
                    0 < i < views.len() ==> #[trigger] hook_step(
                        grammars[i - 1],
                        views[i - 1],
                        views[i],
                    ),
                forall|i: int| 0 <= i < views.len() - 1 ==> (#[trigger] views[i]).items.len() == 0,
                old(self)@.grows_to(self@),
            decreases (self@.text.len() - self@.cursor) + if self@.items.len() == 0 {
                1int
            } else {
                0int
            },
        {
            proof {
                self.lemma_wf();
            }
            let ghost before = self@;
            let ghost g_before = *grammar;
            match self.current_char() {
                Some(c) => grammar.find_token(self, c),
                None => grammar.process_pending(self),
            }
            proof {
                lemma_grows_transitive(old(self)@, before, self@);
                self.lemma_wf();
                assert(hook_step(g_before, before, self@));
                let ghost old_views = views;
                let ghost old_grammars = grammars;
                grammars = grammars.push(*grammar);
                views = views.push(self@);
                assert forall|i: int| 0 < i < views.len() implies #[trigger] hook_step(
                    grammars[i - 1],
                    views[i - 1],
                    views[i],
                ) by {
                    if i < views.len() - 1 {
                        assert(hook_step(old_grammars[i - 1], old_views[i - 1], old_views[i]));
                    }
                }
                assert forall|i: int| 0 <= i < views.len() - 1 implies (
                #[trigger] views[i]).items.len() == 0 by {
                    if i < views.len() - 2 {
                        assert(old_views[i].items.len() == 0);
                    }
                }
            }
        }
        proof {
            assert(hook_run(grammars, views));
            if old(self)@.items.len() > 0 {
                assert(views.len() == 1);
            }
            if old(self)@.cursor >= old(self)@.text.len() && old(self)@.items.len() == 0 {
                assert(views.len() >= 2);
                let k = 1int;
                assert(hook_step(grammars[k - 1], views[k - 1], views[k]));
                if views.len() > 2 {
                    assert(views[1].items.len() == 0);
                }
                assert(views.len() == 2);
            }
        }
        let head = self.queue.dequeue();
        self.current = Some(head);
    }
}

} // verus!
