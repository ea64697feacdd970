use syaml_lexer::input_range::InputRange;
use syaml_lexer::lexer::{Lexer, LexerEngine, Pattern};
use syaml_lexer::lexer_input::{LexerInput, Position};
use syaml_lexer::text_input::TextInput;
use syaml_lexer::token::{Token, TokenData};

#[derive(Debug, Clone, PartialEq)]
struct Tok {
    name: String,
    abbreviation: String,
}

impl Token for Tok {
    fn name(&self) -> &String {
        &self.name
    }

    fn abbreviation(&self) -> &String {
        &self.abbreviation
    }
}

fn tok(name: &str) -> Tok {
    Tok { name: String::from(name), abbreviation: name.to_lowercase() }
}

fn input(text: &str) -> TextInput {
    TextInput::new(String::from(text), String::from("test"))
}

type Engine = LexerEngine<Tok, TextInput>;

/// Words become `Word` tokens, blanks are skipped, the end gives `Eof`.
struct Words;

impl Lexer<Tok, TextInput> for Words {
    fn find_token(&mut self, lexer: &mut Engine, chr: char) {
        if chr.is_alphabetic() {
            lexer.consume_while(|c: char| c.is_alphabetic());
            lexer.emit1(tok("Word"));
        } else {
            lexer.consume(None);
            lexer.reset();
        }
    }

    fn process_pending(&mut self, lexer: &mut Engine) {
        lexer.emit1(tok("Eof"));
    }
}

/// Emits a token for the current character, then wants `x` next.
struct EmitThenX;

impl Pattern<Tok, TextInput> for EmitThenX {
    fn attempt(&self, lexer: &mut Engine) -> bool {
        lexer.consume(None);
        lexer.emit1(tok("Part"));
        lexer.consume_char('x')
    }
}

/// Matches the string `ab`, emitting it as one token.
struct Ab;

impl Pattern<Tok, TextInput> for Ab {
    fn attempt(&self, lexer: &mut Engine) -> bool {
        if lexer.consume_string(&String::from("ab")) {
            lexer.emit1(tok("Ab"))
        } else {
            false
        }
    }
}

/// Matches without consuming anything.
struct Empty;

impl Pattern<Tok, TextInput> for Empty {
    fn attempt(&self, lexer: &mut Engine) -> bool {
        lexer.emit1(tok("Empty"))
    }
}

fn next(lexer: &mut Engine) -> (String, InputRange, isize, isize) {
    lexer.advance(&mut Words);
    let d: &TokenData<Tok> = lexer.token_data().unwrap();
    (d.token.name().clone(), d.range, d.start, d.end)
}

#[test]
fn two_tokens_over_one_region() {
    let mut lexer = Engine::new(input("abcdef"));
    lexer.consume(None);
    lexer.reset();
    assert_eq!(lexer.mark(), Position { line: 1, column: 1, position: 1 });
    lexer.consume(Some(4));
    assert_eq!(lexer.position(), Position { line: 1, column: 5, position: 5 });
    assert!(lexer.emit2_for_mark(tok("T1"), tok("T2")));
    let span = InputRange { line_from: 1, column_from: 1, line_to: 1, column_to: 5 };
    assert_eq!(next(&mut lexer), (String::from("T1"), span, 1, 5));
    assert_eq!(next(&mut lexer), (String::from("T2"), span, 1, 5));
    assert_eq!(lexer.mark(), Position { line: 1, column: 5, position: 5 });
}

#[test]
fn two_contiguous_tokens() {
    let mut lexer = Engine::new(input("abc"));
    lexer.consume(Some(2));
    assert!(lexer.emit2(tok("T1"), tok("T2")));
    assert_eq!(next(&mut lexer), (String::from("T1"), InputRange::build(1, 0, 1, 2), 0, 2));
    assert_eq!(next(&mut lexer), (String::from("T2"), InputRange::build(1, 2, 1, 2), 2, 2));
}

#[test]
fn end_of_input_draining() {
    let mut lexer = Engine::new(input(""));
    assert!(!lexer.non_eof());
    assert!(lexer.non_token_emitted());
    assert_eq!(next(&mut lexer), (String::from("Eof"), InputRange::zero(), 0, 0));
    assert!(lexer.non_token_emitted());
}

#[test]
fn advance_over_words() {
    let mut lexer = Engine::new(input("ab  cd\nefg"));
    assert_eq!(next(&mut lexer), (String::from("Word"), InputRange::build(1, 0, 1, 2), 0, 2));
    assert_eq!(next(&mut lexer), (String::from("Word"), InputRange::build(1, 4, 1, 6), 4, 6));
    assert_eq!(next(&mut lexer), (String::from("Word"), InputRange::build(2, 0, 2, 3), 7, 10));
    assert_eq!(next(&mut lexer), (String::from("Eof"), InputRange::build(2, 3, 2, 3), 10, 10));
    assert_eq!(lexer.token().map(|t| t.name().clone()), Some(String::from("Eof")));
}

#[test]
fn lines_and_columns() {
    let mut lexer = Engine::new(input("a\nbc\n\nd"));
    assert!(lexer.begin_of_line());
    lexer.consume(Some(3));
    assert_eq!(lexer.position(), Position { line: 2, column: 1, position: 3 });
    assert!(!lexer.begin_of_line());
    lexer.consume(Some(2));
    assert_eq!(lexer.position(), Position { line: 3, column: 0, position: 5 });
    assert!(lexer.begin_of_line());
    lexer.consume(Some(10));
    assert_eq!(lexer.position(), Position { line: 4, column: 1, position: 7 });
    assert!(!lexer.non_eof());
    assert_eq!(lexer.current_char(), None);
}

#[test]
fn look_ahead_and_check() {
    let mut lexer = Engine::new(input("key: value"));
    assert_eq!(lexer.current_char(), Some('k'));
    assert_eq!(lexer.look_ahead(0), Some('k'));
    assert_eq!(lexer.look_ahead(3), Some(':'));
    assert_eq!(lexer.look_ahead(10), None);
    assert_eq!(lexer.check(&String::from("key")), 3);
    assert_eq!(lexer.check(&String::from("kex")), 0);
    assert_eq!(lexer.check(&String::from("key: value!")), 0);
    assert_eq!(lexer.check(&String::new()), 0);
    assert!(!lexer.consume_string(&String::from("kez")));
    assert_eq!(lexer.input().offset(), 0);
    assert!(!lexer.consume_string(&String::new()));
    assert!(lexer.consume_string(&String::from("key:")));
    assert_eq!(lexer.input().offset(), 4);
    assert!(!lexer.consume_char('v'));
    assert!(lexer.consume_char(' '));
    assert_eq!(lexer.current_char(), Some('v'));
}

#[test]
fn consume_while_stops_at_first_mismatch() {
    let mut lexer = Engine::new(input("aaab"));
    lexer.consume_while(|c: char| c == 'a');
    assert_eq!(lexer.input().offset(), 3);
    lexer.consume_while(|c: char| c == 'a');
    assert_eq!(lexer.input().offset(), 3);
    lexer.consume_while(|_c: char| true);
    assert_eq!(lexer.input().offset(), 4);
}

#[test]
fn consume_and_emit_tokens() {
    let mut lexer = Engine::new(input("xyz"));
    assert!(lexer.consume_and_emit(Some(2), tok("Two")));
    assert!(lexer.consume_and_emit2(tok("One"), tok("Mark")));
    assert_eq!(next(&mut lexer), (String::from("Two"), InputRange::build(1, 0, 1, 2), 0, 2));
    assert_eq!(next(&mut lexer), (String::from("One"), InputRange::build(1, 2, 1, 3), 2, 3));
    assert_eq!(next(&mut lexer), (String::from("Mark"), InputRange::build(1, 3, 1, 3), 3, 3));
}

#[test]
fn restore_state_undoes_emissions() {
    let mut lexer = Engine::new(input("abcdef"));
    lexer.consume(Some(1));
    lexer.emit1(tok("A"));
    let saved = lexer.save_state();
    lexer.consume(Some(2));
    lexer.emit1(tok("B"));
    lexer.consume(Some(1));
    lexer.emit1(tok("C"));
    lexer.restore_state(saved);
    assert_eq!(lexer.input().offset(), 1);
    assert_eq!(lexer.mark(), Position { line: 1, column: 1, position: 1 });
    assert_eq!(next(&mut lexer), (String::from("A"), InputRange::build(1, 0, 1, 1), 0, 1));
    assert!(lexer.non_token_emitted());
}

#[test]
fn matches_rolls_back_on_failure() {
    let mut lexer = Engine::new(input("aby"));
    assert!(!lexer.matches(&EmitThenX));
    assert_eq!(lexer.input().offset(), 0);
    assert!(lexer.non_token_emitted());
    assert_eq!(lexer.mark(), Position { line: 1, column: 0, position: 0 });
    assert!(lexer.matches(&Ab));
    assert_eq!(lexer.input().offset(), 2);
    assert!(!lexer.matches(&Ab));
    assert_eq!(lexer.input().offset(), 2);
    assert_eq!(next(&mut lexer), (String::from("Ab"), InputRange::build(1, 0, 1, 2), 0, 2));
    assert!(lexer.non_token_emitted());
}

#[test]
fn matches_keeps_success() {
    let mut lexer = Engine::new(input("axb"));
    assert!(lexer.matches(&EmitThenX));
    assert_eq!(lexer.input().offset(), 2);
    assert_eq!(next(&mut lexer), (String::from("Part"), InputRange::build(1, 0, 1, 1), 0, 1));
}

#[test]
fn zero_or_more_keeps_longest_run() {
    let mut lexer = Engine::new(input("abababx"));
    assert!(lexer.zero_or_more(&Ab));
    assert_eq!(lexer.input().offset(), 6);
    for k in 0..3 {
        let s = 2 * k as isize;
        assert_eq!(next(&mut lexer), (String::from("Ab"), InputRange::build(1, s, 1, s + 2), s, s + 2));
    }
    assert!(lexer.non_token_emitted());
}

#[test]
fn zero_or_more_without_match() {
    let mut lexer = Engine::new(input("xab"));
    assert!(lexer.zero_or_more(&Ab));
    assert_eq!(lexer.input().offset(), 0);
    assert!(lexer.non_token_emitted());
    let mut done = Engine::new(input(""));
    assert!(done.zero_or_more(&Ab));
    assert!(done.non_token_emitted());
}

#[test]
fn zero_or_more_undoes_failed_attempt() {
    let mut lexer = Engine::new(input("axaxay"));
    assert!(lexer.zero_or_more(&EmitThenX));
    assert_eq!(lexer.input().offset(), 4);
    assert_eq!(next(&mut lexer), (String::from("Part"), InputRange::build(1, 0, 1, 1), 0, 1));
    assert_eq!(next(&mut lexer), (String::from("Part"), InputRange::build(1, 1, 1, 3), 1, 3));
    assert!(lexer.non_token_emitted());
}

#[test]
fn zero_or_more_stops_on_empty_match() {
    let mut lexer = Engine::new(input("abc"));
    assert!(lexer.zero_or_more(&Empty));
    assert_eq!(lexer.input().offset(), 0);
    assert_eq!(next(&mut lexer), (String::from("Empty"), InputRange::build(1, 0, 1, 0), 0, 0));
    assert!(lexer.non_token_emitted());
}

#[test]
fn one_or_more_needs_first_match() {
    let mut lexer = Engine::new(input("xab"));
    assert!(!lexer.one_or_more(&Ab));
    assert_eq!(lexer.input().offset(), 0);
    assert!(lexer.non_token_emitted());
    let mut partial = Engine::new(input("ay"));
    assert!(!partial.one_or_more(&EmitThenX));
    assert_eq!(partial.input().offset(), 0);
    assert!(partial.non_token_emitted());
}

#[test]
fn one_or_more_keeps_all_matches() {
    let mut lexer = Engine::new(input("ab"));
    assert!(lexer.one_or_more(&Ab));
    assert_eq!(lexer.input().offset(), 2);
    assert_eq!(next(&mut lexer), (String::from("Ab"), InputRange::build(1, 0, 1, 2), 0, 2));
    let mut more = Engine::new(input("ababc"));
    assert!(more.one_or_more(&Ab));
    assert_eq!(more.input().offset(), 4);
    assert_eq!(next(&mut more), (String::from("Ab"), InputRange::build(1, 0, 1, 2), 0, 2));
    assert_eq!(next(&mut more), (String::from("Ab"), InputRange::build(1, 2, 1, 4), 2, 4));
    assert!(more.non_token_emitted());
}

#[test]
fn optional_always_holds() {
    assert!(Engine::optional(false));
    assert!(Engine::optional(true));
}

#[test]
fn text_input_reports_its_name() {
    let i = input("q");
    assert_eq!(i.source_name(), "test");
    assert_eq!(i.position(), (1, 0, 0));
}

#[test]
fn token_text_of_current_token() {
    let mut lexer = Engine::new(input("ab  cd"));
    assert_eq!(lexer.token_text(), None);
    next(&mut lexer);
    assert_eq!(lexer.token_text(), Some(vec!['a', 'b']));
    next(&mut lexer);
    assert_eq!(lexer.token_text(), Some(vec!['c', 'd']));
    next(&mut lexer);
    assert_eq!(lexer.token_text(), Some(vec![]));
}

#[test]
fn token_text_ahead_of_cursor() {
    let mut lexer = Engine::new(input("abcde"));
    let start = lexer.save_state();
    lexer.consume(Some(4));
    lexer.emit1(tok("Four"));
    next(&mut lexer);
    lexer.restore_state(start);
    assert_eq!(lexer.input().offset(), 0);
    assert_eq!(lexer.token_text(), Some(vec!['a', 'b', 'c', 'd']));
    assert_eq!(lexer.input().sub_sequence(1, 3), vec!['b', 'c']);
}

#[test]
fn check_counts_utf8_bytes() {
    let lexer = Engine::new(input("\u{e9}t\u{e9}!"));
    assert_eq!(lexer.check(&String::from("\u{e9}")), 2);
    assert_eq!(lexer.check(&String::from("\u{e9}t\u{e9}")), 5);
    assert_eq!(lexer.check(&String::from("e")), 0);
}

#[test]
fn consume_string_counts_code_points() {
    let mut lexer = Engine::new(input("\u{e9}t\u{e9}!"));
    assert!(lexer.consume_string(&String::from("\u{e9}t")));
    assert_eq!(lexer.input().offset(), 2);
    assert_eq!(lexer.current_char(), Some('\u{e9}'));
}

#[test]
fn token_string_of_current_token() {
    let mut lexer = Engine::new(input("ab  \u{e9}d"));
    assert_eq!(lexer.token_string(), None);
    next(&mut lexer);
    assert_eq!(lexer.token_string(), Some(String::from("ab")));
    next(&mut lexer);
    assert_eq!(lexer.token_string(), Some(String::from("\u{e9}d")));
    next(&mut lexer);
    assert_eq!(lexer.token_string(), Some(String::new()));
    assert_eq!(lexer.input().sub_string(1, 4), String::from("b  "));
}

#[test]
fn zero_or_more_at_end_leaves_lexer_alone() {
    let mut lexer = Engine::new(input("ab"));
    lexer.consume(Some(2));
    assert!(lexer.zero_or_more(&Empty));
    assert!(lexer.non_token_emitted());
    assert_eq!(lexer.mark(), Position { line: 1, column: 0, position: 0 });
}
