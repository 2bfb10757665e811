use arma_config::defines::{Define, Defines};
use arma_config::ifstate::{IfState, IfStates};
use arma_config::lcc::LineColCounter;
use arma_config::tokens::{Token, TokenPair};

#[test]
fn ifstate_basic_if() {
    let mut state = IfStates::new();

    assert!(state.reading());
    // if true
    state.push(IfState::ReadingIf);
    assert!(state.reading());
    // else
    state.flip();
    assert!(!state.reading());
}

#[test]
fn basic_negative_if() {
    let mut state = IfStates::new();

    assert!(state.reading());
    // if false
    state.push(IfState::PassingIf);
    assert!(!state.reading());
    // else
    state.flip();
    assert!(state.reading());
}

#[test]
fn ifstate_nested_if() {
    let mut state = IfStates::new();

    assert!(state.reading());
    // if true
    state.push(IfState::ReadingIf);
    assert!(state.reading());
    {
        // if false
        state.push(IfState::PassingIf);
        assert!(!state.reading());
        // else
        state.flip();
        assert!(state.reading());
    }
    state.pop();
    // else
    state.flip();
    assert!(!state.reading());
}

#[test]
fn nested_negative_if() {
    let mut state = IfStates::new();

    assert!(state.reading());
    // if false
    state.push(IfState::PassingIf);
    assert!(!state.reading());
    {
        // if true
        state.push(IfState::ReadingIf);
        assert!(!state.reading());
        // else
        state.flip();
        assert!(!state.reading());
    }
    state.pop();
    // else
    state.flip();
    assert!(state.reading());
}

#[test]
fn push_then_pop_restores_reading() {
    let mut state = IfStates::new();
    state.push(IfState::ReadingIf);
    let before = state.reading();
    state.push(IfState::PassingChild);
    assert!(!state.reading());
    let popped = state.pop();
    assert_eq!(popped, Some(IfState::PassingChild));
    assert_eq!(state.reading(), before);
    // a stray pop and a stray else are silent no-ops on an empty stack
    let mut empty = IfStates::new();
    assert_eq!(empty.pop(), None);
    empty.flip();
    assert!(empty.reading());
}

#[test]
fn else_inside_dead_region_stays_dead() {
    let mut state = IfStates::new();
    state.push(IfState::PassingIf);
    state.push(IfState::PassingChild);
    state.flip();
    assert!(!state.reading());
}

#[test]
fn counter_tracks_columns_and_lines() {
    let mut lcc = LineColCounter::new();
    assert!(lcc.newline());
    assert_eq!(lcc.pos_linecol(), (1, (1, 1)));
    let mut pair = TokenPair::anon(Token::Word("abc".to_string()));
    lcc.mod_cols(&mut pair);
    assert_eq!(pair.start(), (1, (1, 1)));
    assert_eq!(pair.end(), (4, (1, 4)));
    assert!(!lcc.newline());
    assert_eq!(lcc.cols(), 4);
    lcc.add_line();
    assert!(lcc.newline());
    assert_eq!(lcc.line(), 2);
    assert_eq!(lcc.cols(), 1);
    assert_eq!(lcc.pos(), 5);
    lcc.add_cols(&Token::Whitespace(arma_config::tokens::Whitespace::Space));
    assert!(lcc.newline());
    lcc.add_cols(&Token::Semicolon);
    assert!(!lcc.newline());
}

#[test]
fn defines_table_round_trip() {
    let mut defines = Defines::new();
    assert!(!defines.defined("GREETING"));
    let body = vec![TokenPair::anon(Token::Word("hi".to_string()))];
    let prev = defines.new_word("GREETING", body);
    assert!(prev.is_none());
    assert!(defines.defined("GREETING"));
    assert!(defines.contains("GREETING"));
    let got = defines.get("GREETING").unwrap();
    assert_eq!(got.statement_ref().len(), 1);
    assert!(got.args().is_none());
    let removed = defines.remove("GREETING");
    assert!(removed.is_some());
    assert!(!defines.defined("GREETING"));
    assert!(defines.get("GREETING").is_none());
}

#[test]
fn function_defines_carry_args() {
    let mut defines = Defines::new();
    let formals = vec![vec![TokenPair::anon(Token::Word("A".to_string()))]];
    let body = vec![TokenPair::anon(Token::Word("x".to_string()))];
    defines.new_function("F", formals, body);
    let got = defines.get("F").unwrap();
    assert_eq!(got.args().unwrap().len(), 1);
    assert_eq!(got.statement().len(), 1);
    let snapshot = defines.all();
    assert_eq!(snapshot.len(), 1);
    assert_eq!(snapshot[0].0, "F");
    let copy = defines.clone();
    assert!(copy.defined("F"));
    let d = Define::new_word(vec![TokenPair::anon(Token::Digit(3))]);
    defines.new_define("G", d);
    assert!(defines.defined("G"));
}
