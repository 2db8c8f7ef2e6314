use chess_trainer::parser::Diagnostic;
use chess_trainer::shape::{Color, Shape, Square};
use chess_trainer::visitor::{Event, GameTreeVisitor, Mode, StructuralError};
use shakmaty::fen::{board_fen, fen};
use shakmaty::{Chess, Setup};

const START: &str = "rnbqkbnr/pppppppp/8/8/8/8/PPPPPPPP/RNBQKBNR w KQkq - 0 1";
const AFTER_E4: &str = "rnbqkbnr/pppppppp/8/8/4P3/8/PPPP1PPP/RNBQKBNR b KQkq - 0 1";
const AFTER_E4_E5: &str = "rnbqkbnr/pppp1ppp/8/4p3/4P3/8/PPPP1PPP/RNBQKBNR w KQkq - 0 2";
const AFTER_E4_E5_NC3: &str = "rnbqkbnr/pppp1ppp/8/4p3/4P3/2N5/PPPP1PPP/R1BQKBNR b KQkq - 1 2";
const AFTER_E4_E5_NF3: &str = "rnbqkbnr/pppp1ppp/8/4p3/4P3/5N2/PPPP1PPP/RNBQKB1R b KQkq - 1 2";
const AFTER_E4_C5: &str = "rnbqkbnr/pp1ppppp/8/2p5/4P3/8/PPPP1PPP/RNBQKBNR w KQkq - 0 2";

fn mv(token: &str) -> Event {
    Event::Move(token.as_bytes().to_vec())
}

fn comment(text: &str) -> Event {
    Event::Comment(text.as_bytes().to_vec())
}

fn fens(line: &[Chess]) -> Vec<String> {
    line.iter().map(|position| fen(position)).collect()
}

#[test]
fn new_visitor_stands_on_the_starting_position() {
    let visitor = GameTreeVisitor::new(Mode::FlatReplay);
    assert_eq!(fen(visitor.current()), START);
    assert_eq!(visitor.depth(), 0);
    assert!(visitor.game().is_empty());
    assert!(visitor.training_positions().is_empty());
}

#[test]
fn main_line_without_the_variation() {
    let mut visitor = GameTreeVisitor::new(Mode::FlatReplay);
    let events = vec![
        Event::BeginGame,
        mv("e4"),
        mv("e5"),
        Event::BeginVariation,
        mv("Nf3"),
        Event::EndVariation,
        mv("Nc3"),
    ];
    let answers = visitor.replay(&events);
    for (index, answer) in answers.iter().enumerate() {
        if index == 4 {
            assert_eq!(answer, &Ok(vec![Diagnostic::IllegalMove]));
        } else {
            assert_eq!(answer, &Ok(vec![]));
        }
    }
    assert_eq!(fens(&visitor.game()), vec![START, AFTER_E4, AFTER_E4_E5, AFTER_E4_E5_NC3]);
    assert!(!fens(&visitor.game()).contains(&AFTER_E4_E5_NF3.to_string()));
}

#[test]
fn variation_replaces_the_last_move() {
    let mut visitor = GameTreeVisitor::new(Mode::FlatReplay);
    visitor.begin_game();
    assert_eq!(visitor.san(b"e4"), Ok(vec![]));
    assert_eq!(visitor.san(b"e5"), Ok(vec![]));
    assert_eq!(visitor.begin_variation(), Ok(vec![]));
    assert_eq!(visitor.depth(), 1);
    assert_eq!(fen(visitor.current()), AFTER_E4);
    assert_eq!(visitor.san(b"c5"), Ok(vec![]));
    assert_eq!(fen(visitor.current()), AFTER_E4_C5);
    assert_eq!(visitor.end_variation(), Ok(vec![]));
    assert_eq!(visitor.depth(), 0);
    assert_eq!(fen(visitor.current()), AFTER_E4_E5);
    assert_eq!(visitor.san(b"Nf3"), Ok(vec![]));
    assert_eq!(fen(visitor.current()), AFTER_E4_E5_NF3);
}

#[test]
fn nested_variations_restore_both_positions() {
    let mut visitor = GameTreeVisitor::new(Mode::FlatReplay);
    let opening = vec![Event::BeginGame, mv("e4"), mv("e5"), mv("Nf3")];
    visitor.replay(&opening);
    let before = fen(visitor.current());
    let line_before = fens(&visitor.game());
    let variation = vec![
        Event::BeginVariation,
        mv("Nc3"),
        mv("Nf6"),
        Event::BeginVariation,
        mv("Nc6"),
        Event::BeginVariation,
        mv("d6"),
        comment("solid [%csl Gd6]"),
        mv("d4"),
        Event::EndVariation,
        mv("Bc4"),
        Event::EndVariation,
        mv("f4"),
        Event::EndVariation,
    ];
    let answers = visitor.replay(&variation);
    assert!(answers.iter().all(|answer| answer == &Ok(vec![])));
    assert_eq!(fen(visitor.current()), before);
    assert_eq!(visitor.depth(), 0);
    assert_eq!(fens(&visitor.game()), line_before);
    assert_eq!(visitor.san(b"Nc6"), Ok(vec![]));
    assert_eq!(visitor.begin_variation(), Ok(vec![]));
    assert_eq!(fen(visitor.current()), AFTER_E4_E5_NF3);
}

#[test]
fn unmatched_end_of_variation_is_a_fault() {
    let mut visitor = GameTreeVisitor::new(Mode::FlatReplay);
    visitor.begin_game();
    assert_eq!(visitor.san(b"e4"), Ok(vec![]));
    assert_eq!(visitor.end_variation(), Err(StructuralError::UnmatchedEndVariation));
    assert_eq!(fen(visitor.current()), AFTER_E4);
    assert_eq!(fens(&visitor.game()), vec![START, AFTER_E4]);
}

#[test]
fn a_fault_ends_the_game_but_not_the_next_one() {
    let mut visitor = GameTreeVisitor::new(Mode::FlatReplay);
    let first = vec![
        Event::BeginGame,
        mv("e4"),
        Event::EndVariation,
        mv("e5"),
        Event::BeginVariation,
        comment("[%cal Ye2e4]"),
        Event::EndGame,
    ];
    let answers = visitor.replay(&first);
    let fault = Err(StructuralError::UnmatchedEndVariation);
    assert_eq!(
        answers,
        vec![Ok(vec![]), Ok(vec![]), fault.clone(), fault.clone(), fault.clone(), fault.clone(), fault]
    );
    assert_eq!(fens(&visitor.game()), vec![START, AFTER_E4]);
    let second = vec![Event::BeginGame, mv("e4"), mv("c5"), Event::EndGame];
    let answers = visitor.replay(&second);
    assert_eq!(answers, vec![Ok(vec![]), Ok(vec![]), Ok(vec![]), Ok(vec![])]);
    assert_eq!(fens(&visitor.game()), vec![START, AFTER_E4, AFTER_E4_C5]);
    let mut fresh = GameTreeVisitor::new(Mode::FlatReplay);
    fresh.replay(&second);
    assert_eq!(fens(&fresh.game()), fens(&visitor.game()));
    assert_eq!(fen(fresh.current()), fen(visitor.current()));
}

#[test]
fn variation_before_the_first_move_is_a_fault() {
    let mut visitor = GameTreeVisitor::new(Mode::AnnotationCollection);
    visitor.begin_game();
    assert_eq!(visitor.begin_variation(), Err(StructuralError::VariationBeforeFirstMove));
    assert_eq!(visitor.depth(), 0);
    assert_eq!(visitor.san(b"e4"), Err(StructuralError::VariationBeforeFirstMove));
    assert_eq!(visitor.end_game(), Err(StructuralError::VariationBeforeFirstMove));
    assert_eq!(fen(visitor.current()), START);
    visitor.begin_game();
    assert_eq!(visitor.san(b"e4"), Ok(vec![]));
    assert_eq!(visitor.begin_variation(), Ok(vec![]));
}

#[test]
fn illegal_move_changes_nothing() {
    let mut visitor = GameTreeVisitor::new(Mode::FlatReplay);
    visitor.begin_game();
    assert_eq!(visitor.san(b"e4"), Ok(vec![]));
    assert_eq!(visitor.san(b"e4"), Ok(vec![Diagnostic::IllegalMove]));
    assert_eq!(visitor.san(b"Ke2"), Ok(vec![Diagnostic::IllegalMove]));
    assert_eq!(visitor.san(b"not a move"), Ok(vec![Diagnostic::IllegalMove]));
    assert_eq!(visitor.san(b""), Ok(vec![Diagnostic::IllegalMove]));
    assert_eq!(fen(visitor.current()), AFTER_E4);
    assert_eq!(visitor.san(b"e5"), Ok(vec![]));
    assert_eq!(fens(&visitor.game()), vec![START, AFTER_E4, AFTER_E4_E5]);
}

#[test]
fn illegal_first_move_leaves_no_move_to_branch_from() {
    let mut visitor = GameTreeVisitor::new(Mode::FlatReplay);
    visitor.begin_game();
    assert_eq!(visitor.san(b"e5"), Ok(vec![Diagnostic::IllegalMove]));
    assert_eq!(visitor.begin_variation(), Err(StructuralError::VariationBeforeFirstMove));
}

#[test]
fn moves_with_check_marks_and_castling() {
    let mut visitor = GameTreeVisitor::new(Mode::FlatReplay);
    visitor.begin_game();
    for token in ["e4", "e5", "Nf3", "Nc6", "Bc4", "Bc5", "O-O", "Nf6", "Bxf7+"] {
        assert_eq!(visitor.san(token.as_bytes()), Ok(vec![]));
    }
    assert_eq!(
        fen(visitor.current()),
        "r1bqk2r/pppp1Bpp/2n2n2/2b1p3/4P3/5N2/PPPP1PPP/RNBQ1RK1 b kq - 0 5"
    );
    assert_eq!(visitor.game().len(), 10);
}

#[test]
fn comments_with_shapes_become_training_positions() {
    let mut visitor = GameTreeVisitor::new(Mode::AnnotationCollection);
    visitor.begin_game();
    assert_eq!(visitor.san(b"e4"), Ok(vec![]));
    assert_eq!(visitor.comment(b"best by test [%cal Ye2e4][%csl Gd5]"), Ok(vec![]));
    assert_eq!(visitor.comment(b"no shapes here"), Ok(vec![]));
    assert_eq!(visitor.comment(b"[%cal Xe2e4]"), Ok(vec![Diagnostic::BadColor]));
    assert_eq!(visitor.san(b"e5"), Ok(vec![]));
    assert_eq!(visitor.begin_variation(), Ok(vec![]));
    assert_eq!(visitor.san(b"c5"), Ok(vec![]));
    assert_eq!(visitor.comment(b"[%csl Rc5] the Sicilian, [%cxx]"), Ok(vec![Diagnostic::UnknownDirective]));
    assert_eq!(visitor.end_variation(), Ok(vec![]));
    assert_eq!(visitor.comment(b"[%cal Ge7e5"), Ok(vec![Diagnostic::Unterminated]));
    let positions = visitor.training_positions();
    assert_eq!(positions.len(), 3);
    let e2 = Square::parse(b"e2").unwrap();
    let e4 = Square::parse(b"e4").unwrap();
    let d5 = Square::parse(b"d5").unwrap();
    let c5 = Square::parse(b"c5").unwrap();
    let e7 = Square::parse(b"e7").unwrap();
    let e5 = Square::parse(b"e5").unwrap();
    assert_eq!(
        positions[0].annotations,
        vec![
            Shape { orig: e2, dest: e4, brush: Color::Yellow },
            Shape { orig: d5, dest: d5, brush: Color::Green },
        ]
    );
    assert_eq!(board_fen(&positions[0].board), "rnbqkbnr/pppppppp/8/8/4P3/8/PPPP1PPP/RNBQKBNR");
    assert_eq!(positions[1].annotations, vec![Shape { orig: c5, dest: c5, brush: Color::Red }]);
    assert_eq!(board_fen(&positions[1].board), "rnbqkbnr/pp1ppppp/8/2p5/4P3/8/PPPP1PPP/RNBQKBNR");
    assert_eq!(positions[2].annotations, vec![Shape { orig: e7, dest: e5, brush: Color::Green }]);
    assert_eq!(board_fen(&positions[2].board), "rnbqkbnr/pppp1ppp/8/4p3/4P3/8/PPPP1PPP/RNBQKBNR");
    assert_eq!(&positions[2].board, visitor.current().board());
    assert!(visitor.game().is_empty());
}

#[test]
fn replay_keeps_no_training_positions() {
    let mut visitor = GameTreeVisitor::new(Mode::FlatReplay);
    visitor.begin_game();
    assert_eq!(visitor.comment(b"[%cal Ye2e4] [%cal Q]"), Ok(vec![Diagnostic::BadColor]));
    assert!(visitor.training_positions().is_empty());
    assert_eq!(fens(&visitor.game()), vec![START]);
}

#[test]
fn a_new_game_drops_what_the_last_one_gathered() {
    let mut visitor = GameTreeVisitor::new(Mode::AnnotationCollection);
    let game = vec![
        Event::BeginGame,
        mv("d4"),
        comment("[%csl Yd4]"),
        Event::BeginVariation,
        mv("e4"),
        Event::EndGame,
    ];
    visitor.replay(&game);
    assert_eq!(visitor.training_positions().len(), 1);
    assert_eq!(visitor.depth(), 1);
    visitor.begin_game();
    assert_eq!(visitor.training_positions().len(), 0);
    assert_eq!(visitor.depth(), 0);
    assert_eq!(fen(visitor.current()), START);
    assert_eq!(visitor.begin_variation(), Err(StructuralError::VariationBeforeFirstMove));
}

#[test]
fn end_of_game_keeps_what_was_gathered() {
    let mut visitor = GameTreeVisitor::new(Mode::FlatReplay);
    visitor.replay(&[Event::BeginGame, mv("e4"), mv("e5")]);
    assert_eq!(visitor.end_game(), Ok(vec![]));
    assert_eq!(fens(&visitor.game()), vec![START, AFTER_E4, AFTER_E4_E5]);
    assert_eq!(fen(visitor.current()), AFTER_E4_E5);
}

#[test]
fn replay_answers_every_event() {
    let mut visitor = GameTreeVisitor::new(Mode::AnnotationCollection);
    let events = vec![
        Event::BeginGame,
        mv("e4"),
        mv("Qh5"),
        comment("[%cal Ye2e4,] then [%oops]"),
        Event::EndGame,
    ];
    let answers = visitor.replay(&events);
    assert_eq!(
        answers,
        vec![
            Ok(vec![]),
            Ok(vec![]),
            Ok(vec![Diagnostic::IllegalMove]),
            Ok(vec![Diagnostic::BadColor, Diagnostic::UnknownDirective]),
            Ok(vec![]),
        ]
    );
    assert_eq!(visitor.training_positions().len(), 0);
    assert!(visitor.replay(&[]).is_empty());
}

#[test]
fn a_resolved_move_is_taken_as_given() {
    let mut source = GameTreeVisitor::new(Mode::FlatReplay);
    source.replay(&[Event::BeginGame, mv("e4"), mv("e5")]);
    let after_e4 = source.game()[1].clone();
    let after_e5 = source.game()[2].clone();

    let mut visitor = GameTreeVisitor::new(Mode::FlatReplay);
    visitor.begin_game();
    assert_eq!(visitor.advance(None), Ok(vec![Diagnostic::IllegalMove]));
    assert_eq!(fen(visitor.current()), START);
    assert_eq!(fens(&visitor.game()), vec![START]);
    assert_eq!(visitor.begin_variation(), Err(StructuralError::VariationBeforeFirstMove));
    visitor.begin_game();
    assert_eq!(visitor.advance(Some(after_e4)), Ok(vec![]));
    assert_eq!(fen(visitor.current()), AFTER_E4);
    assert_eq!(visitor.advance(Some(after_e5.clone())), Ok(vec![]));
    assert_eq!(fens(&visitor.game()), vec![START, AFTER_E4, AFTER_E4_E5]);
    assert_eq!(visitor.begin_variation(), Ok(vec![]));
    assert_eq!(fen(visitor.current()), AFTER_E4);
    assert_eq!(visitor.advance(Some(after_e5.clone())), Ok(vec![]));
    assert_eq!(fen(visitor.current()), AFTER_E4_E5);
    assert_eq!(fens(&visitor.game()), vec![START, AFTER_E4, AFTER_E4_E5]);
    assert_eq!(visitor.end_variation(), Ok(vec![]));
    assert_eq!(visitor.end_variation(), Err(StructuralError::UnmatchedEndVariation));
    assert_eq!(visitor.advance(Some(after_e5)), Err(StructuralError::UnmatchedEndVariation));
    assert_eq!(fens(&visitor.game()), vec![START, AFTER_E4, AFTER_E4_E5]);
}

#[test]
fn a_resolved_move_adds_nothing_to_the_line_where_shapes_are_gathered() {
    let mut source = GameTreeVisitor::new(Mode::FlatReplay);
    source.replay(&[Event::BeginGame, mv("e4")]);
    let after_e4 = source.game()[1].clone();
    let mut visitor = GameTreeVisitor::new(Mode::AnnotationCollection);
    visitor.begin_game();
    assert_eq!(visitor.advance(Some(after_e4)), Ok(vec![]));
    assert_eq!(fen(visitor.current()), AFTER_E4);
    assert!(visitor.game().is_empty());
}
