use icfp_isl::ast::{Move, Orientation};
use icfp_isl::parser::{Parser, ParserError};
use icfp_isl::scanner::Scanner;
use icfp_isl::token::TokenType;

fn parse_ok(src: &str) -> Vec<Move> {
    let tokens = Scanner::scan_str(src).unwrap();
    Parser::parse_tokens(&tokens).unwrap()
}

fn parse_err(src: &str) -> ParserError {
    let tokens = Scanner::scan_str(src).unwrap();
    Parser::parse_tokens(&tokens).unwrap_err()
}

#[test]
fn can_parse_pcut_move() {
    parse_ok("cut [69] [1, 2]");
}

#[test]
fn can_parse_lcut_move() {
    parse_ok("cut [69] [y] [75]");
}

#[test]
fn can_parse_color_move() {
    parse_ok("color [12] [0, 0, 0, 1]\ncut [69] [y] [17]\n");
}

#[test]
fn can_parse_swap_move() {
    parse_ok("swap [69] [96]");
}

#[test]
fn can_parse_merge_move() {
    parse_ok("merge [69] [96]");
}

#[test]
fn pcut_fields_are_as_written() {
    let moves = parse_ok("cut [69] [1, 2]");
    assert_eq!(moves.len(), 1);
    match &moves[0] {
        Move::PCut { block_id, point, .. } => {
            assert_eq!(block_id.path, vec![69]);
            assert_eq!(point.x, 1);
            assert_eq!(point.y, 2);
        }
        other => panic!("expected a point cut, got {:?}", other),
    }
}

#[test]
fn lcut_fields_are_as_written() {
    let moves = parse_ok("cut [3.1.0] [x] [75]");
    assert_eq!(moves.len(), 1);
    match &moves[0] {
        Move::LCut { block_id, orientation, line_no, .. } => {
            assert_eq!(block_id.path, vec![3, 1, 0]);
            assert!(matches!(orientation, Orientation::Vertical));
            assert_eq!(*line_no, 75);
        }
        other => panic!("expected a line cut, got {:?}", other),
    }
}

#[test]
fn two_lines_parse_to_two_moves_in_order() {
    let moves = parse_ok("color [12] [0, 0, 0, 1]\ncut [69] [y] [17]\n");
    assert_eq!(moves.len(), 2);
    assert!(matches!(moves[0], Move::Color { .. }));
    assert!(matches!(moves[1], Move::LCut { .. }));
}

#[test]
fn five_lines_parse_to_five_moves() {
    let moves = parse_ok(
        "cut [0] [1,2]\ncut [0] [x] [3]\ncolor [0] [1,2,3,4]\nswap [0] [1]\nmerge [0] [1]",
    );
    assert_eq!(moves.len(), 5);
    assert!(matches!(moves[0], Move::PCut { .. }));
    assert!(matches!(moves[1], Move::LCut { .. }));
    assert!(matches!(moves[2], Move::Color { .. }));
    assert!(matches!(moves[3], Move::Swap { .. }));
    assert!(matches!(moves[4], Move::Merge { .. }));
}

#[test]
fn rgb_channel_above_255_is_an_error() {
    let e = parse_err("color [0] [0, 0, 300, 255]");
    match e {
        ParserError::TooBigForRGBA(n, _) => assert_eq!(n, 300),
        other => panic!("expected a channel-range error, got {:?}", other),
    }
}

#[test]
fn rgb_channel_at_255_is_accepted() {
    let moves = parse_ok("color [0] [255, 255, 255, 255]");
    assert!(matches!(moves[0], Move::Color { .. }));
}

#[test]
fn missing_brace_is_an_expected_error() {
    let e = parse_err("cut 0] [1,2]");
    assert!(matches!(e, ParserError::Expected(TokenType::LeftBrace, _)));
}

#[test]
fn stray_token_at_line_start_is_a_one_of_error() {
    let e = parse_err("[0] [1,2]");
    assert!(matches!(e, ParserError::ExpectedOneOf(_, _)));
}

#[test]
fn bad_orientation_letter_is_a_one_of_error() {
    let e = parse_err("cut [0] [,] [5]");
    assert!(matches!(e, ParserError::ExpectedOneOf(_, _)));
}

#[test]
fn truncated_input_is_an_error() {
    let e = parse_err("cut [0] [");
    assert!(matches!(e, ParserError::Eof(_) | ParserError::Expected(_, _)));
}

#[test]
fn trailing_newline_is_optional() {
    assert_eq!(parse_ok("swap [1] [2]").len(), 1);
    assert_eq!(parse_ok("swap [1] [2]\n").len(), 1);
}

#[test]
fn comment_line_between_moves_is_skipped() {
    let moves = parse_ok("cut [0] [50,40] # split it\n# a full comment line\ncolor [0.0] [1,2,3,4]");
    assert_eq!(moves.len(), 2);
    assert!(matches!(moves[0], Move::PCut { .. }));
    assert!(matches!(moves[1], Move::Color { .. }));
}

#[test]
fn error_positions_name_the_offending_token() {
    let e = parse_err("color [0] [0, 0, 300, 255]");
    match e {
        ParserError::TooBigForRGBA(_, pos) => {
            assert_eq!(pos.line, 0);
            assert_eq!(pos.col, (17, 20));
        }
        other => panic!("expected a channel-range error, got {:?}", other),
    }
}
