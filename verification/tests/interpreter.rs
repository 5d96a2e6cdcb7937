use icfp_isl::ast::{Color, Move, Point};
use icfp_isl::interpreter::{Interpreter, InterpreterError};
use icfp_isl::parser::Parser;
use icfp_isl::scanner::Scanner;

fn moves_of(src: &str) -> Vec<Move> {
    let tokens = Scanner::scan_str(src).unwrap();
    Parser::parse_tokens(&tokens).unwrap()
}

fn run(interp: &mut Interpreter, src: &str) -> Result<u64, InterpreterError> {
    interp.interpret(&moves_of(src))
}

const WHITE: Color = Color(255, 255, 255, 255);
const RED: Color = Color(255, 0, 0, 255);

#[test]
fn pcut_then_color_costs_thirty() {
    let mut interp = Interpreter::new(100, 80);
    let total = run(&mut interp, "cut [0] [50,40]\ncolor [0.0] [255,0,0,255]").unwrap();
    assert_eq!(total, 30);
}

#[test]
fn pcut_cost_is_ten_on_the_root_block() {
    let mut interp = Interpreter::new(100, 80);
    assert_eq!(run(&mut interp, "cut [0] [50,40]").unwrap(), 10);
}

#[test]
fn color_recolors_exactly_the_block_region() {
    let mut interp = Interpreter::new(100, 80);
    run(&mut interp, "cut [0] [50,40]\ncolor [0.0] [255,0,0,255]").unwrap();
    assert_eq!(interp.pixel(0, 0), RED);
    assert_eq!(interp.pixel(49, 39), RED);
    assert_eq!(interp.pixel(50, 39), WHITE);
    assert_eq!(interp.pixel(49, 40), WHITE);
    assert_eq!(interp.pixel(99, 79), WHITE);
}

#[test]
fn pcut_children_are_the_four_quadrants() {
    let mut interp = Interpreter::new(100, 80);
    run(&mut interp, "cut [0] [50,40]").unwrap();
    // Each child has area 2000, so coloring any of them costs 5*8000/2000.
    assert_eq!(run(&mut interp, "color [0.0] [1,2,3,4]").unwrap(), 20);
    assert_eq!(run(&mut interp, "color [0.1] [1,2,3,4]").unwrap(), 20);
    assert_eq!(run(&mut interp, "color [0.2] [1,2,3,4]").unwrap(), 20);
    assert_eq!(run(&mut interp, "color [0.3] [1,2,3,4]").unwrap(), 20);
    // The parent key is gone.
    assert!(matches!(
        run(&mut interp, "color [0] [1,2,3,4]"),
        Err(InterpreterError::BlockNonExistent(_, _))
    ));
}

#[test]
fn pcut_quadrants_sit_where_numbered() {
    let mut interp = Interpreter::new(100, 80);
    // Quadrant 0 is bottom-left, 1 bottom-right, 2 top-right, 3 top-left.
    run(&mut interp, "cut [0] [50,40]\ncolor [0.2] [255,0,0,255]").unwrap();
    assert_eq!(interp.pixel(0, 0), WHITE);
    assert_eq!(interp.pixel(99, 0), WHITE);
    assert_eq!(interp.pixel(99, 79), RED);
    assert_eq!(interp.pixel(0, 79), WHITE);
    assert_eq!(interp.pixel(50, 40), RED);
}

#[test]
fn pcut_on_boundary_point_is_out_of_bounds() {
    let mut interp = Interpreter::new(100, 80);
    // On the boundary: all four side comparisons are strict.
    assert!(matches!(
        run(&mut interp, "cut [0] [0,40]"),
        Err(InterpreterError::OutOfBounds(_, _, _))
    ));
    assert!(matches!(
        run(&mut interp, "cut [0] [50,80]"),
        Err(InterpreterError::OutOfBounds(_, _, _))
    ));
}

#[test]
fn pcut_outside_fails_and_leaves_the_block_map_unchanged() {
    let mut interp = Interpreter::new(100, 80);
    let err = run(&mut interp, "cut [0] [999,999]").unwrap_err();
    match err {
        InterpreterError::OutOfBounds(point, (tl, br), _) => {
            assert_eq!(point, Point { x: 999, y: 999 });
            assert_eq!(tl, Point { x: 0, y: 80 });
            assert_eq!(br, Point { x: 100, y: 0 });
        }
        other => panic!("expected an out-of-bounds error, got {:?}", other),
    }
    // Block 0 still covers the canvas; no child keys were inserted.
    assert_eq!(run(&mut interp, "color [0] [1,2,3,4]").unwrap(), 5);
    assert!(matches!(
        run(&mut interp, "color [0.0] [1,2,3,4]"),
        Err(InterpreterError::BlockNonExistent(_, _))
    ));
}

#[test]
fn lcut_vertical_splits_left_and_right() {
    let mut interp = Interpreter::new(100, 80);
    assert_eq!(run(&mut interp, "cut [0] [x] [30]").unwrap(), 7);
    // Child 0 is the left part, width 30: cost 5*8000/2400, floored.
    assert_eq!(run(&mut interp, "color [0.0] [255,0,0,255]").unwrap(), 16);
    assert_eq!(interp.pixel(0, 0), RED);
    assert_eq!(interp.pixel(29, 79), RED);
    assert_eq!(interp.pixel(30, 0), WHITE);
}

#[test]
fn lcut_horizontal_splits_bottom_and_top() {
    let mut interp = Interpreter::new(100, 80);
    assert_eq!(run(&mut interp, "cut [0] [y] [40]").unwrap(), 7);
    // Child 0 adjoins the bottom edge; child 1 is the top half.
    run(&mut interp, "color [0.1] [255,0,0,255]").unwrap();
    assert_eq!(interp.pixel(0, 0), WHITE);
    assert_eq!(interp.pixel(0, 39), WHITE);
    assert_eq!(interp.pixel(0, 40), RED);
    assert_eq!(interp.pixel(99, 79), RED);
}

#[test]
fn lcut_child_areas_sum_to_the_parent_area() {
    // Color costs of the two children of a 100x80 canvas cut at x=30:
    // areas 2400 and 5600 sum to 8000.
    let mut interp = Interpreter::new(100, 80);
    run(&mut interp, "cut [0] [x] [30]").unwrap();
    // 5*8000/2400 = 16 and 5*8000/5600 = 7: distinct, so the regions differ.
    assert_eq!(run(&mut interp, "color [0.0] [1,2,3,4]").unwrap(), 16);
    assert_eq!(run(&mut interp, "color [0.1] [1,2,3,4]").unwrap(), 7);
}

#[test]
fn lcut_offset_outside_the_span_is_out_of_bounds() {
    for program in ["cut [0] [x] [0]", "cut [0] [x] [100]", "cut [0] [x] [150]"] {
        let mut interp = Interpreter::new(100, 80);
        assert!(
            matches!(
                run(&mut interp, program),
                Err(InterpreterError::OutOfBounds(_, _, _))
            ),
            "expected out of bounds for {:?}",
            program
        );
    }
    for program in ["cut [0] [y] [0]", "cut [0] [y] [80]", "cut [0] [y] [999]"] {
        let mut interp = Interpreter::new(100, 80);
        assert!(
            matches!(
                run(&mut interp, program),
                Err(InterpreterError::OutOfBounds(_, _, _))
            ),
            "expected out of bounds for {:?}",
            program
        );
    }
}

#[test]
fn swap_exchanges_the_rectangle_bindings() {
    let mut interp = Interpreter::new(100, 80);
    assert_eq!(run(&mut interp, "cut [0] [x] [50]").unwrap(), 7);
    // Swapping two 50x80 halves costs 3*8000/8000 = 3.
    assert_eq!(run(&mut interp, "swap [0.0] [0.1]").unwrap(), 3);
    // Block 0.0 now names the right half.
    run(&mut interp, "color [0.0] [255,0,0,255]").unwrap();
    assert_eq!(interp.pixel(0, 0), WHITE);
    assert_eq!(interp.pixel(50, 0), RED);
}

#[test]
fn swap_of_unequal_areas_is_not_the_same_size() {
    let mut interp = Interpreter::new(100, 80);
    run(&mut interp, "cut [0] [x] [30]").unwrap();
    assert!(matches!(
        run(&mut interp, "swap [0.0] [0.1]"),
        Err(InterpreterError::NotTheSameSize(_, _, _))
    ));
}

#[test]
fn merge_mints_a_fresh_top_level_id() {
    let mut interp = Interpreter::new(100, 80);
    assert_eq!(interp.counter(), 1);
    let total = run(
        &mut interp,
        "cut [0] [x] [50]\nmerge [0.0] [0.1]\ncolor [1] [255,0,0,255]",
    )
    .unwrap();
    // 7 + 1*8000/8000 + 5*8000/8000 = 13.
    assert_eq!(total, 13);
    assert_eq!(interp.counter(), 2);
    assert_eq!(interp.pixel(0, 0), RED);
    assert_eq!(interp.pixel(99, 79), RED);
    // The operand keys are gone.
    assert!(matches!(
        run(&mut interp, "color [0.0] [1,2,3,4]"),
        Err(InterpreterError::BlockNonExistent(_, _))
    ));
}

#[test]
fn merge_of_unequal_areas_is_not_the_same_size() {
    let mut interp = Interpreter::new(100, 80);
    run(&mut interp, "cut [0] [x] [30]").unwrap();
    assert!(matches!(
        run(&mut interp, "merge [0.0] [0.1]"),
        Err(InterpreterError::NotTheSameSize(_, _, _))
    ));
}

#[test]
fn merge_of_diagonal_quadrants_is_not_adjoint() {
    let mut interp = Interpreter::new(100, 80);
    run(&mut interp, "cut [0] [50,40]").unwrap();
    // Quadrants 0 and 2 have equal area but share only the cut point.
    assert!(matches!(
        run(&mut interp, "merge [0.0] [0.2]"),
        Err(InterpreterError::NotAdjoint(_, _, _))
    ));
}

#[test]
fn merge_failure_leaves_both_operands_usable() {
    let mut interp = Interpreter::new(100, 80);
    run(&mut interp, "cut [0] [50,40]").unwrap();
    run(&mut interp, "merge [0.0] [0.2]").unwrap_err();
    assert_eq!(run(&mut interp, "color [0.0] [1,2,3,4]").unwrap(), 20);
    assert_eq!(run(&mut interp, "color [0.2] [1,2,3,4]").unwrap(), 20);
    assert_eq!(interp.counter(), 1);
}

#[test]
fn swap_and_merge_costs_use_floor_division() {
    let mut interp = Interpreter::new(100, 80);
    // Quadrants 0 and 3 of a cut at (7,40) are both 7x40 = 280; combined 560.
    assert_eq!(run(&mut interp, "cut [0] [7,40]").unwrap(), 10);
    // 3*8000/560 = 42.857..., floored to 42.
    assert_eq!(run(&mut interp, "swap [0.0] [0.3]").unwrap(), 42);
    // 1*8000/560 = 14.285..., floored to 14.
    assert_eq!(run(&mut interp, "merge [0.0] [0.3]").unwrap(), 14);
}

#[test]
fn deep_block_paths_address_nested_children() {
    let mut interp = Interpreter::new(100, 80);
    let total = run(
        &mut interp,
        "cut [0] [50,40]\ncut [0.2] [75,60]\ncolor [0.2.2] [255,0,0,255]",
    )
    .unwrap();
    // 10 + 10*8000/2000 + 5*8000/500 = 10 + 40 + 80.
    assert_eq!(total, 130);
    assert_eq!(interp.pixel(75, 60), RED);
    assert_eq!(interp.pixel(74, 60), WHITE);
    assert_eq!(interp.pixel(99, 79), RED);
}

#[test]
fn nonexistent_block_is_reported() {
    let mut interp = Interpreter::new(100, 80);
    let err = run(&mut interp, "color [7] [1,2,3,4]").unwrap_err();
    match err {
        InterpreterError::BlockNonExistent(id, _) => assert_eq!(id.path, vec![7]),
        other => panic!("expected a missing-block error, got {:?}", other),
    }
}

#[test]
fn failing_move_aborts_the_rest_of_the_sequence() {
    let mut interp = Interpreter::new(100, 80);
    let result = run(
        &mut interp,
        "cut [0] [999,999]\ncolor [0] [255,0,0,255]",
    );
    assert!(matches!(result, Err(InterpreterError::OutOfBounds(_, _, _))));
    // The color move after the failure never ran.
    assert_eq!(interp.pixel(0, 0), WHITE);
}

#[test]
fn replaying_a_program_is_deterministic() {
    let program = "cut [0] [50,40]\ncolor [0.0] [255,0,0,255]\nswap [0.0] [0.1]\nmerge [0.0] [0.1]";
    let mut first = Interpreter::new(100, 80);
    let mut second = Interpreter::new(100, 80);
    let a = run(&mut first, program).unwrap();
    let b = run(&mut second, program).unwrap();
    assert_eq!(a, b);
    for (x, y) in [(0usize, 0usize), (49, 39), (50, 40), (99, 79)] {
        assert_eq!(first.pixel(x, y), second.pixel(x, y));
    }
}

#[test]
fn moves_observe_the_state_their_predecessors_left() {
    let mut interp = Interpreter::new(100, 80);
    // The second cut works on a child of the first.
    let total = run(&mut interp, "cut [0] [x] [50]\ncut [0.0] [y] [40]").unwrap();
    // 7 + 7*8000/4000 = 7 + 14.
    assert_eq!(total, 21);
    assert_eq!(run(&mut interp, "color [0.0.0] [1,2,3,4]").unwrap(), 20);
}
