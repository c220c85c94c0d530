use cubelib::algs::Algorithm;
use cubelib::algs::Solution;
use cubelib::cube::{CubeAxis, CubeFace, CubeOuterTurn, Direction};

#[test]
fn empty() {
    let alg = Algorithm::from_str("").unwrap();
    assert_eq!(0, alg.normal_moves.len());
    assert_eq!(0, alg.inverse_moves.len());
}

#[test]
fn single() {
    let alg = Algorithm::from_str("R").unwrap();
    assert_eq!(1, alg.normal_moves.len());
    assert_eq!(0, alg.inverse_moves.len());
}

#[test]
fn single_inverse() {
    let alg = Algorithm::from_str("(R)").unwrap();
    assert_eq!(0, alg.normal_moves.len());
    assert_eq!(1, alg.inverse_moves.len());
}

#[test]
fn multi_switch() {
    let alg = Algorithm::from_str("F (B) F (B F) B").unwrap();
    assert_eq!(3, alg.normal_moves.len());
    assert_eq!(3, alg.inverse_moves.len());
}

#[test]
fn invalid_move() {
    let alg = Algorithm::from_str("P");
    assert!(alg.is_err());
}

#[test]
fn invalid_move_inverse() {
    let alg = Algorithm::from_str("(P)");
    assert!(alg.is_err());
}

#[test]
fn unclosed_group_fails() {
    assert!(Algorithm::from_str("(R").is_err());
}

#[test]
fn nested_group_fails() {
    assert!(Algorithm::from_str("((R))").is_err());
}

#[test]
fn stray_close_fails() {
    assert!(Algorithm::from_str(")R").is_err());
}

#[test]
fn modifier_without_face_fails() {
    assert!(Algorithm::from_str("2").is_err());
    assert!(Algorithm::from_str("R'2").is_err());
}

#[test]
fn parses_modifiers() {
    let alg = Algorithm::from_str("R U2 F' D").unwrap();
    assert_eq!(4, alg.normal_moves.len());
    assert_eq!(
        CubeOuterTurn::new(CubeFace::Right, Direction::Clockwise),
        alg.normal_moves[0]
    );
    assert_eq!(
        CubeOuterTurn::new(CubeFace::Up, Direction::Half),
        alg.normal_moves[1]
    );
    assert_eq!(
        CubeOuterTurn::new(CubeFace::Front, Direction::CounterClockwise),
        alg.normal_moves[2]
    );
    assert_eq!(
        CubeOuterTurn::new(CubeFace::Down, Direction::Clockwise),
        alg.normal_moves[3]
    );
}

#[test]
fn parses_lower_case_and_whitespace() {
    let alg = Algorithm::from_str(" r\tu2 \n f' ").unwrap();
    assert_eq!(3, alg.normal_moves.len());
    assert_eq!(
        CubeOuterTurn::new(CubeFace::Right, Direction::Clockwise),
        alg.normal_moves[0]
    );
    assert_eq!(
        CubeOuterTurn::new(CubeFace::Up, Direction::Half),
        alg.normal_moves[1]
    );
    assert_eq!(
        CubeOuterTurn::new(CubeFace::Front, Direction::CounterClockwise),
        alg.normal_moves[2]
    );
}

#[test]
fn parses_exotic_whitespace() {
    // Vertical tab, form feed, next line, no-break space, en space and
    // the ideographic space all separate tokens.
    let alg =
        Algorithm::from_str("R\u{000B}U2\u{000C}F'\u{0085}(\u{00A0}L\u{2002}B\u{3000})")
            .unwrap();
    assert_eq!(3, alg.normal_moves.len());
    assert_eq!(2, alg.inverse_moves.len());
}

#[test]
fn parses_without_spaces() {
    let alg = Algorithm::from_str("RU2F'(LB2)").unwrap();
    assert_eq!(3, alg.normal_moves.len());
    assert_eq!(2, alg.inverse_moves.len());
}

#[test]
fn renders_empty() {
    let alg = Algorithm::new();
    assert_eq!("", alg.to_display_string());
}

#[test]
fn renders_normal_only() {
    let alg = Algorithm::from_str("R U2 F'").unwrap();
    assert_eq!("R U2 F'", alg.to_display_string());
}

#[test]
fn renders_inverse_only() {
    let alg = Algorithm::from_str("(R U2)").unwrap();
    assert_eq!("(R U2)", alg.to_display_string());
}

#[test]
fn renders_mixed() {
    let alg = Algorithm::from_str("F (B) F (B F) B").unwrap();
    assert_eq!("F F B (B B F)", alg.to_display_string());
}

#[test]
fn render_parse_round_trip() {
    let alg = Algorithm::from_str("F (B) F (B F) B").unwrap();
    let rendered = alg.to_display_string();
    let again = Algorithm::from_str(rendered.as_str()).unwrap();
    assert_eq!(alg.normal_moves, again.normal_moves);
    assert_eq!(alg.inverse_moves, again.inverse_moves);
    assert_eq!(rendered, again.to_display_string());
}

#[test]
fn render_parse_round_trip_canonical_scramble() {
    let s = "R' U' F U F2 D U2 L2 D R2 U' L2 R U' F2 L' U2 L' F' L2 U2 L F R' U' F";
    let alg = Algorithm::from_str(s).unwrap();
    assert_eq!(26, alg.normal_moves.len());
    assert_eq!(s, alg.to_display_string());
}

#[test]
fn alg_len_counts_both_sides() {
    let alg = Algorithm::from_str("F (B) F (B F) B").unwrap();
    assert_eq!(6, alg.len());
}

#[test]
fn reverse_reverses_both_sides() {
    let alg = Algorithm::from_str("R U F (L D)").unwrap();
    let rev = alg.reverse();
    assert_eq!("F U R (D L)", rev.to_display_string());
}

#[test]
fn mirror_maps_moves() {
    // Mirrored across the left-right axis, R becomes L' and U becomes U'.
    let mut alg = Algorithm::from_str("R U").unwrap();
    alg.mirror(CubeAxis::LR);
    assert_eq!("L' U'", alg.to_display_string());
}

#[test]
fn mirror_twice_is_identity() {
    let original = Algorithm::from_str("R U2 F' (L D B2)").unwrap();
    let mut alg = original.clone();
    alg.mirror(CubeAxis::FB);
    alg.mirror(CubeAxis::FB);
    assert_eq!(original.normal_moves, alg.normal_moves);
    assert_eq!(original.inverse_moves, alg.inverse_moves);
}

#[test]
fn concat_appends_part_by_part() {
    let a = Algorithm::from_str("R (U)").unwrap();
    let b = Algorithm::from_str("F (D)").unwrap();
    let c = a.concat(b);
    assert_eq!("R F (U D)", c.to_display_string());
}

#[test]
fn solution_starts_empty_on_normal() {
    let sol = Solution::new();
    assert_eq!(0, sol.len());
    assert!(sol.ends_on_normal());
    assert_eq!(0, sol.get_steps().len());
}

#[test]
fn solution_tracks_side() {
    let mut sol = Solution::new();
    sol.add_step("EO".to_string(), Algorithm::from_str("R U").unwrap());
    assert!(sol.ends_on_normal());
    sol.add_step("DR".to_string(), Algorithm::from_str("(F2)").unwrap());
    assert!(!sol.ends_on_normal());
    sol.add_step("HTR".to_string(), Algorithm::from_str("L (B)").unwrap());
    // Moves on both sides flip the side.
    assert!(sol.ends_on_normal());
    sol.add_step("FIN".to_string(), Algorithm::from_str("D (U)").unwrap());
    assert!(!sol.ends_on_normal());
    assert_eq!(7, sol.len());
}

#[test]
fn solution_empty_step_sets_inverse_side() {
    let mut sol = Solution::new();
    sol.add_step("EO".to_string(), Algorithm::from_str("R").unwrap());
    sol.add_step("DR".to_string(), Algorithm::new());
    // An algorithm with no normal moves leaves the solution on the inverse.
    assert!(!sol.ends_on_normal());
}

#[test]
fn solution_into_algorithm_concatenates() {
    let mut sol = Solution::new();
    sol.add_step("EO".to_string(), Algorithm::from_str("R (U)").unwrap());
    sol.add_step("DR".to_string(), Algorithm::from_str("F2 (D)").unwrap());
    let alg = sol.to_algorithm();
    assert_eq!("R F2 (U D)", alg.to_display_string());
}

#[test]
fn solution_display_lines_and_summary() {
    let mut sol = Solution::new();
    sol.add_step("EO".to_string(), Algorithm::from_str("R U").unwrap());
    sol.add_step("DR".to_string(), Algorithm::from_str("F2").unwrap());
    let shown = sol.to_display_string();
    assert_eq!(
        "R U  //EO (2/2)\nF2   //DR (1/3)\n\nSolution (3): R U F2\n",
        shown
    );
}

#[test]
fn empty_group_parses_to_nothing() {
    let alg = Algorithm::from_str("()").unwrap();
    assert_eq!(0, alg.normal_moves.len());
    assert_eq!(0, alg.inverse_moves.len());
    let alg = Algorithm::from_str("R ( ) U").unwrap();
    assert_eq!(2, alg.normal_moves.len());
}

#[test]
fn empty_solution_display() {
    let sol = Solution::new();
    assert_eq!("\nSolution (0): \n", sol.to_display_string());
}

#[test]
fn solution_display_merges_empty_steps() {
    let mut sol = Solution::new();
    sol.add_step("EO".to_string(), Algorithm::from_str("R").unwrap());
    sol.add_step("note".to_string(), Algorithm::new());
    let shown = sol.to_display_string();
    // The empty step is absorbed and contributes only its name.
    assert_eq!("R  //note (1/1)\n\nSolution (1): R\n", shown);
}
