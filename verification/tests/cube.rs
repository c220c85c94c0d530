use cubelib::cube::{CubeAxis, CubeColor, CubeFace, CubeOuterTurn, CubeTransformation, Direction};

#[test]
fn turn_ids_cover_all_eighteen() {
    for id in 0..18 {
        let t = CubeOuterTurn::from_id(id);
        assert!(t.to_id() < 18);
    }
    // The enumeration order interleaves directions differently from the
    // dense identifier: position one holds the counter-clockwise turn,
    // whose identifier is two.
    let t = CubeOuterTurn::from_id(1);
    assert_eq!(CubeFace::Up, t.face);
    assert_eq!(Direction::CounterClockwise, t.dir);
    assert_eq!(2, t.to_id());
}

#[test]
fn turn_id_is_face_major() {
    assert_eq!(0, CubeOuterTurn::new(CubeFace::Up, Direction::Clockwise).to_id());
    assert_eq!(1, CubeOuterTurn::new(CubeFace::Up, Direction::Half).to_id());
    assert_eq!(2, CubeOuterTurn::new(CubeFace::Up, Direction::CounterClockwise).to_id());
    assert_eq!(17, CubeOuterTurn::new(CubeFace::Right, Direction::CounterClockwise).to_id());
}

#[test]
fn opposite_faces_pair_up() {
    assert_eq!(CubeFace::Down, CubeFace::Up.opposite());
    assert_eq!(CubeFace::Up, CubeFace::Down.opposite());
    assert_eq!(CubeFace::Back, CubeFace::Front.opposite());
    assert_eq!(CubeFace::Right, CubeFace::Left.opposite());
    for id in 0..6 {
        let f = CubeFace::from_id(id);
        assert_eq!(f, f.opposite().opposite());
    }
}

#[test]
fn direction_invert_is_involutive() {
    assert_eq!(Direction::CounterClockwise, Direction::Clockwise.invert());
    assert_eq!(Direction::Half, Direction::Half.invert());
    assert_eq!(Direction::Clockwise, Direction::CounterClockwise.invert());
}

#[test]
fn turn_invert_undoes() {
    let t = CubeOuterTurn::new(CubeFace::Right, Direction::Clockwise);
    let i = t.invert();
    assert_eq!(CubeFace::Right, i.face);
    assert_eq!(Direction::CounterClockwise, i.dir);
    assert_eq!(t, i.invert());
}

#[test]
fn mirror_flips_on_axis_faces() {
    let r = CubeOuterTurn::new(CubeFace::Right, Direction::Clockwise);
    assert_eq!(
        CubeOuterTurn::new(CubeFace::Left, Direction::CounterClockwise),
        r.mirror(CubeAxis::LR)
    );
    assert_eq!(
        CubeOuterTurn::new(CubeFace::Right, Direction::CounterClockwise),
        r.mirror(CubeAxis::UD)
    );
}

#[test]
fn transform_rotates_faces() {
    let x = CubeTransformation::new(CubeAxis::X, Direction::Clockwise);
    assert_eq!(CubeFace::Front, CubeFace::Up.transform(x));
    assert_eq!(CubeFace::Down, CubeFace::Front.transform(x));
    assert_eq!(CubeFace::Left, CubeFace::Left.transform(x));
    let y2 = CubeTransformation::new(CubeAxis::Y, Direction::Half);
    assert_eq!(CubeFace::Back, CubeFace::Front.transform(y2));
    let t = CubeOuterTurn::new(CubeFace::Up, Direction::Half).transform(x);
    assert_eq!(CubeOuterTurn::new(CubeFace::Front, Direction::Half), t);
}

#[test]
fn is_on_axis_matches_pairs() {
    assert!(CubeFace::Up.is_on_axis(CubeAxis::UD));
    assert!(CubeFace::Down.is_on_axis(CubeAxis::UD));
    assert!(CubeFace::Front.is_on_axis(CubeAxis::FB));
    assert!(CubeFace::Left.is_on_axis(CubeAxis::LR));
    assert!(!CubeFace::Up.is_on_axis(CubeAxis::FB));
    assert!(!CubeFace::Right.is_on_axis(CubeAxis::UD));
}

#[test]
fn transformation_ids() {
    let z = CubeTransformation::new(CubeAxis::Z, Direction::CounterClockwise);
    assert_eq!(8, z.to_id());
    assert_eq!(
        CubeTransformation::new(CubeAxis::X, Direction::Half),
        CubeTransformation::new(CubeAxis::X, Direction::Half).invert()
    );
    let t = CubeTransformation::from_id(1);
    assert_eq!(CubeAxis::X, t.axis);
    assert_eq!(Direction::CounterClockwise, t.dir);
}

#[test]
fn turn_names_round_trip() {
    let names = [
        "U", "U2", "U'", "D", "D2", "D'", "F", "F2", "F'", "B", "B2", "B'", "L", "L2", "L'", "R",
        "R2", "R'",
    ];
    for name in names {
        let t = CubeOuterTurn::from_str(name).unwrap();
        assert_eq!(name, t.to_name());
    }
}

#[test]
fn turn_from_str_rejects_garbage() {
    assert!(CubeOuterTurn::from_str("").is_err());
    assert!(CubeOuterTurn::from_str("P").is_err());
    assert!(CubeOuterTurn::from_str("R3").is_err());
    assert!(CubeOuterTurn::from_str("R2'").is_err());
    assert!(CubeOuterTurn::from_str("RR").is_err());
}

#[test]
fn turn_from_str_accepts_lower_case() {
    assert_eq!(
        CubeOuterTurn::new(CubeFace::Back, Direction::Half),
        CubeOuterTurn::from_str("b2").unwrap()
    );
}

#[test]
fn color_symbols() {
    assert_eq!("⬜", CubeColor::White.to_symbol());
    assert_eq!("⬛", CubeColor::NoColor.to_symbol());
}

#[test]
fn face_chars_round_trip() {
    for id in 0..6 {
        let f = CubeFace::from_id(id);
        assert_eq!(f, CubeFace::from_char(f.to_char()).unwrap());
        assert_eq!(id, f.to_id());
    }
    assert!(CubeFace::from_char('P').is_err());
}
