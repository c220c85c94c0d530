use cubelib::coords::{
    b, CPCoord, CPOrbitTwistCoord, CPOrbitUnsortedCoord, CubieCube, FBSliceUnsortedCoord,
    ImpureHTRDRUDCoord, ParityCoord, PureHTRDRUDCoord, HTRDRUD_SIZE, IMPURE_HTRDRUD_SIZE,
    PURE_HTRDRUD_SIZE,
};
use cubelib::cube::Corner;

fn corners_of_ids(ids: [u8; 8]) -> [Corner; 8] {
    let mut cs = [Corner { id: 0, orientation: 0 }; 8];
    for i in 0..8 {
        cs[i] = Corner { id: ids[i], orientation: 0 };
    }
    cs
}

#[test]
fn binomial_helper_values() {
    assert_eq!(0, b(0, 0));
    assert_eq!(1, b(1, 0));
    assert_eq!(1, b(1, 1));
    assert_eq!(6, b(4, 2));
    assert_eq!(35, b(7, 3));
    assert_eq!(70, b(8, 4));
    assert_eq!(0, b(5, 9));
    assert_eq!(165, b(11, 3));
}

#[test]
fn sizes() {
    assert_eq!(29400, PURE_HTRDRUD_SIZE);
    assert_eq!(2822400, IMPURE_HTRDRUD_SIZE);
    assert_eq!(IMPURE_HTRDRUD_SIZE, HTRDRUD_SIZE);
}

#[test]
fn cp_of_solved_is_zero() {
    let cube = CubieCube::new_solved();
    assert_eq!(0, CPCoord::from_corners(&cube.corners).val());
}

#[test]
fn cp_of_single_swap_is_one() {
    let cs = corners_of_ids([1, 0, 2, 3, 4, 5, 6, 7]);
    assert_eq!(1, CPCoord::from_corners(&cs).val());
}

#[test]
fn cp_of_reversed_permutation_is_maximal() {
    let cs = corners_of_ids([7, 6, 5, 4, 3, 2, 1, 0]);
    assert_eq!(40319, CPCoord::from_corners(&cs).val());
}

#[test]
fn parity_counts_inversions() {
    let cube = CubieCube::new_solved();
    assert_eq!(0, ParityCoord::from_corners(&cube.corners).val());
    let swapped = corners_of_ids([1, 0, 2, 3, 4, 5, 6, 7]);
    assert_eq!(1, ParityCoord::from_corners(&swapped).val());
    let three_cycle = corners_of_ids([1, 2, 0, 3, 4, 5, 6, 7]);
    assert_eq!(0, ParityCoord::from_corners(&three_cycle).val());
}

#[test]
fn fb_slice_of_solved() {
    let cube = CubieCube::new_solved();
    // In the solved state the four front-back-slice edges occupy the last
    // four of the eight read positions: the largest combinadic index.
    assert_eq!(69, FBSliceUnsortedCoord::from_edges(&cube.edges).val());
}

#[test]
fn orbit_positions_of_solved() {
    let cube = CubieCube::new_solved();
    // The first tetrad sits at positions zero, two, four and six; the
    // combinadic of that set is 0 + C(2,2) + C(4,3) + C(6,4) = 20.
    assert_eq!(20, CPOrbitUnsortedCoord::from_corners(&cube.corners).val());
}

#[test]
fn tetrad_membership_is_preserved_by_half_turns() {
    // A half turn of the left face swaps positions 0/4 and 3/7; the
    // tetrad positions, and with them both orbit coordinates, stay as in
    // the solved state.
    let after_l2 = corners_of_ids([4, 1, 2, 7, 0, 5, 6, 3]);
    assert_eq!(20, CPOrbitUnsortedCoord::from_corners(&after_l2).val());
    assert_eq!(0, CPOrbitTwistCoord::from_corners(&after_l2).val());
    // A half turn of the up face swaps positions 0/2 and 1/3.
    let after_u2 = corners_of_ids([2, 3, 0, 1, 4, 5, 6, 7]);
    assert_eq!(20, CPOrbitUnsortedCoord::from_corners(&after_u2).val());
    assert_eq!(0, CPOrbitTwistCoord::from_corners(&after_u2).val());
}

#[test]
fn twist_of_a_permutation_is_never_the_sentinel() {
    let cs = corners_of_ids([3, 6, 0, 7, 2, 5, 1, 4]);
    assert!(CPOrbitTwistCoord::from_corners(&cs).val() <= 2);
    let cs = corners_of_ids([7, 6, 5, 4, 3, 2, 1, 0]);
    assert!(CPOrbitTwistCoord::from_corners(&cs).val() <= 2);
}

#[test]
fn orbit_twist_of_solved_is_zero() {
    let cube = CubieCube::new_solved();
    assert_eq!(0, CPOrbitTwistCoord::from_corners(&cube.corners).val());
}

#[test]
fn pure_coordinate_of_solved() {
    let cube = CubieCube::new_solved();
    // parity 0, twist 0, orbit 20 in radix 6, slice 69 in radix 420.
    let coord = PureHTRDRUDCoord::from_cube(&cube);
    assert_eq!(20 * 6 + 69 * 420, coord.val());
    assert!(coord.val() < PURE_HTRDRUD_SIZE);
}

#[test]
fn impure_coordinate_of_solved() {
    let cube = CubieCube::new_solved();
    let coord = ImpureHTRDRUDCoord::from_cube(&cube);
    assert_eq!(69 * 40320, coord.val());
    assert!(coord.val() < IMPURE_HTRDRUD_SIZE);
}

#[test]
fn impure_coordinate_separates_permutations() {
    let mut cube = CubieCube::new_solved();
    cube.corners = corners_of_ids([1, 0, 2, 3, 4, 5, 6, 7]);
    let coord = ImpureHTRDRUDCoord::from_cube(&cube);
    assert_eq!(1 + 69 * 40320, coord.val());
}

#[test]
fn coordinates_stay_in_range_for_arbitrary_slots() {
    // Even slot arrays that no cube can reach stay inside the declared
    // ranges of the permutation and position coordinates.
    let weird = corners_of_ids([3, 3, 3, 3, 7, 7, 7, 7]);
    assert!(CPCoord::from_corners(&weird).val() < 40320);
    assert!(CPOrbitUnsortedCoord::from_corners(&weird).val() < 70);
}
