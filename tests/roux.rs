use rubiks::cube::EdgeType::{DF, DL, UB};
use rubiks::cube::MoveSequence;
use rubiks::group::{CyclicGroup, Group, GroupAction, Magma, Unital};
use rubiks::permute::{CubePermutation3, EdgeCubelet};
use rubiks::roux::{edge_signature, solve, RouxSolver};

#[test]
fn roux_test_edge_insert() {
    let tables = RouxSolver::new();
    // Solve the DF edge piece (oriented badly) into the DL slot.
    let solution = tables
        .first_edge
        .solve(&edge_signature(EdgeCubelet(DF), CyclicGroup::new(1)));
    assert_eq!(
        CubePermutation3::from_move_sequence(solution.unwrap().duplicate())
            .edges()
            .act(&(EdgeCubelet(DF), CyclicGroup::new(1))),
        (EdgeCubelet(DL), CyclicGroup::new(0))
    );

    // Solve the UB edge piece (oriented correctly) into the DL slot.
    let solution = tables
        .first_edge
        .solve(&edge_signature(EdgeCubelet(UB), CyclicGroup::new(0)));
    assert_eq!(
        CubePermutation3::from_move_sequence(solution.unwrap().duplicate())
            .edges()
            .act(&(EdgeCubelet(UB), CyclicGroup::new(0))),
        (EdgeCubelet(DL), CyclicGroup::new(0))
    );
}

#[test]
fn roux_two_blocks() {
    let tables = RouxSolver::new();
    let scramble: MoveSequence =
        "B R2 U2 F R' U' B2 F U R2 U2 L' D' R2 D L R' F' R F2 B2 U D' R L2"
            .parse()
            .unwrap();

    let permutation = CubePermutation3::from_move_sequence(scramble);
    let solution = solve(&tables, &permutation).unwrap();
    let final_permutation =
        CubePermutation3::from_move_sequence(solution.steps.move_sequence()).op(permutation.duplicate());

    assert_eq!(final_permutation, CubePermutation3::identity());
}
