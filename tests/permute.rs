use rubiks::cube::CornerType::{BDL, BDR, BUL};
use rubiks::cube::EdgeType::{BL, BR, DB, DF, DL, DR, FL, FR, UB, UF, UL, UR};
use rubiks::cube::FaceType::{B, D, F, L, R, U};
use rubiks::cube::{Axis, MoveSequence, RotationType};
use rubiks::group::{CyclicGroup, Group, GroupAction, InverseSemigroup, Magma, Unital};
use rubiks::permute::{
    CentreCubelet, CentrePermutation, CornerCubelet, CornerPermutation, CubePermutation3,
    EdgeCubelet, EdgePermutation,
};

#[test]
fn group_operation() {
    let e = CentrePermutation::identity();
    let rf = CentrePermutation::new_unchecked(vec![
        CentreCubelet(R),
        CentreCubelet(F),
        CentreCubelet(U),
        CentreCubelet(B),
        CentreCubelet(L),
        CentreCubelet(D),
    ]);
    let uf = CentrePermutation::new_unchecked(vec![
        CentreCubelet(U),
        CentreCubelet(R),
        CentreCubelet(F),
        CentreCubelet(B),
        CentreCubelet(L),
        CentreCubelet(D),
    ]);
    let ruf = CentrePermutation::new_unchecked(vec![
        CentreCubelet(R),
        CentreCubelet(U),
        CentreCubelet(F),
        CentreCubelet(B),
        CentreCubelet(L),
        CentreCubelet(D),
    ]);
    let urf = CentrePermutation::new_unchecked(vec![
        CentreCubelet(U),
        CentreCubelet(F),
        CentreCubelet(R),
        CentreCubelet(B),
        CentreCubelet(L),
        CentreCubelet(D),
    ]);
    assert_eq!(e, rf.duplicate().op(rf.duplicate()));
    assert_eq!(e.duplicate().op(rf.duplicate()), rf.duplicate().op(e.duplicate()));
    assert_eq!(e, e.duplicate().op(e.duplicate()));
    assert_eq!(ruf, uf.duplicate().op(rf.duplicate()));
    assert_eq!(urf, rf.duplicate().op(uf.duplicate()));
}

#[test]
fn edge_permutation() {
    let e = EdgePermutation::identity();
    let g = EdgePermutation::new_unchecked(vec![
        (EdgeCubelet(UF), CyclicGroup::new(0)),
        (EdgeCubelet(UR), CyclicGroup::new(0)),
        (EdgeCubelet(UL), CyclicGroup::new(0)),
        (EdgeCubelet(UB), CyclicGroup::new(0)),
        (EdgeCubelet(DR), CyclicGroup::new(0)),
        (EdgeCubelet(DF), CyclicGroup::new(0)),
        (EdgeCubelet(DL), CyclicGroup::new(1)),
        (EdgeCubelet(DB), CyclicGroup::new(0)),
        (EdgeCubelet(FR), CyclicGroup::new(0)),
        (EdgeCubelet(FL), CyclicGroup::new(0)),
        (EdgeCubelet(BR), CyclicGroup::new(0)),
        (EdgeCubelet(BL), CyclicGroup::new(0)),
    ]);
    assert_eq!(e.order(), 1);
    assert_eq!(e, g.duplicate().op(g.duplicate()));
}

#[test]
fn face_turn() {
    let turn_f = EdgePermutation::from_face_turn(F, RotationType::Normal);
    let turn_f2 = EdgePermutation::new_unchecked(vec![
        (EdgeCubelet(UR), CyclicGroup::new(0)),
        (EdgeCubelet(DF), CyclicGroup::new(0)),
        (EdgeCubelet(UL), CyclicGroup::new(0)),
        (EdgeCubelet(UB), CyclicGroup::new(0)),
        (EdgeCubelet(DR), CyclicGroup::new(0)),
        (EdgeCubelet(UF), CyclicGroup::new(0)),
        (EdgeCubelet(DL), CyclicGroup::new(0)),
        (EdgeCubelet(DB), CyclicGroup::new(0)),
        (EdgeCubelet(FL), CyclicGroup::new(0)),
        (EdgeCubelet(FR), CyclicGroup::new(0)),
        (EdgeCubelet(BR), CyclicGroup::new(0)),
        (EdgeCubelet(BL), CyclicGroup::new(0)),
    ]);

    assert_eq!(turn_f2, turn_f.duplicate().op(turn_f.duplicate()));
    assert_eq!(
        turn_f.inverse(),
        turn_f.duplicate().op(turn_f.duplicate()).op(turn_f.duplicate())
    );

    let turn_r = EdgePermutation::from_face_turn(R, RotationType::Normal);

    // The order is reversed with respect to speedcubing notation.
    let rf = turn_f.duplicate().op(turn_r.duplicate());
    let rf_manual = EdgePermutation::new_unchecked(vec![
        (EdgeCubelet(BR), CyclicGroup::new(0)),
        (EdgeCubelet(FR), CyclicGroup::new(1)),
        (EdgeCubelet(UL), CyclicGroup::new(0)),
        (EdgeCubelet(UB), CyclicGroup::new(0)),
        (EdgeCubelet(DF), CyclicGroup::new(1)),
        (EdgeCubelet(FL), CyclicGroup::new(1)),
        (EdgeCubelet(DL), CyclicGroup::new(0)),
        (EdgeCubelet(DB), CyclicGroup::new(0)),
        (EdgeCubelet(UR), CyclicGroup::new(0)),
        (EdgeCubelet(UF), CyclicGroup::new(1)),
        (EdgeCubelet(DR), CyclicGroup::new(0)),
        (EdgeCubelet(BL), CyclicGroup::new(0)),
    ]);
    assert_eq!(rf, rf_manual);

    let fr = turn_r.duplicate().op(turn_f.duplicate());
    let fr_manual = EdgePermutation::new_unchecked(vec![
        (EdgeCubelet(BR), CyclicGroup::new(0)),
        (EdgeCubelet(UR), CyclicGroup::new(1)),
        (EdgeCubelet(UL), CyclicGroup::new(0)),
        (EdgeCubelet(UB), CyclicGroup::new(0)),
        (EdgeCubelet(FR), CyclicGroup::new(0)),
        (EdgeCubelet(FL), CyclicGroup::new(1)),
        (EdgeCubelet(DL), CyclicGroup::new(0)),
        (EdgeCubelet(DB), CyclicGroup::new(0)),
        (EdgeCubelet(DF), CyclicGroup::new(1)),
        (EdgeCubelet(UF), CyclicGroup::new(1)),
        (EdgeCubelet(DR), CyclicGroup::new(0)),
        (EdgeCubelet(BL), CyclicGroup::new(0)),
    ]);
    assert_eq!(fr, fr_manual);

    assert_eq!(turn_f.order(), 4);
    assert_eq!(turn_r.order(), 4);
    // The move sequence RF has order 7 on edges.
    assert_eq!(rf.order(), 7);
    assert_eq!(fr.order(), 7);
}

#[test]
fn u_perm() {
    // R' U R' U' R' U' R' U R U R2 is a U permutation.
    let moves = vec![
        EdgePermutation::from_face_turn(R, RotationType::Inverse),
        EdgePermutation::from_face_turn(U, RotationType::Normal),
        EdgePermutation::from_face_turn(R, RotationType::Inverse),
        EdgePermutation::from_face_turn(U, RotationType::Inverse),
        EdgePermutation::from_face_turn(R, RotationType::Inverse),
        EdgePermutation::from_face_turn(U, RotationType::Inverse),
        EdgePermutation::from_face_turn(R, RotationType::Inverse),
        EdgePermutation::from_face_turn(U, RotationType::Normal),
        EdgePermutation::from_face_turn(R, RotationType::Normal),
        EdgePermutation::from_face_turn(U, RotationType::Normal),
        EdgePermutation::from_face_turn(R, RotationType::Double),
    ];
    let mut operation = EdgePermutation::identity();
    for mv in moves.into_iter().rev() {
        operation = operation.op(mv);
    }
    assert_eq!(operation.order(), 3);
    // It is the 3-cycle (UR UL UB).
    assert_eq!(
        operation.act(&(EdgeCubelet(UR), CyclicGroup::new(0))),
        (EdgeCubelet(UL), CyclicGroup::new(0))
    );
    assert_eq!(
        operation.act(&(EdgeCubelet(UL), CyclicGroup::new(0))),
        (EdgeCubelet(UB), CyclicGroup::new(0))
    );
    assert_eq!(
        operation.act(&(EdgeCubelet(UB), CyclicGroup::new(0))),
        (EdgeCubelet(UR), CyclicGroup::new(0))
    );
}

#[test]
fn a_perm() {
    // L2 D2 L' U' L D2 L' U L' is an A permutation.
    let moves = vec![
        CornerPermutation::from_face_turn(L, RotationType::Double),
        CornerPermutation::from_face_turn(D, RotationType::Double),
        CornerPermutation::from_face_turn(L, RotationType::Inverse),
        CornerPermutation::from_face_turn(U, RotationType::Inverse),
        CornerPermutation::from_face_turn(L, RotationType::Normal),
        CornerPermutation::from_face_turn(D, RotationType::Double),
        CornerPermutation::from_face_turn(L, RotationType::Inverse),
        CornerPermutation::from_face_turn(U, RotationType::Normal),
        CornerPermutation::from_face_turn(L, RotationType::Inverse),
    ];
    let mut operation = CornerPermutation::identity();
    for mv in moves.into_iter().rev() {
        operation = operation.op(mv);
    }
    assert_eq!(operation.order(), 3);
    // It is the 3-cycle (BDL BDR BUL).
    assert_eq!(
        operation.act(&(CornerCubelet(BDL), CyclicGroup::new(0))),
        (CornerCubelet(BDR), CyclicGroup::new(1))
    );
    assert_eq!(
        operation.act(&(CornerCubelet(BDR), CyclicGroup::new(0))),
        (CornerCubelet(BUL), CyclicGroup::new(0))
    );
    assert_eq!(
        operation.act(&(CornerCubelet(BUL), CyclicGroup::new(0))),
        (CornerCubelet(BDL), CyclicGroup::new(2))
    );
}

#[test]
fn h_perm() {
    let m2 = CubePermutation3::from_slice_turn(Axis::RL, RotationType::Double);
    let u = CubePermutation3::from_face_turn(U, RotationType::Normal);
    let h = m2
        .duplicate()
        .op(u.duplicate())
        .op(m2.duplicate())
        .op(u.duplicate())
        .op(u.duplicate())
        .op(m2.duplicate())
        .op(u.duplicate())
        .op(m2.duplicate());
    assert_eq!(h.order(), 2);
}

#[test]
fn alg_parsing() {
    // The superflip flips every edge, so doing it twice does nothing.
    let superflip = "U R2 F B R B2 R U2 L B2 R U' D' R2 F R' L B2 U2 F2"
        .parse::<MoveSequence>()
        .unwrap();
    let g = CubePermutation3::from_move_sequence(superflip);
    assert_eq!(g.order(), 2);
}
