use rubiks::cube::CornerType::{BDL, BDR, BUL};
use rubiks::cube::EdgeType::{DF, DL, DR, UB, UL, UR};
use rubiks::cube::FaceType;
use rubiks::cube::{Axis, EdgeType, Move, MoveSequence, RotationType};
use rubiks::group::{
    CyclicGroup, Group, GroupAction, InverseSemigroup, Magma, TrivialGroup, Unital,
};
use rubiks::intuitive::Signature;
use rubiks::notation::{parse_move_sequence, ParseError};
use rubiks::permute::{CornerCubelet, CubePermutation3, EdgeCubelet};
use rubiks::roux::{
    cmll, edge_signature, eo, first_edge, first_pair, fourth_pair, l4e, lr, second_edge,
    second_pair, solve, third_pair, RouxSolver, RouxStep,
};
use rubiks::solve::ActionSteps;

const SCRAMBLE: &str = "B R2 U2 F R' U' B2 F U R2 U2 L' D' R2 D L R' F' R F2 B2 U D' R L2";
const SUPERFLIP: &str = "U R2 F B R B2 R U2 L B2 R U' D' R2 F R' L B2 U2 F2";

fn perm(text: &str) -> CubePermutation3 {
    CubePermutation3::from_move_sequence(text.parse::<MoveSequence>().unwrap())
}

#[test]
fn group_laws_on_a_scramble() {
    let p = perm(SCRAMBLE);
    let q = perm("R U F' M2 b");
    let r = perm("E S' l2 D");
    let e = CubePermutation3::identity();
    assert_eq!(p.duplicate().op(e.duplicate()), p);
    assert_eq!(e.duplicate().op(p.duplicate()), p);
    assert_eq!(p.duplicate().op(p.inverse()), e);
    assert_eq!(p.inverse().op(p.duplicate()), e);
    assert_eq!(
        p.duplicate().op(q.duplicate()).op(r.duplicate()),
        p.duplicate().op(q.duplicate().op(r.duplicate()))
    );
    assert_ne!(p, e);
}

#[test]
fn face_quarter_turns_have_order_four() {
    for face in [FaceType::F, FaceType::R, FaceType::U, FaceType::B, FaceType::L, FaceType::D] {
        assert_eq!(CubePermutation3::from_face_turn(face, RotationType::Normal).order(), 4);
        assert_eq!(CubePermutation3::from_face_turn(face, RotationType::Double).order(), 2);
    }
    assert_eq!(perm("F R").edges().order(), 7);
}

#[test]
fn superflip_squared_is_identity() {
    let g = perm(SUPERFLIP);
    assert_ne!(g, CubePermutation3::identity());
    assert_eq!(g.order(), 2);
    assert_eq!(g.duplicate().op(g.duplicate()), CubePermutation3::identity());
    let twice = perm(&format!("{} {}", SUPERFLIP, SUPERFLIP));
    assert_eq!(twice, CubePermutation3::identity());
}

#[test]
fn u_perm_from_notation() {
    let g = perm("R' U R' U' R' U' R' U R U R2");
    assert_eq!(g.edges().order(), 3);
    assert_eq!(
        g.edges().act(&(EdgeCubelet(UR), CyclicGroup::new(0))),
        (EdgeCubelet(UL), CyclicGroup::new(0))
    );
    assert_eq!(
        g.edges().act(&(EdgeCubelet(UL), CyclicGroup::new(0))),
        (EdgeCubelet(UB), CyclicGroup::new(0))
    );
    assert_eq!(
        g.edges().act(&(EdgeCubelet(UB), CyclicGroup::new(0))),
        (EdgeCubelet(UR), CyclicGroup::new(0))
    );
}

#[test]
fn a_perm_from_notation() {
    let g = perm("L2 D2 L' U' L D2 L' U L'");
    assert_eq!(g.corners().order(), 3);
    assert_eq!(
        g.corners().act(&(CornerCubelet(BDL), CyclicGroup::new(0))),
        (CornerCubelet(BDR), CyclicGroup::new(1))
    );
    assert_eq!(
        g.corners().act(&(CornerCubelet(BDR), CyclicGroup::new(0))),
        (CornerCubelet(BUL), CyclicGroup::new(0))
    );
    assert_eq!(
        g.corners().act(&(CornerCubelet(BUL), CyclicGroup::new(0))),
        (CornerCubelet(BDL), CyclicGroup::new(2))
    );
}

#[test]
fn h_perm_from_notation() {
    assert_eq!(perm("M2 U M2 U2 M2 U M2").order(), 2);
}

#[test]
fn unact_undoes_act() {
    let g = perm("R U F'");
    let x = (EdgeCubelet(DF), CyclicGroup::new(1));
    let y = g.edges().act(&x);
    assert_eq!(g.edges().unact(&y), x);
}

#[test]
fn solutions_reach_the_target() {
    let tables = RouxSolver::new();
    let target = RouxStep::FirstEdge.signature(&CubePermutation3::identity());
    for text in [SCRAMBLE, SUPERFLIP, "R U R' U'", "D2", "M' U2 M"] {
        let p = perm(text);
        let m = first_edge(&tables, &p).unwrap().duplicate();
        let after = CubePermutation3::from_move_sequence(m).op(p.duplicate());
        assert_eq!(RouxStep::FirstEdge.signature(&after), target);
        let m = first_pair(&tables, &p).unwrap().duplicate();
        let after = CubePermutation3::from_move_sequence(m).op(p.duplicate());
        assert_eq!(
            RouxStep::FirstPair.signature(&after),
            RouxStep::FirstPair.signature(&CubePermutation3::identity())
        );
    }
}

#[test]
fn solutions_are_shortest() {
    let tables = RouxSolver::new();
    let m = first_edge(&tables, &perm("D2")).unwrap();
    assert_eq!(m.moves.len(), 1);
    let m = first_edge(&tables, &perm("D2 R")).unwrap();
    assert_eq!(m.moves.len(), 2);
    let m = second_edge(&tables, &perm("R2 U")).unwrap();
    assert_eq!(m.moves.len(), 2);
}

#[test]
fn canonicalise_is_idempotent() {
    let m: MoveSequence = "R R U U' F2 F2 L M M' M".parse().unwrap();
    let c = m.canonicalise();
    let expected: MoveSequence = "R2 L M".parse().unwrap();
    assert_eq!(c, expected);
    assert_eq!(c.canonicalise(), c);
    assert!(c.moves.len() <= m.moves.len());
    let canonical: MoveSequence = "R U R' U'".parse().unwrap();
    assert_eq!(canonical.canonicalise(), canonical);
}

#[test]
fn solved_cube_needs_no_moves() {
    let tables = RouxSolver::new();
    let id = CubePermutation3::identity();
    assert_eq!(first_edge(&tables, &id).unwrap().moves.len(), 0);
    assert_eq!(first_pair(&tables, &id).unwrap().moves.len(), 0);
    assert_eq!(second_pair(&tables, &id).unwrap().moves.len(), 0);
    assert_eq!(second_edge(&tables, &id).unwrap().moves.len(), 0);
    assert_eq!(third_pair(&tables, &id).unwrap().moves.len(), 0);
    assert_eq!(fourth_pair(&tables, &id).unwrap().moves.len(), 0);
    assert_eq!(cmll(&tables, &id).unwrap().moves.len(), 0);
    assert_eq!(eo(&tables, &id).unwrap().moves.len(), 0);
    assert_eq!(lr(&tables, &id).unwrap().moves.len(), 0);
    assert_eq!(l4e(&tables, &id).unwrap().moves.len(), 0);
    let action = solve(&tables, &id).unwrap();
    assert_eq!(action.steps.move_sequence().moves.len(), 0);
}

#[test]
fn flipped_edge_goes_home() {
    let tables = RouxSolver::new();
    let solution = tables
        .first_edge
        .solve(&edge_signature(EdgeCubelet(DF), CyclicGroup::new(1)))
        .unwrap();
    let g = CubePermutation3::from_move_sequence(solution.duplicate());
    assert_eq!(
        g.edges().act(&(EdgeCubelet(DF), CyclicGroup::new(1))),
        (EdgeCubelet(DL), CyclicGroup::new(0))
    );
    let h = tables
        .first_edge
        .solve(&edge_signature(EdgeCubelet(DR), CyclicGroup::new(0)))
        .unwrap();
    assert!(h.moves.len() >= 1);
}

#[test]
fn parse_and_print_round_trip() {
    let text = "M2 U2 M2 U2 M2 U2 M2 U2";
    let m = parse_move_sequence(text).unwrap();
    let order = CubePermutation3::from_move_sequence(m.duplicate()).order();
    assert!(order == 1 || order == 2);
    let printed = String::from_utf8(m.notation()).unwrap();
    assert_eq!(printed, text);
    assert_eq!(printed.parse::<MoveSequence>().unwrap(), m);
    let mixed: MoveSequence = "f' Rw2 B l d2 E S' M".parse().unwrap();
    let printed = String::from_utf8(mixed.notation()).unwrap();
    assert_eq!(printed, "f' r2 B l d2 E S' M");
}

#[test]
fn roux_leaves_match_moves() {
    let tables = RouxSolver::new();
    let permutation = perm(SCRAMBLE);
    let action = solve(&tables, &permutation).unwrap();
    let moves = action.steps.move_sequence();
    let mut leaves = 0;
    if let ActionSteps::Sequence { actions } = &action.steps {
        assert_eq!(actions.len(), 10);
        for step in actions {
            if let ActionSteps::Sequence { actions } = &step.steps {
                for leaf in actions {
                    assert!(matches!(leaf.steps, ActionSteps::Move { .. }));
                    leaves += 1;
                }
            }
        }
    }
    assert_eq!(leaves, moves.moves.len());
    let result = CubePermutation3::from_move_sequence(moves).op(permutation.duplicate());
    assert_eq!(result, CubePermutation3::identity());
}

#[test]
fn parse_errors() {
    assert_eq!(parse_move_sequence("R  U").unwrap_err(), ParseError::EmptyToken);
    assert_eq!(parse_move_sequence("").unwrap_err(), ParseError::EmptyToken);
    assert_eq!(parse_move_sequence("R X").unwrap_err(), ParseError::UnknownLetter);
    assert_eq!(parse_move_sequence("R3").unwrap_err(), ParseError::UnknownSuffix);
    assert_eq!(parse_move_sequence("m").unwrap_err(), ParseError::UnknownLetter);
}

#[test]
fn parse_canonical_moves() {
    let b: Move = "B".parse().unwrap();
    assert_eq!(b, Move::new(Axis::FB, RotationType::Inverse, 2, 3));
    let m: Move = "M'".parse().unwrap();
    assert_eq!(m, Move::new(Axis::RL, RotationType::Normal, 1, 2));
    let rw: Move = "Rw2".parse().unwrap();
    assert_eq!(rw, Move::new(Axis::RL, RotationType::Double, 0, 2));
    let u: Move = "U2'".parse().unwrap();
    assert_eq!(u, Move::new(Axis::UD, RotationType::Double, 0, 1));
    let d: Move = "d".parse().unwrap();
    assert_eq!(d, Move::new(Axis::UD, RotationType::Inverse, 1, 3));
    assert_eq!(RotationType::Normal.inverse(), RotationType::Inverse);
    assert_eq!(RotationType::Double.inverse(), RotationType::Double);
}

#[test]
fn sequence_composition_and_inverse() {
    let a: MoveSequence = "R U".parse().unwrap();
    let b: MoveSequence = "F".parse().unwrap();
    let expected: MoveSequence = "F R U".parse().unwrap();
    assert_eq!(a.duplicate().op(b.duplicate()), expected);
    assert_eq!(
        CubePermutation3::from_move_sequence(a.duplicate().op(b.duplicate())),
        CubePermutation3::from_move_sequence(a.duplicate())
            .op(CubePermutation3::from_move_sequence(b.duplicate()))
    );
    let c: MoveSequence = "R U2 F'".parse().unwrap();
    let inv: MoveSequence = "F U2 R'".parse().unwrap();
    assert_eq!(c.inverse(), inv);
    assert_eq!(
        CubePermutation3::from_move_sequence(c.inverse()),
        CubePermutation3::from_move_sequence(c.duplicate()).inverse()
    );
}

#[test]
fn cyclic_group_arithmetic() {
    let a = CyclicGroup::<3>::new(5);
    assert_eq!(a.get_value(), 2);
    assert_eq!(a.op(CyclicGroup::new(2)).get_value(), 1);
    assert_eq!(CyclicGroup::<3>::new(1).inverse().get_value(), 2);
    assert_eq!(CyclicGroup::<3>::identity().get_value(), 0);
    assert_eq!(CyclicGroup::<3>::new(1).order(), 3);
    assert_eq!(CyclicGroup::<2>::new(0).inverse().get_value(), 0);
    assert_eq!(TrivialGroup.op(TrivialGroup), TrivialGroup::identity());
    assert_eq!(TrivialGroup.order(), 1);
}

#[test]
fn cmll_table_covers_its_algorithms() {
    let tables = RouxSolver::new();
    let p = perm("R U R' U R U2 R'").inverse();
    let found = tables.cmll.solve(&RouxStep::Cmll.signature(&p)).unwrap();
    assert!(found.moves.len() <= 8);
    let after = CubePermutation3::from_move_sequence(found.duplicate()).op(p.duplicate());
    let aligned = [
        CubePermutation3::identity(),
        perm("U"),
        perm("U2"),
        perm("U'"),
    ]
    .iter()
    .any(|a| RouxStep::Cmll.signature(a) == RouxStep::Cmll.signature(&after));
    assert!(aligned);
}

#[test]
fn names_of_faces_edges_and_axes() {
    assert_eq!("DL".parse::<EdgeType>(), Ok(DL));
    assert_eq!("UR".parse::<EdgeType>(), Ok(UR));
    assert!("LD".parse::<EdgeType>().is_err());
    assert_eq!("F".parse::<FaceType>(), Ok(FaceType::F));
    assert!("X".parse::<FaceType>().is_err());
    assert!("FF".parse::<FaceType>().is_err());
    assert_eq!("RL".parse::<Axis>(), Ok(Axis::RL));
    assert!("LR".parse::<Axis>().is_err());
    assert_eq!(EdgeType::from_faces_ordered(FaceType::D, FaceType::L), Some(DL));
    assert_eq!(EdgeType::from_faces_ordered(FaceType::L, FaceType::D), None);
    let (e, t) = EdgeType::from_faces(FaceType::D, FaceType::R).unwrap();
    assert_eq!((e, t.get_value()), (DR, 0));
    let (e, t) = EdgeType::from_faces(FaceType::R, FaceType::D).unwrap();
    assert_eq!((e, t.get_value()), (DR, 1));
    assert!(EdgeType::from_faces(FaceType::U, FaceType::D).is_none());
}

#[test]
fn generators_are_expanded_and_sorted() {
    let gens: Vec<MoveSequence> = vec!["U".parse().unwrap(), "R".parse().unwrap(), "R".parse().unwrap()];
    let out = rubiks::intuitive::normalise_generators(&gens);
    let expected: Vec<MoveSequence> = ["R", "R2", "R'", "U", "U2", "U'"]
        .iter()
        .map(|t| t.parse().unwrap())
        .collect();
    assert_eq!(out, expected);
    let long: Vec<MoveSequence> = vec!["R U R'".parse().unwrap(), "M2".parse().unwrap()];
    let out = rubiks::intuitive::normalise_generators(&long);
    let expected: Vec<MoveSequence> = vec!["R U R'".parse().unwrap(), "M2".parse().unwrap()];
    assert_eq!(out, expected);
}
