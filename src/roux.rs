use crate::algorithmic::{adjustment_expansion, enumerated, is_adjustment_of, stored, AlgorithmicSolver};
use crate::cube::{Axis, CornerType, EdgeType, FaceType, Move, MoveSequence, RotationType};
use crate::group::{
    inverse_oriented, positions, CyclicGroup, Enumerable, Group, GroupAction, Magma, Unital,
};
use crate::intuitive::{views, MoveCount, SequenceGraph, SequenceSolver, Signature};
use crate::notation::parse_move_sequence;
use crate::permute::{
    cube_compose, cube_identity, cube_valid, lemma_cube_identity_valid, lemma_sequence_valid,
    moves_fit, spec_sequence, CentreCubelet, CornerCubelet, CubePermutation3, CubeView,
    EdgeCubelet,
};
use crate::solve::{
    is_move_step, leaf_count, list_moves, move_sequence_to_intuitive_action, steps_moves, Action, ActionReason, ActionSteps,
};
use vstd::prelude::*;

verus! {

/// Where the edge starting at position `e` is, and how it is turned, as `2 * position + twist`.
pub open spec fn edge_code(p: CubeView, e: int) -> int {
    p.1[e].0 * 2 + p.1[e].1
}

/// Where the corner starting at position `c` is, and how it is turned, as `3 * position + twist`.
pub open spec fn corner_code(p: CubeView, c: int) -> int {
    p.2[c].0 * 3 + p.2[c].1
}

/// How the edge now at position `x` is turned.
pub open spec fn edge_flip(p: CubeView, x: int) -> int {
    inverse_oriented(p.1, 2)[x].1
}

/// The six edge positions whose orientation the last-six-edges steps look at:
/// UF, UB, DB, DF, UL, UR.
pub open spec fn eo_flips(p: CubeView) -> int {
    edge_flip(p, 1) + 2 * edge_flip(p, 3) + 4 * edge_flip(p, 7) + 8 * edge_flip(p, 5) + 16
        * edge_flip(p, 2) + 32 * edge_flip(p, 0)
}

/// The centre at position `c` is the F or B centre.
pub open spec fn on_fb_axis(p: CubeView, c: int) -> bool {
    p.0[c] == 0 || p.0[c] == 3
}

/// The steps of the Roux method, each with the signature it solves for.
#[derive(Debug, Clone, Copy, PartialEq, Eq, Structural)]
pub enum RouxStep {
    /// The DL edge.
    FirstEdge,
    /// The FL edge and the FDL corner.
    FirstPair,
    /// The BL edge and the BDL corner.
    SecondPair,
    /// The DR edge.
    SecondEdge,
    /// The FR edge and the FDR corner.
    ThirdPair,
    /// The BR edge and the BDR corner.
    FourthPair,
    /// The four U-layer corners FUL, FUR, BUR, BUL.
    Cmll,
    /// The orientation of the last six edges, and whether the U centre is on the F/B axis.
    Eo,
    /// Where the UL and UR edges are, and where the FUL corner is.
    Lr,
    /// Both of the above together, and whether the F centre is on the F/B axis.
    Eolr,
    /// Where the UF, UB, DB and DF edges are, and which centre is in front.
    L4e,
}

/// The signature of a state for a step.
pub open spec fn roux_signature(step: RouxStep, p: CubeView) -> u64 {
    match step {
        RouxStep::FirstEdge => edge_code(p, 6) as u64,
        RouxStep::FirstPair => (edge_code(p, 9) * 24 + corner_code(p, 3)) as u64,
        RouxStep::SecondPair => (edge_code(p, 11) * 24 + corner_code(p, 7)) as u64,
        RouxStep::SecondEdge => edge_code(p, 4) as u64,
        RouxStep::ThirdPair => (edge_code(p, 8) * 24 + corner_code(p, 2)) as u64,
        RouxStep::FourthPair => (edge_code(p, 10) * 24 + corner_code(p, 6)) as u64,
        RouxStep::Cmll => (((corner_code(p, 1) * 24 + corner_code(p, 0)) * 24 + corner_code(p, 4))
            * 24 + corner_code(p, 5)) as u64,
        RouxStep::Eo => (eo_flips(p) * 2 + if on_fb_axis(p, 2) {
            1int
        } else {
            0int
        }) as u64,
        RouxStep::Lr => ((p.1[2].0 * 12 + p.1[0].0) * 8 + p.2[1].0) as u64,
        RouxStep::Eolr => ((((eo_flips(p) * 12 + p.1[2].0) * 12 + p.1[0].0) * 8 + p.2[1].0) * 2
            + if on_fb_axis(p, 0) {
            1int
        } else {
            0int
        }) as u64,
        RouxStep::L4e => ((((p.1[1].0 * 12 + p.1[3].0) * 12 + p.1[7].0) * 12 + p.1[5].0) * 6
            + p.0[0]) as u64,
    }
}

proof fn lemma_entry_ranges(p: CubeView)
    requires
        cube_valid(p),
    ensures
        forall|e: int| 0 <= e < 12 ==> 0 <= #[trigger] p.1[e].0 < 12 && 0 <= p.1[e].1 < 2,
        forall|c: int| 0 <= c < 8 ==> 0 <= #[trigger] p.2[c].0 < 8 && 0 <= p.2[c].1 < 3,
        forall|c: int| 0 <= c < 6 ==> 0 <= #[trigger] p.0[c] < 6,
{
    assert forall|e: int| 0 <= e < 12 implies 0 <= #[trigger] p.1[e].0 < 12 && 0 <= p.1[e].1 < 2 by {
        assert(positions(p.1)[e] == p.1[e].0);
    }
    assert forall|c: int| 0 <= c < 8 implies 0 <= #[trigger] p.2[c].0 < 8 && 0 <= p.2[c].1 < 3 by {
        assert(positions(p.2)[c] == p.2[c].0);
    }
}

/// The position and twist that the edge starting at `e` has, as `edge_code` encodes them.
fn edge_code_of(p: &CubePermutation3, e: EdgeType) -> (r: u64)
    requires
        cube_valid(p@),
    ensures
        r as int == edge_code(p@, e.spec_index()),
        r < 24,
{
    proof {
        EdgeCubelet::lemma_enumerable();
        lemma_entry_ranges(p@);
    }
    let (x, t) = p.edges().act(&(EdgeCubelet(e), CyclicGroup::new(0)));
    let ghost i = e.spec_index();
    assert(x.spec_index() == p@.1[i].0);
    (x.index() as u64) * 2 + t.get_value() as u64
}

/// The position and twist that the corner starting at `c` has, as `corner_code` encodes them.
fn corner_code_of(p: &CubePermutation3, c: CornerType) -> (r: u64)
    requires
        cube_valid(p@),
    ensures
        r as int == corner_code(p@, c.spec_index()),
        r < 24,
{
    proof {
        CornerCubelet::lemma_enumerable();
        lemma_entry_ranges(p@);
    }
    let (x, t) = p.corners().act(&(CornerCubelet(c), CyclicGroup::new(0)));
    let ghost i = c.spec_index();
    assert(x.spec_index() == p@.2[i].0);
    (x.index() as u64) * 3 + t.get_value() as u64
}

/// The position the edge starting at `e` has.
fn edge_position_of(p: &CubePermutation3, e: EdgeType) -> (r: u64)
    requires
        cube_valid(p@),
    ensures
        r as int == p@.1[e.spec_index()].0,
        r < 12,
{
    proof {
        EdgeCubelet::lemma_enumerable();
        lemma_entry_ranges(p@);
    }
    let (x, _t) = p.edges().act(&(EdgeCubelet(e), CyclicGroup::new(0)));
    x.index() as u64
}

/// The position the corner starting at `c` has.
fn corner_position_of(p: &CubePermutation3, c: CornerType) -> (r: u64)
    requires
        cube_valid(p@),
    ensures
        r as int == p@.2[c.spec_index()].0,
        r < 8,
{
    proof {
        CornerCubelet::lemma_enumerable();
        lemma_entry_ranges(p@);
    }
    let (x, _t) = p.corners().act(&(CornerCubelet(c), CyclicGroup::new(0)));
    x.index() as u64
}

/// The position the centre starting at `f` has.
fn centre_position_of(p: &CubePermutation3, f: FaceType) -> (r: u64)
    requires
        cube_valid(p@),
    ensures
        r as int == p@.0[f.spec_index()],
        r < 6,
{
    proof {
        CentreCubelet::lemma_enumerable();
        lemma_entry_ranges(p@);
    }
    let x = p.centres().act(&CentreCubelet(f));
    x.index() as u64
}

/// How the edge now at position `x` is turned.
fn edge_flip_of(p: &CubePermutation3, x: EdgeType) -> (r: u64)
    requires
        cube_valid(p@),
    ensures
        r as int == edge_flip(p@, x.spec_index()),
        r < 2,
{
    proof {
        EdgeCubelet::lemma_enumerable();
        crate::group::lemma_oriented_laws(p@.1, p@.1, p@.1, 12, 2);
        lemma_entry_ranges((p@.0, inverse_oriented(p@.1, 2), p@.2));
    }
    let (_y, t) = p.edges().unact(&(EdgeCubelet(x), CyclicGroup::new(0)));
    t.get_value() as u64
}

fn eo_flips_of(p: &CubePermutation3) -> (r: u64)
    requires
        cube_valid(p@),
    ensures
        r as int == eo_flips(p@),
        r < 64,
{
    edge_flip_of(p, EdgeType::UF) + 2 * edge_flip_of(p, EdgeType::UB) + 4 * edge_flip_of(
        p,
        EdgeType::DB,
    ) + 8 * edge_flip_of(p, EdgeType::DF) + 16 * edge_flip_of(p, EdgeType::UL) + 32
        * edge_flip_of(p, EdgeType::UR)
}

impl Signature for RouxStep {
    open spec fn spec_signature(&self, p: CubeView) -> u64 {
        roux_signature(*self, p)
    }

    fn signature(&self, p: &CubePermutation3) -> (r: u64) {
        match self {
            RouxStep::FirstEdge => edge_code_of(p, EdgeType::DL),
            RouxStep::FirstPair => edge_code_of(p, EdgeType::FL) * 24 + corner_code_of(
                p,
                CornerType::FDL,
            ),
            RouxStep::SecondPair => edge_code_of(p, EdgeType::BL) * 24 + corner_code_of(
                p,
                CornerType::BDL,
            ),
            RouxStep::SecondEdge => edge_code_of(p, EdgeType::DR),
            RouxStep::ThirdPair => edge_code_of(p, EdgeType::FR) * 24 + corner_code_of(
                p,
                CornerType::FDR,
            ),
            RouxStep::FourthPair => edge_code_of(p, EdgeType::BR) * 24 + corner_code_of(
                p,
                CornerType::BDR,
            ),
            RouxStep::Cmll => {
                let a = corner_code_of(p, CornerType::FUL);
                let b = corner_code_of(p, CornerType::FUR);
                let c = corner_code_of(p, CornerType::BUR);
                let d = corner_code_of(p, CornerType::BUL);
                ((a * 24 + b) * 24 + c) * 24 + d
            },
            RouxStep::Eo => {
                let u = centre_position_of(p, FaceType::U);
                eo_flips_of(p) * 2 + if u == 0 || u == 3 {
                    1
                } else {
                    0
                }
            },
            RouxStep::Lr => {
                let l = edge_position_of(p, EdgeType::UL);
                let r = edge_position_of(p, EdgeType::UR);
                (l * 12 + r) * 8 + corner_position_of(p, CornerType::FUL)
            },
            RouxStep::Eolr => {
                let l = edge_position_of(p, EdgeType::UL);
                let r = edge_position_of(p, EdgeType::UR);
                let c = corner_position_of(p, CornerType::FUL);
                let f = centre_position_of(p, FaceType::F);
                (((eo_flips_of(p) * 12 + l) * 12 + r) * 8 + c) * 2 + if f == 0 || f == 3 {
                    1
                } else {
                    0
                }
            },
            RouxStep::L4e => {
                let a = edge_position_of(p, EdgeType::UF);
                let b = edge_position_of(p, EdgeType::UB);
                let c = edge_position_of(p, EdgeType::DB);
                let d = edge_position_of(p, EdgeType::DF);
                (((a * 12 + b) * 12 + c) * 12 + d) * 6 + centre_position_of(p, FaceType::F)
            },
        }
    }
}

/// The first-edge signature of a state whose DL edge sits at `position` with twist `twist`.
pub fn edge_signature(position: EdgeCubelet, twist: CyclicGroup<2>) -> (r: u64)
    requires
        twist@ < 2,
    ensures
        r as int == position.spec_index() * 2 + twist@,
{
    proof {
        EdgeCubelet::lemma_enumerable();
    }
    position.index() as u64 * 2 + twist.get_value() as u64
}

/// Reads each text as a move sequence, leaving out any that does not read.
fn parse_all(texts: Vec<&str>) -> (r: Vec<MoveSequence>)
    ensures
        forall|i: int| 0 <= i < r@.len() ==> moves_fit(#[trigger] r@[i]@),
{
    let mut out: Vec<MoveSequence> = Vec::new();
    let mut i: usize = 0;
    while i < texts.len()
        invariant
            i <= texts@.len(),
            forall|k: int| 0 <= k < out@.len() ==> moves_fit(#[trigger] out@[k]@),
        decreases texts@.len() - i,
    {
        match parse_move_sequence(texts[i]) {
            Ok(m) => {
                assert forall|k: int| 0 <= k < m@.len() implies #[trigger] m@[k].end_depth <= 3 by {
                    assert(m@[k].start_depth < m@[k].end_depth);
                }
                out.push(m);
            },
            Err(_) => {},
        }
        i = i + 1;
    }
    out
}

/// The table of a step: its graph over the generators, searched from the signature of
/// the solved cube, under the move count.
fn build_table(name: &str, gens: Vec<&str>, step: RouxStep) -> (r: SequenceSolver)
    ensures
        is_table_for(r, step),
{
    let gen_set = parse_all(gens);
    let graph = SequenceGraph::new(name, gen_set, &step);
    proof {
        lemma_cube_identity_valid();
    }
    let target = step.signature(&CubePermutation3::identity());
    let r = graph.search(target, &MoveCount);
    assert(graph.has_node(target));
    r
}

/// A table built for a step: searched from the signature of the solved cube under the
/// step's signature, so that the solved cube needs no moves.
pub open spec fn is_table_for(t: SequenceSolver, step: RouxStep) -> bool {
    &&& t.wf()
    &&& t.target() == roux_signature(step, cube_identity())
    &&& forall|p: CubeView| #[trigger] (t.signature_fn())(p) == roux_signature(step, p)
    &&& t.solutions().contains_key(t.target())
    &&& t.solutions()[t.target()] == Seq::<Move>::empty()
}

/// A clockwise quarter turn of the U face.
pub open spec fn u_turn() -> Seq<Move> {
    seq![Move { axis: Axis::UD, rotation_type: RotationType::Normal, start_depth: 0, end_depth: 1 }]
}

/// The CMLL table: filed under the CMLL signature, costed by move count, with the
/// solved-corners case among its algorithms, and with the alignments U, U2, U' and none
/// before and after each algorithm, and no other.
pub open spec fn is_cmll_table(t: AlgorithmicSolver) -> bool {
    &&& t.wf()
    &&& forall|p: CubeView| #[trigger] (t.signature_fn())(p) == roux_signature(RouxStep::Cmll, p)
    &&& forall|m: Seq<Move>| #[trigger] (t.cost_fn())(m) == m.len()
    &&& t.algorithms().contains(Seq::<Move>::empty())
    &&& t.pre_moves().contains(Seq::<Move>::empty())
    &&& t.post_moves().contains(Seq::<Move>::empty())
    &&& forall|e: Seq<Move>| #[trigger]
        adjustment_expansion(u_turn()).contains(e) ==> t.pre_moves().contains(e)
            && t.post_moves().contains(e)
    &&& forall|k: int|
        0 <= k < t.pre_moves().len() ==> #[trigger] t.pre_moves()[k] == Seq::<Move>::empty()
            || adjustment_expansion(u_turn()).contains(t.pre_moves()[k])
    &&& forall|k: int|
        0 <= k < t.post_moves().len() ==> #[trigger] t.post_moves()[k] == Seq::<Move>::empty()
            || adjustment_expansion(u_turn()).contains(t.post_moves()[k])
}

/// The model of a looked-up sequence.
pub open spec fn option_view(r: Option<&MoveSequence>) -> Option<Seq<Move>> {
    match r {
        Some(m) => Some(m@),
        None => None,
    }
}

pub open spec fn lookup(m: Map<u64, Seq<Move>>, s: u64) -> Option<Seq<Move>> {
    if m.contains_key(s) {
        Some(m[s])
    } else {
        None
    }
}

/// A sequence without its last move when that move turns about the U/D axis.
pub open spec fn trim_auf(m: Seq<Move>) -> Seq<Move> {
    if m.len() > 0 && m.last().axis == Axis::UD {
        m.drop_last()
    } else {
        m
    }
}

/// The pre-built tables of each step of the Roux method.
pub struct RouxSolver {
    pub first_edge: SequenceSolver,
    pub first_pair: SequenceSolver,
    pub second_pair: SequenceSolver,
    pub second_edge: SequenceSolver,
    pub third_pair: SequenceSolver,
    pub fourth_pair: SequenceSolver,
    pub cmll: AlgorithmicSolver,
    pub eo: SequenceSolver,
    pub lr: SequenceSolver,
    pub eolr: SequenceSolver,
    pub l4e: SequenceSolver,
}

/// Steps of the pipeline, in order.
pub open spec fn pipeline_step(k: int) -> RouxStep {
    if k == 0 {
        RouxStep::FirstEdge
    } else if k == 1 {
        RouxStep::FirstPair
    } else if k == 2 {
        RouxStep::SecondPair
    } else if k == 3 {
        RouxStep::SecondEdge
    } else if k == 4 {
        RouxStep::ThirdPair
    } else if k == 5 {
        RouxStep::FourthPair
    } else if k == 6 {
        RouxStep::Cmll
    } else if k == 7 {
        RouxStep::Eo
    } else if k == 8 {
        RouxStep::Lr
    } else {
        RouxStep::L4e
    }
}

/// Prefixes the moves of a successful run.
pub open spec fn prefixed(pre: Seq<Move>, rest: Option<Seq<Move>>) -> Option<Seq<Move>> {
    match rest {
        Some(m) => Some(pre + m),
        None => None,
    }
}

impl RouxSolver {
    /// Each table is built for its own step.
    pub open spec fn wf(&self) -> bool {
        &&& is_table_for(self.first_edge, RouxStep::FirstEdge)
        &&& is_table_for(self.first_pair, RouxStep::FirstPair)
        &&& is_table_for(self.second_pair, RouxStep::SecondPair)
        &&& is_table_for(self.second_edge, RouxStep::SecondEdge)
        &&& is_table_for(self.third_pair, RouxStep::ThirdPair)
        &&& is_table_for(self.fourth_pair, RouxStep::FourthPair)
        &&& is_cmll_table(self.cmll)
        &&& is_table_for(self.eo, RouxStep::Eo)
        &&& is_table_for(self.lr, RouxStep::Lr)
        &&& is_table_for(self.eolr, RouxStep::Eolr)
        &&& is_table_for(self.l4e, RouxStep::L4e)
    }

    /// The sequence table `k` gives for the state `p`; the CMLL table's answer loses a
    /// final U/D-axis turn, which the following steps absorb.
    pub open spec fn step_solution(&self, k: int, p: CubeView) -> Option<Seq<Move>> {
        let s = roux_signature(pipeline_step(k), p);
        if k == 0 {
            lookup(self.first_edge.solutions(), s)
        } else if k == 1 {
            lookup(self.first_pair.solutions(), s)
        } else if k == 2 {
            lookup(self.second_pair.solutions(), s)
        } else if k == 3 {
            lookup(self.second_edge.solutions(), s)
        } else if k == 4 {
            lookup(self.third_pair.solutions(), s)
        } else if k == 5 {
            lookup(self.fourth_pair.solutions(), s)
        } else if k == 6 {
            match lookup(self.cmll.solutions(), s) {
                Some(m) => Some(trim_auf(m)),
                None => None,
            }
        } else if k == 7 {
            lookup(self.eo.solutions(), s)
        } else if k == 8 {
            lookup(self.lr.solutions(), s)
        } else {
            lookup(self.l4e.solutions(), s)
        }
    }

    /// The moves of steps `k` onwards from state `p`, each step performed before the next is
    /// looked up; `None` when some step has no answer.
    pub open spec fn pipeline(&self, k: int, p: CubeView) -> Option<Seq<Move>>
        decreases 10 - k,
    {
        if k >= 10 {
            Some(Seq::empty())
        } else {
            match self.step_solution(k, p) {
                None => None,
                Some(m) => prefixed(m, self.pipeline(k + 1, cube_compose(spec_sequence(m), p))),
            }
        }
    }

    /// Builds every table.
    pub fn new() -> (r: Self)
        ensures
            r.wf(),
    {
        let first_edge = build_table(
            "roux1e",
            vec!["F", "R", "U", "B", "L", "D", "M"],
            RouxStep::FirstEdge,
        );
        let first_pair = build_table(
            "roux1p",
            vec!["F", "R", "U", "B", "M"],
            RouxStep::FirstPair,
        );
        let second_pair = build_table("roux2p", vec!["R", "U", "B", "M"], RouxStep::SecondPair);
        let second_edge = build_table("roux2e", vec!["R", "U", "M"], RouxStep::SecondEdge);
        let third_pair = build_table(
            "roux3p",
            vec!["U", "M", "R U R'", "R U2 R'", "R U' R'", "R' U R", "R' U2 R", "R' U' R"],
            RouxStep::ThirdPair,
        );
        let fourth_pair = build_table(
            "roux4p",
            vec!["U", "M", "R' U R", "R' U2 R", "R' U' R"],
            RouxStep::FourthPair,
        );
        let mut algs = parse_all(
            vec![
                "R U R' F' R U R' U' R' F R2 U' R'",
                "F R U' R' U' R U R' F' R U R' U' R' F R F'",
                "R U2 R' U' R U R' U' R U' R'",
                "F R U R' U' R U R' U' R U R' U' F'",
                "R U2' R2' F R F' U2 R' F R F'",
                "r U' r2' D' r U' r' D r2 U r'",
                "F R U R' U' R U R' U' F'",
                "F R' F' R U2 R U' R' U R U2' R'",
                "R' F R U F U' R U R' U' F'",
                "R U2 R' U' R U R' U2' R' F R F'",
                "r U' r2' D' r U r' D r2 U r'",
                "R' U' R' F R F' R U' R' U2 R",
                "R2 D R' U2 R D' R' U2 R'",
                "R2' D' R U2 R' D R U2 R",
                "R2' F U' F U F2 R2 U' R' F R",
                "F R2 D R' U R D' R2' U' F'",
                "r U' r' U r' D' r U' r' D r",
                "F R U R' U' F'",
                "R U R' U' R' F R F'",
                "L' U' L U L F' L' F",
                "F R' F R2 U' R' U' R U R' F2",
                "r' U r U2' R2' F R F' R",
                "r' D' r U r' D r U' r U r'",
                "r2' D' r U r' D r2 U' r' U' r",
                "R U R' U R U2 R'",
                "L' U2 L U2' L F' L' F",
                "F R' F' R U2 R U2' R'",
                "R U R' U' R' F R F' R U R' U R U2' R'",
                "R U R' U R' F R F' R U2' R'",
                "R U' L' U R' U' L",
                "R' U' R U' R' U2' R",
                "R2 D R' U R D' R' U R' U' R U' R'",
                "F' L F L' U2' L' U2 L",
                "R U2' R' U2 R' F R F'",
                "L' U R U' L U R'",
                "R' U' R U' R' U R' F R F' U R",
            ],
        );
        // Corners that are already solved need no algorithm, only an alignment.
        algs.push(MoveSequence::empty());
        let ghost n_algs = algs@.len();
        assert(algs@[n_algs - 1]@ == Seq::<Move>::empty());
        assert forall|i: int| 0 <= i < algs@.len() implies moves_fit(#[trigger] algs@[i]@) by {}
        let u = MoveSequence { moves: vec![Move::new(Axis::UD, RotationType::Normal, 0, 1)] };
        assert(u@ =~= u_turn());
        let pre_moves = vec![u.duplicate()];
        let post_moves = vec![u];
        let ghost pm = pre_moves@;
        let ghost qm = post_moves@;
        let cmll = AlgorithmicSolver::new(
            "roux_cmll",
            algs,
            pre_moves,
            post_moves,
            &RouxStep::Cmll,
            &MoveCount,
        );
        let eo = build_table("roux_eo", vec!["U", "M"], RouxStep::Eo);
        let lr = build_table(
            "roux_lr",
            vec!["U", "M2", "M U2 M", "M U2 M'", "M' U2 M'", "M' U2 M"],
            RouxStep::Lr,
        );
        let eolr = build_table("roux_eolr", vec!["U", "M"], RouxStep::Eolr);
        let l4e = build_table("roux_l4e", vec!["M", "U2", "E2 M' E2", "E2 M E2"], RouxStep::L4e);
        proof {
            assert(views(algs@)[n_algs - 1] == Seq::<Move>::empty());
            assert(cmll.algorithms().contains(Seq::<Move>::empty()));
            assert(pm[0]@ == u_turn() && qm[0]@ == u_turn());
            assert forall|e: Seq<Move>| #[trigger]
                adjustment_expansion(u_turn()).contains(e) implies cmll.pre_moves().contains(e)
                    && cmll.post_moves().contains(e) by {
                assert(adjustment_expansion(pm[0]@).contains(e));
                assert(adjustment_expansion(qm[0]@).contains(e));
            }
            assert forall|k: int| 0 <= k < cmll.pre_moves().len() implies #[trigger] cmll.pre_moves()[k]
                == Seq::<Move>::empty() || adjustment_expansion(u_turn()).contains(cmll.pre_moves()[k]) by {
                assert(is_adjustment_of(cmll.pre_moves()[k], pm));
            }
            assert forall|k: int| 0 <= k < cmll.post_moves().len() implies #[trigger] cmll.post_moves()[k]
                == Seq::<Move>::empty() || adjustment_expansion(u_turn()).contains(cmll.post_moves()[k]) by {
                assert(is_adjustment_of(cmll.post_moves()[k], qm));
            }
        }
        RouxSolver {
            first_edge,
            first_pair,
            second_pair,
            second_edge,
            third_pair,
            fourth_pair,
            cmll,
            eo,
            lr,
            eolr,
            l4e,
        }
    }

    /// The answer of table `k` for the state, as an action named after the step.
    pub fn step_action(&self, k: usize, permutation: &CubePermutation3) -> (r: Option<Action>)
        requires
            self.wf(),
            k < 10,
            cube_valid(permutation@),
        ensures
            match (r, self.step_solution(k as int, permutation@)) {
                (Some(a), Some(m)) => steps_moves(a.steps) == m && moves_fit(m) && is_move_step(a),
                (None, None) => true,
                _ => false,
            },
    {
        let found = match k {
            0 => first_edge_action(self, permutation),
            1 => first_pair_action(self, permutation),
            2 => second_pair_action(self, permutation),
            3 => second_edge_action(self, permutation),
            4 => third_pair_action(self, permutation),
            5 => fourth_pair_action(self, permutation),
            6 => cmll_action(self, permutation),
            7 => eo_action(self, permutation),
            8 => lr_action(self, permutation),
            _ => l4e_action(self, permutation),
        };
        found
    }
}

proof fn lemma_solved_step(tables: &RouxSolver, k: int)
    requires
        tables.wf(),
        0 <= k < 10,
    ensures
        tables.step_solution(k, cube_identity()) == Some(Seq::<Move>::empty()),
{
    let e = Seq::<Move>::empty();
    if k == 6 {
        let t = tables.cmll;
        let a = choose|a: int| 0 <= a < t.algorithms().len() && t.algorithms()[a] == e;
        let p = choose|p: int| 0 <= p < t.pre_moves().len() && t.pre_moves()[p] == e;
        let q = choose|q: int| 0 <= q < t.post_moves().len() && t.post_moves()[q] == e;
        assert(enumerated(e, e, e) =~= e);
        assert(spec_sequence(e) == cube_identity());
        let s = t.filed_under(a, p, q);
        assert(s == roux_signature(RouxStep::Cmll, cube_identity()));
        assert(stored(e, e) =~= e);
        assert((t.cost_fn())(stored(e, e)) == 0);
        assert(t.solutions().contains_key(s));
        assert((t.cost_fn())(t.solutions()[s]) == t.solutions()[s].len());
        assert(t.solutions()[s] =~= e);
    }
}

proof fn lemma_solved_pipeline(tables: &RouxSolver, k: int)
    requires
        tables.wf(),
        0 <= k <= 10,
    ensures
        tables.pipeline(k, cube_identity()) == Some(Seq::<Move>::empty()),
    decreases 10 - k,
{
    if k < 10 {
        lemma_solved_step(tables, k);
        lemma_solved_pipeline(tables, k + 1);
        lemma_cube_identity_valid();
        crate::permute::lemma_cube_laws(cube_identity(), cube_identity(), cube_identity());
        assert(spec_sequence(Seq::<Move>::empty()) == cube_identity());
        assert(Seq::<Move>::empty() + Seq::<Move>::empty() =~= Seq::<Move>::empty());
    }
}

/// The solved cube is solved by every step with no moves, so the whole pipeline gives no
/// moves for it.
pub proof fn lemma_solved_cube_needs_no_moves(tables: &RouxSolver)
    requires
        tables.wf(),
    ensures
        forall|k: int| 0 <= k < 10 ==> #[trigger] tables.step_solution(k, cube_identity()) == Some(
            Seq::<Move>::empty(),
        ),
        tables.pipeline(0, cube_identity()) == Some(Seq::<Move>::empty()),
{
    assert forall|k: int| 0 <= k < 10 implies #[trigger] tables.step_solution(k, cube_identity())
        == Some(Seq::<Move>::empty()) by {
        lemma_solved_step(tables, k);
    }
    lemma_solved_pipeline(tables, 0);
}

/// Looks a state up in a table.
fn lookup_step<'a>(table: &'a SequenceSolver, step: RouxStep, permutation: &CubePermutation3) -> (r:
    Option<&'a MoveSequence>)
    requires
        table.wf(),
        cube_valid(permutation@),
    ensures
        option_view(r) == lookup(table.solutions(), roux_signature(step, permutation@)),
        r matches Some(m) ==> moves_fit(m@),
{
    proof {
        table.lemma_solutions_fit();
    }
    let s = step.signature(permutation);
    table.solve(&s)
}

/// The named step action for a looked-up sequence.
fn step_action_of(name: &str, found: Option<&MoveSequence>) -> (r: Option<Action>)
    requires
        found matches Some(m) ==> moves_fit(m@),
    ensures
        match (r, option_view(found)) {
            (Some(a), Some(m)) => steps_moves(a.steps) == m && moves_fit(m) && is_move_step(a),
            (None, None) => true,
            _ => false,
        },
{
    match found {
        Some(m) => Some(move_sequence_to_intuitive_action(name, m.duplicate())),
        None => None,
    }
}

/// The sequence that solves the DL edge.
pub fn first_edge<'a>(tables: &'a RouxSolver, permutation: &CubePermutation3) -> (r: Option<
    &'a MoveSequence,
>)
    requires
        tables.wf(),
        cube_valid(permutation@),
    ensures
        option_view(r) == tables.step_solution(0, permutation@),
        r matches Some(m) ==> moves_fit(m@),
{
    lookup_step(&tables.first_edge, RouxStep::FirstEdge, permutation)
}

pub fn first_edge_action(tables: &RouxSolver, permutation: &CubePermutation3) -> (r: Option<Action>)
    requires
        tables.wf(),
        cube_valid(permutation@),
    ensures
        match (r, tables.step_solution(0, permutation@)) {
            (Some(a), Some(m)) => steps_moves(a.steps) == m && moves_fit(m) && is_move_step(a),
            (None, None) => true,
            _ => false,
        },
{
    step_action_of("First edge", first_edge(tables, permutation))
}

/// The sequence that solves the FL edge and FDL corner.
pub fn first_pair<'a>(tables: &'a RouxSolver, permutation: &CubePermutation3) -> (r: Option<
    &'a MoveSequence,
>)
    requires
        tables.wf(),
        cube_valid(permutation@),
    ensures
        option_view(r) == tables.step_solution(1, permutation@),
        r matches Some(m) ==> moves_fit(m@),
{
    lookup_step(&tables.first_pair, RouxStep::FirstPair, permutation)
}

pub fn first_pair_action(tables: &RouxSolver, permutation: &CubePermutation3) -> (r: Option<Action>)
    requires
        tables.wf(),
        cube_valid(permutation@),
    ensures
        match (r, tables.step_solution(1, permutation@)) {
            (Some(a), Some(m)) => steps_moves(a.steps) == m && moves_fit(m) && is_move_step(a),
            (None, None) => true,
            _ => false,
        },
{
    step_action_of("First pair", first_pair(tables, permutation))
}

/// The sequence that solves the BL edge and BDL corner.
pub fn second_pair<'a>(tables: &'a RouxSolver, permutation: &CubePermutation3) -> (r: Option<
    &'a MoveSequence,
>)
    requires
        tables.wf(),
        cube_valid(permutation@),
    ensures
        option_view(r) == tables.step_solution(2, permutation@),
        r matches Some(m) ==> moves_fit(m@),
{
    lookup_step(&tables.second_pair, RouxStep::SecondPair, permutation)
}

pub fn second_pair_action(tables: &RouxSolver, permutation: &CubePermutation3) -> (r: Option<
    Action,
>)
    requires
        tables.wf(),
        cube_valid(permutation@),
    ensures
        match (r, tables.step_solution(2, permutation@)) {
            (Some(a), Some(m)) => steps_moves(a.steps) == m && moves_fit(m) && is_move_step(a),
            (None, None) => true,
            _ => false,
        },
{
    step_action_of("Second pair", second_pair(tables, permutation))
}

/// The sequence that solves the DR edge.
pub fn second_edge<'a>(tables: &'a RouxSolver, permutation: &CubePermutation3) -> (r: Option<
    &'a MoveSequence,
>)
    requires
        tables.wf(),
        cube_valid(permutation@),
    ensures
        option_view(r) == tables.step_solution(3, permutation@),
        r matches Some(m) ==> moves_fit(m@),
{
    lookup_step(&tables.second_edge, RouxStep::SecondEdge, permutation)
}

pub fn second_edge_action(tables: &RouxSolver, permutation: &CubePermutation3) -> (r: Option<
    Action,
>)
    requires
        tables.wf(),
        cube_valid(permutation@),
    ensures
        match (r, tables.step_solution(3, permutation@)) {
            (Some(a), Some(m)) => steps_moves(a.steps) == m && moves_fit(m) && is_move_step(a),
            (None, None) => true,
            _ => false,
        },
{
    step_action_of("Second edge", second_edge(tables, permutation))
}

/// The sequence that solves the FR edge and FDR corner.
pub fn third_pair<'a>(tables: &'a RouxSolver, permutation: &CubePermutation3) -> (r: Option<
    &'a MoveSequence,
>)
    requires
        tables.wf(),
        cube_valid(permutation@),
    ensures
        option_view(r) == tables.step_solution(4, permutation@),
        r matches Some(m) ==> moves_fit(m@),
{
    lookup_step(&tables.third_pair, RouxStep::ThirdPair, permutation)
}

pub fn third_pair_action(tables: &RouxSolver, permutation: &CubePermutation3) -> (r: Option<Action>)
    requires
        tables.wf(),
        cube_valid(permutation@),
    ensures
        match (r, tables.step_solution(4, permutation@)) {
            (Some(a), Some(m)) => steps_moves(a.steps) == m && moves_fit(m) && is_move_step(a),
            (None, None) => true,
            _ => false,
        },
{
    step_action_of("Third pair", third_pair(tables, permutation))
}

/// The sequence that solves the BR edge and BDR corner.
pub fn fourth_pair<'a>(tables: &'a RouxSolver, permutation: &CubePermutation3) -> (r: Option<
    &'a MoveSequence,
>)
    requires
        tables.wf(),
        cube_valid(permutation@),
    ensures
        option_view(r) == tables.step_solution(5, permutation@),
        r matches Some(m) ==> moves_fit(m@),
{
    lookup_step(&tables.fourth_pair, RouxStep::FourthPair, permutation)
}

pub fn fourth_pair_action(tables: &RouxSolver, permutation: &CubePermutation3) -> (r: Option<
    Action,
>)
    requires
        tables.wf(),
        cube_valid(permutation@),
    ensures
        match (r, tables.step_solution(5, permutation@)) {
            (Some(a), Some(m)) => steps_moves(a.steps) == m && moves_fit(m) && is_move_step(a),
            (None, None) => true,
            _ => false,
        },
{
    step_action_of("Fourth pair", fourth_pair(tables, permutation))
}

/// The CMLL algorithm for the state, without a final U/D-axis turn.
pub fn cmll(tables: &RouxSolver, permutation: &CubePermutation3) -> (r: Option<MoveSequence>)
    requires
        tables.wf(),
        cube_valid(permutation@),
    ensures
        match r {
            Some(m) => tables.step_solution(6, permutation@) == Some(m@) && moves_fit(m@),
            None => tables.step_solution(6, permutation@) is None,
        },
{
    let s = RouxStep::Cmll.signature(permutation);
    match tables.cmll.solve(&s) {
        Some(found) => {
            let mut m = found.duplicate();
            let n = m.moves.len();
            if n > 0 && m.moves[n - 1].axis == Axis::UD {
                m.moves.pop();
            }
            assert(m@ == trim_auf(found@));
            assert(moves_fit(m@)) by {
                assert(tables.cmll.solutions().contains_key(s));
                assert forall|i: int| 0 <= i < m@.len() implies #[trigger] m@[i].end_depth <= 3 by {
                    assert(m@[i] == found@[i]);
                }
            }
            Some(m)
        },
        None => None,
    }
}

pub fn cmll_action(tables: &RouxSolver, permutation: &CubePermutation3) -> (r: Option<Action>)
    requires
        tables.wf(),
        cube_valid(permutation@),
    ensures
        match (r, tables.step_solution(6, permutation@)) {
            (Some(a), Some(m)) => steps_moves(a.steps) == m && moves_fit(m) && is_move_step(a),
            (None, None) => true,
            _ => false,
        },
{
    match cmll(tables, permutation) {
        Some(m) => Some(move_sequence_to_intuitive_action("CMLL", m)),
        None => None,
    }
}

/// The sequence that orients the last six edges.
pub fn eo<'a>(tables: &'a RouxSolver, permutation: &CubePermutation3) -> (r: Option<
    &'a MoveSequence,
>)
    requires
        tables.wf(),
        cube_valid(permutation@),
    ensures
        option_view(r) == tables.step_solution(7, permutation@),
        r matches Some(m) ==> moves_fit(m@),
{
    lookup_step(&tables.eo, RouxStep::Eo, permutation)
}

pub fn eo_action(tables: &RouxSolver, permutation: &CubePermutation3) -> (r: Option<Action>)
    requires
        tables.wf(),
        cube_valid(permutation@),
    ensures
        match (r, tables.step_solution(7, permutation@)) {
            (Some(a), Some(m)) => steps_moves(a.steps) == m && moves_fit(m) && is_move_step(a),
            (None, None) => true,
            _ => false,
        },
{
    step_action_of("Orientation of last six edges", eo(tables, permutation))
}

/// The sequence that places the UL and UR edges.
pub fn lr<'a>(tables: &'a RouxSolver, permutation: &CubePermutation3) -> (r: Option<
    &'a MoveSequence,
>)
    requires
        tables.wf(),
        cube_valid(permutation@),
    ensures
        option_view(r) == tables.step_solution(8, permutation@),
        r matches Some(m) ==> moves_fit(m@),
{
    lookup_step(&tables.lr, RouxStep::Lr, permutation)
}

pub fn lr_action(tables: &RouxSolver, permutation: &CubePermutation3) -> (r: Option<Action>)
    requires
        tables.wf(),
        cube_valid(permutation@),
    ensures
        match (r, tables.step_solution(8, permutation@)) {
            (Some(a), Some(m)) => steps_moves(a.steps) == m && moves_fit(m) && is_move_step(a),
            (None, None) => true,
            _ => false,
        },
{
    step_action_of("UL and UR edges", lr(tables, permutation))
}

/// The sequence that orients the last six edges and places UL and UR in one step.
pub fn eolr<'a>(tables: &'a RouxSolver, permutation: &CubePermutation3) -> (r: Option<
    &'a MoveSequence,
>)
    requires
        tables.wf(),
        cube_valid(permutation@),
    ensures
        option_view(r) == lookup(tables.eolr.solutions(), roux_signature(RouxStep::Eolr, permutation@)),
{
    lookup_step(&tables.eolr, RouxStep::Eolr, permutation)
}

pub fn eolr_action(tables: &RouxSolver, permutation: &CubePermutation3) -> (r: Option<Action>)
    requires
        tables.wf(),
        cube_valid(permutation@),
    ensures
        match (r, lookup(tables.eolr.solutions(), roux_signature(RouxStep::Eolr, permutation@))) {
            (Some(a), Some(m)) => steps_moves(a.steps) == m && is_move_step(a),
            (None, None) => true,
            _ => false,
        },
{
    proof {
        tables.eolr.lemma_solutions_fit();
    }
    step_action_of("EOLR", eolr(tables, permutation))
}

/// The sequence that solves the last four edges and the centres.
pub fn l4e<'a>(tables: &'a RouxSolver, permutation: &CubePermutation3) -> (r: Option<
    &'a MoveSequence,
>)
    requires
        tables.wf(),
        cube_valid(permutation@),
    ensures
        option_view(r) == tables.step_solution(9, permutation@),
        r matches Some(m) ==> moves_fit(m@),
{
    lookup_step(&tables.l4e, RouxStep::L4e, permutation)
}

pub fn l4e_action(tables: &RouxSolver, permutation: &CubePermutation3) -> (r: Option<Action>)
    requires
        tables.wf(),
        cube_valid(permutation@),
    ensures
        match (r, tables.step_solution(9, permutation@)) {
            (Some(a), Some(m)) => steps_moves(a.steps) == m && moves_fit(m) && is_move_step(a),
            (None, None) => true,
            _ => false,
        },
{
    step_action_of("Last four edges", l4e(tables, permutation))
}

proof fn lemma_list_moves_push(actions: Seq<Action>, a: Action)
    ensures
        list_moves(actions.push(a), actions.len() as int + 1) == list_moves(actions, actions.len() as int)
            + steps_moves(a.steps),
{
    lemma_list_moves_prefix(actions, a, actions.len() as int);
    assert(actions.push(a)[actions.len() as int] == a);
}

proof fn lemma_leaf_count_prefix(actions: Seq<Action>, a: Action, n: int)
    requires
        0 <= n <= actions.len(),
    ensures
        leaf_count(actions.push(a), n) == leaf_count(actions, n),
    decreases n,
{
    if n > 0 {
        lemma_leaf_count_prefix(actions, a, n - 1);
        assert(actions.push(a)[n - 1] == actions[n - 1]);
    }
}

proof fn lemma_list_moves_prefix(actions: Seq<Action>, a: Action, n: int)
    requires
        0 <= n <= actions.len(),
    ensures
        list_moves(actions.push(a), n) == list_moves(actions, n),
    decreases n,
{
    if n > 0 {
        lemma_list_moves_prefix(actions, a, n - 1);
        assert(actions.push(a)[n - 1] == actions[n - 1]);
    }
}

/// Solves the cube by the Roux method: each step's table is looked up with the state
/// so far, and its answer performed before the next step. `None` when a step has no answer.
pub fn solve(tables: &RouxSolver, permutation: &CubePermutation3) -> (r: Option<Action>)
    requires
        tables.wf(),
        cube_valid(permutation@),
    ensures
        match r {
            Some(a) => {
                &&& a.reason == ActionReason::Solve
                &&& a.steps is Sequence
                &&& a.steps->actions@.len() == 10
                &&& forall|k: int| 0 <= k < 10 ==> is_move_step(#[trigger] a.steps->actions@[k])
                &&& leaf_count(a.steps->actions@, 10) == steps_moves(a.steps).len()
                &&& tables.pipeline(0, permutation@) == Some(steps_moves(a.steps))
            },
            None => tables.pipeline(0, permutation@) is None,
        },
{
    let mut perm = permutation.duplicate();
    let mut steps: Vec<Action> = Vec::new();
    let mut k: usize = 0;
    while k < 10
        invariant
            tables.wf(),
            k <= 10,
            steps@.len() == k,
            forall|j: int| 0 <= j < k ==> is_move_step(#[trigger] steps@[j]),
            leaf_count(steps@, k as int) == list_moves(steps@, k as int).len(),
            cube_valid(perm@),
            tables.pipeline(0, permutation@) == prefixed(
                list_moves(steps@, k as int),
                tables.pipeline(k as int, perm@),
            ),
        decreases 10 - k,
    {
        let found = tables.step_action(k, &perm);
        match found {
            None => {
                assert(tables.pipeline(k as int, perm@) is None);
                return None;
            },
            Some(a) => {
                let ms = a.steps.move_sequence();
                let ghost m = ms@;
                proof {
                    lemma_list_moves_push(steps@, a);
                    lemma_leaf_count_prefix(steps@, a, k as int);
                    lemma_sequence_valid(m);
                }
                let step_perm = CubePermutation3::from_move_sequence(ms);
                let ghost before = perm@;
                perm = step_perm.op(perm);
                let ghost done = list_moves(steps@, k as int);
                steps.push(a);
                assert(list_moves(steps@, k + 1) == done + m);
                assert(tables.pipeline(k as int, before) == prefixed(
                    m,
                    tables.pipeline(k + 1, perm@),
                ));
                assert(tables.pipeline(0, permutation@) == prefixed(
                    list_moves(steps@, k + 1),
                    tables.pipeline(k + 1, perm@),
                )) by {
                    match tables.pipeline(k + 1, perm@) {
                        Some(rest) => {
                            assert(done + (m + rest) =~= (done + m) + rest);
                        },
                        None => {},
                    }
                }
                k = k + 1;
            },
        }
    }
    assert(steps@.len() as int == 10);
    Some(
        Action {
            reason: ActionReason::Solve,
            description: Some("Roux method".to_owned()),
            steps: ActionSteps::Sequence { actions: steps },
        },
    )
}

} // verus!
