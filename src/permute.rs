use crate::cube::{
    spec_inverse_rotation, Axis, CornerType, EdgeType, FaceType, Move, MoveSequence, RotationType,
};
use crate::group::{
    compose_oriented, compose_permutation, cycle_oriented, cycle_permutation, identity_oriented,
    identity_permutation, inverse_oriented, inverse_permutation, is_oriented_permutation,
    is_permutation, lemma_cycle_valid, lemma_identity_valid, lemma_oriented_laws, lemma_permutation_laws, Enumerable,
    Group, InverseSemigroup, Magma, OrientedSymmetricGroup, Semigroup, SymmetricGroup, Unital,
};
use vstd::prelude::*;

verus! {

/// A centre piece of an odd-sized cube.
#[derive(Debug, Copy, Clone, PartialEq, Eq, Hash, Structural)]
pub struct CentreCubelet(pub FaceType);

/// One of the twelve edge pieces of an odd-sized cube.
#[derive(Debug, Copy, Clone, PartialEq, Eq, Hash, Structural)]
pub struct EdgeCubelet(pub EdgeType);

/// One of the eight corner pieces of a cube.
#[derive(Debug, Copy, Clone, PartialEq, Eq, Hash, Structural)]
pub struct CornerCubelet(pub CornerType);

impl Enumerable for CentreCubelet {
    open spec fn count() -> nat {
        FaceType::count()
    }

    open spec fn spec_index(self) -> int {
        self.0.spec_index()
    }

    open spec fn spec_from_index(i: int) -> Self {
        CentreCubelet(FaceType::spec_from_index(i))
    }

    proof fn lemma_enumerable() {
        FaceType::lemma_enumerable();
        assert forall|i: int| 0 <= i < Self::count() implies #[trigger] Self::spec_from_index(
            i,
        ).spec_index() == i by {
            assert(FaceType::spec_from_index(i).spec_index() == i);
        }
        assert forall|x: Self| 0 <= #[trigger] x.spec_index() < Self::count() by {
            assert(0 <= x.0.spec_index() < FaceType::count());
        }
        assert forall|x: Self| Self::spec_from_index(#[trigger] x.spec_index()) == x by {
            assert(FaceType::spec_from_index(x.0.spec_index()) == x.0);
        }
    }

    fn size() -> (r: usize) {
        FaceType::size()
    }

    fn from_index(idx: usize) -> (r: Self) {
        CentreCubelet(FaceType::from_index(idx))
    }

    fn index(&self) -> (r: usize) {
        self.0.index()
    }
}

impl Enumerable for EdgeCubelet {
    open spec fn count() -> nat {
        EdgeType::count()
    }

    open spec fn spec_index(self) -> int {
        self.0.spec_index()
    }

    open spec fn spec_from_index(i: int) -> Self {
        EdgeCubelet(EdgeType::spec_from_index(i))
    }

    proof fn lemma_enumerable() {
        EdgeType::lemma_enumerable();
        assert forall|i: int| 0 <= i < Self::count() implies #[trigger] Self::spec_from_index(
            i,
        ).spec_index() == i by {
            assert(EdgeType::spec_from_index(i).spec_index() == i);
        }
        assert forall|x: Self| 0 <= #[trigger] x.spec_index() < Self::count() by {
            assert(0 <= x.0.spec_index() < EdgeType::count());
        }
        assert forall|x: Self| Self::spec_from_index(#[trigger] x.spec_index()) == x by {
            assert(EdgeType::spec_from_index(x.0.spec_index()) == x.0);
        }
    }

    fn size() -> (r: usize) {
        EdgeType::size()
    }

    fn from_index(idx: usize) -> (r: Self) {
        EdgeCubelet(EdgeType::from_index(idx))
    }

    fn index(&self) -> (r: usize) {
        self.0.index()
    }
}

impl Enumerable for CornerCubelet {
    open spec fn count() -> nat {
        CornerType::count()
    }

    open spec fn spec_index(self) -> int {
        self.0.spec_index()
    }

    open spec fn spec_from_index(i: int) -> Self {
        CornerCubelet(CornerType::spec_from_index(i))
    }

    proof fn lemma_enumerable() {
        CornerType::lemma_enumerable();
        assert forall|i: int| 0 <= i < Self::count() implies #[trigger] Self::spec_from_index(
            i,
        ).spec_index() == i by {
            assert(CornerType::spec_from_index(i).spec_index() == i);
        }
        assert forall|x: Self| 0 <= #[trigger] x.spec_index() < Self::count() by {
            assert(0 <= x.0.spec_index() < CornerType::count());
        }
        assert forall|x: Self| Self::spec_from_index(#[trigger] x.spec_index()) == x by {
            assert(CornerType::spec_from_index(x.0.spec_index()) == x.0);
        }
    }

    fn size() -> (r: usize) {
        CornerType::size()
    }

    fn from_index(idx: usize) -> (r: Self) {
        CornerCubelet(CornerType::from_index(idx))
    }

    fn index(&self) -> (r: usize) {
        self.0.index()
    }
}

/// A permutation of the six centres; centre orientation is ignored.
pub type CentrePermutation = SymmetricGroup<CentreCubelet>;

/// A permutation of the twelve edges, each with an orientation in `Z/2Z`.
/// Orientation 0 means the key sticker is on the key face.
pub type EdgePermutation = OrientedSymmetricGroup<EdgeCubelet, 2>;

/// A permutation of the eight corners, each with an orientation in `Z/3Z`.
/// Orientation 0 means the U/D sticker is on the U/D face; 1 and 2 are clockwise
/// turns of 120 and 240 degrees.
pub type CornerPermutation = OrientedSymmetricGroup<CornerCubelet, 3>;

/// The model of a cube permutation: centre images, and edge and corner images with twists.
pub type CubeView = (Seq<int>, Seq<(int, int)>, Seq<(int, int)>);

/// The cycle a clockwise slice turn makes on the centres (`S`, `M'`, `E'`).
pub open spec fn slice_centre_cycle(axis: Axis) -> [usize; 4] {
    match axis {
        Axis::FB => [1, 5, 4, 2],
        Axis::RL => [0, 2, 3, 5],
        Axis::UD => [0, 4, 3, 1],
    }
}

/// The cycle a clockwise face turn makes on the edges, with the twists it gives.
pub open spec fn face_edge_cycle(face: FaceType) -> ([usize; 4], [u8; 4]) {
    match face {
        FaceType::F => ([1, 8, 5, 9], [1, 1, 1, 1]),
        FaceType::R => ([0, 10, 4, 8], [0, 0, 0, 0]),
        FaceType::U => ([0, 1, 2, 3], [0, 0, 0, 0]),
        FaceType::B => ([3, 11, 7, 10], [1, 1, 1, 1]),
        FaceType::L => ([2, 9, 6, 11], [0, 0, 0, 0]),
        FaceType::D => ([4, 7, 6, 5], [0, 0, 0, 0]),
    }
}

/// The cycle a clockwise slice turn makes on the edges, with the twists it gives:
/// `S` and `M'` flip the edges they move, `E'` does not.
pub open spec fn slice_edge_cycle(axis: Axis) -> ([usize; 4], [u8; 4]) {
    match axis {
        Axis::FB => ([0, 4, 6, 2], [1, 1, 1, 1]),
        Axis::RL => ([1, 3, 7, 5], [1, 1, 1, 1]),
        Axis::UD => ([8, 9, 11, 10], [0, 0, 0, 0]),
    }
}

/// The cycle a clockwise face turn makes on the corners, with the twists it gives.
pub open spec fn face_corner_cycle(face: FaceType) -> ([usize; 4], [u8; 4]) {
    match face {
        FaceType::F => ([0, 2, 3, 1], [2, 1, 2, 1]),
        FaceType::R => ([0, 4, 6, 2], [1, 2, 1, 2]),
        FaceType::U => ([0, 1, 5, 4], [0, 0, 0, 0]),
        FaceType::B => ([4, 5, 7, 6], [1, 2, 1, 2]),
        FaceType::L => ([1, 3, 7, 5], [2, 1, 2, 1]),
        FaceType::D => ([2, 6, 7, 3], [0, 0, 0, 0]),
    }
}

pub open spec fn rotate_permutation(p: Seq<int>, rot: RotationType) -> Seq<int> {
    match rot {
        RotationType::Normal => p,
        RotationType::Double => compose_permutation(p, p),
        RotationType::Inverse => inverse_permutation(p),
    }
}

pub open spec fn rotate_oriented(p: Seq<(int, int)>, rot: RotationType, k: nat) -> Seq<(int, int)> {
    match rot {
        RotationType::Normal => p,
        RotationType::Double => compose_oriented(p, p, k),
        RotationType::Inverse => inverse_oriented(p, k),
    }
}

/// The cube permutation of a face turn.
pub open spec fn spec_face_turn(face: FaceType, rot: RotationType) -> CubeView {
    (
        identity_permutation(6),
        rotate_oriented(
            cycle_oriented(face_edge_cycle(face).0, face_edge_cycle(face).1, 12),
            rot,
            2,
        ),
        rotate_oriented(
            cycle_oriented(face_corner_cycle(face).0, face_corner_cycle(face).1, 8),
            rot,
            3,
        ),
    )
}

/// The cube permutation of a slice turn (`S`, `M'` or `E'` for a clockwise one).
pub open spec fn spec_slice_turn(axis: Axis, rot: RotationType) -> CubeView {
    (
        rotate_permutation(cycle_permutation(slice_centre_cycle(axis), 6), rot),
        rotate_oriented(
            cycle_oriented(slice_edge_cycle(axis).0, slice_edge_cycle(axis).1, 12),
            rot,
            2,
        ),
        identity_oriented(8),
    )
}

pub open spec fn front_face(axis: Axis) -> FaceType {
    match axis {
        Axis::FB => FaceType::F,
        Axis::RL => FaceType::R,
        Axis::UD => FaceType::U,
    }
}

pub open spec fn back_face(axis: Axis) -> FaceType {
    match axis {
        Axis::FB => FaceType::B,
        Axis::RL => FaceType::L,
        Axis::UD => FaceType::D,
    }
}

/// The turn of one slab of a move: the front face, the middle slice, or the back face,
/// which turns the other way when seen from the front.
pub open spec fn spec_slab_turn(mv: Move, depth: int) -> CubeView {
    if depth == 0 {
        spec_face_turn(front_face(mv.axis), mv.rotation_type)
    } else if depth == 1 {
        spec_slice_turn(mv.axis, mv.rotation_type)
    } else {
        spec_face_turn(back_face(mv.axis), spec_inverse_rotation(mv.rotation_type))
    }
}

pub open spec fn cube_identity() -> CubeView {
    (identity_permutation(6), identity_oriented(12), identity_oriented(8))
}

/// Componentwise composition: first `b`, then `a`.
pub open spec fn cube_compose(a: CubeView, b: CubeView) -> CubeView {
    (compose_permutation(a.0, b.0), compose_oriented(a.1, b.1, 2), compose_oriented(a.2, b.2, 3))
}

pub open spec fn cube_inverse(a: CubeView) -> CubeView {
    (inverse_permutation(a.0), inverse_oriented(a.1, 2), inverse_oriented(a.2, 3))
}

/// The model describes a cube permutation.
pub open spec fn cube_valid(a: CubeView) -> bool {
    &&& is_permutation(a.0, 6)
    &&& is_oriented_permutation(a.1, 12, 2)
    &&& is_oriented_permutation(a.2, 8, 3)
}

/// The slabs `start_depth..end` of a move turned together; they commute, and are
/// composed in order of depth.
pub open spec fn spec_move_range(mv: Move, end: int) -> CubeView
    decreases end - mv.start_depth,
{
    if end <= mv.start_depth {
        cube_identity()
    } else {
        cube_compose(spec_move_range(mv, end - 1), spec_slab_turn(mv, end - 1))
    }
}

/// The cube permutation of a move.
pub open spec fn spec_move(mv: Move) -> CubeView {
    spec_move_range(mv, mv.end_depth as int)
}

/// The cube permutation of a move sequence: its first move acts first.
pub open spec fn spec_sequence(ms: Seq<Move>) -> CubeView
    decreases ms.len(),
{
    if ms.len() == 0 {
        cube_identity()
    } else {
        cube_compose(spec_sequence(ms.subrange(1, ms.len() as int)), spec_move(ms[0]))
    }
}

/// Every move of `ms` stays within the three slabs of the cube.
pub open spec fn moves_fit(ms: Seq<Move>) -> bool {
    forall|i: int| 0 <= i < ms.len() ==> #[trigger] ms[i].end_depth <= 3
}

/// The group laws for cube permutations: composition is associative, the identity is a
/// unit on both sides, and each permutation composed with its inverse, on either side,
/// is the identity. Validity is kept by composition and inversion.
pub proof fn lemma_cube_laws(a: CubeView, b: CubeView, c: CubeView)
    requires
        cube_valid(a),
        cube_valid(b),
        cube_valid(c),
    ensures
        cube_valid(cube_compose(a, b)),
        cube_valid(cube_inverse(a)),
        cube_valid(cube_identity()),
        cube_compose(cube_compose(a, b), c) == cube_compose(a, cube_compose(b, c)),
        cube_compose(a, cube_identity()) == a,
        cube_compose(cube_identity(), a) == a,
        cube_compose(a, cube_inverse(a)) == cube_identity(),
        cube_compose(cube_inverse(a), a) == cube_identity(),
{
    lemma_permutation_laws(a.0, b.0, c.0, 6);
    lemma_oriented_laws(a.1, b.1, c.1, 12, 2);
    lemma_oriented_laws(a.2, b.2, c.2, 8, 3);
}

pub proof fn lemma_cube_identity_valid()
    ensures
        cube_valid(cube_identity()),
{
    lemma_identity_valid(6, 2);
    lemma_identity_valid(12, 2);
    lemma_identity_valid(8, 3);
}

proof fn lemma_rotate_valid(p: Seq<int>, q: Seq<(int, int)>, rot: RotationType, n: nat, m: nat, k: nat)
    requires
        is_permutation(p, n),
        is_oriented_permutation(q, m, k),
    ensures
        is_permutation(rotate_permutation(p, rot), n),
        is_oriented_permutation(rotate_oriented(q, rot, k), m, k),
{
    lemma_permutation_laws(p, p, p, n);
    lemma_oriented_laws(q, q, q, m, k);
}

pub proof fn lemma_face_turn_valid(face: FaceType, rot: RotationType)
    ensures
        cube_valid(spec_face_turn(face, rot)),
{
    let (ce, te) = face_edge_cycle(face);
    let (cc, tc) = face_corner_cycle(face);
    lemma_cycle_valid(ce, te, 12, 2);
    lemma_cycle_valid(cc, tc, 8, 3);
    lemma_cube_identity_valid();
    lemma_rotate_valid(identity_permutation(6), cycle_oriented(ce, te, 12), rot, 6, 12, 2);
    lemma_rotate_valid(identity_permutation(6), cycle_oriented(cc, tc, 8), rot, 6, 8, 3);
    lemma_cube_identity_valid();
}

pub proof fn lemma_slice_turn_valid(axis: Axis, rot: RotationType)
    ensures
        cube_valid(spec_slice_turn(axis, rot)),
{
    let (ce, te) = slice_edge_cycle(axis);
    let c = slice_centre_cycle(axis);
    lemma_cycle_valid(ce, te, 12, 2);
    lemma_cycle_valid(c, [0u8, 0u8, 0u8, 0u8], 6, 2);
    lemma_rotate_valid(cycle_permutation(c, 6), cycle_oriented(ce, te, 12), rot, 6, 12, 2);
    lemma_cube_identity_valid();
}

pub proof fn lemma_move_range_valid(mv: Move, end: int)
    ensures
        cube_valid(spec_move_range(mv, end)),
    decreases end - mv.start_depth,
{
    lemma_cube_identity_valid();
    if end > mv.start_depth {
        lemma_move_range_valid(mv, end - 1);
        lemma_face_turn_valid(front_face(mv.axis), mv.rotation_type);
        lemma_face_turn_valid(back_face(mv.axis), spec_inverse_rotation(mv.rotation_type));
        lemma_slice_turn_valid(mv.axis, mv.rotation_type);
        lemma_cube_laws(spec_move_range(mv, end - 1), spec_slab_turn(mv, end - 1), cube_identity());
    }
}

pub proof fn lemma_sequence_valid(ms: Seq<Move>)
    ensures
        cube_valid(spec_sequence(ms)),
    decreases ms.len(),
{
    lemma_cube_identity_valid();
    if ms.len() > 0 {
        lemma_sequence_valid(ms.subrange(1, ms.len() as int));
        lemma_move_range_valid(ms[0], ms[0].end_depth as int);
        lemma_cube_laws(
            spec_sequence(ms.subrange(1, ms.len() as int)),
            spec_move(ms[0]),
            cube_identity(),
        );
    }
}

/// Concatenating sequences composes their permutations: `a` acts first, then `b`.
pub proof fn lemma_sequence_concat(a: Seq<Move>, b: Seq<Move>)
    ensures
        spec_sequence(a + b) == cube_compose(spec_sequence(b), spec_sequence(a)),
    decreases a.len(),
{
    lemma_sequence_valid(b);
    lemma_cube_laws(spec_sequence(b), spec_sequence(b), spec_sequence(b));
    if a.len() == 0 {
        assert(a + b =~= b);
    } else {
        let rest = a.subrange(1, a.len() as int);
        assert((a + b).subrange(1, (a + b).len() as int) =~= rest + b);
        assert((a + b)[0] == a[0]);
        lemma_sequence_concat(rest, b);
        lemma_sequence_valid(rest);
        lemma_move_range_valid(a[0], a[0].end_depth as int);
        lemma_cube_laws(spec_sequence(b), spec_sequence(rest), spec_move(a[0]));
    }
}

impl CentrePermutation {
    /// The clockwise slice turn about an axis: `S` for FB, `M'` for RL, `E'` for UD.
    pub fn from_normal_slice_turn(axis: Axis) -> (r: Self)
        ensures
            r@ == cycle_permutation(slice_centre_cycle(axis), 6),
    {
        match axis {
            Axis::FB => Self::from_cycle([1, 5, 4, 2]),
            Axis::RL => Self::from_cycle([0, 2, 3, 5]),
            Axis::UD => Self::from_cycle([0, 4, 3, 1]),
        }
    }

    /// A slice turn about an axis, by the given rotation.
    pub fn from_slice_turn(axis: Axis, rotation_type: RotationType) -> (r: Self)
        ensures
            r@ == spec_slice_turn(axis, rotation_type).0,
    {
        let s = Self::from_normal_slice_turn(axis);
        proof {
            lemma_slice_turn_valid(axis, RotationType::Normal);
        }
        match rotation_type {
            RotationType::Normal => s,
            RotationType::Double => {
                let t = s.duplicate();
                t.op(s)
            },
            RotationType::Inverse => s.inverse(),
        }
    }
}

impl EdgePermutation {
    /// The clockwise quarter turn of a face.
    pub fn from_normal_face_turn(face: FaceType) -> (r: Self)
        ensures
            r@ == cycle_oriented(face_edge_cycle(face).0, face_edge_cycle(face).1, 12),
    {
        match face {
            FaceType::F => Self::from_cycle([1, 8, 5, 9], [1, 1, 1, 1]),
            FaceType::R => Self::from_cycle([0, 10, 4, 8], [0, 0, 0, 0]),
            FaceType::U => Self::from_cycle([0, 1, 2, 3], [0, 0, 0, 0]),
            FaceType::B => Self::from_cycle([3, 11, 7, 10], [1, 1, 1, 1]),
            FaceType::L => Self::from_cycle([2, 9, 6, 11], [0, 0, 0, 0]),
            FaceType::D => Self::from_cycle([4, 7, 6, 5], [0, 0, 0, 0]),
        }
    }

    /// A face turn by the given rotation.
    pub fn from_face_turn(face: FaceType, rotation_type: RotationType) -> (r: Self)
        ensures
            r@ == spec_face_turn(face, rotation_type).1,
    {
        let s = Self::from_normal_face_turn(face);
        proof {
            lemma_face_turn_valid(face, RotationType::Normal);
        }
        match rotation_type {
            RotationType::Normal => s,
            RotationType::Double => {
                let t = s.duplicate();
                t.op(s)
            },
            RotationType::Inverse => s.inverse(),
        }
    }

    /// The clockwise slice turn about an axis: `S` for FB, `M'` for RL, `E'` for UD.
    pub fn from_normal_slice_turn(axis: Axis) -> (r: Self)
        ensures
            r@ == cycle_oriented(slice_edge_cycle(axis).0, slice_edge_cycle(axis).1, 12),
    {
        match axis {
            Axis::FB => Self::from_cycle([0, 4, 6, 2], [1, 1, 1, 1]),
            Axis::RL => Self::from_cycle([1, 3, 7, 5], [1, 1, 1, 1]),
            Axis::UD => Self::from_cycle([8, 9, 11, 10], [0, 0, 0, 0]),
        }
    }

    /// A slice turn about an axis, by the given rotation.
    pub fn from_slice_turn(axis: Axis, rotation_type: RotationType) -> (r: Self)
        ensures
            r@ == spec_slice_turn(axis, rotation_type).1,
    {
        let s = Self::from_normal_slice_turn(axis);
        proof {
            lemma_slice_turn_valid(axis, RotationType::Normal);
        }
        match rotation_type {
            RotationType::Normal => s,
            RotationType::Double => {
                let t = s.duplicate();
                t.op(s)
            },
            RotationType::Inverse => s.inverse(),
        }
    }
}

impl CornerPermutation {
    /// The clockwise quarter turn of a face.
    pub fn from_normal_face_turn(face: FaceType) -> (r: Self)
        ensures
            r@ == cycle_oriented(face_corner_cycle(face).0, face_corner_cycle(face).1, 8),
    {
        match face {
            FaceType::F => Self::from_cycle([0, 2, 3, 1], [2, 1, 2, 1]),
            FaceType::R => Self::from_cycle([0, 4, 6, 2], [1, 2, 1, 2]),
            FaceType::U => Self::from_cycle([0, 1, 5, 4], [0, 0, 0, 0]),
            FaceType::B => Self::from_cycle([4, 5, 7, 6], [1, 2, 1, 2]),
            FaceType::L => Self::from_cycle([1, 3, 7, 5], [2, 1, 2, 1]),
            FaceType::D => Self::from_cycle([2, 6, 7, 3], [0, 0, 0, 0]),
        }
    }

    /// A face turn by the given rotation.
    pub fn from_face_turn(face: FaceType, rotation_type: RotationType) -> (r: Self)
        ensures
            r@ == spec_face_turn(face, rotation_type).2,
    {
        let s = Self::from_normal_face_turn(face);
        proof {
            lemma_face_turn_valid(face, RotationType::Normal);
        }
        match rotation_type {
            RotationType::Normal => s,
            RotationType::Double => {
                let t = s.duplicate();
                t.op(s)
            },
            RotationType::Inverse => s.inverse(),
        }
    }
}

/// A permutation of a 3x3x3 cube: the direct product of a centre permutation,
/// an edge permutation and a corner permutation.
#[derive(Debug)]
pub struct CubePermutation3 {
    centres: CentrePermutation,
    edges: EdgePermutation,
    corners: CornerPermutation,
}

impl View for CubePermutation3 {
    type V = CubeView;

    closed spec fn view(&self) -> CubeView {
        (self.centres@, self.edges@, self.corners@)
    }
}

impl Magma for CubePermutation3 {
    open spec fn valid(v: CubeView) -> bool {
        cube_valid(v)
    }

    open spec fn combine(a: CubeView, b: CubeView) -> CubeView {
        cube_compose(a, b)
    }

    proof fn lemma_combine_valid(a: CubeView, b: CubeView) {
        lemma_cube_laws(a, b, b);
    }

    fn op(self, other: Self) -> (r: Self) {
        CubePermutation3 {
            centres: self.centres.op(other.centres),
            edges: self.edges.op(other.edges),
            corners: self.corners.op(other.corners),
        }
    }
}

impl Semigroup for CubePermutation3 {
    proof fn lemma_associative(a: CubeView, b: CubeView, c: CubeView) {
        lemma_cube_laws(a, b, c);
    }
}

impl Unital for CubePermutation3 {
    open spec fn unit() -> CubeView {
        cube_identity()
    }

    proof fn lemma_unit(a: CubeView) {
        lemma_cube_laws(a, a, a);
    }

    fn identity() -> (r: Self) {
        proof {
            lemma_cube_identity_valid();
        }
        CubePermutation3 {
            centres: CentrePermutation::identity(),
            edges: EdgePermutation::identity(),
            corners: CornerPermutation::identity(),
        }
    }
}

impl InverseSemigroup for CubePermutation3 {
    open spec fn inv(a: CubeView) -> CubeView {
        cube_inverse(a)
    }

    proof fn lemma_inverse_valid(a: CubeView) {
        lemma_cube_laws(a, a, a);
    }

    fn inverse(&self) -> (r: Self) {
        CubePermutation3 {
            centres: self.centres.inverse(),
            edges: self.edges.inverse(),
            corners: self.corners.inverse(),
        }
    }
}

impl Group for CubePermutation3 {
    proof fn lemma_inverse(a: CubeView) {
        lemma_cube_laws(a, a, a);
    }

    fn equals(&self, other: &Self) -> (r: bool) {
        self.centres.equals(&other.centres) && self.edges.equals(&other.edges)
            && self.corners.equals(&other.corners)
    }

    fn duplicate(&self) -> (r: Self) {
        CubePermutation3 {
            centres: self.centres.duplicate(),
            edges: self.edges.duplicate(),
            corners: self.corners.duplicate(),
        }
    }
}

impl PartialEq for CubePermutation3 {
    fn eq(&self, other: &Self) -> (r: bool) {
        self.equals(other)
    }
}

impl vstd::std_specs::cmp::PartialEqSpecImpl for CubePermutation3 {
    open spec fn obeys_eq_spec() -> bool {
        true
    }

    open spec fn eq_spec(&self, other: &Self) -> bool {
        self@ == other@
    }
}

impl Eq for CubePermutation3 {
}

impl CubePermutation3 {
    /// A face turn; centres stay in place.
    pub fn from_face_turn(face: FaceType, rotation_type: RotationType) -> (r: Self)
        ensures
            r@ == spec_face_turn(face, rotation_type),
    {
        proof {
            lemma_cube_identity_valid();
        }
        CubePermutation3 {
            centres: CentrePermutation::identity(),
            edges: EdgePermutation::from_face_turn(face, rotation_type),
            corners: CornerPermutation::from_face_turn(face, rotation_type),
        }
    }

    /// A slice turn about an axis (`S`, `M'` or `E'` for a clockwise one); corners stay in place.
    pub fn from_slice_turn(axis: Axis, rotation_type: RotationType) -> (r: Self)
        ensures
            r@ == spec_slice_turn(axis, rotation_type),
    {
        proof {
            lemma_cube_identity_valid();
        }
        CubePermutation3 {
            centres: CentrePermutation::from_slice_turn(axis, rotation_type),
            edges: EdgePermutation::from_slice_turn(axis, rotation_type),
            corners: CornerPermutation::identity(),
        }
    }

    /// The permutation of a move: the turns of its slabs, which commute, composed together.
    pub fn from_move(mv: Move) -> (r: Self)
        requires
            mv.end_depth <= 3,
        ensures
            r@ == spec_move(mv),
    {
        proof {
            lemma_cube_identity_valid();
        }
        let mut g = Self::identity();
        let mut i = mv.start_depth;
        while i < mv.end_depth
            invariant
                mv.end_depth <= 3,
                mv.start_depth <= i,
                i <= mv.end_depth || i == mv.start_depth,
                g@ == spec_move_range(mv, i as int),
            decreases mv.end_depth - i,
        {
            proof {
                lemma_move_range_valid(mv, i as int);
                lemma_face_turn_valid(front_face(mv.axis), mv.rotation_type);
                lemma_face_turn_valid(back_face(mv.axis), spec_inverse_rotation(mv.rotation_type));
                lemma_slice_turn_valid(mv.axis, mv.rotation_type);
            }
            let h = if i == 0 {
                let front = match mv.axis {
                    Axis::FB => FaceType::F,
                    Axis::RL => FaceType::R,
                    Axis::UD => FaceType::U,
                };
                Self::from_face_turn(front, mv.rotation_type)
            } else if i == 1 {
                Self::from_slice_turn(mv.axis, mv.rotation_type)
            } else {
                let back = match mv.axis {
                    Axis::FB => FaceType::B,
                    Axis::RL => FaceType::L,
                    Axis::UD => FaceType::D,
                };
                Self::from_face_turn(back, mv.rotation_type.inverse())
            };
            g = g.op(h);
            i = i + 1;
        }
        g
    }

    /// The permutation of a move sequence: the first move written acts first.
    pub fn from_move_sequence(moves: MoveSequence) -> (r: Self)
        requires
            moves_fit(moves@),
        ensures
            r@ == spec_sequence(moves@),
    {
        proof {
            lemma_cube_identity_valid();
        }
        let ghost ms = moves@;
        let mut g = Self::identity();
        let mut i = moves.moves.len();
        assert(ms.subrange(i as int, ms.len() as int).len() == 0);
        while i > 0
            invariant
                ms == moves@,
                moves_fit(ms),
                i <= ms.len(),
                g@ == spec_sequence(ms.subrange(i as int, ms.len() as int)),
            decreases i,
        {
            proof {
                lemma_sequence_valid(ms.subrange(i as int, ms.len() as int));
                lemma_move_range_valid(ms[i - 1], ms[i - 1].end_depth as int);
            }
            let h = Self::from_move(moves.moves[i - 1]);
            g = g.op(h);
            assert(ms.subrange(i - 1, ms.len() as int).subrange(1, ms.len() - i + 1) =~= ms.subrange(
                i as int,
                ms.len() as int,
            ));
            i = i - 1;
        }
        assert(ms.subrange(0, ms.len() as int) =~= ms);
        g
    }

    /// The centre component.
    pub fn centres(&self) -> (r: &CentrePermutation)
        ensures
            r@ == self@.0,
    {
        &self.centres
    }

    /// The edge component.
    pub fn edges(&self) -> (r: &EdgePermutation)
        ensures
            r@ == self@.1,
    {
        &self.edges
    }

    /// The corner component.
    pub fn corners(&self) -> (r: &CornerPermutation)
        ensures
            r@ == self@.2,
    {
        &self.corners
    }
}

} // verus!
