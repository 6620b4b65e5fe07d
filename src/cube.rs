use crate::group::{CyclicGroup, Enumerable};
use vstd::prelude::*;
use vstd::string::StringSliceAdditionalSpecFns;

verus! {

/// A face of the cube, in Singmaster notation.
#[derive(Debug, Copy, Clone, PartialEq, Eq, Hash, Structural)]
pub enum FaceType {
    F,
    R,
    U,
    B,
    L,
    D,
}

impl Enumerable for FaceType {
    open spec fn count() -> nat {
        6
    }

    open spec fn spec_index(self) -> int {
        match self {
            FaceType::F => 0,
            FaceType::R => 1,
            FaceType::U => 2,
            FaceType::B => 3,
            FaceType::L => 4,
            FaceType::D => 5,
        }
    }

    open spec fn spec_from_index(i: int) -> Self {
        if i == 0 {
            FaceType::F
        } else if i == 1 {
            FaceType::R
        } else if i == 2 {
            FaceType::U
        } else if i == 3 {
            FaceType::B
        } else if i == 4 {
            FaceType::L
        } else {
            FaceType::D
        }
    }

    proof fn lemma_enumerable() {
        assert forall|x: Self| Self::spec_from_index(#[trigger] x.spec_index()) == x by {
            match x {
                FaceType::F => {},
                FaceType::R => {},
                FaceType::U => {},
                FaceType::B => {},
                FaceType::L => {},
                FaceType::D => {},
            }
        }
    }

    fn size() -> (r: usize) {
        6
    }

    fn from_index(idx: usize) -> (r: Self) {
        match idx {
            0 => FaceType::F,
            1 => FaceType::R,
            2 => FaceType::U,
            3 => FaceType::B,
            4 => FaceType::L,
            _ => FaceType::D,
        }
    }

    fn index(&self) -> (r: usize) {
        match self {
            FaceType::F => 0,
            FaceType::R => 1,
            FaceType::U => 2,
            FaceType::B => 3,
            FaceType::L => 4,
            FaceType::D => 5,
        }
    }
}

/// One of the twelve edges of the cube. The key sticker is named first.
#[derive(Debug, Copy, Clone, PartialEq, Eq, Hash, Structural)]
pub enum EdgeType {
    UR,
    UF,
    UL,
    UB,
    DR,
    DF,
    DL,
    DB,
    FR,
    FL,
    BR,
    BL,
}

impl Enumerable for EdgeType {
    open spec fn count() -> nat {
        12
    }

    open spec fn spec_index(self) -> int {
        match self {
            EdgeType::UR => 0,
            EdgeType::UF => 1,
            EdgeType::UL => 2,
            EdgeType::UB => 3,
            EdgeType::DR => 4,
            EdgeType::DF => 5,
            EdgeType::DL => 6,
            EdgeType::DB => 7,
            EdgeType::FR => 8,
            EdgeType::FL => 9,
            EdgeType::BR => 10,
            EdgeType::BL => 11,
        }
    }

    open spec fn spec_from_index(i: int) -> Self {
        if i == 0 {
            EdgeType::UR
        } else if i == 1 {
            EdgeType::UF
        } else if i == 2 {
            EdgeType::UL
        } else if i == 3 {
            EdgeType::UB
        } else if i == 4 {
            EdgeType::DR
        } else if i == 5 {
            EdgeType::DF
        } else if i == 6 {
            EdgeType::DL
        } else if i == 7 {
            EdgeType::DB
        } else if i == 8 {
            EdgeType::FR
        } else if i == 9 {
            EdgeType::FL
        } else if i == 10 {
            EdgeType::BR
        } else {
            EdgeType::BL
        }
    }

    proof fn lemma_enumerable() {
        assert forall|x: Self| Self::spec_from_index(#[trigger] x.spec_index()) == x by {
            match x {
                EdgeType::UR => {},
                EdgeType::UF => {},
                EdgeType::UL => {},
                EdgeType::UB => {},
                EdgeType::DR => {},
                EdgeType::DF => {},
                EdgeType::DL => {},
                EdgeType::DB => {},
                EdgeType::FR => {},
                EdgeType::FL => {},
                EdgeType::BR => {},
                EdgeType::BL => {},
            }
        }
    }

    fn size() -> (r: usize) {
        12
    }

    fn from_index(idx: usize) -> (r: Self) {
        match idx {
            0 => EdgeType::UR,
            1 => EdgeType::UF,
            2 => EdgeType::UL,
            3 => EdgeType::UB,
            4 => EdgeType::DR,
            5 => EdgeType::DF,
            6 => EdgeType::DL,
            7 => EdgeType::DB,
            8 => EdgeType::FR,
            9 => EdgeType::FL,
            10 => EdgeType::BR,
            _ => EdgeType::BL,
        }
    }

    fn index(&self) -> (r: usize) {
        match self {
            EdgeType::UR => 0,
            EdgeType::UF => 1,
            EdgeType::UL => 2,
            EdgeType::UB => 3,
            EdgeType::DR => 4,
            EdgeType::DF => 5,
            EdgeType::DL => 6,
            EdgeType::DB => 7,
            EdgeType::FR => 8,
            EdgeType::FL => 9,
            EdgeType::BR => 10,
            EdgeType::BL => 11,
        }
    }
}

/// One of the eight corners of the cube. The F/B face is named first, then U/D, then R/L.
#[derive(Debug, Copy, Clone, PartialEq, Eq, Hash, Structural)]
pub enum CornerType {
    FUR,
    FUL,
    FDR,
    FDL,
    BUR,
    BUL,
    BDR,
    BDL,
}

impl Enumerable for CornerType {
    open spec fn count() -> nat {
        8
    }

    open spec fn spec_index(self) -> int {
        match self {
            CornerType::FUR => 0,
            CornerType::FUL => 1,
            CornerType::FDR => 2,
            CornerType::FDL => 3,
            CornerType::BUR => 4,
            CornerType::BUL => 5,
            CornerType::BDR => 6,
            CornerType::BDL => 7,
        }
    }

    open spec fn spec_from_index(i: int) -> Self {
        if i == 0 {
            CornerType::FUR
        } else if i == 1 {
            CornerType::FUL
        } else if i == 2 {
            CornerType::FDR
        } else if i == 3 {
            CornerType::FDL
        } else if i == 4 {
            CornerType::BUR
        } else if i == 5 {
            CornerType::BUL
        } else if i == 6 {
            CornerType::BDR
        } else {
            CornerType::BDL
        }
    }

    proof fn lemma_enumerable() {
        assert forall|x: Self| Self::spec_from_index(#[trigger] x.spec_index()) == x by {
            match x {
                CornerType::FUR => {},
                CornerType::FUL => {},
                CornerType::FDR => {},
                CornerType::FDL => {},
                CornerType::BUR => {},
                CornerType::BUL => {},
                CornerType::BDR => {},
                CornerType::BDL => {},
            }
        }
    }

    fn size() -> (r: usize) {
        8
    }

    fn from_index(idx: usize) -> (r: Self) {
        match idx {
            0 => CornerType::FUR,
            1 => CornerType::FUL,
            2 => CornerType::FDR,
            3 => CornerType::FDL,
            4 => CornerType::BUR,
            5 => CornerType::BUL,
            6 => CornerType::BDR,
            _ => CornerType::BDL,
        }
    }

    fn index(&self) -> (r: usize) {
        match self {
            CornerType::FUR => 0,
            CornerType::FUL => 1,
            CornerType::FDR => 2,
            CornerType::FDL => 3,
            CornerType::BUR => 4,
            CornerType::BUL => 5,
            CornerType::BDR => 6,
            CornerType::BDL => 7,
        }
    }
}

/// The edge between two faces when `f1` carries its key sticker.
pub open spec fn spec_edge_from_faces(f1: FaceType, f2: FaceType) -> Option<EdgeType> {
    match (f1, f2) {
        (FaceType::U, FaceType::R) => Some(EdgeType::UR),
        (FaceType::U, FaceType::F) => Some(EdgeType::UF),
        (FaceType::U, FaceType::L) => Some(EdgeType::UL),
        (FaceType::U, FaceType::B) => Some(EdgeType::UB),
        (FaceType::D, FaceType::R) => Some(EdgeType::DR),
        (FaceType::D, FaceType::F) => Some(EdgeType::DF),
        (FaceType::D, FaceType::L) => Some(EdgeType::DL),
        (FaceType::D, FaceType::B) => Some(EdgeType::DB),
        (FaceType::F, FaceType::R) => Some(EdgeType::FR),
        (FaceType::F, FaceType::L) => Some(EdgeType::FL),
        (FaceType::B, FaceType::R) => Some(EdgeType::BR),
        (FaceType::B, FaceType::L) => Some(EdgeType::BL),
        _ => None,
    }
}

impl EdgeType {
    /// The edge between two faces, when the first face carries the key sticker.
    pub fn from_faces_ordered(f1: FaceType, f2: FaceType) -> (r: Option<EdgeType>)
        ensures
            r == spec_edge_from_faces(f1, f2),
    {
        match (f1, f2) {
            (FaceType::U, FaceType::R) => Some(EdgeType::UR),
            (FaceType::U, FaceType::F) => Some(EdgeType::UF),
            (FaceType::U, FaceType::L) => Some(EdgeType::UL),
            (FaceType::U, FaceType::B) => Some(EdgeType::UB),
            (FaceType::D, FaceType::R) => Some(EdgeType::DR),
            (FaceType::D, FaceType::F) => Some(EdgeType::DF),
            (FaceType::D, FaceType::L) => Some(EdgeType::DL),
            (FaceType::D, FaceType::B) => Some(EdgeType::DB),
            (FaceType::F, FaceType::R) => Some(EdgeType::FR),
            (FaceType::F, FaceType::L) => Some(EdgeType::FL),
            (FaceType::B, FaceType::R) => Some(EdgeType::BR),
            (FaceType::B, FaceType::L) => Some(EdgeType::BL),
            _ => None,
        }
    }

    /// The edge between two faces in either order, with twist 0 when the first face
    /// carries the key sticker and twist 1 when the second does.
    pub fn from_faces(f1: FaceType, f2: FaceType) -> (r: Option<(EdgeType, CyclicGroup<2>)>)
        ensures
            match r {
                Some((e, t)) => (spec_edge_from_faces(f1, f2) == Some(e) && t@ == 0) || (
                spec_edge_from_faces(f1, f2) is None && spec_edge_from_faces(f2, f1) == Some(e)
                    && t@ == 1),
                None => spec_edge_from_faces(f1, f2) is None && spec_edge_from_faces(f2, f1) is None,
            },
    {
        match Self::from_faces_ordered(f1, f2) {
            Some(e) => Some((e, CyclicGroup::new(0))),
            None => match Self::from_faces_ordered(f2, f1) {
                Some(e) => Some((e, CyclicGroup::new(1))),
                None => None,
            },
        }
    }
}

/// The colour of a sticker; each face's colour in the solved state.
#[derive(Debug, Copy, Clone, PartialEq, Eq, Structural)]
pub enum Colour {
    Green,
    Red,
    White,
    Blue,
    Orange,
    Yellow,
}

impl Colour {
    /// The letter of this colour.
    pub fn letter(self) -> (r: char)
        ensures
            r == match self {
                Colour::Green => 'g',
                Colour::Red => 'r',
                Colour::White => 'w',
                Colour::Blue => 'b',
                Colour::Orange => 'o',
                Colour::Yellow => 'y',
            },
    {
        match self {
            Colour::Green => 'g',
            Colour::Red => 'r',
            Colour::White => 'w',
            Colour::Blue => 'b',
            Colour::Orange => 'o',
            Colour::Yellow => 'y',
        }
    }

    pub open spec fn spec_of_face(face: FaceType) -> Colour {
        match face {
            FaceType::F => Colour::Green,
            FaceType::R => Colour::Red,
            FaceType::U => Colour::White,
            FaceType::B => Colour::Blue,
            FaceType::L => Colour::Orange,
            FaceType::D => Colour::Yellow,
        }
    }

    /// The colour of a face in the solved state.
    pub fn of_face(face: FaceType) -> (r: Colour)
        ensures
            r == Colour::spec_of_face(face),
    {
        match face {
            FaceType::F => Colour::Green,
            FaceType::R => Colour::Red,
            FaceType::U => Colour::White,
            FaceType::B => Colour::Blue,
            FaceType::L => Colour::Orange,
            FaceType::D => Colour::Yellow,
        }
    }
}

/// An axis of the cube, named by its reference face and the opposite face.
#[derive(Debug, Copy, Clone, PartialEq, Eq, Hash, Structural)]
pub enum Axis {
    FB,
    RL,
    UD,
}

/// How far a move turns: a clockwise quarter, a half, or an anticlockwise quarter.
#[derive(Debug, Copy, Clone, PartialEq, Eq, Hash, Structural)]
pub enum RotationType {
    Normal,
    Double,
    Inverse,
}

/// The number of clockwise quarter turns a rotation stands for.
pub open spec fn quarter_turns(r: RotationType) -> int {
    match r {
        RotationType::Normal => 1,
        RotationType::Double => 2,
        RotationType::Inverse => 3,
    }
}

pub open spec fn spec_inverse_rotation(r: RotationType) -> RotationType {
    match r {
        RotationType::Normal => RotationType::Inverse,
        RotationType::Double => RotationType::Double,
        RotationType::Inverse => RotationType::Normal,
    }
}

impl RotationType {
    pub fn inverse(self) -> (r: RotationType)
        ensures
            r == spec_inverse_rotation(self),
            (quarter_turns(r) + quarter_turns(self)) % 4 == 0,
    {
        match self {
            RotationType::Normal => RotationType::Inverse,
            RotationType::Double => RotationType::Double,
            RotationType::Inverse => RotationType::Normal,
        }
    }
}

/// Turns every slab of the cube from `start_depth` up to (not including) `end_depth`
/// about `axis`, counted from the axis's reference face (F, R or U).
/// `0..1` is a face turn, `1..2` a slice turn, `0..2` a wide turn, and `2..3` a
/// turn of the opposite face.
#[derive(Debug, Copy, Clone, PartialEq, Eq, Hash, Structural)]
pub struct Move {
    pub axis: Axis,
    pub rotation_type: RotationType,
    pub start_depth: usize,
    pub end_depth: usize,
}

impl Move {
    pub fn new(axis: Axis, rotation_type: RotationType, start_depth: usize, end_depth: usize) -> (r:
        Self)
        ensures
            r == (Move { axis, rotation_type, start_depth, end_depth }),
    {
        Move { axis, rotation_type, start_depth, end_depth }
    }

    /// The slab range is one of the five that the notation can write.
    pub open spec fn is_expressible(self) -> bool {
        ||| (self.start_depth == 0 && self.end_depth == 1)
        ||| (self.start_depth == 0 && self.end_depth == 2)
        ||| (self.start_depth == 1 && self.end_depth == 2)
        ||| (self.start_depth == 2 && self.end_depth == 3)
        ||| (self.start_depth == 1 && self.end_depth == 3)
    }
}

/// A move sequence, in written order.
#[derive(Debug, Clone)]
pub struct MoveSequence {
    pub moves: Vec<Move>,
}

impl View for MoveSequence {
    type V = Seq<Move>;

    open spec fn view(&self) -> Seq<Move> {
        self.moves@
    }
}

impl MoveSequence {
    pub fn empty() -> (r: Self)
        ensures
            r@ == Seq::<Move>::empty(),
    {
        MoveSequence { moves: Vec::new() }
    }

    /// A copy of this sequence.
    pub fn duplicate(&self) -> (r: Self)
        ensures
            r@ == self@,
    {
        let mut v: Vec<Move> = Vec::new();
        let mut i: usize = 0;
        while i < self.moves.len()
            invariant
                i <= self@.len(),
                v@ == self@.subrange(0, i as int),
            decreases self@.len() - i,
        {
            v.push(self.moves[i]);
            i = i + 1;
            assert(v@ =~= self@.subrange(0, i as int));
        }
        assert(v@ =~= self@);
        MoveSequence { moves: v }
    }
}

impl PartialEq for MoveSequence {
    fn eq(&self, other: &Self) -> (r: bool) {
        if self.moves.len() != other.moves.len() {
            return false;
        }
        let mut i: usize = 0;
        while i < self.moves.len()
            invariant
                self@.len() == other@.len(),
                i <= self@.len(),
                forall|j: int| 0 <= j < i ==> self@[j] == other@[j],
            decreases self@.len() - i,
        {
            if self.moves[i] != other.moves[i] {
                return false;
            }
            i = i + 1;
        }
        assert(self@ =~= other@);
        true
    }
}

impl vstd::std_specs::cmp::PartialEqSpecImpl for MoveSequence {
    open spec fn obeys_eq_spec() -> bool {
        true
    }

    open spec fn eq_spec(&self, other: &Self) -> bool {
        self@ == other@
    }
}

impl Eq for MoveSequence {
}

/// The move undoing `m`: same slabs, opposite rotation.
pub open spec fn spec_inverse_move(m: Move) -> Move {
    Move { rotation_type: spec_inverse_rotation(m.rotation_type), ..m }
}

/// The sequence undoing `ms`: its moves undone, in reverse order.
pub open spec fn spec_inverse_sequence(ms: Seq<Move>) -> Seq<Move> {
    Seq::new(ms.len(), |i: int| spec_inverse_move(ms[ms.len() - 1 - i]))
}

/// Two moves turn the same slabs about the same axis, so they merge into one.
pub open spec fn mergeable(a: Move, b: Move) -> bool {
    a.axis == b.axis && a.start_depth == b.start_depth && a.end_depth == b.end_depth
}

pub open spec fn rotation_of_quarters(q: int) -> RotationType {
    if q == 1 {
        RotationType::Normal
    } else if q == 2 {
        RotationType::Double
    } else {
        RotationType::Inverse
    }
}

/// Appends `m` to the canonical sequence `out`, merging it with the last move when
/// both turn the same slabs; a merge that adds up to no turn removes both.
pub open spec fn push_merged(out: Seq<Move>, m: Move) -> Seq<Move> {
    if out.len() > 0 && mergeable(out.last(), m) {
        let q = (quarter_turns(out.last().rotation_type) + quarter_turns(m.rotation_type)) % 4;
        if q == 0 {
            out.drop_last()
        } else {
            out.drop_last().push(Move { rotation_type: rotation_of_quarters(q), ..m })
        }
    } else {
        out.push(m)
    }
}

/// The canonical form of a sequence: moves are merged from left to right.
pub open spec fn spec_canonicalise(ms: Seq<Move>) -> Seq<Move>
    decreases ms.len(),
{
    if ms.len() == 0 {
        ms
    } else {
        push_merged(spec_canonicalise(ms.drop_last()), ms.last())
    }
}

/// No two neighbouring moves turn the same slabs.
pub open spec fn is_canonical(ms: Seq<Move>) -> bool {
    forall|i: int| 0 <= i < ms.len() - 1 ==> !mergeable(#[trigger] ms[i], ms[i + 1])
}

pub proof fn lemma_canonicalise_canonical(ms: Seq<Move>)
    ensures
        is_canonical(spec_canonicalise(ms)),
        spec_canonicalise(ms).len() <= ms.len(),
    decreases ms.len(),
{
    if ms.len() > 0 {
        lemma_canonicalise_canonical(ms.drop_last());
        let out = spec_canonicalise(ms.drop_last());
        let r = spec_canonicalise(ms);
        assert forall|i: int| 0 <= i < r.len() - 1 implies !mergeable(#[trigger] r[i], r[i + 1]) by {
            assert(r[i] == out[i]);
            if i + 1 < out.len() {
                assert(r[i + 1] == out[i + 1] || mergeable(r[i + 1], out[i + 1]));
            }
        }
    }
}

pub proof fn lemma_canonical_fixed(ms: Seq<Move>)
    requires
        is_canonical(ms),
    ensures
        spec_canonicalise(ms) == ms,
    decreases ms.len(),
{
    if ms.len() > 0 {
        let init = ms.drop_last();
        assert(is_canonical(init)) by {
            assert forall|i: int| 0 <= i < init.len() - 1 implies !mergeable(
                #[trigger] init[i],
                init[i + 1],
            ) by {
                assert(init[i] == ms[i]);
                assert(init[i + 1] == ms[i + 1]);
            }
        }
        lemma_canonical_fixed(init);
        if init.len() > 0 {
            assert(init.last() == ms[ms.len() - 2]);
            assert(!mergeable(ms[ms.len() - 2], ms[ms.len() - 1]));
        }
        assert(init.push(ms.last()) =~= ms);
    }
}

/// Canonicalising twice gives what canonicalising once gives, and never lengthens a sequence.
pub proof fn lemma_canonicalise_idempotent(ms: Seq<Move>)
    ensures
        spec_canonicalise(spec_canonicalise(ms)) == spec_canonicalise(ms),
        spec_canonicalise(ms).len() <= ms.len(),
{
    lemma_canonicalise_canonical(ms);
    lemma_canonical_fixed(spec_canonicalise(ms));
}

impl Move {
    /// The move undoing this one.
    pub fn inverse(self) -> (r: Move)
        ensures
            r == spec_inverse_move(self),
    {
        Move { rotation_type: self.rotation_type.inverse(), ..self }
    }
}

fn quarters(r: RotationType) -> (q: u8)
    ensures
        q as int == quarter_turns(r),
{
    match r {
        RotationType::Normal => 1,
        RotationType::Double => 2,
        RotationType::Inverse => 3,
    }
}

impl MoveSequence {
    /// Composition in the convention of the cube group: `a.op(b)` performs `b`, then `a`,
    /// so its moves are those of `b` followed by those of `a`.
    pub fn op(self, other: MoveSequence) -> (r: MoveSequence)
        ensures
            r@ == other@ + self@,
    {
        let mut moves = other.moves;
        let mut i: usize = 0;
        let ghost start = moves@;
        while i < self.moves.len()
            invariant
                i <= self@.len(),
                moves@ == start + self@.subrange(0, i as int),
            decreases self@.len() - i,
        {
            moves.push(self.moves[i]);
            i = i + 1;
            assert(moves@ =~= start + self@.subrange(0, i as int));
        }
        assert(self@.subrange(0, i as int) =~= self@);
        MoveSequence { moves }
    }

    /// The sequence undoing this one.
    pub fn inverse(&self) -> (r: MoveSequence)
        ensures
            r@ == spec_inverse_sequence(self@),
    {
        let n = self.moves.len();
        let mut moves: Vec<Move> = Vec::new();
        let mut i: usize = 0;
        while i < n
            invariant
                n == self@.len(),
                i <= n,
                moves@.len() == i,
                forall|j: int| 0 <= j < i ==> #[trigger] moves@[j] == spec_inverse_move(self@[n - 1 - j]),
            decreases n - i,
        {
            moves.push(self.moves[n - 1 - i].inverse());
            i = i + 1;
        }
        let r = MoveSequence { moves };
        assert(r@ =~= spec_inverse_sequence(self@));
        r
    }

    /// The canonical form: neighbouring moves on the same slabs merged, from left to right.
    pub fn canonicalise(&self) -> (r: MoveSequence)
        ensures
            r@ == spec_canonicalise(self@),
    {
        let mut out: Vec<Move> = Vec::new();
        let mut i: usize = 0;
        while i < self.moves.len()
            invariant
                i <= self@.len(),
                out@ == spec_canonicalise(self@.subrange(0, i as int)),
            decreases self@.len() - i,
        {
            let m = self.moves[i];
            assert(self@.subrange(0, i + 1).drop_last() =~= self@.subrange(0, i as int));
            let n = out.len();
            if n > 0 && out[n - 1].axis == m.axis && out[n - 1].start_depth == m.start_depth
                && out[n - 1].end_depth == m.end_depth {
                let q = (quarters(out[n - 1].rotation_type) + quarters(m.rotation_type)) % 4;
                let last = out.pop().unwrap();
                if q != 0 {
                    let rot = if q == 1 {
                        RotationType::Normal
                    } else if q == 2 {
                        RotationType::Double
                    } else {
                        RotationType::Inverse
                    };
                    out.push(Move { rotation_type: rot, ..m });
                }
                assert(out@ =~= push_merged(spec_canonicalise(self@.subrange(0, i as int)), m));
            } else {
                out.push(m);
            }
            i = i + 1;
        }
        assert(self@.subrange(0, i as int) =~= self@);
        MoveSequence { moves: out }
    }
}

impl FaceType {
    /// The letter that names the face.
    pub open spec fn spec_name(self) -> Seq<u8> {
        match self {
            FaceType::F => seq![70u8],
            FaceType::R => seq![82u8],
            FaceType::U => seq![85u8],
            FaceType::B => seq![66u8],
            FaceType::L => seq![76u8],
            FaceType::D => seq![68u8],
        }
    }

    /// The face a text names, if any.
    pub fn parse_name(text: &str) -> (r: Option<FaceType>)
        ensures
            match r {
                Some(f) => text.spec_bytes() == f.spec_name(),
                None => forall|f: FaceType| text.spec_bytes() != #[trigger] f.spec_name(),
            },
    {
        let b = text.as_bytes();
        if b.len() != 1 {
            assert forall|f: FaceType| text.spec_bytes() != #[trigger] f.spec_name() by {
                assert(f.spec_name().len() == 1);
            }
            return None;
        }
        let r = match b[0] {
        70 => Some(FaceType::F),
        82 => Some(FaceType::R),
        85 => Some(FaceType::U),
        66 => Some(FaceType::B),
        76 => Some(FaceType::L),
        68 => Some(FaceType::D),
            _ => None,
        };
        proof {
            match r {
                Some(f) => {
                    assert(text.spec_bytes() =~= f.spec_name());
                },
                None => {
                    assert forall|f: FaceType| text.spec_bytes() != #[trigger] f.spec_name() by {
                        if text.spec_bytes() == f.spec_name() {
                            assert(b@[0] == f.spec_name()[0]);
                        }
                    }
                },
            }
        }
        r
    }
}

impl EdgeType {
    /// The two letters that name the edge.
    pub open spec fn spec_name(self) -> Seq<u8> {
        match self {
            EdgeType::UR => seq![85u8, 82u8],
            EdgeType::UF => seq![85u8, 70u8],
            EdgeType::UL => seq![85u8, 76u8],
            EdgeType::UB => seq![85u8, 66u8],
            EdgeType::DR => seq![68u8, 82u8],
            EdgeType::DF => seq![68u8, 70u8],
            EdgeType::DL => seq![68u8, 76u8],
            EdgeType::DB => seq![68u8, 66u8],
            EdgeType::FR => seq![70u8, 82u8],
            EdgeType::FL => seq![70u8, 76u8],
            EdgeType::BR => seq![66u8, 82u8],
            EdgeType::BL => seq![66u8, 76u8],
        }
    }

    /// The edge a text names, if any.
    pub fn parse_name(text: &str) -> (r: Option<EdgeType>)
        ensures
            match r {
                Some(e) => text.spec_bytes() == e.spec_name(),
                None => forall|e: EdgeType| text.spec_bytes() != #[trigger] e.spec_name(),
            },
    {
        let b = text.as_bytes();
        if b.len() != 2 {
            assert forall|e: EdgeType| text.spec_bytes() != #[trigger] e.spec_name() by {
                assert(e.spec_name().len() == 2);
            }
            return None;
        }
        let r = match (b[0], b[1]) {
        (85, 82) => Some(EdgeType::UR),
        (85, 70) => Some(EdgeType::UF),
        (85, 76) => Some(EdgeType::UL),
        (85, 66) => Some(EdgeType::UB),
        (68, 82) => Some(EdgeType::DR),
        (68, 70) => Some(EdgeType::DF),
        (68, 76) => Some(EdgeType::DL),
        (68, 66) => Some(EdgeType::DB),
        (70, 82) => Some(EdgeType::FR),
        (70, 76) => Some(EdgeType::FL),
        (66, 82) => Some(EdgeType::BR),
        (66, 76) => Some(EdgeType::BL),
            _ => None,
        };
        proof {
            match r {
                Some(e) => {
                    assert(text.spec_bytes() =~= e.spec_name());
                },
                None => {
                    assert forall|e: EdgeType| text.spec_bytes() != #[trigger] e.spec_name() by {
                        if text.spec_bytes() == e.spec_name() {
                            assert(b@[0] == e.spec_name()[0] && b@[1] == e.spec_name()[1]);
                        }
                    }
                },
            }
        }
        r
    }
}

impl Axis {
    /// The two letters that name the axis.
    pub open spec fn spec_name(self) -> Seq<u8> {
        match self {
            Axis::FB => seq![70u8, 66u8],
            Axis::RL => seq![82u8, 76u8],
            Axis::UD => seq![85u8, 68u8],
        }
    }

    /// The axis a text names, if any.
    pub fn parse_name(text: &str) -> (r: Option<Axis>)
        ensures
            match r {
                Some(a) => text.spec_bytes() == a.spec_name(),
                None => forall|a: Axis| text.spec_bytes() != #[trigger] a.spec_name(),
            },
    {
        let b = text.as_bytes();
        if b.len() != 2 {
            assert forall|a: Axis| text.spec_bytes() != #[trigger] a.spec_name() by {
                assert(a.spec_name().len() == 2);
            }
            return None;
        }
        let r = match (b[0], b[1]) {
        (70, 66) => Some(Axis::FB),
        (82, 76) => Some(Axis::RL),
        (85, 68) => Some(Axis::UD),
            _ => None,
        };
        proof {
            match r {
                Some(a) => {
                    assert(text.spec_bytes() =~= a.spec_name());
                },
                None => {
                    assert forall|a: Axis| text.spec_bytes() != #[trigger] a.spec_name() by {
                        if text.spec_bytes() == a.spec_name() {
                            assert(b@[0] == a.spec_name()[0] && b@[1] == a.spec_name()[1]);
                        }
                    }
                },
            }
        }
        r
    }
}

impl std::str::FromStr for FaceType {
    type Err = ();

    fn from_str(s: &str) -> Result<Self, Self::Err> {
        match FaceType::parse_name(s) {
            Some(f) => Ok(f),
            None => Err(()),
        }
    }
}

impl std::str::FromStr for EdgeType {
    type Err = ();

    fn from_str(s: &str) -> Result<Self, Self::Err> {
        match EdgeType::parse_name(s) {
            Some(e) => Ok(e),
            None => Err(()),
        }
    }
}

impl std::str::FromStr for Axis {
    type Err = ();

    fn from_str(s: &str) -> Result<Self, Self::Err> {
        match Axis::parse_name(s) {
            Some(a) => Ok(a),
            None => Err(()),
        }
    }
}

} // verus!
