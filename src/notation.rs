use crate::cube::{spec_inverse_rotation, Axis, FaceType, Move, MoveSequence, RotationType};
use vstd::prelude::*;
use vstd::string::StringSliceAdditionalSpecFns;

verus! {

/// Why a move token could not be read.
#[derive(Debug, Copy, Clone, PartialEq, Eq, Structural)]
pub enum ParseError {
    /// A token with no characters (two spaces in a row, or an empty text).
    EmptyToken,
    /// The first character names no face or slice.
    UnknownLetter,
    /// A character after the first is not `w`, `2` or `'`.
    UnknownSuffix,
}

/// The face, start depth and end depth that a token's first character stands for.
/// Slices follow the face they turn with: `M` follows L, `E` follows D, `S` follows F.
pub open spec fn spec_letter(c: u8) -> Option<(FaceType, usize, usize)> {
    if c == 70 {
        Some((FaceType::F, 0usize, 1usize))
    } else if c == 82 {
        Some((FaceType::R, 0usize, 1usize))
    } else if c == 85 {
        Some((FaceType::U, 0usize, 1usize))
    } else if c == 66 {
        Some((FaceType::B, 0usize, 1usize))
    } else if c == 76 {
        Some((FaceType::L, 0usize, 1usize))
    } else if c == 68 {
        Some((FaceType::D, 0usize, 1usize))
    } else if c == 102 {
        Some((FaceType::F, 0usize, 2usize))
    } else if c == 114 {
        Some((FaceType::R, 0usize, 2usize))
    } else if c == 117 {
        Some((FaceType::U, 0usize, 2usize))
    } else if c == 98 {
        Some((FaceType::B, 0usize, 2usize))
    } else if c == 108 {
        Some((FaceType::L, 0usize, 2usize))
    } else if c == 100 {
        Some((FaceType::D, 0usize, 2usize))
    } else if c == 77 {
        Some((FaceType::L, 1usize, 2usize))
    } else if c == 69 {
        Some((FaceType::D, 1usize, 2usize))
    } else if c == 83 {
        Some((FaceType::F, 1usize, 2usize))
    } else {
        None
    }
}

/// The effect of one suffix character on the rotation and end depth read so far:
/// `w` widens to two slabs, `2` makes a half turn, `'` inverts a quarter turn
/// (a half turn stays a half turn).
pub open spec fn spec_suffix(c: u8, rot: RotationType, end: usize) -> Option<(RotationType, usize)> {
    if c == 119 {
        Some((rot, 2usize))
    } else if c == 50 {
        Some((RotationType::Double, end))
    } else if c == 39 {
        Some(
            (
                if rot == RotationType::Double {
                    RotationType::Double
                } else {
                    RotationType::Inverse
                },
                end,
            ),
        )
    } else {
        None
    }
}

/// Reads the suffix characters `t` from left to right.
pub open spec fn spec_suffixes(t: Seq<u8>, rot: RotationType, end: usize) -> Option<
    (RotationType, usize),
>
    decreases t.len(),
{
    if t.len() == 0 {
        Some((rot, end))
    } else {
        match spec_suffix(t[0], rot, end) {
            None => None,
            Some((r, e)) => spec_suffixes(t.subrange(1, t.len() as int), r, e),
        }
    }
}

/// The canonical move for a turn described from `face`: turns described from the
/// B, L or D side are mirrored onto the F, R or U axis.
pub open spec fn spec_canonical(face: FaceType, rot: RotationType, start: usize, end: usize) -> Move {
    match face {
        FaceType::F => Move { axis: Axis::FB, rotation_type: rot, start_depth: start, end_depth: end },
        FaceType::R => Move { axis: Axis::RL, rotation_type: rot, start_depth: start, end_depth: end },
        FaceType::U => Move { axis: Axis::UD, rotation_type: rot, start_depth: start, end_depth: end },
        FaceType::B => Move {
            axis: Axis::FB,
            rotation_type: spec_inverse_rotation(rot),
            start_depth: (3 - end) as usize,
            end_depth: (3 - start) as usize,
        },
        FaceType::L => Move {
            axis: Axis::RL,
            rotation_type: spec_inverse_rotation(rot),
            start_depth: (3 - end) as usize,
            end_depth: (3 - start) as usize,
        },
        FaceType::D => Move {
            axis: Axis::UD,
            rotation_type: spec_inverse_rotation(rot),
            start_depth: (3 - end) as usize,
            end_depth: (3 - start) as usize,
        },
    }
}

/// What a single token of move notation reads as.
pub open spec fn spec_parse_move(t: Seq<u8>) -> Result<Move, ParseError> {
    if t.len() == 0 {
        Err(ParseError::EmptyToken)
    } else {
        match spec_letter(t[0]) {
            None => Err(ParseError::UnknownLetter),
            Some((face, start, end)) => match spec_suffixes(
                t.subrange(1, t.len() as int),
                RotationType::Normal,
                end,
            ) {
                None => Err(ParseError::UnknownSuffix),
                Some((rot, e)) => Ok(spec_canonical(face, rot, start, e)),
            },
        }
    }
}

/// The tokens of a text split at each space, as `str::split(' ')` gives them:
/// empty text gives one empty token, and a space at either end gives an empty token there.
pub open spec fn spec_tokens(b: Seq<u8>) -> Seq<Seq<u8>>
    decreases b.len(),
{
    if b.len() == 0 {
        seq![Seq::<u8>::empty()]
    } else {
        let t = spec_tokens(b.drop_last());
        if b.last() == 32 {
            t.push(Seq::<u8>::empty())
        } else {
            t.update(t.len() - 1, t.last().push(b.last()))
        }
    }
}

/// Reads each token in turn; the first token that fails decides the error.
pub open spec fn spec_parse_tokens(ts: Seq<Seq<u8>>) -> Result<Seq<Move>, ParseError>
    decreases ts.len(),
{
    if ts.len() == 0 {
        Ok(Seq::<Move>::empty())
    } else {
        match spec_parse_tokens(ts.drop_last()) {
            Err(e) => Err(e),
            Ok(ms) => match spec_parse_move(ts.last()) {
                Err(e) => Err(e),
                Ok(m) => Ok(ms.push(m)),
            },
        }
    }
}

/// What a text of space-separated move tokens reads as.
pub open spec fn spec_parse_sequence(b: Seq<u8>) -> Result<Seq<Move>, ParseError> {
    spec_parse_tokens(spec_tokens(b))
}

pub proof fn lemma_tokens_nonempty(b: Seq<u8>)
    ensures
        spec_tokens(b).len() >= 1,
    decreases b.len(),
{
    if b.len() > 0 {
        lemma_tokens_nonempty(b.drop_last());
    }
}

fn parse_letter(c: u8) -> (r: Option<(FaceType, usize, usize)>)
    ensures
        r == spec_letter(c),
{
    match c {
        70 => Some((FaceType::F, 0, 1)),
        82 => Some((FaceType::R, 0, 1)),
        85 => Some((FaceType::U, 0, 1)),
        66 => Some((FaceType::B, 0, 1)),
        76 => Some((FaceType::L, 0, 1)),
        68 => Some((FaceType::D, 0, 1)),
        102 => Some((FaceType::F, 0, 2)),
        114 => Some((FaceType::R, 0, 2)),
        117 => Some((FaceType::U, 0, 2)),
        98 => Some((FaceType::B, 0, 2)),
        108 => Some((FaceType::L, 0, 2)),
        100 => Some((FaceType::D, 0, 2)),
        77 => Some((FaceType::L, 1, 2)),
        69 => Some((FaceType::D, 1, 2)),
        83 => Some((FaceType::F, 1, 2)),
        _ => None,
    }
}

fn canonical(face: FaceType, rot: RotationType, start: usize, end: usize) -> (r: Move)
    requires
        start <= end <= 3,
    ensures
        r == spec_canonical(face, rot, start, end),
{
    match face {
        FaceType::F => Move { axis: Axis::FB, rotation_type: rot, start_depth: start, end_depth: end },
        FaceType::R => Move { axis: Axis::RL, rotation_type: rot, start_depth: start, end_depth: end },
        FaceType::U => Move { axis: Axis::UD, rotation_type: rot, start_depth: start, end_depth: end },
        FaceType::B => Move {
            axis: Axis::FB,
            rotation_type: rot.inverse(),
            start_depth: 3 - end,
            end_depth: 3 - start,
        },
        FaceType::L => Move {
            axis: Axis::RL,
            rotation_type: rot.inverse(),
            start_depth: 3 - end,
            end_depth: 3 - start,
        },
        FaceType::D => Move {
            axis: Axis::UD,
            rotation_type: rot.inverse(),
            start_depth: 3 - end,
            end_depth: 3 - start,
        },
    }
}

/// Reads one token of move notation, such as `R`, `U2`, `f'`, `Rw2` or `M'`.
pub fn parse_move(t: &[u8]) -> (r: Result<Move, ParseError>)
    ensures
        r == spec_parse_move(t@),
        r is Ok ==> r->Ok_0.start_depth < r->Ok_0.end_depth <= 3,
{
    if t.len() == 0 {
        return Err(ParseError::EmptyToken);
    }
    let letter = parse_letter(t[0]);
    match letter {
        None => Err(ParseError::UnknownLetter),
        Some((face, start, end0)) => {
            let mut rot = RotationType::Normal;
            let mut end = end0;
            let mut i: usize = 1;
            while i < t.len()
                invariant
                    1 <= i <= t@.len(),
                    start < end <= 2,
                    start <= 1,
                    spec_letter(t@[0]) == Some((face, start, end0)),
                    spec_suffixes(t@.subrange(1, t@.len() as int), RotationType::Normal, end0)
                        == spec_suffixes(t@.subrange(i as int, t@.len() as int), rot, end),
                decreases t@.len() - i,
            {
                let c = t[i];
                assert(t@.subrange(i as int, t@.len() as int)[0] == c);
                assert(t@.subrange(i as int, t@.len() as int).subrange(1, t@.len() - i)
                    =~= t@.subrange(i + 1, t@.len() as int));
                if c == 119 {
                    end = 2;
                } else if c == 50 {
                    rot = RotationType::Double;
                } else if c == 39 {
                    if rot != RotationType::Double {
                        rot = RotationType::Inverse;
                    }
                } else {
                    return Err(ParseError::UnknownSuffix);
                }
                i = i + 1;
            }
            assert(t@.subrange(i as int, t@.len() as int).len() == 0);
            Ok(canonical(face, rot, start, end))
        },
    }
}

/// Splits a text at each space.
fn split_tokens(b: &[u8]) -> (r: Vec<Vec<u8>>)
    ensures
        r@.len() == spec_tokens(b@).len(),
        forall|i: int| 0 <= i < r@.len() ==> #[trigger] r@[i]@ == spec_tokens(b@)[i],
{
    let mut done: Vec<Vec<u8>> = Vec::new();
    let mut current: Vec<u8> = Vec::new();
    let mut i: usize = 0;
    while i < b.len()
        invariant
            i <= b@.len(),
            done@.len() + 1 == spec_tokens(b@.subrange(0, i as int)).len(),
            forall|j: int|
                0 <= j < done@.len() ==> #[trigger] done@[j]@ == spec_tokens(
                    b@.subrange(0, i as int),
                )[j],
            current@ == spec_tokens(b@.subrange(0, i as int)).last(),
        decreases b@.len() - i,
    {
        proof {
            lemma_tokens_nonempty(b@.subrange(0, i as int));
        }
        assert(b@.subrange(0, i + 1).drop_last() =~= b@.subrange(0, i as int));
        if b[i] == 32 {
            let finished = current;
            done.push(finished);
            current = Vec::new();
        } else {
            current.push(b[i]);
        }
        i = i + 1;
    }
    assert(b@.subrange(0, i as int) =~= b@);
    proof {
        lemma_tokens_nonempty(b@);
    }
    done.push(current);
    done
}

/// Reads a text of space-separated move tokens, such as `R U R' U'`.
pub fn parse_move_sequence(text: &str) -> (r: Result<MoveSequence, ParseError>)
    ensures
        match (r, spec_parse_sequence(text.spec_bytes())) {
            (Ok(ms), Ok(s)) => ms@ == s,
            (Err(e1), Err(e2)) => e1 == e2,
            _ => false,
        },
        r is Ok ==> forall|i: int|
            0 <= i < r->Ok_0@.len() ==> #[trigger] r->Ok_0@[i].start_depth < r->Ok_0@[i].end_depth
                <= 3,
{
    let bytes = text.as_bytes();
    let tokens = split_tokens(bytes);
    let ghost ts = spec_tokens(bytes@);
    let mut moves: Vec<Move> = Vec::new();
    let mut i: usize = 0;
    while i < tokens.len()
        invariant
            i <= tokens@.len(),
            tokens@.len() == ts.len(),
            ts == spec_tokens(bytes@),
            bytes@ == text.spec_bytes(),
            forall|j: int| 0 <= j < tokens@.len() ==> #[trigger] tokens@[j]@ == ts[j],
            spec_parse_tokens(ts.subrange(0, i as int)) == Ok::<Seq<Move>, ParseError>(moves@),
            forall|j: int|
                0 <= j < moves@.len() ==> #[trigger] moves@[j].start_depth < moves@[j].end_depth
                    <= 3,
        decreases tokens@.len() - i,
    {
        assert(ts.subrange(0, i + 1).drop_last() =~= ts.subrange(0, i as int));
        let m = parse_move(tokens[i].as_slice());
        assert(ts.subrange(0, i + 1).last() == ts[i as int]);
        match m {
            Err(e) => {
                proof {
                    lemma_parse_tokens_err(ts, (i + 1) as nat, e);
                }
                return Err(e);
            },
            Ok(mv) => {
                moves.push(mv);
            },
        }
        i = i + 1;
    }
    assert(ts.subrange(0, i as int) =~= ts);
    Ok(MoveSequence { moves })
}

proof fn lemma_parse_tokens_err(ts: Seq<Seq<u8>>, k: nat, e: ParseError)
    requires
        k <= ts.len(),
        spec_parse_tokens(ts.subrange(0, k as int)) == Err::<Seq<Move>, ParseError>(e),
    ensures
        spec_parse_tokens(ts) == Err::<Seq<Move>, ParseError>(e),
    decreases ts.len() - k,
{
    if k < ts.len() {
        assert(ts.subrange(0, k as int + 1).drop_last() =~= ts.subrange(0, k as int));
        lemma_parse_tokens_err(ts, k + 1, e);
    } else {
        assert(ts.subrange(0, k as int) =~= ts);
    }
}

/// The suffix that writes a rotation.
pub open spec fn spec_suffix_text(r: RotationType) -> Seq<u8> {
    match r {
        RotationType::Normal => Seq::empty(),
        RotationType::Double => seq![50u8],
        RotationType::Inverse => seq![39u8],
    }
}

/// The letter for a slab range about an axis, and whether the letter names the opposite
/// face (or a slice following it), which turns the other way.
pub open spec fn spec_letter_for(axis: Axis, start: usize, end: usize) -> (u8, bool) {
    let (front, wide, slice, back, wide_back) = match axis {
        Axis::FB => (70u8, 102u8, 83u8, 66u8, 98u8),
        Axis::RL => (82u8, 114u8, 77u8, 76u8, 108u8),
        Axis::UD => (85u8, 117u8, 69u8, 68u8, 100u8),
    };
    if start == 0 && end == 1 {
        (front, false)
    } else if start == 0 && end == 2 {
        (wide, false)
    } else if start == 1 && end == 2 {
        (slice, axis != Axis::FB)
    } else if start == 2 && end == 3 {
        (back, true)
    } else {
        (wide_back, true)
    }
}

/// How a move is written.
pub open spec fn spec_move_text(m: Move) -> Seq<u8> {
    let (letter, mirrored) = spec_letter_for(m.axis, m.start_depth, m.end_depth);
    seq![letter] + spec_suffix_text(
        if mirrored {
            spec_inverse_rotation(m.rotation_type)
        } else {
            m.rotation_type
        },
    )
}

/// How a sequence is written: its moves separated by single spaces.
pub open spec fn spec_sequence_text(ms: Seq<Move>) -> Seq<u8>
    decreases ms.len(),
{
    if ms.len() == 0 {
        Seq::empty()
    } else if ms.len() == 1 {
        spec_move_text(ms[0])
    } else {
        spec_sequence_text(ms.drop_last()) + seq![32u8] + spec_move_text(ms.last())
    }
}

/// Writing a move that the notation can express and reading it back gives the move.
pub proof fn lemma_move_text_round_trip(m: Move)
    requires
        m.is_expressible(),
    ensures
        spec_parse_move(spec_move_text(m)) == Ok::<Move, ParseError>(m),
{
    let t = spec_move_text(m);
    let rest = t.subrange(1, t.len() as int);
    let (letter, mirrored) = spec_letter_for(m.axis, m.start_depth, m.end_depth);
    let r = if mirrored {
        spec_inverse_rotation(m.rotation_type)
    } else {
        m.rotation_type
    };
    assert(rest =~= spec_suffix_text(r));
    if rest.len() == 1 {
        assert(rest.subrange(1, 1) =~= Seq::<u8>::empty());
    }
    assert(t[0] == letter);
}

impl Move {
    /// The move written in notation; every move the notation reads can be written.
    pub fn notation(&self) -> (r: Vec<u8>)
        requires
            self.is_expressible(),
        ensures
            r@ == spec_move_text(*self),
    {
        let (front, wide, slice, back, wide_back): (u8, u8, u8, u8, u8) = match self.axis {
            Axis::FB => (70, 102, 83, 66, 98),
            Axis::RL => (82, 114, 77, 76, 108),
            Axis::UD => (85, 117, 69, 68, 100),
        };
        let (letter, mirrored) = if self.start_depth == 0 && self.end_depth == 1 {
            (front, false)
        } else if self.start_depth == 0 && self.end_depth == 2 {
            (wide, false)
        } else if self.start_depth == 1 && self.end_depth == 2 {
            (slice, self.axis != Axis::FB)
        } else if self.start_depth == 2 && self.end_depth == 3 {
            (back, true)
        } else {
            (wide_back, true)
        };
        let rot = if mirrored {
            self.rotation_type.inverse()
        } else {
            self.rotation_type
        };
        let mut out: Vec<u8> = Vec::new();
        out.push(letter);
        match rot {
            RotationType::Normal => {},
            RotationType::Double => out.push(50),
            RotationType::Inverse => out.push(39),
        }
        assert(out@ =~= spec_move_text(*self));
        out
    }
}

impl MoveSequence {
    /// The sequence written in notation, moves separated by single spaces.
    pub fn notation(&self) -> (r: Vec<u8>)
        requires
            forall|i: int| 0 <= i < self@.len() ==> (#[trigger] self@[i]).is_expressible(),
        ensures
            r@ == spec_sequence_text(self@),
    {
        let mut out: Vec<u8> = Vec::new();
        let mut i: usize = 0;
        while i < self.moves.len()
            invariant
                i <= self@.len(),
                forall|i: int| 0 <= i < self@.len() ==> (#[trigger] self@[i]).is_expressible(),
                out@ == spec_sequence_text(self@.subrange(0, i as int)),
            decreases self@.len() - i,
        {
            let t = self.moves[i].notation();
            let ghost prev = out@;
            if i > 0 {
                out.push(32);
            }
            let mut j: usize = 0;
            let ghost mid = out@;
            while j < t.len()
                invariant
                    j <= t@.len(),
                    out@ == mid + t@.subrange(0, j as int),
                decreases t@.len() - j,
            {
                out.push(t[j]);
                j = j + 1;
                assert(out@ =~= mid + t@.subrange(0, j as int));
            }
            assert(t@.subrange(0, j as int) =~= t@);
            let ghost next = self@.subrange(0, i + 1);
            assert(next.drop_last() =~= self@.subrange(0, i as int));
            if i == 0 {
                assert(out@ =~= spec_sequence_text(next));
            } else {
                assert(out@ =~= prev + seq![32u8] + t@);
            }
            i = i + 1;
        }
        assert(self@.subrange(0, i as int) =~= self@);
        out
    }
}

impl std::str::FromStr for MoveSequence {
    type Err = ParseError;

    fn from_str(s: &str) -> Result<Self, Self::Err> {
        parse_move_sequence(s)
    }
}

impl std::str::FromStr for Move {
    type Err = ParseError;

    fn from_str(s: &str) -> Result<Self, Self::Err> {
        parse_move(s.as_bytes())
    }
}

} // verus!
