use crate::cube::{Axis, Colour, FaceType, Move, RotationType};
use crate::group::Enumerable;
use vstd::prelude::*;

verus! {

/// A side of a face, seen from outside the cube.
#[derive(Debug, Clone, Copy, PartialEq, Eq, Structural)]
pub enum FaceSegment {
    Top,
    Right,
    Bottom,
    Left,
}

/// The stickers of one face of an NxN cube, row by row from the top, each row from the left.
#[derive(Debug, Clone)]
pub struct Face<const N: usize> {
    rows: Vec<Vec<Colour>>,
}

/// The stickers of a face as a grid.
pub type Grid = Seq<Seq<Colour>>;

/// `g` is an `n` by `n` grid.
pub open spec fn is_square(g: Grid, n: nat) -> bool {
    g.len() == n && forall|r: int| 0 <= r < n ==> (#[trigger] g[r]).len() == n
}

/// The grid with each sticker given by `f(row, column)`.
pub open spec fn grid_of(n: nat, f: spec_fn(int, int) -> Colour) -> Grid {
    Seq::new(n, |r: int| Seq::new(n, |c: int| f(r, c)))
}

/// The grid turned a quarter clockwise.
pub open spec fn turned_cw(g: Grid, n: nat) -> Grid {
    grid_of(n, |r: int, c: int| g[n - 1 - c][r])
}

/// The grid turned a quarter anticlockwise.
pub open spec fn turned_ccw(g: Grid, n: nat) -> Grid {
    grid_of(n, |r: int, c: int| g[c][n - 1 - r])
}

/// The grid turned half way round.
pub open spec fn turned_double(g: Grid, n: nat) -> Grid {
    grid_of(n, |r: int, c: int| g[n - 1 - r][n - 1 - c])
}

/// Whether a segment's index grows when going clockwise round its face.
pub open spec fn runs_clockwise(s: FaceSegment) -> bool {
    s == FaceSegment::Top || s == FaceSegment::Right
}

/// Sticker `x` of the line of `src` at depth `i` from segment `s`, read in the direction
/// of the target segment `t`.
pub open spec fn source_sticker(src: Grid, n: nat, s: FaceSegment, t: FaceSegment, i: int, x: int) -> Colour {
    let rev = runs_clockwise(s) != runs_clockwise(t);
    let j = n - 1 - i;
    let y = if rev {
        n - 1 - x
    } else {
        x
    };
    match s {
        FaceSegment::Top => src[i][y],
        FaceSegment::Right => src[y][j],
        FaceSegment::Bottom => src[j][y],
        FaceSegment::Left => src[y][i],
    }
}

/// The depth from segment `t` of the sticker at `(r, c)`, and its place along that line.
pub open spec fn depth_and_place(n: nat, t: FaceSegment, r: int, c: int) -> (int, int) {
    match t {
        FaceSegment::Top => (r, c),
        FaceSegment::Right => (n - 1 - c, r),
        FaceSegment::Bottom => (n - 1 - r, c),
        FaceSegment::Left => (c, r),
    }
}

/// The grid with the lines at depths `start..end` from segment `t` copied from the lines at
/// the same depths from segment `s` of `src`.
pub open spec fn overwritten(
    g: Grid,
    n: nat,
    start: int,
    end: int,
    t: FaceSegment,
    src: Grid,
    s: FaceSegment,
) -> Grid {
    grid_of(
        n,
        |r: int, c: int|
            {
                let (d, x) = depth_and_place(n, t, r, c);
                if start <= d < end {
                    source_sticker(src, n, s, t, d, x)
                } else {
                    g[r][c]
                }
            },
    )
}

impl<const N: usize> Face<N> {
    pub closed spec fn view(&self) -> Grid {
        self.rows@.map_values(|row: Vec<Colour>| row@)
    }

    pub open spec fn wf(&self) -> bool {
        is_square(self.view(), N as nat)
    }

    /// A face of one colour.
    pub fn new(ty: FaceType) -> (r: Self)
        ensures
            r.wf(),
            r.view() == grid_of(N as nat, |row: int, col: int| Colour::spec_of_face(ty)),
    {
        let colour = Colour::of_face(ty);
        let mut rows: Vec<Vec<Colour>> = Vec::new();
        let mut i: usize = 0;
        while i < N
            invariant
                i <= N,
                rows@.len() == i,
                colour == Colour::spec_of_face(ty),
                forall|r: int| 0 <= r < i ==> (#[trigger] rows@[r])@ == Seq::new(N as nat, |c: int| colour),
            decreases N - i,
        {
            let mut row: Vec<Colour> = Vec::new();
            let mut j: usize = 0;
            while j < N
                invariant
                    j <= N,
                    row@ == Seq::new(j as nat, |c: int| colour),
                decreases N - j,
            {
                row.push(colour);
                j = j + 1;
                assert(row@ =~= Seq::new(j as nat, |c: int| colour));
            }
            rows.push(row);
            i = i + 1;
        }
        let r = Face { rows };
        let ghost g = grid_of(N as nat, |row: int, col: int| Colour::spec_of_face(ty));
        assert forall|k: int| 0 <= k < N implies #[trigger] r.view()[k] =~= g[k] by {
            assert(r.view()[k] == rows@[k]@);
        }
        assert(r.view() =~= g);
        r
    }

    /// The sticker in row `r`, column `c`.
    pub fn get(&self, r: usize, c: usize) -> (x: Colour)
        requires
            self.wf(),
            r < N,
            c < N,
        ensures
            x == self.view()[r as int][c as int],
    {
        assert(self.view()[r as int] == self.rows@[r as int]@);
        self.rows[r][c]
    }

    /// Builds a face sticker by sticker.
    fn from_fn(src: &Self, other: &Self, f: Ghost<spec_fn(int, int) -> Colour>, kind: u8, start: usize, end: usize, t: FaceSegment, s: FaceSegment) -> (r: Self)
        requires
            src.wf(),
            other.wf(),
            kind <= 3,
            start <= end <= N,
            kind == 0 ==> f@ == (|r: int, c: int| src.view()[N - 1 - c][r]),
            kind == 1 ==> f@ == (|r: int, c: int| src.view()[c][N - 1 - r]),
            kind == 2 ==> f@ == (|r: int, c: int| src.view()[N - 1 - r][N - 1 - c]),
            kind == 3 ==> f@ == (|r: int, c: int|
                {
                    let (d, x) = depth_and_place(N as nat, t, r, c);
                    if start <= d < end {
                        source_sticker(other.view(), N as nat, s, t, d, x)
                    } else {
                        src.view()[r][c]
                    }
                }),
        ensures
            r.wf(),
            r.view() == grid_of(N as nat, f@),
    {
        let mut rows: Vec<Vec<Colour>> = Vec::new();
        let mut r: usize = 0;
        while r < N
            invariant
                src.wf(),
                other.wf(),
                kind <= 3,
                start <= end <= N,
                kind == 0 ==> f@ == (|r: int, c: int| src.view()[N - 1 - c][r]),
                kind == 1 ==> f@ == (|r: int, c: int| src.view()[c][N - 1 - r]),
                kind == 2 ==> f@ == (|r: int, c: int| src.view()[N - 1 - r][N - 1 - c]),
                kind == 3 ==> f@ == (|r: int, c: int|
                    {
                        let (d, x) = depth_and_place(N as nat, t, r, c);
                        if start <= d < end {
                            source_sticker(other.view(), N as nat, s, t, d, x)
                        } else {
                            src.view()[r][c]
                        }
                    }),
                r <= N,
                rows@.len() == r,
                forall|k: int| 0 <= k < r ==> (#[trigger] rows@[k])@ == Seq::new(N as nat, |c: int| f@(k, c)),
            decreases N - r,
        {
            let mut row: Vec<Colour> = Vec::new();
            let mut c: usize = 0;
            while c < N
                invariant
                    src.wf(),
                    other.wf(),
                    kind <= 3,
                    start <= end <= N,
                    kind == 0 ==> f@ == (|r: int, c: int| src.view()[N - 1 - c][r]),
                    kind == 1 ==> f@ == (|r: int, c: int| src.view()[c][N - 1 - r]),
                    kind == 2 ==> f@ == (|r: int, c: int| src.view()[N - 1 - r][N - 1 - c]),
                    kind == 3 ==> f@ == (|r: int, c: int|
                        {
                            let (d, x) = depth_and_place(N as nat, t, r, c);
                            if start <= d < end {
                                source_sticker(other.view(), N as nat, s, t, d, x)
                            } else {
                                src.view()[r][c]
                            }
                        }),
                    r < N,
                    c <= N,
                    row@ == Seq::new(c as nat, |k: int| f@(r as int, k)),
                decreases N - c,
            {
                let x = if kind == 0 {
                    src.get(N - 1 - c, r)
                } else if kind == 1 {
                    src.get(c, N - 1 - r)
                } else if kind == 2 {
                    src.get(N - 1 - r, N - 1 - c)
                } else {
                    let (d, p) = match t {
                        FaceSegment::Top => (r, c),
                        FaceSegment::Right => (N - 1 - c, r),
                        FaceSegment::Bottom => (N - 1 - r, c),
                        FaceSegment::Left => (c, r),
                    };
                    if start <= d && d < end {
                        let rev = (s == FaceSegment::Top || s == FaceSegment::Right) != (t
                            == FaceSegment::Top || t == FaceSegment::Right);
                        let j = N - 1 - d;
                        let y = if rev {
                            N - 1 - p
                        } else {
                            p
                        };
                        match s {
                            FaceSegment::Top => other.get(d, y),
                            FaceSegment::Right => other.get(y, j),
                            FaceSegment::Bottom => other.get(j, y),
                            FaceSegment::Left => other.get(y, d),
                        }
                    } else {
                        src.get(r, c)
                    }
                };
                row.push(x);
                c = c + 1;
                assert(row@ =~= Seq::new(c as nat, |k: int| f@(r as int, k)));
            }
            rows.push(row);
            r = r + 1;
        }
        let out = Face { rows };
        assert(out.view() =~= grid_of(N as nat, f@));
        out
    }

    /// The face turned a quarter clockwise.
    pub fn rotate_cw(&self) -> (r: Self)
        requires
            self.wf(),
        ensures
            r.wf(),
            r.view() == turned_cw(self.view(), N as nat),
    {
        Self::from_fn(self, self, Ghost(|r: int, c: int| self.view()[N - 1 - c][r]), 0, 0, 0, FaceSegment::Top, FaceSegment::Top)
    }

    /// The face turned a quarter anticlockwise.
    pub fn rotate_ccw(&self) -> (r: Self)
        requires
            self.wf(),
        ensures
            r.wf(),
            r.view() == turned_ccw(self.view(), N as nat),
    {
        Self::from_fn(self, self, Ghost(|r: int, c: int| self.view()[c][N - 1 - r]), 1, 0, 0, FaceSegment::Top, FaceSegment::Top)
    }

    /// The face turned half way round.
    pub fn rotate_double(&self) -> (r: Self)
        requires
            self.wf(),
        ensures
            r.wf(),
            r.view() == turned_double(self.view(), N as nat),
    {
        Self::from_fn(self, self, Ghost(|r: int, c: int| self.view()[N - 1 - r][N - 1 - c]), 2, 0, 0, FaceSegment::Top, FaceSegment::Top)
    }

    /// The face with the lines at depths `start_depth..end_depth` from segment `target_type`
    /// copied from the same depths from segment `source_type` of `source`, reversed where the
    /// two segments run in opposite directions round their faces.
    pub fn overwrite_from(
        &self,
        start_depth: usize,
        end_depth: usize,
        target_type: FaceSegment,
        source: &Self,
        source_type: FaceSegment,
    ) -> (r: Self)
        requires
            self.wf(),
            source.wf(),
            start_depth <= end_depth <= N,
        ensures
            r.wf(),
            r.view() == overwritten(
                self.view(),
                N as nat,
                start_depth as int,
                end_depth as int,
                target_type,
                source.view(),
                source_type,
            ),
    {
        let ghost f = |r: int, c: int|
            {
                let (d, x) = depth_and_place(N as nat, target_type, r, c);
                if start_depth <= d < end_depth {
                    source_sticker(source.view(), N as nat, source_type, target_type, d, x)
                } else {
                    self.view()[r][c]
                }
            };
        let r = Self::from_fn(self, source, Ghost(f), 3, start_depth, end_depth, target_type, source_type);
        assert(grid_of(N as nat, f) =~= overwritten(
            self.view(),
            N as nat,
            start_depth as int,
            end_depth as int,
            target_type,
            source.view(),
            source_type,
        ));
        r
    }

    /// A copy of the face.
    pub fn duplicate(&self) -> (r: Self)
        requires
            self.wf(),
        ensures
            r.wf(),
            r.view() == self.view(),
    {
        let r = Self::from_fn(self, self, Ghost(|r: int, c: int| {
            let (d, x) = depth_and_place(N as nat, FaceSegment::Top, r, c);
            if 0 <= d < 0 {
                source_sticker(self.view(), N as nat, FaceSegment::Top, FaceSegment::Top, d, x)
            } else {
                self.view()[r][c]
            }
        }), 3, 0, 0, FaceSegment::Top, FaceSegment::Top);
        assert forall|k: int| 0 <= k < N implies #[trigger] r.view()[k] =~= self.view()[k] by {
        }
        assert(r.view() =~= self.view());
        r
    }
}

/// What a move does to one face: nothing, a turn of the face itself (when the move turns
/// the slab at the face), a turn of the opposite face (when the move reaches it), or lines
/// copied from a side of another face.
#[derive(Debug, Clone, Copy, PartialEq, Eq, Structural)]
pub enum FaceUpdate {
    Keep,
    Turn(RotationType),
    BackTurn(RotationType),
    Overwrite(FaceSegment, FaceType, FaceSegment),
}

/// The update of face `i` (in the order F R U B L D) for a move about `axis` by `rot`.
pub open spec fn update_table(axis: Axis, rot: RotationType, i: int) -> FaceUpdate {
    match (axis, rot) {
        (Axis::FB, RotationType::Normal) => {
                if i == 0 {
                    FaceUpdate::Turn(RotationType::Normal)
                } else if i == 1 {
                    FaceUpdate::Overwrite(FaceSegment::Left, FaceType::U, FaceSegment::Bottom)
                } else if i == 2 {
                    FaceUpdate::Overwrite(FaceSegment::Bottom, FaceType::L, FaceSegment::Right)
                } else if i == 3 {
                    FaceUpdate::BackTurn(RotationType::Normal)
                } else if i == 4 {
                    FaceUpdate::Overwrite(FaceSegment::Right, FaceType::D, FaceSegment::Top)
                } else if i == 5 {
                    FaceUpdate::Overwrite(FaceSegment::Top, FaceType::R, FaceSegment::Left)
                } else {
                    FaceUpdate::Keep
                }
        },
        (Axis::FB, RotationType::Double) => {
                if i == 0 {
                    FaceUpdate::Turn(RotationType::Double)
                } else if i == 1 {
                    FaceUpdate::Overwrite(FaceSegment::Left, FaceType::L, FaceSegment::Right)
                } else if i == 2 {
                    FaceUpdate::Overwrite(FaceSegment::Bottom, FaceType::D, FaceSegment::Top)
                } else if i == 3 {
                    FaceUpdate::BackTurn(RotationType::Double)
                } else if i == 4 {
                    FaceUpdate::Overwrite(FaceSegment::Right, FaceType::R, FaceSegment::Left)
                } else if i == 5 {
                    FaceUpdate::Overwrite(FaceSegment::Top, FaceType::U, FaceSegment::Bottom)
                } else {
                    FaceUpdate::Keep
                }
        },
        (Axis::FB, RotationType::Inverse) => {
                if i == 0 {
                    FaceUpdate::Turn(RotationType::Inverse)
                } else if i == 1 {
                    FaceUpdate::Overwrite(FaceSegment::Left, FaceType::D, FaceSegment::Top)
                } else if i == 2 {
                    FaceUpdate::Overwrite(FaceSegment::Bottom, FaceType::R, FaceSegment::Left)
                } else if i == 3 {
                    FaceUpdate::BackTurn(RotationType::Inverse)
                } else if i == 4 {
                    FaceUpdate::Overwrite(FaceSegment::Right, FaceType::U, FaceSegment::Bottom)
                } else if i == 5 {
                    FaceUpdate::Overwrite(FaceSegment::Top, FaceType::L, FaceSegment::Right)
                } else {
                    FaceUpdate::Keep
                }
        },
        (Axis::RL, RotationType::Normal) => {
                if i == 0 {
                    FaceUpdate::Overwrite(FaceSegment::Right, FaceType::D, FaceSegment::Right)
                } else if i == 1 {
                    FaceUpdate::Turn(RotationType::Normal)
                } else if i == 2 {
                    FaceUpdate::Overwrite(FaceSegment::Right, FaceType::F, FaceSegment::Right)
                } else if i == 3 {
                    FaceUpdate::Overwrite(FaceSegment::Left, FaceType::U, FaceSegment::Right)
                } else if i == 4 {
                    FaceUpdate::BackTurn(RotationType::Normal)
                } else if i == 5 {
                    FaceUpdate::Overwrite(FaceSegment::Right, FaceType::B, FaceSegment::Left)
                } else {
                    FaceUpdate::Keep
                }
        },
        (Axis::RL, RotationType::Double) => {
                if i == 0 {
                    FaceUpdate::Overwrite(FaceSegment::Right, FaceType::B, FaceSegment::Left)
                } else if i == 1 {
                    FaceUpdate::Turn(RotationType::Double)
                } else if i == 2 {
                    FaceUpdate::Overwrite(FaceSegment::Right, FaceType::D, FaceSegment::Right)
                } else if i == 3 {
                    FaceUpdate::Overwrite(FaceSegment::Left, FaceType::F, FaceSegment::Right)
                } else if i == 4 {
                    FaceUpdate::BackTurn(RotationType::Double)
                } else if i == 5 {
                    FaceUpdate::Overwrite(FaceSegment::Right, FaceType::U, FaceSegment::Right)
                } else {
                    FaceUpdate::Keep
                }
        },
        (Axis::RL, RotationType::Inverse) => {
                if i == 0 {
                    FaceUpdate::Overwrite(FaceSegment::Right, FaceType::U, FaceSegment::Right)
                } else if i == 1 {
                    FaceUpdate::Turn(RotationType::Inverse)
                } else if i == 2 {
                    FaceUpdate::Overwrite(FaceSegment::Right, FaceType::B, FaceSegment::Left)
                } else if i == 3 {
                    FaceUpdate::Overwrite(FaceSegment::Left, FaceType::D, FaceSegment::Right)
                } else if i == 4 {
                    FaceUpdate::BackTurn(RotationType::Inverse)
                } else if i == 5 {
                    FaceUpdate::Overwrite(FaceSegment::Right, FaceType::F, FaceSegment::Right)
                } else {
                    FaceUpdate::Keep
                }
        },
        (Axis::UD, RotationType::Normal) => {
                if i == 0 {
                    FaceUpdate::Overwrite(FaceSegment::Top, FaceType::R, FaceSegment::Top)
                } else if i == 1 {
                    FaceUpdate::Overwrite(FaceSegment::Top, FaceType::B, FaceSegment::Top)
                } else if i == 2 {
                    FaceUpdate::Turn(RotationType::Normal)
                } else if i == 3 {
                    FaceUpdate::Overwrite(FaceSegment::Top, FaceType::L, FaceSegment::Top)
                } else if i == 4 {
                    FaceUpdate::Overwrite(FaceSegment::Top, FaceType::F, FaceSegment::Top)
                } else if i == 5 {
                    FaceUpdate::BackTurn(RotationType::Normal)
                } else {
                    FaceUpdate::Keep
                }
        },
        (Axis::UD, RotationType::Double) => {
                if i == 0 {
                    FaceUpdate::Overwrite(FaceSegment::Top, FaceType::B, FaceSegment::Top)
                } else if i == 1 {
                    FaceUpdate::Overwrite(FaceSegment::Top, FaceType::L, FaceSegment::Top)
                } else if i == 2 {
                    FaceUpdate::Turn(RotationType::Double)
                } else if i == 3 {
                    FaceUpdate::Overwrite(FaceSegment::Top, FaceType::F, FaceSegment::Top)
                } else if i == 4 {
                    FaceUpdate::Overwrite(FaceSegment::Top, FaceType::R, FaceSegment::Top)
                } else if i == 5 {
                    FaceUpdate::BackTurn(RotationType::Double)
                } else {
                    FaceUpdate::Keep
                }
        },
        (Axis::UD, RotationType::Inverse) => {
                if i == 0 {
                    FaceUpdate::Overwrite(FaceSegment::Top, FaceType::L, FaceSegment::Top)
                } else if i == 1 {
                    FaceUpdate::Overwrite(FaceSegment::Top, FaceType::F, FaceSegment::Top)
                } else if i == 2 {
                    FaceUpdate::Turn(RotationType::Inverse)
                } else if i == 3 {
                    FaceUpdate::Overwrite(FaceSegment::Top, FaceType::R, FaceSegment::Top)
                } else if i == 4 {
                    FaceUpdate::Overwrite(FaceSegment::Top, FaceType::B, FaceSegment::Top)
                } else if i == 5 {
                    FaceUpdate::BackTurn(RotationType::Inverse)
                } else {
                    FaceUpdate::Keep
                }
        },
    }
}

fn update_for(axis: Axis, rot: RotationType, i: usize) -> (u: FaceUpdate)
    ensures
        u == update_table(axis, rot, i as int),
{
    match (axis, rot) {
        (Axis::FB, RotationType::Normal) => {
                if i == 0 {
                    FaceUpdate::Turn(RotationType::Normal)
                } else if i == 1 {
                    FaceUpdate::Overwrite(FaceSegment::Left, FaceType::U, FaceSegment::Bottom)
                } else if i == 2 {
                    FaceUpdate::Overwrite(FaceSegment::Bottom, FaceType::L, FaceSegment::Right)
                } else if i == 3 {
                    FaceUpdate::BackTurn(RotationType::Normal)
                } else if i == 4 {
                    FaceUpdate::Overwrite(FaceSegment::Right, FaceType::D, FaceSegment::Top)
                } else if i == 5 {
                    FaceUpdate::Overwrite(FaceSegment::Top, FaceType::R, FaceSegment::Left)
                } else {
                    FaceUpdate::Keep
                }
        },
        (Axis::FB, RotationType::Double) => {
                if i == 0 {
                    FaceUpdate::Turn(RotationType::Double)
                } else if i == 1 {
                    FaceUpdate::Overwrite(FaceSegment::Left, FaceType::L, FaceSegment::Right)
                } else if i == 2 {
                    FaceUpdate::Overwrite(FaceSegment::Bottom, FaceType::D, FaceSegment::Top)
                } else if i == 3 {
                    FaceUpdate::BackTurn(RotationType::Double)
                } else if i == 4 {
                    FaceUpdate::Overwrite(FaceSegment::Right, FaceType::R, FaceSegment::Left)
                } else if i == 5 {
                    FaceUpdate::Overwrite(FaceSegment::Top, FaceType::U, FaceSegment::Bottom)
                } else {
                    FaceUpdate::Keep
                }
        },
        (Axis::FB, RotationType::Inverse) => {
                if i == 0 {
                    FaceUpdate::Turn(RotationType::Inverse)
                } else if i == 1 {
                    FaceUpdate::Overwrite(FaceSegment::Left, FaceType::D, FaceSegment::Top)
                } else if i == 2 {
                    FaceUpdate::Overwrite(FaceSegment::Bottom, FaceType::R, FaceSegment::Left)
                } else if i == 3 {
                    FaceUpdate::BackTurn(RotationType::Inverse)
                } else if i == 4 {
                    FaceUpdate::Overwrite(FaceSegment::Right, FaceType::U, FaceSegment::Bottom)
                } else if i == 5 {
                    FaceUpdate::Overwrite(FaceSegment::Top, FaceType::L, FaceSegment::Right)
                } else {
                    FaceUpdate::Keep
                }
        },
        (Axis::RL, RotationType::Normal) => {
                if i == 0 {
                    FaceUpdate::Overwrite(FaceSegment::Right, FaceType::D, FaceSegment::Right)
                } else if i == 1 {
                    FaceUpdate::Turn(RotationType::Normal)
                } else if i == 2 {
                    FaceUpdate::Overwrite(FaceSegment::Right, FaceType::F, FaceSegment::Right)
                } else if i == 3 {
                    FaceUpdate::Overwrite(FaceSegment::Left, FaceType::U, FaceSegment::Right)
                } else if i == 4 {
                    FaceUpdate::BackTurn(RotationType::Normal)
                } else if i == 5 {
                    FaceUpdate::Overwrite(FaceSegment::Right, FaceType::B, FaceSegment::Left)
                } else {
                    FaceUpdate::Keep
                }
        },
        (Axis::RL, RotationType::Double) => {
                if i == 0 {
                    FaceUpdate::Overwrite(FaceSegment::Right, FaceType::B, FaceSegment::Left)
                } else if i == 1 {
                    FaceUpdate::Turn(RotationType::Double)
                } else if i == 2 {
                    FaceUpdate::Overwrite(FaceSegment::Right, FaceType::D, FaceSegment::Right)
                } else if i == 3 {
                    FaceUpdate::Overwrite(FaceSegment::Left, FaceType::F, FaceSegment::Right)
                } else if i == 4 {
                    FaceUpdate::BackTurn(RotationType::Double)
                } else if i == 5 {
                    FaceUpdate::Overwrite(FaceSegment::Right, FaceType::U, FaceSegment::Right)
                } else {
                    FaceUpdate::Keep
                }
        },
        (Axis::RL, RotationType::Inverse) => {
                if i == 0 {
                    FaceUpdate::Overwrite(FaceSegment::Right, FaceType::U, FaceSegment::Right)
                } else if i == 1 {
                    FaceUpdate::Turn(RotationType::Inverse)
                } else if i == 2 {
                    FaceUpdate::Overwrite(FaceSegment::Right, FaceType::B, FaceSegment::Left)
                } else if i == 3 {
                    FaceUpdate::Overwrite(FaceSegment::Left, FaceType::D, FaceSegment::Right)
                } else if i == 4 {
                    FaceUpdate::BackTurn(RotationType::Inverse)
                } else if i == 5 {
                    FaceUpdate::Overwrite(FaceSegment::Right, FaceType::F, FaceSegment::Right)
                } else {
                    FaceUpdate::Keep
                }
        },
        (Axis::UD, RotationType::Normal) => {
                if i == 0 {
                    FaceUpdate::Overwrite(FaceSegment::Top, FaceType::R, FaceSegment::Top)
                } else if i == 1 {
                    FaceUpdate::Overwrite(FaceSegment::Top, FaceType::B, FaceSegment::Top)
                } else if i == 2 {
                    FaceUpdate::Turn(RotationType::Normal)
                } else if i == 3 {
                    FaceUpdate::Overwrite(FaceSegment::Top, FaceType::L, FaceSegment::Top)
                } else if i == 4 {
                    FaceUpdate::Overwrite(FaceSegment::Top, FaceType::F, FaceSegment::Top)
                } else if i == 5 {
                    FaceUpdate::BackTurn(RotationType::Normal)
                } else {
                    FaceUpdate::Keep
                }
        },
        (Axis::UD, RotationType::Double) => {
                if i == 0 {
                    FaceUpdate::Overwrite(FaceSegment::Top, FaceType::B, FaceSegment::Top)
                } else if i == 1 {
                    FaceUpdate::Overwrite(FaceSegment::Top, FaceType::L, FaceSegment::Top)
                } else if i == 2 {
                    FaceUpdate::Turn(RotationType::Double)
                } else if i == 3 {
                    FaceUpdate::Overwrite(FaceSegment::Top, FaceType::F, FaceSegment::Top)
                } else if i == 4 {
                    FaceUpdate::Overwrite(FaceSegment::Top, FaceType::R, FaceSegment::Top)
                } else if i == 5 {
                    FaceUpdate::BackTurn(RotationType::Double)
                } else {
                    FaceUpdate::Keep
                }
        },
        (Axis::UD, RotationType::Inverse) => {
                if i == 0 {
                    FaceUpdate::Overwrite(FaceSegment::Top, FaceType::L, FaceSegment::Top)
                } else if i == 1 {
                    FaceUpdate::Overwrite(FaceSegment::Top, FaceType::F, FaceSegment::Top)
                } else if i == 2 {
                    FaceUpdate::Turn(RotationType::Inverse)
                } else if i == 3 {
                    FaceUpdate::Overwrite(FaceSegment::Top, FaceType::R, FaceSegment::Top)
                } else if i == 4 {
                    FaceUpdate::Overwrite(FaceSegment::Top, FaceType::B, FaceSegment::Top)
                } else if i == 5 {
                    FaceUpdate::BackTurn(RotationType::Inverse)
                } else {
                    FaceUpdate::Keep
                }
        },
    }
}

/// A grid turned by a rotation.
pub open spec fn turned(g: Grid, n: nat, rot: RotationType) -> Grid {
    match rot {
        RotationType::Normal => turned_cw(g, n),
        RotationType::Double => turned_double(g, n),
        RotationType::Inverse => turned_ccw(g, n),
    }
}

/// Face `i` after an update, every line read from the faces before the move.
pub open spec fn updated(faces: Seq<Grid>, n: nat, i: int, u: FaceUpdate, start: int, end: int) -> Grid {
    match u {
        FaceUpdate::Keep => faces[i],
        FaceUpdate::Turn(rot) => if start == 0 {
            turned(faces[i], n, rot)
        } else {
            faces[i]
        },
        FaceUpdate::BackTurn(rot) => if end == n {
            turned(faces[i], n, rot)
        } else {
            faces[i]
        },
        FaceUpdate::Overwrite(t, src, s) => overwritten(
            faces[i],
            n,
            start,
            end,
            t,
            faces[src.spec_index()],
            s,
        ),
    }
}

/// An NxN cube as its stickers: six faces, in the order F R U B L D.
#[derive(Debug, Clone)]
pub struct Cube<const N: usize> {
    faces: Vec<Face<N>>,
}

impl<const N: usize> Cube<N> {
    pub closed spec fn view(&self) -> Seq<Grid> {
        self.faces@.map_values(|f: Face<N>| f.view())
    }

    pub closed spec fn wf(&self) -> bool {
        self.faces@.len() == 6 && forall|i: int| 0 <= i < 6 ==> (#[trigger] self.faces@[i]).wf()
    }

    /// The solved cube.
    pub fn new() -> (r: Self)
        ensures
            r.wf(),
            forall|i: int| 0 <= i < 6 ==> #[trigger] r.view()[i] == grid_of(
                N as nat,
                |row: int, col: int| Colour::spec_of_face(FaceType::spec_from_index(i)),
            ),
    {
        let mut faces: Vec<Face<N>> = Vec::new();
        let mut i: usize = 0;
        while i < 6
            invariant
                i <= 6,
                faces@.len() == i,
                forall|k: int| 0 <= k < i ==> (#[trigger] faces@[k]).wf() && faces@[k].view() == grid_of(
                    N as nat,
                    |row: int, col: int| Colour::spec_of_face(FaceType::spec_from_index(k)),
                ),
            decreases 6 - i,
        {
            faces.push(Face::new(FaceType::from_index(i)));
            i = i + 1;
        }
        Cube { faces }
    }

    /// A face of the cube.
    pub fn face(&self, ty: FaceType) -> (r: &Face<N>)
        requires
            self.wf(),
        ensures
            r.wf(),
            r.view() == self.view()[ty.spec_index()],
    {
        &self.faces[ty.index()]
    }

    /// The cube after a move: each face is updated as `update_table` says, every line read
    /// from the cube before the move.
    pub fn perform(self, mv: Move) -> (r: Self)
        requires
            self.wf(),
            mv.start_depth <= mv.end_depth <= N,
        ensures
            r.wf(),
            forall|i: int| 0 <= i < 6 ==> #[trigger] r.view()[i] == updated(
                self.view(),
                N as nat,
                i,
                update_table(mv.axis, mv.rotation_type, i),
                mv.start_depth as int,
                mv.end_depth as int,
            ),
    {
        let mut faces: Vec<Face<N>> = Vec::new();
        let mut i: usize = 0;
        while i < 6
            invariant
                self.wf(),
                mv.start_depth <= mv.end_depth <= N,
                i <= 6,
                faces@.len() == i,
                forall|k: int| 0 <= k < i ==> (#[trigger] faces@[k]).wf() && faces@[k].view() == updated(
                    self.view(),
                    N as nat,
                    k,
                    update_table(mv.axis, mv.rotation_type, k),
                    mv.start_depth as int,
                    mv.end_depth as int,
                ),
            decreases 6 - i,
        {
            let f = &self.faces[i];
            assert(self.view()[i as int] == f.view());
            let u = update_for(mv.axis, mv.rotation_type, i);
            let next = match u {
                FaceUpdate::Keep => f.duplicate(),
                FaceUpdate::Turn(rot) => if mv.start_depth == 0 {
                    turn_face(f, rot)
                } else {
                    f.duplicate()
                },
                FaceUpdate::BackTurn(rot) => if mv.end_depth == N {
                    turn_face(f, rot)
                } else {
                    f.duplicate()
                },
                FaceUpdate::Overwrite(t, src, s) => {
                    let source = &self.faces[src.index()];
                    assert(self.view()[src.spec_index()] == source.view());
                    f.overwrite_from(mv.start_depth, mv.end_depth, t, source, s)
                },
            };
            faces.push(next);
            i = i + 1;
        }
        let r = Cube { faces };
        assert forall|k: int| 0 <= k < 6 implies #[trigger] r.view()[k] == updated(
            self.view(),
            N as nat,
            k,
            update_table(mv.axis, mv.rotation_type, k),
            mv.start_depth as int,
            mv.end_depth as int,
        ) by {
            assert(r.view()[k] == faces@[k].view());
        }
        r
    }
}

fn turn_face<const N: usize>(f: &Face<N>, rot: RotationType) -> (r: Face<N>)
    requires
        f.wf(),
    ensures
        r.wf(),
        r.view() == turned(f.view(), N as nat, rot),
{
    match rot {
        RotationType::Normal => f.rotate_cw(),
        RotationType::Double => f.rotate_double(),
        RotationType::Inverse => f.rotate_ccw(),
    }
}

} // verus!
