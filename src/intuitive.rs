use crate::cube::{
    is_canonical, lemma_canonicalise_canonical, spec_canonicalise, spec_inverse_sequence, Move,
    MoveSequence, Axis, RotationType,
};
use crate::group::{Group, Magma, Unital};
use crate::permute::{
    cube_compose, cube_identity, cube_valid, lemma_cube_identity_valid, lemma_cube_laws,
    lemma_sequence_concat, lemma_sequence_valid, moves_fit, spec_sequence, CubePermutation3,
    CubeView,
};
use crate::queue::{
    queue_change_priority, queue_get_priority, queue_new, queue_pop, queue_priorities, queue_push,
};
use std::collections::HashMap;
use vstd::prelude::*;

verus! {

/// What a solving step looks at in a cube state, as a 64-bit value.
pub trait Signature {
    spec fn spec_signature(&self, p: CubeView) -> u64;

    fn signature(&self, p: &CubePermutation3) -> (r: u64)
        requires
            cube_valid(p@),
        ensures
            r == self.spec_signature(p@),
    ;
}

/// A cost on move sequences; lower is better. A cost never shrinks when moves are
/// put in front of a sequence.
pub trait Metric {
    spec fn spec_cost(&self, m: Seq<Move>) -> int;

    proof fn lemma_cost_monotone(&self, a: Seq<Move>, b: Seq<Move>)
        ensures
            0 <= self.spec_cost(b) <= self.spec_cost(a + b),
    ;

    fn cost(&self, m: &MoveSequence) -> (r: u64)
        ensures
            r as int == self.spec_cost(m@),
    ;
}

/// The slice turn metric: every move counts one.
#[derive(Debug, Clone, Copy)]
pub struct MoveCount;

impl Metric for MoveCount {
    open spec fn spec_cost(&self, m: Seq<Move>) -> int {
        m.len() as int
    }

    proof fn lemma_cost_monotone(&self, a: Seq<Move>, b: Seq<Move>) {
    }

    fn cost(&self, m: &MoveSequence) -> (r: u64) {
        m.moves.len() as u64
    }
}

/// The sequences a generator stands for: a single move also stands for its inverse
/// and its double; a longer sequence stands for itself. Each is canonicalised.
pub open spec fn generator_expansion(g: Seq<Move>) -> Seq<Seq<Move>> {
    if g.len() > 1 {
        seq![spec_canonicalise(g)]
    } else {
        seq![
            spec_canonicalise(spec_inverse_sequence(g)),
            spec_canonicalise(g + g),
            spec_canonicalise(g),
        ]
    }
}

/// `e` is one of the sequences that a generator of `gen_set` stands for.
pub open spec fn is_generated_by(e: Seq<Move>, gen_set: Seq<MoveSequence>) -> bool {
    exists|i: int| 0 <= i < gen_set.len() && generator_expansion(gen_set[i]@).contains(e)
}

/// The models of a list of move sequences.
pub open spec fn views(v: Seq<MoveSequence>) -> Seq<Seq<Move>> {
    v.map_values(|m: MoveSequence| m@)
}

/// No sequence occurs twice.
pub open spec fn all_distinct(v: Seq<Seq<Move>>) -> bool {
    forall|i: int, j: int| 0 <= i < v.len() && 0 <= j < v.len() && i != j ==> v[i] != v[j]
}

/// `sig` gives the same signature after a generator to any two states that had the same
/// signature before it: the signature is a function of the quotient.
pub open spec fn is_congruence(sig: spec_fn(CubeView) -> u64, gens: Seq<Seq<Move>>) -> bool {
    forall|p: CubeView, q: CubeView, g: int|
        cube_valid(p) && cube_valid(q) && 0 <= g < gens.len() && sig(p) == sig(q) ==> #[trigger] sig(
            cube_compose(spec_sequence(gens[g]), p),
        ) == #[trigger] sig(cube_compose(spec_sequence(gens[g]), q))
}

/// Performing `m` on any state with signature `s` gives a state with signature `t`.
pub open spec fn sends_to(sig: spec_fn(CubeView) -> u64, m: Seq<Move>, s: u64, t: u64) -> bool {
    forall|p: CubeView|
        cube_valid(p) && sig(p) == s ==> #[trigger] sig(cube_compose(spec_sequence(m), p)) == t
}

pub proof fn lemma_canonicalise_fits(ms: Seq<Move>)
    requires
        moves_fit(ms),
    ensures
        moves_fit(spec_canonicalise(ms)),
    decreases ms.len(),
{
    if ms.len() > 0 {
        lemma_canonicalise_fits(ms.drop_last());
        assert(ms.drop_last().len() < ms.len());
        assert(ms.last() == ms[ms.len() - 1]);
    }
}

proof fn lemma_expansion_fits(g: Seq<Move>)
    requires
        moves_fit(g),
    ensures
        forall|k: int| 0 <= k < generator_expansion(g).len() ==> moves_fit(#[trigger] generator_expansion(g)[k]),
{
    assert(moves_fit(spec_inverse_sequence(g)));
    assert(moves_fit(g + g)) by {
        assert forall|i: int| 0 <= i < (g + g).len() implies #[trigger] (g + g)[i].end_depth <= 3 by {
            if i >= g.len() {
                assert((g + g)[i] == g[i - g.len()]);
            }
        }
    }
    lemma_canonicalise_fits(g);
    lemma_canonicalise_fits(g + g);
    lemma_canonicalise_fits(spec_inverse_sequence(g));
}

/// Appends `m` unless a sequence with the same moves is already there.
pub(crate) fn insert_unique(out: &mut Vec<MoveSequence>, m: MoveSequence)
    ensures
        views(old(out)@).contains(m@) ==> views(final(out)@) == views(old(out)@),
        !views(old(out)@).contains(m@) ==> views(final(out)@) == views(old(out)@).push(m@),
{
    let mut i: usize = 0;
    while i < out.len()
        invariant
            i <= out@.len(),
            forall|j: int| 0 <= j < i ==> out@[j]@ != m@,
        decreases out@.len() - i,
    {
        if out[i] == m {
            assert(views(out@)[i as int] == m@);
            return;
        }
        i = i + 1;
    }
    assert(!views(out@).contains(m@)) by {
        if views(out@).contains(m@) {
            let j = choose|j: int| 0 <= j < views(out@).len() && views(out@)[j] == m@;
            assert(out@[j]@ == m@);
        }
    }
    out.push(m);
    assert(views(out@) =~= views(old(out)@).push(m@));
}

pub open spec fn axis_rank(a: Axis) -> int {
    match a {
        Axis::FB => 0,
        Axis::RL => 1,
        Axis::UD => 2,
    }
}

pub open spec fn rotation_rank(r: RotationType) -> int {
    match r {
        RotationType::Normal => 0,
        RotationType::Double => 1,
        RotationType::Inverse => 2,
    }
}

/// The order of moves: by axis, then rotation, then start depth, then end depth.
pub open spec fn move_lt(a: Move, b: Move) -> bool {
    ||| axis_rank(a.axis) < axis_rank(b.axis)
    ||| (axis_rank(a.axis) == axis_rank(b.axis) && rotation_rank(a.rotation_type) < rotation_rank(
        b.rotation_type,
    ))
    ||| (a.axis == b.axis && a.rotation_type == b.rotation_type && a.start_depth < b.start_depth)
    ||| (a.axis == b.axis && a.rotation_type == b.rotation_type && a.start_depth == b.start_depth
        && a.end_depth < b.end_depth)
}

/// The lexicographic order of move sequences, a proper prefix coming first.
pub open spec fn seq_lt(a: Seq<Move>, b: Seq<Move>) -> bool
    decreases a.len(),
{
    if a.len() == 0 {
        b.len() > 0
    } else if b.len() == 0 {
        false
    } else if move_lt(a[0], b[0]) {
        true
    } else if a[0] == b[0] {
        seq_lt(a.subrange(1, a.len() as int), b.subrange(1, b.len() as int))
    } else {
        false
    }
}

/// Each sequence comes before the next.
pub open spec fn is_sorted(v: Seq<Seq<Move>>) -> bool {
    forall|i: int| 0 <= i < v.len() - 1 ==> seq_lt(#[trigger] v[i], v[i + 1])
}

proof fn lemma_move_total(a: Move, b: Move)
    requires
        a != b,
    ensures
        move_lt(a, b) || move_lt(b, a),
{
    if axis_rank(a.axis) == axis_rank(b.axis) && rotation_rank(a.rotation_type) == rotation_rank(
        b.rotation_type,
    ) {
        assert(a.axis == b.axis) by {
            match a.axis {
                Axis::FB => {},
                Axis::RL => {},
                Axis::UD => {},
            }
        }
        assert(a.rotation_type == b.rotation_type) by {
            match a.rotation_type {
                RotationType::Normal => {},
                RotationType::Double => {},
                RotationType::Inverse => {},
            }
        }
    }
}

proof fn lemma_seq_total(a: Seq<Move>, b: Seq<Move>)
    requires
        a != b,
    ensures
        seq_lt(a, b) || seq_lt(b, a),
    decreases a.len(),
{
    if a.len() > 0 && b.len() > 0 {
        if a[0] != b[0] {
            lemma_move_total(a[0], b[0]);
        } else {
            let ta = a.subrange(1, a.len() as int);
            let tb = b.subrange(1, b.len() as int);
            if ta == tb {
                assert(a =~= seq![a[0]] + ta);
                assert(b =~= seq![b[0]] + tb);
            } else {
                lemma_seq_total(ta, tb);
            }
        }
    } else if a.len() == 0 && b.len() == 0 {
        assert(a =~= b);
    }
}

fn move_less(a: Move, b: Move) -> (r: bool)
    ensures
        r == move_lt(a, b),
{
    let ra: u8 = match a.axis {
        Axis::FB => 0,
        Axis::RL => 1,
        Axis::UD => 2,
    };
    let rb: u8 = match b.axis {
        Axis::FB => 0,
        Axis::RL => 1,
        Axis::UD => 2,
    };
    let ta: u8 = match a.rotation_type {
        RotationType::Normal => 0,
        RotationType::Double => 1,
        RotationType::Inverse => 2,
    };
    let tb: u8 = match b.rotation_type {
        RotationType::Normal => 0,
        RotationType::Double => 1,
        RotationType::Inverse => 2,
    };
    ra < rb || (ra == rb && ta < tb) || (a.axis == b.axis && a.rotation_type == b.rotation_type
        && a.start_depth < b.start_depth) || (a.axis == b.axis && a.rotation_type == b.rotation_type
        && a.start_depth == b.start_depth && a.end_depth < b.end_depth)
}

/// Whether `a` comes before `b` in the lexicographic order.
fn seq_less(a: &MoveSequence, b: &MoveSequence) -> (r: bool)
    ensures
        r == seq_lt(a@, b@),
{
    let mut i: usize = 0;
    assert(a@.subrange(0, a@.len() as int) =~= a@);
    assert(b@.subrange(0, b@.len() as int) =~= b@);
    while i < a.moves.len() && i < b.moves.len()
        invariant
            i <= a@.len(),
            i <= b@.len(),
            seq_lt(a@, b@) == seq_lt(
                a@.subrange(i as int, a@.len() as int),
                b@.subrange(i as int, b@.len() as int),
            ),
        decreases a@.len() - i,
    {
        let x = a.moves[i];
        let y = b.moves[i];
        let ghost sa = a@.subrange(i as int, a@.len() as int);
        let ghost sb = b@.subrange(i as int, b@.len() as int);
        assert(sa[0] == x && sb[0] == y);
        if move_less(x, y) {
            return true;
        }
        if x != y {
            return false;
        }
        assert(sa.subrange(1, sa.len() as int) =~= a@.subrange(i + 1, a@.len() as int));
        assert(sb.subrange(1, sb.len() as int) =~= b@.subrange(i + 1, b@.len() as int));
        i = i + 1;
    }
    assert(a@.subrange(i as int, a@.len() as int).len() == a@.len() - i);
    i == a.moves.len() && i < b.moves.len()
}

/// The sequences in order, each once.
fn sort_sequences(v: Vec<MoveSequence>) -> (r: Vec<MoveSequence>)
    requires
        all_distinct(views(v@)),
    ensures
        all_distinct(views(r@)),
        is_sorted(views(r@)),
        r@.len() == v@.len(),
        forall|e: Seq<Move>| views(r@).contains(e) <==> views(v@).contains(e),
{
    let mut out: Vec<MoveSequence> = Vec::new();
    let mut i: usize = 0;
    while i < v.len()
        invariant
            i <= v@.len(),
            all_distinct(views(v@)),
            out@.len() == i,
            all_distinct(views(out@)),
            is_sorted(views(out@)),
            forall|e: Seq<Move>|
                views(out@).contains(e) <==> views(v@.subrange(0, i as int)).contains(e),
        decreases v@.len() - i,
    {
        let x = v[i].duplicate();
        assert(x@ == views(v@)[i as int]);
        let mut k: usize = 0;
        let mut found = false;
        while k < out.len() && !found
            invariant
                k <= out@.len(),
                forall|j: int| 0 <= j < k ==> !seq_lt(x@, #[trigger] views(out@)[j]),
                found ==> k < out@.len() && seq_lt(x@, views(out@)[k as int]),
            decreases out@.len() - k + (if found {
                0int
            } else {
                1int
            }),
        {
            if seq_less(&x, &out[k]) {
                found = true;
            } else {
                k = k + 1;
            }
        }
        let ghost old_v = views(out@);
        assert(!old_v.contains(x@)) by {
            if old_v.contains(x@) {
                assert(views(v@.subrange(0, i as int)).contains(x@));
                let w = choose|w: int|
                    0 <= w < views(v@.subrange(0, i as int)).len() && views(v@.subrange(0, i as int))[w]
                        == x@;
                assert(views(v@)[w] == x@);
            }
        }
        let ghost xv = x@;
        out.insert(k, x);
        let ghost nv = views(out@);
        assert(nv =~= old_v.insert(k as int, xv));
        proof {
            assert forall|a: int, b: int|
                0 <= a < nv.len() && 0 <= b < nv.len() && a != b implies nv[a] != nv[b] by {
                if a != k && b != k {
                    let a0 = if a < k { a } else { a - 1 };
                    let b0 = if b < k { b } else { b - 1 };
                    assert(nv[a] == old_v[a0] && nv[b] == old_v[b0]);
                } else if a == k {
                    let b0 = if b < k { b } else { b - 1 };
                    assert(nv[b] == old_v[b0]);
                } else {
                    let a0 = if a < k { a } else { a - 1 };
                    assert(nv[a] == old_v[a0]);
                }
            }
            assert forall|j: int| 0 <= j < nv.len() - 1 implies seq_lt(#[trigger] nv[j], nv[j + 1]) by {
                if j + 1 < k {
                    assert(nv[j] == old_v[j] && nv[j + 1] == old_v[j + 1]);
                } else if j + 1 == k {
                    assert(nv[j] == old_v[j]);
                    assert(!seq_lt(xv, old_v[j]));
                    assert(old_v[j] != xv);
                    lemma_seq_total(old_v[j], xv);
                } else if j == k {
                    assert(nv[j + 1] == old_v[j]);
                } else {
                    assert(nv[j] == old_v[j - 1] && nv[j + 1] == old_v[j]);
                }
            }
            let pre0 = views(v@.subrange(0, i as int));
            let pre1 = views(v@.subrange(0, i + 1));
            assert(v@.subrange(0, i + 1) =~= v@.subrange(0, i as int).push(v@[i as int]));
            assert(pre1 =~= pre0.push(xv));
            assert forall|e: Seq<Move>|
                nv.contains(e) <==> pre1.contains(e) by {
                if nv.contains(e) {
                    let w = choose|w: int| 0 <= w < nv.len() && nv[w] == e;
                    if w != k {
                        let w0 = if w < k { w } else { w - 1 };
                        assert(old_v[w0] == e);
                        assert(old_v.contains(e));
                        assert(pre0.contains(e));
                        let z = choose|z: int|
                            0 <= z < pre0.len() && pre0[z] == e;
                        assert(pre1[z] == e);
                    } else {
                        assert(pre1[i as int] == e);
                    }
                }
                if pre1.contains(e) {
                    let z = choose|z: int|
                        0 <= z < pre1.len() && pre1[z] == e;
                    if z < i {
                        assert(pre0[z] == e);
                        assert(pre0.contains(e));
                        assert(old_v.contains(e));
                        let w = choose|w: int| 0 <= w < old_v.len() && old_v[w] == e;
                        let w1 = if w < k { w } else { w + 1 };
                        assert(nv[w1] == e);
                    } else {
                        assert(nv[k as int] == e);
                    }
                }
            }
        }
        i = i + 1;
    }
    assert(v@.subrange(0, i as int) =~= v@);
    out
}

/// Expands generators as `generator_expansion` says, drops empty sequences, and sorts what
/// is left, each sequence once.
pub fn normalise_generators(gen_set: &Vec<MoveSequence>) -> (r: Vec<MoveSequence>)
    requires
        forall|i: int| 0 <= i < gen_set@.len() ==> moves_fit(#[trigger] gen_set@[i]@),
    ensures
        all_distinct(views(r@)),
        is_sorted(views(r@)),
        forall|k: int|
            0 <= k < r@.len() ==> #[trigger] r@[k]@.len() > 0 && moves_fit(r@[k]@) && is_canonical(
                r@[k]@,
            ) && exists|i: int|
                0 <= i < gen_set@.len() && generator_expansion(gen_set@[i]@).contains(r@[k]@),
        forall|i: int, e: Seq<Move>|
            0 <= i < gen_set@.len() && #[trigger] generator_expansion(gen_set@[i]@).contains(e)
                && e.len() > 0 ==> views(r@).contains(e),
{
    let mut out: Vec<MoveSequence> = Vec::new();
    let mut i: usize = 0;
    while i < gen_set.len()
        invariant
            i <= gen_set@.len(),
            forall|i: int| 0 <= i < gen_set@.len() ==> moves_fit(#[trigger] gen_set@[i]@),
            all_distinct(views(out@)),
            forall|k: int|
                0 <= k < out@.len() ==> #[trigger] out@[k]@.len() > 0 && moves_fit(out@[k]@)
                    && is_canonical(out@[k]@) && exists|i: int|
                    0 <= i < gen_set@.len() && generator_expansion(gen_set@[i]@).contains(
                        out@[k]@,
                    ),
            forall|j: int, e: Seq<Move>|
                0 <= j < i && #[trigger] generator_expansion(gen_set@[j]@).contains(e) && e.len()
                    > 0 ==> views(out@).contains(e),
        decreases gen_set@.len() - i,
    {
        let g = &gen_set[i];
        let ghost gv = g@;
        proof {
            lemma_expansion_fits(gv);
        }
        let mut candidates: Vec<MoveSequence> = Vec::new();
        if g.moves.len() > 1 {
            candidates.push(g.canonicalise());
        } else {
            candidates.push(g.inverse().canonicalise());
            let doubled = g.duplicate().op(g.duplicate());
            candidates.push(doubled.canonicalise());
            candidates.push(g.canonicalise());
        }
        assert(views(candidates@) =~= generator_expansion(gv));
        let mut c: usize = 0;
        while c < candidates.len()
            invariant
                c <= candidates@.len(),
                views(candidates@) == generator_expansion(gv),
                gv == gen_set@[i as int]@,
                i < gen_set@.len(),
                forall|k: int|
                    0 <= k < generator_expansion(gv).len() ==> moves_fit(
                        #[trigger] generator_expansion(gv)[k],
                    ),
                all_distinct(views(out@)),
                forall|k: int|
                    0 <= k < out@.len() ==> #[trigger] out@[k]@.len() > 0 && moves_fit(out@[k]@)
                        && is_canonical(out@[k]@) && exists|i: int|
                        0 <= i < gen_set@.len() && generator_expansion(gen_set@[i]@).contains(
                            out@[k]@,
                        ),
                forall|j: int, e: Seq<Move>|
                    0 <= j < i && #[trigger] generator_expansion(gen_set@[j]@).contains(e)
                        && e.len() > 0 ==> views(out@).contains(e),
                forall|k: int|
                    0 <= k < c && generator_expansion(gv)[k].len() > 0 ==> views(out@).contains(
                        #[trigger] generator_expansion(gv)[k],
                    ),
            decreases candidates@.len() - c,
        {
            let m = candidates[c].duplicate();
            assert(m@ == generator_expansion(gv)[c as int]);
            assert(generator_expansion(gv).contains(m@));
            if m.moves.len() > 0 {
                let ghost before = out@;
                proof {
                    lemma_canonicalise_canonical(gen_set@[i as int]@);
                    lemma_canonicalise_canonical(spec_inverse_sequence(gen_set@[i as int]@));
                    lemma_canonicalise_canonical(gen_set@[i as int]@ + gen_set@[i as int]@);
                    assert(is_canonical(m@));
                }
                insert_unique(&mut out, m);
                proof {
                    assert(views(out@).len() == out@.len());
                    assert(views(before).len() == before.len());
                    assert forall|k: int| 0 <= k < out@.len() implies #[trigger] out@[k]@.len() > 0
                        && moves_fit(out@[k]@) && is_canonical(out@[k]@) && exists|i: int|
                        0 <= i < gen_set@.len() && generator_expansion(gen_set@[i]@).contains(
                            out@[k]@,
                        ) by {
                        if k < before.len() {
                            assert(views(out@)[k] == views(before)[k]);
                            assert(out@[k]@ == before[k]@);
                        } else {
                            assert(!views(before).contains(m@));
                            assert(k == before.len());
                            assert(views(out@)[k] == m@);
                            assert(out@[k]@ == views(out@)[k]);
                        }
                    }
                    assert forall|a: int, b: int|
                        0 <= a < views(out@).len() && 0 <= b < views(out@).len() && a != b implies views(
                        out@,
                    )[a] != views(out@)[b] by {
                        if a < before.len() && b < before.len() {
                            assert(views(out@)[a] == views(before)[a]);
                            assert(views(out@)[b] == views(before)[b]);
                        } else if a >= before.len() && b < before.len() {
                            assert(views(out@)[b] == views(before)[b]);
                        } else if b >= before.len() && a < before.len() {
                            assert(views(out@)[a] == views(before)[a]);
                        }
                    }
                    assert forall|j: int, e: Seq<Move>|
                        0 <= j < i && #[trigger] generator_expansion(gen_set@[j]@).contains(e)
                            && e.len() > 0 implies views(out@).contains(e) by {
                        assert(views(before).contains(e));
                        let w = choose|w: int| 0 <= w < views(before).len() && views(before)[w] == e;
                        assert(views(out@)[w] == e);
                    }
                    assert forall|k: int|
                        0 <= k < c + 1 && generator_expansion(gv)[k].len() > 0 implies views(
                        out@,
                    ).contains(#[trigger] generator_expansion(gv)[k]) by {
                        if k < c {
                            let e = generator_expansion(gv)[k];
                            assert(views(before).contains(e));
                            let w = choose|w: int|
                                0 <= w < views(before).len() && views(before)[w] == e;
                            assert(views(out@)[w] == e);
                        } else if views(before).contains(m@) {
                            let w = choose|w: int|
                                0 <= w < views(before).len() && views(before)[w] == m@;
                            assert(views(out@)[w] == m@);
                        } else {
                            assert(views(out@)[before.len() as int] == m@);
                        }
                    }
                }
            }
            c = c + 1;
        }
        proof {
            assert forall|j: int, e: Seq<Move>|
                0 <= j < i + 1 && #[trigger] generator_expansion(gen_set@[j]@).contains(e)
                    && e.len() > 0 implies views(out@).contains(e) by {
                if j == i {
                    let k = choose|k: int|
                        0 <= k < generator_expansion(gv).len() && generator_expansion(gv)[k] == e;
                    assert(generator_expansion(gv)[k] == e);
                }
            }
        }
        i = i + 1;
    }
    let r = sort_sequences(out);
    proof {
        assert forall|k: int|
            0 <= k < r@.len() implies #[trigger] r@[k]@.len() > 0 && moves_fit(r@[k]@) && is_canonical(
            r@[k]@,
        ) && exists|i: int|
            0 <= i < gen_set@.len() && generator_expansion(gen_set@[i]@).contains(r@[k]@) by {
            assert(views(r@)[k] == r@[k]@);
            assert(views(out@).contains(r@[k]@));
            let w = choose|w: int| 0 <= w < views(out@).len() && views(out@)[w] == r@[k]@;
            assert(out@[w]@ == r@[k]@);
        }
    }
    r
}

/// The reachable part of the quotient of the cube group by a signature, as a graph:
/// one node per signature reached from the solved cube, and for each node the
/// generators that change its signature, with the signature they lead to.
pub struct SequenceGraph {
    graph_name: String,
    generators: Vec<MoveSequence>,
    nodes: Vec<u64>,
    index: HashMap<u64, usize>,
    transitions: Vec<Vec<(usize, u64)>>,
    representatives: Ghost<Seq<CubeView>>,
    sig: Ghost<spec_fn(CubeView) -> u64>,
}

impl SequenceGraph {
    /// The signature function the graph was built with.
    pub closed spec fn signature_fn(&self) -> spec_fn(CubeView) -> u64 {
        self.sig@
    }

    /// The generators after normalisation.
    pub closed spec fn generators_view(&self) -> Seq<Seq<Move>> {
        views(self.generators@)
    }

    /// The signatures of the nodes, in the order they were reached.
    pub closed spec fn nodes_view(&self) -> Seq<u64> {
        self.nodes@
    }

    /// The outgoing edges of node `i`: generator position and neighbour signature.
    pub closed spec fn edges_of(&self, i: int) -> Seq<(usize, u64)> {
        self.transitions@[i]@
    }

    /// A state reached from the solved cube with the signature of node `i`.
    pub closed spec fn representative(&self, i: int) -> CubeView {
        self.representatives@[i]
    }

    /// Whether a signature is a node of the graph.
    pub closed spec fn has_node(&self, s: u64) -> bool {
        self.index@.contains_key(s)
    }

    /// The position of a signature among the nodes.
    pub closed spec fn node_index(&self, s: u64) -> int {
        self.index@[s] as int
    }

    pub closed spec fn wf(&self) -> bool {
        let n = self.nodes@.len();
        let gens = views(self.generators@);
        &&& self.transitions@.len() == n
        &&& self.representatives@.len() == n
        &&& forall|k: int| 0 <= k < gens.len() ==> moves_fit(#[trigger] gens[k]) && gens[k].len() > 0
        &&& self.index@.contains_key((self.sig@)(cube_identity()))
        &&& forall|i: int|
            0 <= i < n ==> reached_by_word(gens, #[trigger] self.representatives@[i])
        &&& forall|i: int|
            0 <= i < n ==> complete_for(
                self.sig@,
                gens,
                self.representatives@[i],
                self.nodes@[i],
                (#[trigger] self.transitions@[i])@,
                gens.len() as int,
            )
        &&& forall|i: int|
            0 <= i < n ==> #[trigger] self.index@.contains_key(self.nodes@[i])
                && self.index@[self.nodes@[i]] == i
        &&& forall|s: u64| #[trigger]
            self.index@.contains_key(s) ==> self.index@[s] < n && self.nodes@[self.index@[s] as int]
                == s
        &&& forall|i: int|
            0 <= i < n ==> cube_valid(#[trigger] self.representatives@[i]) && (self.sig@)(
                self.representatives@[i],
            ) == self.nodes@[i]
        &&& forall|i: int, j: int|
            0 <= i < n && 0 <= j < self.transitions@[i]@.len() ==> {
                let (g, s2) = #[trigger] self.transitions@[i]@[j];
                &&& g < gens.len()
                &&& s2 != self.nodes@[i]
                &&& self.index@.contains_key(s2)
                &&& (self.sig@)(cube_compose(spec_sequence(gens[g as int]), self.representatives@[i]))
                    == s2
            }
    }

    /// Explores, breadth first from the solved cube, the signatures that the generators
    /// reach. For each generator `g`, a single move also stands for its inverse and its
    /// double (see `normalise_generators`).
    #[verifier::rlimit(60)]
    #[verifier::spinoff_prover]
    pub fn new<G: Signature>(graph_name: &str, gen_set: Vec<MoveSequence>, signature: &G) -> (r:
        Self)
        requires
            forall|i: int| 0 <= i < gen_set@.len() ==> moves_fit(#[trigger] gen_set@[i]@),
        ensures
            r.wf(),
            r.signature_fn() == (|p: CubeView| signature.spec_signature(p)),
            r.has_node(signature.spec_signature(cube_identity())),
            all_distinct(r.generators_view()),
            is_sorted(r.generators_view()),
            forall|i: int, e: Seq<Move>|
                0 <= i < gen_set@.len() && #[trigger] generator_expansion(gen_set@[i]@).contains(e)
                    && e.len() > 0 ==> r.generators_view().contains(e),
            forall|k: int|
                0 <= k < r.generators_view().len() ==> is_generated_by(
                    #[trigger] r.generators_view()[k],
                    gen_set@,
                ),
    {
        let ghost sig: spec_fn(CubeView) -> u64 = |p: CubeView| signature.spec_signature(p);
        let gens = normalise_generators(&gen_set);
        let ghost gv = views(gens@);
        assert forall|j: int| 0 <= j < gv.len() implies moves_fit(#[trigger] gv[j]) && gv[j].len() > 0 by {
            assert(gv[j] == gens@[j]@);
        }
        let mut gen_perms: Vec<CubePermutation3> = Vec::new();
        let mut k: usize = 0;
        while k < gens.len()
            invariant
                k <= gens@.len(),
                gv == views(gens@),
                forall|j: int| 0 <= j < gens@.len() ==> moves_fit(#[trigger] gens@[j]@),
                forall|j: int| 0 <= j < gv.len() ==> moves_fit(#[trigger] gv[j]) && gv[j].len() > 0,
                gen_perms@.len() == k,
                forall|j: int| 0 <= j < k ==> #[trigger] gen_perms@[j]@ == spec_sequence(gv[j]),
            decreases gens@.len() - k,
        {
            let m = gens[k].duplicate();
            gen_perms.push(CubePermutation3::from_move_sequence(m));
            k = k + 1;
        }
        proof {
            lemma_cube_identity_valid();
        }
        let mut queue: Vec<CubePermutation3> = Vec::new();
        queue.push(CubePermutation3::identity());
        let mut head: usize = 0;
        let mut nodes: Vec<u64> = Vec::new();
        let mut index: HashMap<u64, usize> = HashMap::new();
        let mut transitions: Vec<Vec<(usize, u64)>> = Vec::new();
        let ghost mut reps: Seq<CubeView> = Seq::empty();
        let ghost mut qwords: Seq<Seq<int>> = seq![Seq::<int>::empty()];
        let ghost mut rwords: Seq<Seq<int>> = Seq::empty();
        assert(word_moves(gv, Seq::<int>::empty()) == Seq::<Move>::empty());
        assert(spec_sequence(Seq::<Move>::empty()) == cube_identity());
        while head < queue.len()
            invariant
                forall|c: CubeView| #[trigger] sig(c) == signature.spec_signature(c),
                head <= queue@.len(),
                gv == views(gens@),
                gen_perms@.len() == gv.len(),
                forall|j: int| 0 <= j < gv.len() ==> #[trigger] gen_perms@[j]@ == spec_sequence(gv[j]),
                forall|j: int| 0 <= j < gv.len() ==> moves_fit(#[trigger] gv[j]) && gv[j].len() > 0,
                forall|j: int| 0 <= j < queue@.len() ==> cube_valid(#[trigger] queue@[j]@),
                forall|i: int|
                    0 <= i < nodes@.len() ==> complete_for(
                        sig,
                        gv,
                        reps[i],
                        nodes@[i],
                        (#[trigger] transitions@[i])@,
                        gv.len() as int,
                    ),
                queue@.len() > 0,
                queue@[0]@ == cube_identity(),
                qwords.len() == queue@.len(),
                forall|j: int|
                    0 <= j < queue@.len() ==> word_ok(#[trigger] qwords[j], gv.len() as int)
                        && queue@[j]@ == spec_sequence(word_moves(gv, qwords[j])),
                rwords.len() == reps.len(),
                forall|i: int|
                    0 <= i < reps.len() ==> word_ok(#[trigger] rwords[i], gv.len() as int)
                        && reps[i] == spec_sequence(word_moves(gv, rwords[i])),
                head > 0 ==> index@.contains_key(sig(cube_identity())),
                transitions@.len() == nodes@.len(),
                reps.len() == nodes@.len(),
                forall|i: int|
                    0 <= i < nodes@.len() ==> #[trigger] index@.contains_key(nodes@[i])
                        && index@[nodes@[i]] == i,
                forall|s: u64| #[trigger]
                    index@.contains_key(s) ==> index@[s] < nodes@.len() && nodes@[index@[s] as int]
                        == s,
                forall|i: int|
                    0 <= i < nodes@.len() ==> cube_valid(#[trigger] reps[i]) && sig(reps[i])
                        == nodes@[i],
                forall|j: int|
                    0 <= j < head ==> #[trigger] index@.contains_key(sig(queue@[j]@)),
                forall|i: int, j: int|
                    0 <= i < nodes@.len() && 0 <= j < transitions@[i]@.len() ==> {
                        let (g, s2) = #[trigger] transitions@[i]@[j];
                        &&& g < gv.len()
                        &&& s2 != nodes@[i]
                        &&& (index@.contains_key(s2) || exists|q: int|
                            head <= q < queue@.len() && sig(#[trigger] queue@[q]@) == s2)
                        &&& sig(cube_compose(spec_sequence(gv[g as int]), reps[i])) == s2
                    },
            decreases usize::MAX - nodes@.len(), queue@.len() - head,
        {
            let p = queue[head].duplicate();
            let s = signature.signature(&p);
            assert(sig(p@) == s);
            let known = index.contains_key(&s);
            let ghost q0 = queue@;
            let ghost pw = qwords[head as int];
            assert(word_ok(pw, gv.len() as int) && p@ == spec_sequence(word_moves(gv, pw)));
            if !known {
                let n = nodes.len();
                let mut ts: Vec<(usize, u64)> = Vec::new();
                let qstart = queue.len();
                let mut g: usize = 0;
                while g < gens.len()
                    invariant
                        forall|c: CubeView| #[trigger] sig(c) == signature.spec_signature(c),
                        g <= gv.len(),
                        gv == views(gens@),
                        gen_perms@.len() == gv.len(),
                        forall|j: int|
                            0 <= j < gv.len() ==> #[trigger] gen_perms@[j]@ == spec_sequence(gv[j]),
                        forall|j: int| 0 <= j < gv.len() ==> moves_fit(#[trigger] gv[j]),
                        forall|j: int| 0 <= j < queue@.len() ==> cube_valid(#[trigger] queue@[j]@),
                        cube_valid(p@),
                        sig(p@) == s,
                        head < qstart <= queue@.len(),
                        qstart == q0.len(),
                        forall|j: int| 0 <= j < qstart ==> queue@[j] == #[trigger] q0[j],
                        p@ == q0[head as int]@,
                        word_ok(pw, gv.len() as int),
                        p@ == spec_sequence(word_moves(gv, pw)),
                        qwords.len() == queue@.len(),
                        forall|j: int|
                            0 <= j < queue@.len() ==> word_ok(#[trigger] qwords[j], gv.len() as int)
                                && queue@[j]@ == spec_sequence(word_moves(gv, qwords[j])),
                        complete_for(sig, gv, p@, s, ts@, g as int),
                        forall|j: int| 0 <= j < ts@.len() ==> {
                            let (gg, s2) = #[trigger] ts@[j];
                            &&& gg < gv.len()
                            &&& s2 != s
                            &&& (exists|q: int| qstart <= q < queue@.len() && sig(#[trigger] queue@[q]@) == s2)
                            &&& sig(cube_compose(spec_sequence(gv[gg as int]), p@)) == s2
                        },
                    decreases gv.len() - g,
                {
                    proof {
                        lemma_sequence_valid(gv[g as int]);
                    }
                    let h = gen_perms[g].duplicate();
                    let p2 = h.op(p.duplicate());
                    let s2 = signature.signature(&p2);
                    let ghost old_ts = ts@;
                    assert(s2 == sig(cube_compose(spec_sequence(gv[g as int]), p@)));
                    if s2 != s {
                        let ghost before = queue@;
                        queue.push(p2);
                        proof {
                            let nw = pw.push(g as int);
                            assert(nw.drop_last() =~= pw);
                            assert(word_moves(gv, nw) == word_moves(gv, pw) + gv[g as int]);
                            lemma_sequence_concat(word_moves(gv, pw), gv[g as int]);
                            assert forall|k: int| 0 <= k < nw.len() implies 0 <= #[trigger] nw[k] < gv.len() by {
                                if k < pw.len() {
                                    assert(nw[k] == pw[k]);
                                }
                            }
                            qwords = qwords.push(nw);
                            assert(queue@[queue@.len() - 1]@ == spec_sequence(word_moves(gv, nw)));
                        }
                        assert(queue@[queue@.len() - 1]@ == p2@);
                        assert forall|j: int| 0 <= j < ts@.len() implies {
                            let (gg, s3) = #[trigger] ts@[j];
                            exists|q: int| qstart <= q < queue@.len() && sig(#[trigger] queue@[q]@) == s3
                        } by {
                            let (gg, s3) = ts@[j];
                            let q = choose|q: int| qstart <= q < before.len() && sig(#[trigger] before[q]@) == s3;
                            assert(queue@[q] == before[q]);
                        }
                        ts.push((g, s2));
                        assert({
                            let (gg, s3) = ts@[ts@.len() - 1];
                            sig(queue@[queue@.len() - 1]@) == s3
                        });
                    }
                    assert forall|gg: int|
                        0 <= gg < g + 1 && sig(cube_compose(spec_sequence(#[trigger] gv[gg]), p@)) != s implies exists|j: int|
                        0 <= j < ts@.len() && ts@[j] == (gg as usize, sig(cube_compose(spec_sequence(gv[gg]), p@))) by {
                        if gg < g {
                            let j = choose|j: int|
                                0 <= j < old_ts.len() && old_ts[j] == (gg as usize, sig(cube_compose(spec_sequence(gv[gg]), p@)));
                            assert(ts@[j] == old_ts[j]);
                        } else {
                            assert(ts@[old_ts.len() as int] == (g, s2));
                        }
                    }
                    g = g + 1;
                }
                let ghost old_index = index@;
                let ghost old_nodes = nodes@;
                let ghost old_trans = transitions@;
                let ghost old_queue_len = qstart;
                nodes.push(s);
                index.insert(s, n);
                transitions.push(ts);
                proof {
                    reps = reps.push(p@);
                    rwords = rwords.push(pw);
                }
                let _ = nodes.len();
                assert(index@ == old_index.insert(s, n));
                assert(!old_index.contains_key(s));
                assert forall|i: int|
                    0 <= i < nodes@.len() implies #[trigger] index@.contains_key(nodes@[i])
                        && index@[nodes@[i]] == i by {
                    if i < n {
                        assert(nodes@[i] == old_nodes[i]);
                        assert(old_index.contains_key(old_nodes[i]));
                        assert(old_nodes[i] != s);
                    } else {
                        assert(nodes@[i] == s);
                    }
                }
                assert forall|i: int| 0 <= i < nodes@.len() implies complete_for(
                    sig,
                    gv,
                    reps[i],
                    nodes@[i],
                    (#[trigger] transitions@[i])@,
                    gv.len() as int,
                ) by {
                    if i < n {
                        assert(transitions@[i] == old_trans[i]);
                        assert(nodes@[i] == old_nodes[i]);
                    } else {
                        assert(transitions@[i]@ == ts@);
                        assert(reps[i] == p@);
                    }
                }
                assert forall|i: int, j: int|
                    0 <= i < nodes@.len() && 0 <= j < transitions@[i]@.len() implies {
                        let (g, s2) = #[trigger] transitions@[i]@[j];
                        &&& g < gv.len()
                        &&& s2 != nodes@[i]
                        &&& (index@.contains_key(s2) || exists|q: int|
                            head < q < queue@.len() && sig(#[trigger] queue@[q]@) == s2)
                        &&& sig(cube_compose(spec_sequence(gv[g as int]), reps[i])) == s2
                    } by {
                    let (g, s2) = transitions@[i]@[j];
                    if i < n {
                        assert(transitions@[i] == old_trans[i]);
                        if !old_index.contains_key(s2) {
                            let q = choose|q: int| head <= q < queue@.len() && sig(#[trigger] queue@[q]@) == s2;
                            if q == head {
                                assert(s2 == s);
                            } else {
                                assert(head < q < queue@.len() && sig(queue@[q]@) == s2);
                            }
                        }
                    } else {
                        assert(i == n);
                        assert(transitions@[i]@[j] == ts@[j]);
                        let q = choose|q: int| qstart <= q < queue@.len() && sig(#[trigger] queue@[q]@) == s2;
                        assert(head < q);
                    }
                }
            } else {
                assert forall|i: int, j: int|
                    0 <= i < nodes@.len() && 0 <= j < transitions@[i]@.len() implies {
                        let (g, s2) = #[trigger] transitions@[i]@[j];
                        index@.contains_key(s2) || exists|q: int|
                            head < q < queue@.len() && sig(#[trigger] queue@[q]@) == s2
                    } by {
                    let (g, s2) = transitions@[i]@[j];
                    if !index@.contains_key(s2) {
                        let q = choose|q: int| head <= q < queue@.len() && sig(#[trigger] queue@[q]@) == s2;
                        assert(q != head);
                    }
                }
            }
            assert forall|j: int| 0 <= j < head + 1 implies #[trigger] index@.contains_key(
                sig(queue@[j]@),
            ) by {
                assert(queue@[j] == q0[j]);
                if j == head {
                    assert(q0[j]@ == p@);
                }
            }
            head = head + 1;
        }
        assert forall|i: int, j: int|
            0 <= i < nodes@.len() && 0 <= j < transitions@[i]@.len() implies #[trigger] index@.contains_key(
            transitions@[i]@[j].1,
        ) by {
            let (g, s2) = transitions@[i]@[j];
        }
        assert(sig(queue@[0]@) == sig(cube_identity()));
        assert(index@.contains_key(sig(cube_identity())));
        assert forall|k: int| 0 <= k < gv.len() implies exists|i: int|
            0 <= i < gen_set@.len() && generator_expansion(gen_set@[i]@).contains(#[trigger] gv[k]) by {
            assert(gv[k] == gens@[k]@);
            assert(gens@[k]@.len() > 0);
        }
        let ghost sigg = sig;
        let r = SequenceGraph {
            graph_name: graph_name.to_owned(),
            generators: gens,
            nodes,
            index,
            transitions,
            representatives: Ghost(reps),
            sig: Ghost(sigg),
        };
        assert(r.generators_view() == gv);
        assert forall|i: int| 0 <= i < r.nodes@.len() implies reached_by_word(
            views(r.generators@),
            #[trigger] r.representatives@[i],
        ) by {
            assert(r.representatives@[i] == reps[i]);
            assert(word_ok(rwords[i], gv.len() as int));
        }
        assert forall|k: int| 0 <= k < r.generators_view().len() implies is_generated_by(
            #[trigger] r.generators_view()[k],
            gen_set@,
        ) by {
            assert(r.generators_view()[k] == gv[k]);
        }
        r
    }
}

/// What a graph built by `SequenceGraph::new` holds: the solved cube's signature is a node;
/// each node has a representative state with its signature; each edge is labelled by a
/// non-empty generator, leads to another node, and is what that generator does to the
/// representative; and every generator that changes a node's representative's signature
/// gives an edge. Each representative is reached from the solved cube by a word of the
/// generators.
pub proof fn lemma_graph_facts(graph: &SequenceGraph)
    requires
        graph.wf(),
    ensures
        graph.has_node((graph.signature_fn())(cube_identity())),
        forall|i: int|
            0 <= i < graph.nodes_view().len() ==> reached_by_word(
                graph.generators_view(),
                #[trigger] graph.representative(i),
            ),
        forall|k: int|
            0 <= k < graph.generators_view().len() ==> (#[trigger] graph.generators_view()[k]).len()
                > 0 && moves_fit(graph.generators_view()[k]),
        forall|i: int|
            0 <= i < graph.nodes_view().len() ==> #[trigger] graph.has_node(graph.nodes_view()[i])
                && graph.node_index(graph.nodes_view()[i]) == i && cube_valid(graph.representative(i))
                && (graph.signature_fn())(graph.representative(i)) == graph.nodes_view()[i],
        forall|s: u64| #[trigger]
            graph.has_node(s) ==> 0 <= graph.node_index(s) < graph.nodes_view().len()
                && graph.nodes_view()[graph.node_index(s)] == s,
        forall|i: int, j: int|
            0 <= i < graph.nodes_view().len() && 0 <= j < graph.edges_of(i).len() ==> {
                let (g, s2) = #[trigger] graph.edges_of(i)[j];
                &&& (g as int) < graph.generators_view().len()
                &&& s2 != graph.nodes_view()[i]
                &&& graph.has_node(s2)
                &&& (graph.signature_fn())(cube_compose(
                    spec_sequence(graph.generators_view()[g as int]),
                    graph.representative(i),
                )) == s2
            },
        forall|i: int, g: int|
            #![trigger graph.generators_view()[g], graph.representative(i)]
            0 <= i < graph.nodes_view().len() && 0 <= g < graph.generators_view().len() && (
            graph.signature_fn())(
                cube_compose(spec_sequence(graph.generators_view()[g]), graph.representative(i)),
            ) != graph.nodes_view()[i] ==> exists|j: int|
                0 <= j < graph.edges_of(i).len() && graph.edges_of(i)[j] == (
                    g as usize,
                    (graph.signature_fn())(
                        cube_compose(spec_sequence(graph.generators_view()[g]), graph.representative(i)),
                    ),
                ),
{
    let n = graph.nodes_view().len();
    let gens = graph.generators_view();
    assert forall|i: int| 0 <= i < n implies reached_by_word(
        graph.generators_view(),
        #[trigger] graph.representative(i),
    ) by {
        assert(reached_by_word(views(graph.generators@), graph.representatives@[i]));
    }
    assert forall|i: int| 0 <= i < n implies #[trigger] graph.has_node(graph.nodes_view()[i])
        && graph.node_index(graph.nodes_view()[i]) == i && cube_valid(graph.representative(i))
        && (graph.signature_fn())(graph.representative(i)) == graph.nodes_view()[i] by {
        assert(graph.index@.contains_key(graph.nodes@[i]));
        assert(cube_valid(graph.representatives@[i]));
    }
    assert forall|i: int, g: int|
        #![trigger graph.generators_view()[g], graph.representative(i)]
        0 <= i < n && 0 <= g < gens.len() && (graph.signature_fn())(
            cube_compose(spec_sequence(gens[g]), graph.representative(i)),
        ) != graph.nodes_view()[i] implies exists|j: int|
        0 <= j < graph.edges_of(i).len() && graph.edges_of(i)[j] == (
            g as usize,
            (graph.signature_fn())(cube_compose(spec_sequence(gens[g]), graph.representative(i))),
        ) by {
        let rep = graph.representatives@[i];
        let sv = (graph.sig@)(cube_compose(spec_sequence(gens[g]), rep));
        assert(complete_for(
            graph.sig@,
            gens,
            rep,
            graph.nodes@[i],
            graph.transitions@[i]@,
            gens.len() as int,
        ));
        assert(sv != graph.nodes@[i]);
        let j = choose|j: int|
            0 <= j < graph.transitions@[i]@.len() && graph.transitions@[i]@[j] == (g as usize, sv);
        assert(graph.edges_of(i)[j] == (g as usize, sv));
    }
}

/// `rep` is the state that some word of the generators turns the solved cube into.
pub open spec fn reached_by_word(gens: Seq<Seq<Move>>, rep: CubeView) -> bool {
    exists|ws: Seq<int>| word_ok(ws, gens.len() as int) && rep == spec_sequence(word_moves(gens, ws))
}

/// Every letter of the word names one of `n` generators.
pub open spec fn word_ok(ws: Seq<int>, n: int) -> bool {
    forall|k: int| 0 <= k < ws.len() ==> 0 <= #[trigger] ws[k] < n
}

/// The moves of a word of generators: the generators at the word's positions, in order.
pub open spec fn word_moves(gens: Seq<Seq<Move>>, ws: Seq<int>) -> Seq<Move>
    decreases ws.len(),
{
    if ws.len() == 0 {
        Seq::empty()
    } else {
        word_moves(gens, ws.drop_last()) + gens[ws.last()]
    }
}

/// When the signature is a congruence for the generators, every state reached from the
/// solved cube by a word of generators has its signature among the graph's nodes.
pub proof fn lemma_reachable_is_node(graph: &SequenceGraph, ws: Seq<int>)
    requires
        graph.wf(),
        is_congruence(graph.signature_fn(), graph.generators_view()),
        forall|k: int| 0 <= k < ws.len() ==> 0 <= #[trigger] ws[k] < graph.generators_view().len(),
    ensures
        graph.has_node((graph.signature_fn())(spec_sequence(word_moves(graph.generators_view(), ws)))),
    decreases ws.len(),
{
    lemma_graph_facts(graph);
    let sig = graph.signature_fn();
    let gens = graph.generators_view();
    if ws.len() == 0 {
        assert(word_moves(gens, ws) == Seq::<Move>::empty());
        assert(spec_sequence(Seq::<Move>::empty()) == cube_identity());
    } else {
        let init = ws.drop_last();
        assert forall|k: int| 0 <= k < init.len() implies 0 <= #[trigger] init[k] < gens.len() by {
            assert(init[k] == ws[k]);
        }
        lemma_reachable_is_node(graph, init);
        let a = word_moves(gens, init);
        let g = ws.last();
        assert(0 <= g < gens.len());
        let p = spec_sequence(a);
        lemma_sequence_valid(a);
        lemma_sequence_concat(a, gens[g]);
        let i = graph.node_index(sig(p));
        let rep = graph.representative(i);
        assert(graph.has_node(sig(p)));
        assert(cube_valid(rep) && sig(rep) == sig(p));
        let next = cube_compose(spec_sequence(gens[g]), p);
        assert(sig(next) == sig(cube_compose(spec_sequence(gens[g]), rep)));
        assert(word_moves(gens, ws) == a + gens[g]);
        if sig(next) != graph.nodes_view()[i] {
            let j = choose|j: int|
                0 <= j < graph.edges_of(i).len() && graph.edges_of(i)[j] == (
                    g as usize,
                    sig(cube_compose(spec_sequence(gens[g]), rep)),
                );
            assert(graph.edges_of(i)[j] == (g as usize, sig(next)));
        }
    }
}

/// Every edge of the graph describes the signatures of all states, not only of the
/// representative it was found from, when the signature is a congruence: for node `i`
/// and its edge `j` to `(g, s2)`, performing generator `g` on any state with the
/// signature of node `i` gives a state with signature `s2`.
pub proof fn lemma_graph_edges(graph: &SequenceGraph, i: int, j: int, p: CubeView)
    requires
        graph.wf(),
        is_congruence(graph.signature_fn(), graph.generators_view()),
        0 <= i < graph.nodes_view().len(),
        0 <= j < graph.edges_of(i).len(),
        cube_valid(p),
        (graph.signature_fn())(p) == graph.nodes_view()[i],
    ensures
        (graph.signature_fn())(cube_compose(
            spec_sequence(graph.generators_view()[graph.edges_of(i)[j].0 as int]),
            p,
        )) == graph.edges_of(i)[j].1,
{
    let sig = graph.signature_fn();
    let gens = graph.generators_view();
    let (g, s2) = graph.edges_of(i)[j];
    let rep = graph.representative(i);
    assert(graph.transitions@[i]@[j] == (g, s2));
    assert(sig(cube_compose(spec_sequence(gens[g as int]), p)) == sig(
        cube_compose(spec_sequence(gens[g as int]), rep),
    ));
}

proof fn lemma_concat_fits(a: Seq<Move>, b: Seq<Move>)
    requires
        moves_fit(a),
        moves_fit(b),
    ensures
        moves_fit(a + b),
{
    assert forall|i: int| 0 <= i < (a + b).len() implies #[trigger] (a + b)[i].end_depth <= 3 by {
        if i < a.len() {
            assert((a + b)[i] == a[i]);
        } else {
            assert((a + b)[i] == b[i - a.len()]);
        }
    }
}

proof fn lemma_extend(
    sig: spec_fn(CubeView) -> u64,
    gens: Seq<Seq<Move>>,
    g: int,
    m: Seq<Move>,
    su: u64,
    sv: u64,
    t: u64,
    rep: CubeView,
)
    requires
        is_congruence(sig, gens),
        0 <= g < gens.len(),
        moves_fit(gens[g]),
        moves_fit(m),
        cube_valid(rep),
        sig(rep) == su,
        sig(cube_compose(spec_sequence(gens[g]), rep)) == sv,
        sends_to(sig, m, sv, t),
    ensures
        sends_to(sig, gens[g] + m, su, t),
{
    assert forall|p: CubeView| cube_valid(p) && sig(p) == su implies #[trigger] sig(
        cube_compose(spec_sequence(gens[g] + m), p),
    ) == t by {
        lemma_sequence_concat(gens[g], m);
        lemma_sequence_valid(gens[g]);
        lemma_sequence_valid(m);
        lemma_cube_laws(spec_sequence(m), spec_sequence(gens[g]), p);
        lemma_cube_laws(spec_sequence(gens[g]), p, p);
        let q = cube_compose(spec_sequence(gens[g]), p);
        assert(sig(q) == sig(cube_compose(spec_sequence(gens[g]), rep)));
        assert(sig(cube_compose(spec_sequence(m), q)) == t);
    }
}

fn copy_edges(v: &Vec<(usize, usize)>) -> (r: Vec<(usize, usize)>)
    ensures
        r@ == v@,
{
    let mut r: Vec<(usize, usize)> = Vec::new();
    let mut i: usize = 0;
    while i < v.len()
        invariant
            i <= v@.len(),
            r@ == v@.subrange(0, i as int),
        decreases v@.len() - i,
    {
        r.push(v[i]);
        i = i + 1;
        assert(r@ =~= v@.subrange(0, i as int));
    }
    assert(r@ =~= v@);
    r
}

/// A lookup table from signatures to move sequences that take them to a target signature.
pub struct SequenceSolver {
    node_info: HashMap<u64, MoveSequence>,
    target: Ghost<u64>,
    sig: Ghost<spec_fn(CubeView) -> u64>,
    generators: Ghost<Seq<Seq<Move>>>,
}

impl SequenceSolver {
    /// The solution stored for each signature.
    pub closed spec fn solutions(&self) -> Map<u64, Seq<Move>> {
        self.node_info@.map_values(|m: MoveSequence| m@)
    }

    pub closed spec fn target(&self) -> u64 {
        self.target@
    }

    pub closed spec fn signature_fn(&self) -> spec_fn(CubeView) -> u64 {
        self.sig@
    }

    pub closed spec fn generators_view(&self) -> Seq<Seq<Move>> {
        self.generators@
    }

    pub closed spec fn wf(&self) -> bool {
        forall|s: u64| #[trigger]
            self.node_info@.contains_key(s) ==> moves_fit(self.node_info@[s]@) && (is_congruence(
                self.sig@,
                self.generators@,
            ) ==> sends_to(self.sig@, self.node_info@[s]@, s, self.target@))
    }

    /// Every stored sequence stays within the three slabs of the cube.
    pub proof fn lemma_solutions_fit(&self)
        requires
            self.wf(),
        ensures
            forall|s: u64| #[trigger] self.solutions().contains_key(s) ==> moves_fit(self.solutions()[s]),
    {
        assert forall|s: u64| #[trigger] self.solutions().contains_key(s) implies moves_fit(
            self.solutions()[s],
        ) by {
            assert(self.node_info@.contains_key(s));
        }
    }

    /// The shortest known sequence that takes the signature to the target, if any.
    pub fn solve(&self, signature: &u64) -> (r: Option<&MoveSequence>)
        ensures
            match r {
                Some(m) => self.solutions().contains_key(*signature) && m@ == self.solutions()[*signature],
                None => !self.solutions().contains_key(*signature),
            },
    {
        self.node_info.get(signature)
    }
}

/// Applying the solution stored for a signature `s` to any state with signature `s`
/// gives a state with the target signature, when the signature is a congruence for the
/// generators.
pub proof fn lemma_solver_correct(solver: &SequenceSolver, s: u64, p: CubeView)
    requires
        solver.wf(),
        is_congruence(solver.signature_fn(), solver.generators_view()),
        solver.solutions().contains_key(s),
        cube_valid(p),
        (solver.signature_fn())(p) == s,
    ensures
        (solver.signature_fn())(cube_compose(spec_sequence(solver.solutions()[s]), p))
            == solver.target(),
{
    assert(solver.node_info@.contains_key(s));
    assert(solver.solutions()[s] == solver.node_info@[s]@);
}

/// Every generator among the first `upto` that changes the signature of `rep` (which is `s`)
/// has an edge in `ts` to the signature it gives.
spec fn complete_for(
    sig: spec_fn(CubeView) -> u64,
    gv: Seq<Seq<Move>>,
    rep: CubeView,
    s: u64,
    ts: Seq<(usize, u64)>,
    upto: int,
) -> bool {
    forall|gg: int|
        0 <= gg < upto && sig(cube_compose(spec_sequence(#[trigger] gv[gg]), rep)) != s ==> exists|j: int|
            0 <= j < ts.len() && ts[j] == (gg as usize, sig(cube_compose(spec_sequence(gv[gg]), rep)))
}

/// Node `u` has an edge by generator `g` to node `v`.
spec fn is_edge(graph: &SequenceGraph, u: int, g: usize, v: int) -> bool {
    exists|j: int|
        0 <= j < graph.transitions@[u]@.len() && graph.transitions@[u]@[j] == (g, graph.nodes@[v])
}

/// The edge list of node `v` holds the edge from node `a` by generator `g`.
pub open spec fn has_incoming(incoming: Seq<Vec<(usize, usize)>>, v: int, a: int, g: usize) -> bool {
    exists|k: int| 0 <= k < incoming[v]@.len() && incoming[v]@[k] == (a as usize, g)
}

/// Every edge into a settled node `w` has been relaxed, for the first `upto` edges of its list:
/// the edge's source is reached, at a cost no more than going through `w`.
pub open spec fn relaxed<M: Metric>(
    metric: &M,
    gens: Seq<Seq<Move>>,
    incoming: Seq<(usize, usize)>,
    seqs: Seq<MoveSequence>,
    reached: Seq<bool>,
    w: int,
    upto: int,
) -> bool {
    forall|k: int|
        0 <= k < upto ==> {
            let (u, g) = #[trigger] incoming[k];
            metric.spec_cost(gens[g as int] + seqs[w]@) < u64::MAX ==> reached[u as int]
                && metric.spec_cost(seqs[u as int]@) <= metric.spec_cost(gens[g as int] + seqs[w]@)
        }
}

/// What Dijkstra's algorithm leaves: the target is solved by the empty sequence (for a
/// metric where that costs nothing), and no edge of the graph leads to a solved signature
/// more cheaply than the solution of its source.
pub open spec fn is_settled<M: Metric>(
    graph: &SequenceGraph,
    sol: Map<u64, Seq<Move>>,
    metric: &M,
    target: u64,
) -> bool {
    &&& graph.has_node(target) && metric.spec_cost(Seq::<Move>::empty()) == 0 ==> sol.contains_key(
        target,
    ) && sol[target] == Seq::<Move>::empty()
    &&& forall|i: int, j: int|
        0 <= i < graph.nodes_view().len() && 0 <= j < graph.edges_of(i).len() ==> {
            let (g, s2) = #[trigger] graph.edges_of(i)[j];
            sol.contains_key(s2) && metric.spec_cost(graph.generators_view()[g as int] + sol[s2])
                < u64::MAX ==> sol.contains_key(graph.nodes_view()[i]) && metric.spec_cost(
                sol[graph.nodes_view()[i]],
            ) <= metric.spec_cost(graph.generators_view()[g as int] + sol[s2])
        }
}

impl SequenceGraph {
    /// For each node, the edges into it: the source node and the generator.
    fn incoming_edges(&self) -> (r: Vec<Vec<(usize, usize)>>)
        requires
            self.wf(),
        ensures
            r@.len() == self.nodes@.len(),
            forall|v: int, k: int|
                0 <= v < r@.len() && 0 <= k < r@[v]@.len() ==> {
                    let (u, g) = #[trigger] r@[v]@[k];
                    &&& u < self.nodes@.len()
                    &&& g < views(self.generators@).len()
                    &&& (self.sig@)(cube_compose(
                        spec_sequence(views(self.generators@)[g as int]),
                        self.representatives@[u as int],
                    )) == self.nodes@[v]
                    &&& is_edge(self, u as int, g, v)
                },
            forall|i: int, j: int|
                0 <= i < self.nodes@.len() && 0 <= j < self.transitions@[i]@.len() ==> has_incoming(
                    r@,
                    self.index@[(#[trigger] self.transitions@[i]@[j]).1] as int,
                    i,
                    self.transitions@[i]@[j].0,
                ),
    {
        let ghost sig = self.sig@;
        let ghost gens = views(self.generators@);
        let ghost reps = self.representatives@;
        let n = self.nodes.len();
        let mut incoming: Vec<Vec<(usize, usize)>> = Vec::new();
        let mut i: usize = 0;
        while i < n
            invariant
                i <= n,
                incoming@.len() == i,
                forall|k: int| 0 <= k < i ==> (#[trigger] incoming@[k])@.len() == 0,
            decreases n - i,
        {
            incoming.push(Vec::new());
            i = i + 1;
        }
        i = 0;
        while i < n
            invariant
                self.wf(),
                n == self.nodes@.len(),
                i <= n,
                incoming@.len() == n,
                gens == views(self.generators@),
                sig == self.sig@,
                reps == self.representatives@,
                forall|v: int, k: int|
                    0 <= v < n && 0 <= k < incoming@[v]@.len() ==> {
                        let (u, g) = #[trigger] incoming@[v]@[k];
                        &&& u < n
                        &&& g < gens.len()
                        &&& sig(cube_compose(spec_sequence(gens[g as int]), reps[u as int]))
                            == self.nodes@[v]
                        &&& is_edge(self, u as int, g, v)
                    },
                forall|a: int, j: int|
                    0 <= a < i && 0 <= j < self.transitions@[a]@.len() ==> has_incoming(
                        incoming@,
                        self.index@[(#[trigger] self.transitions@[a]@[j]).1] as int,
                        a,
                        self.transitions@[a]@[j].0,
                    ),
            decreases n - i,
        {
            let ts = &self.transitions[i];
            let mut j: usize = 0;
            while j < ts.len()
                invariant
                    self.wf(),
                    n == self.nodes@.len(),
                    i < n,
                    j <= ts@.len(),
                    ts@ == self.transitions@[i as int]@,
                    incoming@.len() == n,
                    gens == views(self.generators@),
                    sig == self.sig@,
                    reps == self.representatives@,
                    forall|v: int, k: int|
                        0 <= v < n && 0 <= k < incoming@[v]@.len() ==> {
                            let (u, g) = #[trigger] incoming@[v]@[k];
                            &&& u < n
                            &&& g < gens.len()
                            &&& sig(cube_compose(spec_sequence(gens[g as int]), reps[u as int]))
                                == self.nodes@[v]
                            &&& is_edge(self, u as int, g, v)
                        },
                    forall|a: int, jj: int|
                        0 <= a < n && 0 <= jj < self.transitions@[a]@.len() && (a < i || (a == i
                            && jj < j)) ==> has_incoming(
                            incoming@,
                            self.index@[(#[trigger] self.transitions@[a]@[jj]).1] as int,
                            a,
                            self.transitions@[a]@[jj].0,
                        ),
                decreases ts@.len() - j,
            {
                let (g, s2) = ts[j];
                assert(self.transitions@[i as int]@[j as int] == (g, s2));
                let v = *self.index.get(&s2).unwrap();
                let ghost before = incoming@;
                let mut list = copy_edges(&incoming[v]);
                list.push((i, g));
                incoming.set(v, list);
                assert forall|w: int, k: int|
                    0 <= w < n && 0 <= k < incoming@[w]@.len() implies {
                        let (u, g) = #[trigger] incoming@[w]@[k];
                        &&& u < n
                        &&& g < gens.len()
                        &&& sig(cube_compose(spec_sequence(gens[g as int]), reps[u as int]))
                            == self.nodes@[w]
                        &&& is_edge(self, u as int, g, w)
                    } by {
                    if w != v || k < before[w]@.len() {
                        assert(incoming@[w]@[k] == before[w]@[k]);
                    } else {
                        assert(self.nodes@[v as int] == s2);
                        assert(self.transitions@[i as int]@[j as int] == (g, self.nodes@[v as int]));
                    }
                }
                assert forall|a: int, jj: int|
                    0 <= a < n && 0 <= jj < self.transitions@[a]@.len() && (a < i || (a == i && jj
                        < j + 1)) implies has_incoming(
                    incoming@,
                    self.index@[(#[trigger] self.transitions@[a]@[jj]).1] as int,
                    a,
                    self.transitions@[a]@[jj].0,
                ) by {
                    let (g2, s3) = self.transitions@[a]@[jj];
                    let w = self.index@[s3] as int;
                    if a == i && jj == j {
                        assert(w == v);
                        assert(incoming@[v as int]@[before[v as int]@.len() as int] == (
                            i,
                            g,
                        ));
                    } else {
                        assert(has_incoming(before, w, a, g2));
                        let k = choose|k: int|
                            0 <= k < before[w]@.len() && before[w]@[k] == (a as usize, g2);
                        assert(incoming@[w]@[k] == before[w]@[k]);
                    }
                }
                j = j + 1;
            }
            i = i + 1;
        }
        incoming
    }

    /// Runs Dijkstra's algorithm from the target signature over the edges taken backwards,
    /// so that each node gets a cheapest sequence of generators leading from it to the
    /// target. The result is empty when the target is not a node.
    #[verifier::rlimit(80)]
    #[verifier::spinoff_prover]
    pub fn search<M: Metric>(&self, target_signature: u64, metric: &M) -> (r: SequenceSolver)
        requires
            self.wf(),
        ensures
            r.wf(),
            r.signature_fn() == self.signature_fn(),
            r.generators_view() == self.generators_view(),
            r.target() == target_signature,
            !self.has_node(target_signature) ==> r.solutions().dom().is_empty(),
            forall|s: u64| #[trigger] r.solutions().contains_key(s) ==> self.has_node(s),
            is_settled(self, r.solutions(), metric, target_signature),
            self.has_node(target_signature) ==> r.solutions().contains_key(target_signature)
                && r.solutions()[target_signature] == Seq::<Move>::empty(),
            forall|s: u64| #[trigger]
                r.solutions().contains_key(s) ==> exists|path: Seq<(int, int)>|
                    is_path(self, path, target_signature) && path_start(self, path, target_signature)
                        == s && r.solutions()[s] == path_moves(self, path),
    {
        let ghost sig = self.sig@;
        let ghost gens = views(self.generators@);
        let ghost reps = self.representatives@;
        let mut node_info: HashMap<u64, MoveSequence> = HashMap::new();
        if !self.index.contains_key(&target_signature) {
            let r = SequenceSolver {
                node_info,
                target: Ghost(target_signature),
                sig: Ghost(sig),
                generators: Ghost(gens),
            };
            assert(r.solutions().dom() =~= Set::empty());
            assert forall|i: int, j: int|
                0 <= i < self.nodes_view().len() && 0 <= j < self.edges_of(i).len() implies {
                    let (g, s2) = #[trigger] self.edges_of(i)[j];
                    !r.solutions().contains_key(s2)
                } by {
                let (g, s2) = self.edges_of(i)[j];
                assert(!node_info@.contains_key(s2));
            }
            return r;
        }
        let t = *self.index.get(&target_signature).unwrap();
        let n = self.nodes.len();
        let incoming = self.incoming_edges();
        let mut seqs: Vec<MoveSequence> = Vec::new();
        let mut reached: Vec<bool> = Vec::new();
        let mut done: Vec<bool> = Vec::new();
        let mut pq = queue_new();
        let mut i: usize = 0;
        while i < n
            invariant
                i <= n,
                seqs@.len() == i,
                reached@.len() == i,
                done@.len() == i,
                forall|k: int| 0 <= k < i ==> (#[trigger] seqs@[k])@ == Seq::<Move>::empty(),
                forall|k: int| 0 <= k < i ==> !#[trigger] reached@[k],
                forall|k: int| 0 <= k < i ==> !#[trigger] done@[k],
                forall|k: usize| #[trigger] queue_priorities(pq).contains_key(k) <==> k < i,
                forall|k: usize| k < i ==> #[trigger] queue_priorities(pq)[k] == 0,
            decreases n - i,
        {
            seqs.push(MoveSequence::empty());
            reached.push(false);
            done.push(false);
            queue_push(&mut pq, i, 0);
            i = i + 1;
        }
        let c0 = metric.cost(&seqs[t]);
        queue_change_priority(&mut pq, &t, u64::MAX - c0);
        reached.set(t, true);
        proof {
            lemma_cube_identity_valid();
            assert forall|p: CubeView| cube_valid(p) && sig(p) == target_signature implies #[trigger] sig(
                cube_compose(spec_sequence(seqs@[t as int]@), p),
            ) == target_signature by {
                lemma_cube_laws(p, p, p);
                assert(seqs@[t as int]@ == Seq::<Move>::empty());
            }
            assert(moves_fit(seqs@[t as int]@));
            vstd::set_lib::lemma_int_range(0, n as int);
        }
        let ghost mut last: int = 0;
        let ghost mut paths: Seq<Seq<(int, int)>> = Seq::new(
            n as nat,
            |v: int| Seq::<(int, int)>::empty(),
        );
        let ghost mut saturated: bool = false;
        let ghost mut popped: Set<int> = Set::empty();
        let ghost mut exhausted: bool = false;
        let mut finished: usize = 0;
        while finished < n
            invariant
                self.wf(),
                n == self.nodes@.len(),
                t < n,
                self.nodes@[t as int] == target_signature,
                incoming@.len() == n,
                seqs@.len() == n,
                reached@.len() == n,
                done@.len() == n,
                gens == views(self.generators@),
                sig == self.sig@,
                reps == self.representatives@,
                forall|v: int, k: int|
                    0 <= v < n && 0 <= k < incoming@[v]@.len() ==> {
                        let (u, g) = #[trigger] incoming@[v]@[k];
                        &&& u < n
                        &&& g < gens.len()
                        &&& sig(cube_compose(spec_sequence(gens[g as int]), reps[u as int]))
                            == self.nodes@[v]
                        &&& is_edge(self, u as int, g, v)
                    },
                popped.finite(),
                popped.len() == finished,
                forall|v: int| #[trigger] popped.contains(v) <==> (0 <= v < n && done@[v]),
                forall|k: usize| #[trigger]
                    queue_priorities(pq).contains_key(k) <==> (k < n && !done@[k as int]),
                forall|k: usize|
                    k < n && !done@[k as int] ==> #[trigger] queue_priorities(pq)[k] == (if reached@[k as int] {
                        (u64::MAX - metric.spec_cost(seqs@[k as int]@)) as u64
                    } else {
                        0u64
                    }),
                forall|v: int|
                    0 <= v < n && #[trigger] reached@[v] ==> 0 <= metric.spec_cost(seqs@[v]@) <= u64::MAX,
                forall|v: int|
                    0 <= v < n && done@[v] && #[trigger] reached@[v] ==> metric.spec_cost(seqs@[v]@)
                        <= last,
                forall|v: int|
                    0 <= v < n && !done@[v] && #[trigger] reached@[v] ==> last <= metric.spec_cost(
                        seqs@[v]@,
                    ),
                saturated ==> forall|v: int|
                    0 <= v < n && !done@[v] && #[trigger] reached@[v] ==> metric.spec_cost(seqs@[v]@)
                        == u64::MAX,
                forall|v: int| 0 <= v < n && #[trigger] done@[v] && !reached@[v] ==> saturated,
                forall|v: int|
                    0 <= v < n && done@[v] && #[trigger] reached@[v] ==> relaxed(
                        metric,
                        gens,
                        incoming@[v]@,
                        seqs@,
                        reached@,
                        v,
                        incoming@[v]@.len() as int,
                    ),
                finished == 0 ==> forall|v: int|
                    0 <= v < n ==> !#[trigger] done@[v] && (reached@[v] <==> v == t),
                finished <= n,
                paths.len() == n,
                reached@[t as int],
                seqs@[t as int]@ == Seq::<Move>::empty(),
                forall|v: int|
                    0 <= v < n && #[trigger] reached@[v] ==> is_path(self, paths[v], target_signature)
                        && path_start(self, paths[v], target_signature) == self.nodes@[v]
                        && path_moves(self, paths[v]) == seqs@[v]@,
                exhausted ==> forall|v: int| 0 <= v < n ==> #[trigger] done@[v],
                finished > 0 && metric.spec_cost(Seq::<Move>::empty()) == 0 ==> done@[t as int]
                    && reached@[t as int] && seqs@[t as int]@ == Seq::<Move>::empty(),
                finished == 0 ==> seqs@[t as int]@ == Seq::<Move>::empty(),
                forall|v: int|
                    0 <= v < n && #[trigger] reached@[v] ==> moves_fit(seqs@[v]@) && (is_congruence(
                        sig,
                        gens,
                    ) ==> sends_to(sig, seqs@[v]@, self.nodes@[v], target_signature)),
                forall|v: int|
                    0 <= v < n && done@[v] && #[trigger] reached@[v] ==> node_info@.contains_key(
                        self.nodes@[v],
                    ) && node_info@[self.nodes@[v]]@ == seqs@[v]@,
                forall|s: u64| #[trigger]
                    node_info@.contains_key(s) ==> self.index@.contains_key(s) && done@[self.index@[s] as int]
                        && reached@[self.index@[s] as int] && moves_fit(node_info@[s]@) && (is_congruence(
                        sig,
                        gens,
                    ) ==> sends_to(sig, node_info@[s]@, s, target_signature)),
            ensures
                exhausted || finished == n,
            decreases n - finished,
        {
            let ghost before_pq = queue_priorities(pq);
            let popped_item = queue_pop(&mut pq);
            match popped_item {
                None => {
                    proof {
                        assert forall|v: int| 0 <= v < n implies #[trigger] done@[v] by {
                            if !done@[v] {
                                assert(before_pq.contains_key(v as usize));
                            }
                        }
                        exhausted = true;
                    }
                    break;
                },
                Some((w, pr)) => {
                    proof {
                        assert(!popped.contains(w as int));
                        popped = popped.insert(w as int);
                    }
                    finished = finished + 1;
                    let ghost was_reached = reached@[w as int];
                    proof {
                        if !reached@[w as int] {
                            assert forall|v: int|
                                0 <= v < n && !done@[v] && v != w && #[trigger] reached@[v] implies metric.spec_cost(
                                seqs@[v]@,
                            ) == u64::MAX by {
                                assert(before_pq.contains_key(v as usize));
                                assert(before_pq[v as usize] <= pr);
                                assert(before_pq[w] == pr);
                                assert(before_pq[v as usize] == (u64::MAX - metric.spec_cost(seqs@[v]@)) as u64);
                            }
                            if finished == 1 && metric.spec_cost(Seq::<Move>::empty()) == 0 {
                                assert(before_pq.contains_key(t));
                                assert(before_pq[t] <= pr);
                                assert(before_pq[w] == 0);
                                assert(reached@[t as int]);
                                assert(before_pq[t] == (u64::MAX - metric.spec_cost(seqs@[t as int]@)) as u64);
                                assert(false);
                            }
                            saturated = true;
                        } else {
                            assert forall|v: int|
                                0 <= v < n && !done@[v] && v != w && #[trigger] reached@[v] implies metric.spec_cost(
                                seqs@[w as int]@,
                            ) <= metric.spec_cost(seqs@[v]@) by {
                                assert(before_pq.contains_key(v as usize));
                                assert(before_pq[v as usize] <= pr);
                                assert(before_pq[w] == pr);
                                assert(before_pq[v as usize] == (u64::MAX - metric.spec_cost(seqs@[v]@)) as u64);
                                assert(before_pq[w] == (u64::MAX - metric.spec_cost(seqs@[w as int]@)) as u64);
                            }
                            if finished == 1 && metric.spec_cost(Seq::<Move>::empty()) == 0 {
                                assert(w == t) by {
                                    if w != t {
                                        assert(before_pq.contains_key(t));
                                        assert(before_pq[t] <= pr);
                                    }
                                }
                            }
                            last = metric.spec_cost(seqs@[w as int]@);
                        }
                    }
                    done.set(w, true);
                    if reached[w] {
                        let m = seqs[w].duplicate();
                        let sv = self.nodes[w];
                        node_info.insert(sv, m);
                        let list = &incoming[w];
                        let mut k: usize = 0;
                        while k < list.len()
                            invariant
                                self.wf(),
                                n == self.nodes@.len(),
                                w < n,
                                t < n,
                                reached@[w as int],
                                done@[w as int],
                                sv == self.nodes@[w as int],
                                list@ == incoming@[w as int]@,
                                k <= list@.len(),
                                incoming@.len() == n,
                                seqs@.len() == n,
                                reached@.len() == n,
                                done@.len() == n,
                                gens == views(self.generators@),
                                sig == self.sig@,
                                reps == self.representatives@,
                                last == metric.spec_cost(seqs@[w as int]@),
                                paths.len() == n,
                                reached@[t as int],
                                seqs@[t as int]@ == Seq::<Move>::empty(),
                                forall|v: int|
                                    0 <= v < n && #[trigger] reached@[v] ==> is_path(self, paths[v], target_signature)
                                        && path_start(self, paths[v], target_signature) == self.nodes@[v]
                                        && path_moves(self, paths[v]) == seqs@[v]@,
                                saturated ==> metric.spec_cost(seqs@[w as int]@) == u64::MAX,
                                forall|v: int, k: int|
                                    0 <= v < n && 0 <= k < incoming@[v]@.len() ==> {
                                        let (u, g) = #[trigger] incoming@[v]@[k];
                                        &&& u < n
                                        &&& g < gens.len()
                                        &&& sig(
                                            cube_compose(spec_sequence(gens[g as int]), reps[u as int]),
                                        ) == self.nodes@[v]
                                        &&& is_edge(self, u as int, g, v)
                                    },
                                forall|k: usize| #[trigger]
                                    queue_priorities(pq).contains_key(k) <==> (k < n && !done@[k as int]),
                                forall|k: usize|
                                    k < n && !done@[k as int] ==> #[trigger] queue_priorities(pq)[k]
                                        == (if reached@[k as int] {
                                        (u64::MAX - metric.spec_cost(seqs@[k as int]@)) as u64
                                    } else {
                                        0u64
                                    }),
                                forall|v: int|
                                    0 <= v < n && #[trigger] reached@[v] ==> 0 <= metric.spec_cost(seqs@[v]@)
                                        <= u64::MAX,
                                forall|v: int|
                                    0 <= v < n && done@[v] && #[trigger] reached@[v] ==> metric.spec_cost(
                                        seqs@[v]@,
                                    ) <= last,
                                forall|v: int|
                                    0 <= v < n && !done@[v] && #[trigger] reached@[v] ==> last
                                        <= metric.spec_cost(seqs@[v]@),
                                saturated ==> forall|v: int|
                                    0 <= v < n && !done@[v] && #[trigger] reached@[v] ==> metric.spec_cost(
                                        seqs@[v]@,
                                    ) == u64::MAX,
                                forall|v: int|
                                    0 <= v < n && #[trigger] done@[v] && !reached@[v] ==> saturated,
                                forall|v: int|
                                    0 <= v < n && done@[v] && v != w && #[trigger] reached@[v] ==> relaxed(
                                        metric,
                                        gens,
                                        incoming@[v]@,
                                        seqs@,
                                        reached@,
                                        v,
                                        incoming@[v]@.len() as int,
                                    ),
                                relaxed(metric, gens, incoming@[w as int]@, seqs@, reached@, w as int, k as int),
                                finished > 0 && metric.spec_cost(Seq::<Move>::empty()) == 0 ==> done@[t as int]
                                    && reached@[t as int] && seqs@[t as int]@ == Seq::<Move>::empty(),
                                forall|v: int|
                                    0 <= v < n && #[trigger] reached@[v] ==> moves_fit(seqs@[v]@) && (
                                    is_congruence(sig, gens) ==> sends_to(
                                        sig,
                                        seqs@[v]@,
                                        self.nodes@[v],
                                        target_signature,
                                    )),
                                forall|v: int|
                                    0 <= v < n && done@[v] && #[trigger] reached@[v] ==> node_info@.contains_key(
                                        self.nodes@[v],
                                    ) && node_info@[self.nodes@[v]]@ == seqs@[v]@,
                                forall|s: u64| #[trigger]
                                    node_info@.contains_key(s) ==> self.index@.contains_key(s)
                                        && done@[self.index@[s] as int] && reached@[self.index@[s] as int]
                                        && moves_fit(node_info@[s]@) && (is_congruence(sig, gens)
                                        ==> sends_to(sig, node_info@[s]@, s, target_signature)),
                            decreases list@.len() - k,
                        {
                            let (u, g) = list[k];
                            assert(incoming@[w as int]@[k as int] == (u, g));
                            proof {
                                metric.lemma_cost_monotone(gens[g as int], seqs@[w as int]@);
                            }
                            if !done[u] {
                                assert(self.generators@[g as int]@ == gens[g as int]);
                                let cand = seqs[w].duplicate().op(self.generators[g].duplicate());
                                let c = metric.cost(&cand);
                                let pr = u64::MAX - c;
                                let current = queue_get_priority(&pq, &u);
                                match current {
                                    Some(cp) => {
                                        if pr > cp {
                                            let ghost old_seqs = seqs@;
                                            let ghost old_reached = reached@;
                                            assert(cand@ == gens[g as int] + seqs@[w as int]@);
                                            if reached[u] {
                                                assert(cp == (u64::MAX - metric.spec_cost(seqs@[u as int]@)) as u64);
                                                assert(c < metric.spec_cost(seqs@[u as int]@));
                                            }
                                            proof {
                                                lemma_concat_fits(gens[g as int], seqs@[w as int]@);
                                                if is_congruence(sig, gens) {
                                                    lemma_extend(
                                                        sig,
                                                        gens,
                                                        g as int,
                                                        seqs@[w as int]@,
                                                        self.nodes@[u as int],
                                                        sv,
                                                        target_signature,
                                                        reps[u as int],
                                                    );
                                                }
                                            }
                                            assert(u != t) by {
                                                if u == t {
                                                    metric.lemma_cost_monotone(cand@, Seq::<Move>::empty());
                                                    assert(cand@ + Seq::<Move>::empty() =~= cand@);
                                                    assert(cp == (u64::MAX - metric.spec_cost(seqs@[t as int]@)) as u64);
                                                }
                                            }
                                            let ghost jj = choose|jj: int|
                                                0 <= jj < self.transitions@[u as int]@.len()
                                                    && self.transitions@[u as int]@[jj] == (g, self.nodes@[w as int]);
                                            proof {
                                                assert(is_edge(self, u as int, g, w as int));
                                                assert(self.edges_of(u as int)[jj] == (g, self.nodes@[w as int]));
                                                lemma_extend_path(self, target_signature, paths[w as int], u as int, jj, w as int);
                                                paths = paths.update(u as int, seq![(u as int, jj)] + paths[w as int]);
                                            }
                                            queue_change_priority(&mut pq, &u, pr);
                                            seqs.set(u, cand);
                                            reached.set(u, true);
                                            proof {
                                                assert forall|v: int|
                                                    0 <= v < n && done@[v] && v != w && #[trigger] reached@[v] implies relaxed(
                                                    metric,
                                                    gens,
                                                    incoming@[v]@,
                                                    seqs@,
                                                    reached@,
                                                    v,
                                                    incoming@[v]@.len() as int,
                                                ) by {
                                                    assert(seqs@[v] == old_seqs[v]);
                                                    assert forall|kk: int|
                                                        0 <= kk < incoming@[v]@.len() implies {
                                                            let (uu, gg) = #[trigger] incoming@[v]@[kk];
                                                            metric.spec_cost(gens[gg as int] + seqs@[v]@)
                                                                < u64::MAX ==> reached@[uu as int]
                                                                && metric.spec_cost(seqs@[uu as int]@)
                                                                <= metric.spec_cost(gens[gg as int] + seqs@[v]@)
                                                        } by {
                                                        let (uu, gg) = incoming@[v]@[kk];
                                                        if uu != u {
                                                            assert(seqs@[uu as int] == old_seqs[uu as int]);
                                                        } else if old_reached[u as int] {
                                                            assert(metric.spec_cost(seqs@[u as int]@) < metric.spec_cost(old_seqs[u as int]@));
                                                        }
                                                    }
                                                }
                                                assert forall|kk: int|
                                                    0 <= kk < k + 1 implies {
                                                        let (uu, gg) = #[trigger] incoming@[w as int]@[kk];
                                                        metric.spec_cost(gens[gg as int] + seqs@[w as int]@)
                                                            < u64::MAX ==> reached@[uu as int] && metric.spec_cost(
                                                            seqs@[uu as int]@,
                                                        ) <= metric.spec_cost(gens[gg as int] + seqs@[w as int]@)
                                                    } by {
                                                    let (uu, gg) = incoming@[w as int]@[kk];
                                                    if kk == k {
                                                        assert(metric.spec_cost(seqs@[u as int]@) == c);
                                                    } else if uu != u {
                                                        assert(seqs@[uu as int] == old_seqs[uu as int]);
                                                    } else if old_reached[u as int] {
                                                        assert(metric.spec_cost(seqs@[u as int]@) < metric.spec_cost(old_seqs[u as int]@));
                                                    }
                                                }
                                            }
                                        }
                                    },
                                    None => {},
                                }
                                proof {
                                    assert(cand@ == gens[g as int] + seqs@[w as int]@);
                                }
                            } else {
                                proof {
                                    if reached@[u as int] {
                                        assert(metric.spec_cost(seqs@[u as int]@) <= last);
                                    } else {
                                        assert(saturated);
                                    }
                                }
                            }
                            k = k + 1;
                        }
                    }
                },
            }
        }
        proof {
            if !exhausted {
                assert(finished == n);
                assert forall|v: int| 0 <= v < n implies #[trigger] done@[v] by {
                    if !done@[v] {
                        let rest = set_int_range_minus(n as int, v);
                        assert forall|x: int| popped.contains(x) implies rest.contains(x) by {
                            assert(0 <= x < n && done@[x]);
                        }
                        assert(popped.subset_of(rest));
                        lemma_range_minus_len(n as int, v);
                        vstd::set_lib::lemma_len_subset(popped, rest);
                        assert(popped.len() <= n - 1);
                        assert(false);
                    }
                }
            }
            assert(forall|v: int| 0 <= v < n ==> #[trigger] done@[v]);
            if metric.spec_cost(Seq::<Move>::empty()) == 0 {
                assert(done@[t as int]);
                assert(finished > 0);
                assert(node_info@.contains_key(target_signature));
                assert(node_info@[target_signature]@ == Seq::<Move>::empty());
            }
        }
        let r = SequenceSolver {
            node_info,
            target: Ghost(target_signature),
            sig: Ghost(sig),
            generators: Ghost(gens),
        };
        assert forall|s: u64| #[trigger] r.solutions().contains_key(s) implies self.has_node(s) by {
            assert(node_info@.contains_key(s));
        }
        assert forall|s: u64| #[trigger] r.solutions().contains_key(s) implies exists|
            path: Seq<(int, int)>,
        |
            is_path(self, path, target_signature) && path_start(self, path, target_signature) == s
                && r.solutions()[s] == path_moves(self, path) by {
            assert(node_info@.contains_key(s));
            let v = self.index@[s] as int;
            assert(self.nodes@[v] == s);
            assert(node_info@[s]@ == seqs@[v]@);
            assert(r.solutions()[s] == path_moves(self, paths[v]));
        }
        assert(done@[t as int]);
        assert(node_info@.contains_key(target_signature));
        assert forall|i: int, j: int|
            0 <= i < self.nodes_view().len() && 0 <= j < self.edges_of(i).len() implies {
                let (g, s2) = #[trigger] self.edges_of(i)[j];
                r.solutions().contains_key(s2) && metric.spec_cost(
                    self.generators_view()[g as int] + r.solutions()[s2],
                ) < u64::MAX ==> r.solutions().contains_key(self.nodes_view()[i])
                    && metric.spec_cost(r.solutions()[self.nodes_view()[i]]) <= metric.spec_cost(
                    self.generators_view()[g as int] + r.solutions()[s2],
                )
            } by {
            let (g, s2) = self.edges_of(i)[j];
            assert(self.transitions@[i]@[j] == (g, s2));
            if r.solutions().contains_key(s2) {
                assert(node_info@.contains_key(s2));
                let v = self.index@[s2] as int;
                let kk = choose|kk: int|
                    0 <= kk < incoming@[v]@.len() && incoming@[v]@[kk] == (i as usize, g);
                assert(incoming@[v]@[kk] == (i as usize, g));
                assert(self.nodes@[v] == s2);
                assert(done@[i] && done@[v]);
            }
        }
        r
    }
}

/// A path in the graph to the target: each step names a node and one of its edges, each
/// edge leads to the node of the next step, and the last edge leads to the target.
pub open spec fn is_path(graph: &SequenceGraph, path: Seq<(int, int)>, target: u64) -> bool {
    &&& forall|k: int|
        0 <= k < path.len() ==> 0 <= (#[trigger] path[k]).0 < graph.nodes_view().len() && 0
            <= path[k].1 < graph.edges_of(path[k].0).len()
    &&& forall|k: int|
        0 <= k < path.len() - 1 ==> graph.edges_of((#[trigger] path[k]).0)[path[k].1].1
            == graph.nodes_view()[path[k + 1].0]
    &&& path.len() > 0 ==> graph.edges_of(path.last().0)[path.last().1].1 == target
}

/// The signature a path starts from; an empty path stays at the target.
pub open spec fn path_start(graph: &SequenceGraph, path: Seq<(int, int)>, target: u64) -> u64 {
    if path.len() == 0 {
        target
    } else {
        graph.nodes_view()[path[0].0]
    }
}

/// The moves along a path: the generators of its edges, in order.
pub open spec fn path_moves(graph: &SequenceGraph, path: Seq<(int, int)>) -> Seq<Move>
    decreases path.len(),
{
    if path.len() == 0 {
        Seq::empty()
    } else {
        graph.generators_view()[graph.edges_of(path[0].0)[path[0].1].0 as int] + path_moves(
            graph,
            path.subrange(1, path.len() as int),
        )
    }
}

/// Dijkstra's solutions are cheapest: for a metric that adds up over concatenation, every
/// path of the graph to the target costs at least the solution stored for its start, and
/// that start has a solution. `search` leaves its result settled for the graph.
pub proof fn lemma_solver_minimal<M: Metric>(
    graph: &SequenceGraph,
    solutions: Map<u64, Seq<Move>>,
    metric: &M,
    target: u64,
    path: Seq<(int, int)>,
)
    requires
        graph.wf(),
        graph.has_node(target),
        is_settled(graph, solutions, metric, target),
        forall|a: Seq<Move>, b: Seq<Move>| #[trigger]
            metric.spec_cost(a + b) == metric.spec_cost(a) + metric.spec_cost(b),
        is_path(graph, path, target),
        metric.spec_cost(path_moves(graph, path)) < u64::MAX,
    ensures
        solutions.contains_key(path_start(graph, path, target)),
        metric.spec_cost(solutions[path_start(graph, path, target)]) <= metric.spec_cost(
            path_moves(graph, path),
        ),
    decreases path.len(),
{
    let e = Seq::<Move>::empty();
    assert(e + e =~= e);
    assert(metric.spec_cost(e + e) == metric.spec_cost(e) + metric.spec_cost(e));
    if path.len() > 0 {
        let rest = path.subrange(1, path.len() as int);
        let (i, j) = path[0];
        let (g, s2) = graph.edges_of(i)[j];
        let gm = graph.generators_view()[g as int];
        assert(path_moves(graph, path) == gm + path_moves(graph, rest));
        metric.lemma_cost_monotone(gm, path_moves(graph, rest));
        metric.lemma_cost_monotone(path_moves(graph, rest), gm);
        assert(is_path(graph, rest, target)) by {
            assert forall|k: int| 0 <= k < rest.len() - 1 implies graph.edges_of(
                (#[trigger] rest[k]).0,
            )[rest[k].1].1 == graph.nodes_view()[rest[k + 1].0] by {
                assert(rest[k] == path[k + 1]);
                assert(rest[k + 1] == path[k + 2]);
            }
            if rest.len() > 0 {
                assert(rest.last() == path.last());
            }
        }
        assert(path_start(graph, rest, target) == s2) by {
            if rest.len() > 0 {
                assert(rest[0] == path[1]);
            }
        }
        lemma_solver_minimal(graph, solutions, metric, target, rest);
        assert(metric.spec_cost(gm + solutions[s2]) == metric.spec_cost(gm) + metric.spec_cost(
            solutions[s2],
        ));
        assert(graph.edges_of(i)[j] == (g, s2));
    }
}

proof fn lemma_extend_path(
    graph: &SequenceGraph,
    target: u64,
    pw: Seq<(int, int)>,
    u: int,
    j: int,
    w: int,
)
    requires
        0 <= u < graph.nodes_view().len(),
        0 <= j < graph.edges_of(u).len(),
        graph.edges_of(u)[j].1 == graph.nodes_view()[w],
        is_path(graph, pw, target),
        path_start(graph, pw, target) == graph.nodes_view()[w],
    ensures
        is_path(graph, seq![(u, j)] + pw, target),
        path_start(graph, seq![(u, j)] + pw, target) == graph.nodes_view()[u],
        path_moves(graph, seq![(u, j)] + pw) == graph.generators_view()[graph.edges_of(u)[j].0 as int]
            + path_moves(graph, pw),
{
    let np = seq![(u, j)] + pw;
    assert(np.subrange(1, np.len() as int) =~= pw);
    assert(np[0] == (u, j));
    assert forall|k: int| 0 <= k < np.len() implies 0 <= (#[trigger] np[k]).0 < graph.nodes_view().len()
        && 0 <= np[k].1 < graph.edges_of(np[k].0).len() by {
        if k > 0 {
            assert(np[k] == pw[k - 1]);
        }
    }
    assert forall|k: int| 0 <= k < np.len() - 1 implies graph.edges_of((#[trigger] np[k]).0)[np[k].1].1
        == graph.nodes_view()[np[k + 1].0] by {
        if k > 0 {
            assert(np[k] == pw[k - 1]);
            assert(np[k + 1] == pw[k]);
        } else {
            assert(np[1] == pw[0]);
        }
    }
    if pw.len() > 0 {
        assert(np.last() == pw.last());
    }
}

/// The integers `0..n` without `v`.
pub open spec fn set_int_range_minus(n: int, v: int) -> Set<int> {
    vstd::set_lib::set_int_range(0, n).remove(v)
}

proof fn lemma_range_minus_len(n: int, v: int)
    requires
        0 <= v < n,
    ensures
        set_int_range_minus(n, v).finite(),
        set_int_range_minus(n, v).len() == n - 1,
{
    vstd::set_lib::lemma_int_range(0, n);
}

} // verus!
