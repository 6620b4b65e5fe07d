use crate::cube::{spec_canonicalise, spec_inverse_sequence, Move, MoveSequence};
use crate::intuitive::{insert_unique, lemma_canonicalise_fits, views, Metric, Signature};
use crate::permute::{lemma_sequence_valid, moves_fit, spec_sequence, CubePermutation3, CubeView};
use std::collections::HashMap;
use vstd::prelude::*;

verus! {

/// The alignments a pre- or post-move stands for: its inverse, its double and itself,
/// each canonicalised.
pub open spec fn adjustment_expansion(g: Seq<Move>) -> Seq<Seq<Move>> {
    seq![
        spec_canonicalise(spec_inverse_sequence(g)),
        spec_canonicalise(g + g),
        spec_canonicalise(g),
    ]
}

/// `e` is the empty alignment or one that some entry of `moves` stands for.
pub open spec fn is_adjustment_of(e: Seq<Move>, moves: Seq<MoveSequence>) -> bool {
    e == Seq::<Move>::empty() || exists|i: int|
        0 <= i < moves.len() && adjustment_expansion(moves[i]@).contains(e)
}

/// The sequence whose signature an entry is filed under: the pre-move, the algorithm,
/// then the post-move.
pub open spec fn enumerated(pre: Seq<Move>, alg: Seq<Move>, post: Seq<Move>) -> Seq<Move> {
    pre + alg + post
}

/// The sequence an entry stores: the algorithm and post-move, undone.
pub open spec fn stored(alg: Seq<Move>, post: Seq<Move>) -> Seq<Move> {
    spec_inverse_sequence(alg + post)
}

proof fn lemma_fits_concat(a: Seq<Move>, b: Seq<Move>)
    requires
        moves_fit(a),
        moves_fit(b),
    ensures
        moves_fit(a + b),
{
    assert forall|i: int| 0 <= i < (a + b).len() implies #[trigger] (a + b)[i].end_depth <= 3 by {
        if i < a.len() {
            assert((a + b)[i] == a[i]);
        } else {
            assert((a + b)[i] == b[i - a.len()]);
        }
    }
}

/// The empty sequence, and every alignment that some entry of `moves` stands for,
/// each once.
pub fn expand_adjustments(moves: &Vec<MoveSequence>) -> (r: Vec<MoveSequence>)
    requires
        forall|i: int| 0 <= i < moves@.len() ==> moves_fit(#[trigger] moves@[i]@),
    ensures
        views(r@).contains(Seq::<Move>::empty()),
        forall|i: int, e: Seq<Move>|
            0 <= i < moves@.len() && #[trigger] adjustment_expansion(moves@[i]@).contains(e)
                ==> views(r@).contains(e),
        forall|k: int| 0 <= k < r@.len() ==> moves_fit(#[trigger] r@[k]@),
        forall|k: int| 0 <= k < r@.len() ==> is_adjustment_of(#[trigger] r@[k]@, moves@),
{
    let mut out: Vec<MoveSequence> = Vec::new();
    out.push(MoveSequence::empty());
    assert(views(out@)[0] == Seq::<Move>::empty());
    let mut i: usize = 0;
    while i < moves.len()
        invariant
            i <= moves@.len(),
            forall|i: int| 0 <= i < moves@.len() ==> moves_fit(#[trigger] moves@[i]@),
            views(out@).contains(Seq::<Move>::empty()),
            forall|j: int, e: Seq<Move>|
                0 <= j < i && #[trigger] adjustment_expansion(moves@[j]@).contains(e) ==> views(
                    out@,
                ).contains(e),
            forall|k: int| 0 <= k < out@.len() ==> moves_fit(#[trigger] out@[k]@),
            forall|k: int| 0 <= k < out@.len() ==> is_adjustment_of(#[trigger] out@[k]@, moves@),
        decreases moves@.len() - i,
    {
        let g = &moves[i];
        let ghost gv = g@;
        let a = g.inverse().canonicalise();
        let b = g.duplicate().op(g.duplicate()).canonicalise();
        let c = g.canonicalise();
        proof {
            assert(moves_fit(spec_inverse_sequence(gv)));
            lemma_fits_concat(gv, gv);
            lemma_canonicalise_fits(spec_inverse_sequence(gv));
            lemma_canonicalise_fits(gv + gv);
            lemma_canonicalise_fits(gv);
        }
        let ghost (va, vb, vc) = (a@, b@, c@);
        let ghost o0 = out@;
        insert_unique(&mut out, a);
        let ghost o1 = out@;
        insert_unique(&mut out, b);
        let ghost o2 = out@;
        insert_unique(&mut out, c);
        proof {
            assert(views(out@).len() == out@.len());
            assert forall|x: Seq<Move>| views(o0).contains(x) implies views(out@).contains(x) by {
                let w = choose|w: int| 0 <= w < views(o0).len() && views(o0)[w] == x;
                assert(views(o1)[w] == x);
                assert(views(o2)[w] == x);
                assert(views(out@)[w] == x);
            }
            assert(views(out@).contains(va)) by {
                if views(o0).contains(va) {
                } else {
                    assert(views(o1)[o0.len() as int] == va);
                    assert(views(o2)[o0.len() as int] == va);
                    assert(views(out@)[o0.len() as int] == va);
                }
            }
            assert(views(out@).contains(vb)) by {
                if views(o1).contains(vb) {
                    let w = choose|w: int| 0 <= w < views(o1).len() && views(o1)[w] == vb;
                    assert(views(o2)[w] == vb);
                    assert(views(out@)[w] == vb);
                } else {
                    assert(views(o2)[o1.len() as int] == vb);
                    assert(views(out@)[o1.len() as int] == vb);
                }
            }
            assert(views(out@).contains(vc)) by {
                if views(o2).contains(vc) {
                    let w = choose|w: int| 0 <= w < views(o2).len() && views(o2)[w] == vc;
                    assert(views(out@)[w] == vc);
                } else {
                    assert(views(out@)[o2.len() as int] == vc);
                }
            }
            assert forall|j: int, e: Seq<Move>|
                0 <= j < i + 1 && #[trigger] adjustment_expansion(moves@[j]@).contains(e) implies views(
                out@,
            ).contains(e) by {
                if j < i {
                    assert(views(o0).contains(e));
                } else {
                    assert(adjustment_expansion(gv) == seq![va, vb, vc]);
                    let w = choose|w: int|
                        0 <= w < adjustment_expansion(gv).len() && adjustment_expansion(gv)[w] == e;
                    assert(e == va || e == vb || e == vc);
                }
            }
            assert(adjustment_expansion(gv) == seq![va, vb, vc]);
            assert(adjustment_expansion(moves@[i as int]@)[0] == va);
            assert(adjustment_expansion(moves@[i as int]@)[1] == vb);
            assert(adjustment_expansion(moves@[i as int]@)[2] == vc);
            assert forall|k: int| 0 <= k < out@.len() implies moves_fit(#[trigger] out@[k]@)
                && is_adjustment_of(out@[k]@, moves@) by {
                assert(out@[k]@ == views(out@)[k]);
                if k < o0.len() {
                    assert(views(out@)[k] == views(o0)[k]);
                    assert(o0[k]@ == views(o0)[k]);
                } else if k < o1.len() {
                    assert(views(out@)[k] == views(o1)[k]);
                    assert(views(o1)[k] == va);
                } else if k < o2.len() {
                    assert(views(out@)[k] == views(o2)[k]);
                    assert(views(o2)[k] == vb);
                } else {
                    assert(views(out@)[k] == vc);
                }
            }
        }
        i = i + 1;
    }
    out
}

/// For last-layer steps: for every algorithm `a`, pre-move `p` and post-move `q` (each
/// alignment standing for its inverse and double too, and the empty alignment
/// included), the signature of performing `p`, then `a`, then `q` is filed with the
/// sequence undoing `a` then `q`, keeping the cheapest such sequence per signature.
/// Performing the stored sequence leaves only the pre-move to undo.
pub struct AlgorithmicSolver {
    node_info: HashMap<u64, MoveSequence>,
    algs: Ghost<Seq<Seq<Move>>>,
    pres: Ghost<Seq<Seq<Move>>>,
    posts: Ghost<Seq<Seq<Move>>>,
    sig: Ghost<spec_fn(CubeView) -> u64>,
    cost: Ghost<spec_fn(Seq<Move>) -> int>,
}

/// Triple `(a, p, q)` comes before `(ai, pi, qi)` in the order of enumeration.
pub open spec fn enumerated_before(a: int, p: int, q: int, ai: int, pi: int, qi: int) -> bool {
    a < ai || (a == ai && p < pi) || (a == ai && p == pi && q < qi)
}

impl AlgorithmicSolver {
    /// The sequence stored for each signature.
    pub closed spec fn solutions(&self) -> Map<u64, Seq<Move>> {
        self.node_info@.map_values(|m: MoveSequence| m@)
    }

    /// The algorithms, and the expanded pre- and post-moves.
    pub closed spec fn algorithms(&self) -> Seq<Seq<Move>> {
        self.algs@
    }

    pub closed spec fn pre_moves(&self) -> Seq<Seq<Move>> {
        self.pres@
    }

    pub closed spec fn post_moves(&self) -> Seq<Seq<Move>> {
        self.posts@
    }

    pub closed spec fn signature_fn(&self) -> spec_fn(CubeView) -> u64 {
        self.sig@
    }

    pub closed spec fn cost_fn(&self) -> spec_fn(Seq<Move>) -> int {
        self.cost@
    }

    /// The signature under which the triple `(a, p, q)` is filed.
    pub open spec fn filed_under(&self, a: int, p: int, q: int) -> u64 {
        (self.signature_fn())(
            spec_sequence(enumerated(self.pre_moves()[p], self.algorithms()[a], self.post_moves()[q])),
        )
    }

    /// Every entry comes from some triple; every triple's signature has an entry, which
    /// costs no more than that triple's stored sequence.
    pub open spec fn wf(&self) -> bool {
        let algs = self.algorithms();
        let pres = self.pre_moves();
        let posts = self.post_moves();
        &&& forall|s: u64| #[trigger] self.solutions().contains_key(s) ==> moves_fit(self.solutions()[s])
        &&& forall|s: u64| #[trigger]
            self.solutions().contains_key(s) ==> exists|a: int, p: int, q: int|
                0 <= a < algs.len() && 0 <= p < pres.len() && 0 <= q < posts.len()
                    && #[trigger] self.filed_under(a, p, q) == s && self.solutions()[s] == stored(
                    algs[a],
                    posts[q],
                )
        &&& forall|a: int, p: int, q: int|
            0 <= a < algs.len() && 0 <= p < pres.len() && 0 <= q < posts.len() ==> {
                let s = #[trigger] self.filed_under(a, p, q);
                &&& self.solutions().contains_key(s)
                &&& (self.cost_fn())(self.solutions()[s]) <= (self.cost_fn())(
                    stored(algs[a], posts[q]),
                )
            }
    }

    /// Builds the table; see the type's description.
    pub fn new<G: Signature, M: Metric>(
        graph_name: &str,
        alg_set: Vec<MoveSequence>,
        pre_moves: Vec<MoveSequence>,
        post_moves: Vec<MoveSequence>,
        signature: &G,
        metric: &M,
    ) -> (r: Self)
        requires
            forall|i: int| 0 <= i < alg_set@.len() ==> moves_fit(#[trigger] alg_set@[i]@),
            forall|i: int| 0 <= i < pre_moves@.len() ==> moves_fit(#[trigger] pre_moves@[i]@),
            forall|i: int| 0 <= i < post_moves@.len() ==> moves_fit(#[trigger] post_moves@[i]@),
        ensures
            r.wf(),
            r.algorithms() == views(alg_set@),
            r.signature_fn() == (|p: CubeView| signature.spec_signature(p)),
            r.cost_fn() == (|m: Seq<Move>| metric.spec_cost(m)),
            r.pre_moves().contains(Seq::<Move>::empty()),
            r.post_moves().contains(Seq::<Move>::empty()),
            forall|k: int|
                0 <= k < r.pre_moves().len() ==> is_adjustment_of(#[trigger] r.pre_moves()[k], pre_moves@),
            forall|k: int|
                0 <= k < r.post_moves().len() ==> is_adjustment_of(#[trigger] r.post_moves()[k], post_moves@),
            forall|i: int, e: Seq<Move>|
                0 <= i < pre_moves@.len() && #[trigger] adjustment_expansion(pre_moves@[i]@).contains(
                    e,
                ) ==> r.pre_moves().contains(e),
            forall|i: int, e: Seq<Move>|
                0 <= i < post_moves@.len() && #[trigger] adjustment_expansion(post_moves@[i]@).contains(
                    e,
                ) ==> r.post_moves().contains(e),
    {
        let ghost sig: spec_fn(CubeView) -> u64 = |p: CubeView| signature.spec_signature(p);
        let ghost cost: spec_fn(Seq<Move>) -> int = |m: Seq<Move>| metric.spec_cost(m);
        let pres = expand_adjustments(&pre_moves);
        let posts = expand_adjustments(&post_moves);
        let ghost algs = views(alg_set@);
        let ghost pv = views(pres@);
        let ghost qv = views(posts@);
        let mut node_info: HashMap<u64, MoveSequence> = HashMap::new();
        let mut ai: usize = 0;
        while ai < alg_set.len()
            invariant
                forall|c: CubeView| #[trigger] sig(c) == signature.spec_signature(c),
                forall|m: Seq<Move>| #[trigger] cost(m) == metric.spec_cost(m),
                ai <= algs.len(),
                algs == views(alg_set@),
                pv == views(pres@),
                qv == views(posts@),
                forall|i: int| 0 <= i < algs.len() ==> moves_fit(#[trigger] algs[i]),
                forall|k: int| 0 <= k < pv.len() ==> moves_fit(#[trigger] pv[k]),
                forall|k: int| 0 <= k < qv.len() ==> moves_fit(#[trigger] qv[k]),
                forall|s: u64| #[trigger] node_info@.contains_key(s) ==> moves_fit(node_info@[s]@),
                forall|s: u64| #[trigger]
                    node_info@.contains_key(s) ==> exists|a: int, p: int, q: int|
                        0 <= a < algs.len() && 0 <= p < pv.len() && 0 <= q < qv.len()
                            && #[trigger] sig(spec_sequence(enumerated(pv[p], algs[a], qv[q])))
                            == s && node_info@[s]@ == stored(algs[a], qv[q]),
                forall|a: int, p: int, q: int|
                    0 <= a < ai && 0 <= p < pv.len() && 0 <= q < qv.len() ==> {
                        let s = #[trigger] sig(spec_sequence(enumerated(pv[p], algs[a], qv[q])));
                        &&& node_info@.contains_key(s)
                        &&& cost(node_info@[s]@) <= cost(stored(algs[a], qv[q]))
                    },
            decreases algs.len() - ai,
        {
            let mut pi: usize = 0;
            while pi < pres.len()
                invariant
                    forall|c: CubeView| #[trigger] sig(c) == signature.spec_signature(c),
                    forall|m: Seq<Move>| #[trigger] cost(m) == metric.spec_cost(m),
                    ai < algs.len(),
                    pi <= pv.len(),
                    algs == views(alg_set@),
                    pv == views(pres@),
                    qv == views(posts@),
                    forall|i: int| 0 <= i < algs.len() ==> moves_fit(#[trigger] algs[i]),
                    forall|k: int| 0 <= k < pv.len() ==> moves_fit(#[trigger] pv[k]),
                    forall|k: int| 0 <= k < qv.len() ==> moves_fit(#[trigger] qv[k]),
                    forall|s: u64| #[trigger] node_info@.contains_key(s) ==> moves_fit(node_info@[s]@),
                    forall|s: u64| #[trigger]
                        node_info@.contains_key(s) ==> exists|a: int, p: int, q: int|
                            0 <= a < algs.len() && 0 <= p < pv.len() && 0 <= q < qv.len()
                                && #[trigger] sig(spec_sequence(enumerated(pv[p], algs[a], qv[q])))
                                == s && node_info@[s]@ == stored(algs[a], qv[q]),
                    forall|a: int, p: int, q: int|
                        0 <= a < algs.len() && 0 <= p < pv.len() && 0 <= q < qv.len()
                            && enumerated_before(a, p, 0, ai as int, pi as int, 0) ==> {
                            let s = #[trigger] sig(spec_sequence(enumerated(pv[p], algs[a], qv[q])));
                            &&& node_info@.contains_key(s)
                            &&& cost(node_info@[s]@) <= cost(stored(algs[a], qv[q]))
                        },
                decreases pv.len() - pi,
            {
                let mut qi: usize = 0;
                while qi < posts.len()
                    invariant
                        forall|c: CubeView| #[trigger] sig(c) == signature.spec_signature(c),
                        forall|m: Seq<Move>| #[trigger] cost(m) == metric.spec_cost(m),
                        ai < algs.len(),
                        pi < pv.len(),
                        qi <= qv.len(),
                        algs == views(alg_set@),
                        pv == views(pres@),
                        qv == views(posts@),
                        forall|i: int| 0 <= i < algs.len() ==> moves_fit(#[trigger] algs[i]),
                        forall|k: int| 0 <= k < pv.len() ==> moves_fit(#[trigger] pv[k]),
                        forall|k: int| 0 <= k < qv.len() ==> moves_fit(#[trigger] qv[k]),
                        forall|s: u64| #[trigger] node_info@.contains_key(s) ==> moves_fit(node_info@[s]@),
                        forall|s: u64| #[trigger]
                            node_info@.contains_key(s) ==> exists|a: int, p: int, q: int|
                                0 <= a < algs.len() && 0 <= p < pv.len() && 0 <= q < qv.len()
                                    && #[trigger] sig(
                                    spec_sequence(enumerated(pv[p], algs[a], qv[q])),
                                ) == s && node_info@[s]@ == stored(algs[a], qv[q]),
                        forall|a: int, p: int, q: int|
                            0 <= a < algs.len() && 0 <= p < pv.len() && 0 <= q < qv.len()
                                && enumerated_before(a, p, q, ai as int, pi as int, qi as int) ==> {
                                let s = #[trigger] sig(
                                    spec_sequence(enumerated(pv[p], algs[a], qv[q])),
                                );
                                &&& node_info@.contains_key(s)
                                &&& cost(node_info@[s]@) <= cost(stored(algs[a], qv[q]))
                            },
                    decreases qv.len() - qi,
                {
                    let alg = alg_set[ai].duplicate();
                    let pre = pres[pi].duplicate();
                    let post = posts[qi].duplicate();
                    let ghost (av, prv, pov) = (alg@, pre@, post@);
                    assert(av == algs[ai as int] && prv == pv[pi as int] && pov == qv[qi as int]);
                    let moves_no_pre = post.op(alg);
                    let moves_no_pre_inverse = moves_no_pre.inverse();
                    let moves = moves_no_pre.op(pre);
                    assert(moves@ == enumerated(prv, av, pov)) by {
                        assert(moves@ =~= prv + (av + pov));
                    }
                    proof {
                        lemma_fits_concat(prv, av);
                        lemma_fits_concat(prv + av, pov);
                        lemma_fits_concat(av, pov);
                        assert(moves_fit(moves_no_pre_inverse@));
                    }
                    proof {
                        lemma_sequence_valid(moves@);
                    }
                    let perm = CubePermutation3::from_move_sequence(moves);
                    let s = signature.signature(&perm);
                    let new_cost = metric.cost(&moves_no_pre_inverse);
                    let ghost before = node_info@;
                    let existing = node_info.get(&s);
                    let replace = match existing {
                        Some(m) => new_cost < metric.cost(m),
                        None => true,
                    };
                    if replace {
                        node_info.insert(s, moves_no_pre_inverse);
                    }
                    proof {
                        assert forall|x: u64| #[trigger]
                            node_info@.contains_key(x) implies exists|a: int, p: int, q: int|
                            0 <= a < algs.len() && 0 <= p < pv.len() && 0 <= q < qv.len()
                                && #[trigger] sig(
                                spec_sequence(enumerated(pv[p], algs[a], qv[q])),
                            ) == x && node_info@[x]@ == stored(algs[a], qv[q]) by {
                            if replace && x == s {
                                assert(sig(spec_sequence(enumerated(pv[pi as int], algs[ai as int], qv[qi as int])))
                                    == x);
                            } else {
                                assert(before.contains_key(x));
                                assert(node_info@[x] == before[x]);
                            }
                        }
                        assert forall|a: int, p: int, q: int|
                            0 <= a < algs.len() && 0 <= p < pv.len() && 0 <= q < qv.len()
                                && enumerated_before(a, p, q, ai as int, pi as int, qi + 1) implies {
                                let x = #[trigger] sig(
                                    spec_sequence(enumerated(pv[p], algs[a], qv[q])),
                                );
                                &&& node_info@.contains_key(x)
                                &&& cost(node_info@[x]@) <= cost(stored(algs[a], qv[q]))
                            } by {
                            let x = sig(spec_sequence(enumerated(pv[p], algs[a], qv[q])));
                            if enumerated_before(a, p, q, ai as int, pi as int, qi as int) {
                                if replace && x == s {
                                    assert(cost(node_info@[x]@) == new_cost);
                                }
                            } else {
                                assert(a == ai && p == pi && q == qi);
                            }
                        }
                    }
                    qi = qi + 1;
                }
                pi = pi + 1;
            }
            ai = ai + 1;
        }
        let r = AlgorithmicSolver {
            node_info,
            algs: Ghost(algs),
            pres: Ghost(pv),
            posts: Ghost(qv),
            sig: Ghost(sig),
            cost: Ghost(cost),
        };
        assert forall|k: int| 0 <= k < pv.len() implies is_adjustment_of(#[trigger] pv[k], pre_moves@) by {
            assert(pv[k] == pres@[k]@);
        }
        assert forall|k: int| 0 <= k < qv.len() implies is_adjustment_of(#[trigger] qv[k], post_moves@) by {
            assert(qv[k] == posts@[k]@);
        }
        assert forall|s: u64| #[trigger] r.solutions().contains_key(s) implies moves_fit(r.solutions()[s]) by {
            assert(node_info@.contains_key(s));
        }
        assert forall|s: u64| #[trigger] r.solutions().contains_key(s) implies exists|a: int, p: int, q: int|
            0 <= a < algs.len() && 0 <= p < pv.len() && 0 <= q < qv.len()
                && #[trigger] r.filed_under(a, p, q) == s && r.solutions()[s] == stored(
                algs[a],
                qv[q],
            ) by {
            assert(node_info@.contains_key(s));
            let (a, p, q) = choose|a: int, p: int, q: int|
                0 <= a < algs.len() && 0 <= p < pv.len() && 0 <= q < qv.len()
                    && #[trigger] sig(spec_sequence(enumerated(pv[p], algs[a], qv[q]))) == s
                    && node_info@[s]@ == stored(algs[a], qv[q]);
            assert(r.filed_under(a, p, q) == s);
        }
        assert forall|a: int, p: int, q: int|
            0 <= a < algs.len() && 0 <= p < pv.len() && 0 <= q < qv.len() implies {
                let s = #[trigger] r.filed_under(a, p, q);
                &&& r.solutions().contains_key(s)
                &&& (r.cost_fn())(r.solutions()[s]) <= (r.cost_fn())(stored(algs[a], qv[q]))
            } by {
            let s = sig(spec_sequence(enumerated(pv[p], algs[a], qv[q])));
            assert(enumerated_before(a, p, q, algs.len() as int, 0, 0));
            assert(node_info@.contains_key(s));
        }
        r
    }

    /// The cheapest stored sequence for the signature, if any.
    pub fn solve(&self, signature: &u64) -> (r: Option<&MoveSequence>)
        ensures
            match r {
                Some(m) => self.solutions().contains_key(*signature) && m@ == self.solutions()[*signature],
                None => !self.solutions().contains_key(*signature),
            },
    {
        self.node_info.get(signature)
    }
}

} // verus!
