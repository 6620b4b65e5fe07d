use crate::cube::{Move, MoveSequence};
use vstd::prelude::*;

verus! {

/// Why an action was taken, at a base level.
#[derive(Debug, Clone)]
pub enum ActionReason {
    /// A full solve.
    Solve,
    /// A full shuffle.
    Shuffle,
    /// One step of a solving method.
    SolveStep { step_name: String },
    /// A move made intuitively.
    Intuitive,
}

/// What an action does to the cube.
#[derive(Debug)]
pub enum ActionSteps {
    /// Nothing at all.
    Nothing,
    /// A single move.
    Move { mv: Move },
    /// These actions, in order.
    Sequence { actions: Vec<Action> },
}

/// Something done to a cube, with the reason for doing it.
#[derive(Debug)]
pub struct Action {
    pub reason: ActionReason,
    /// Any further explanation of the reason.
    pub description: Option<String>,
    pub steps: ActionSteps,
}

/// The moves of a list of actions, in order: those of the first `n` actions.
pub open spec fn list_moves(actions: Seq<Action>, n: int) -> Seq<Move>
    decreases actions, n,
{
    if n <= 0 || n > actions.len() {
        Seq::empty()
    } else {
        list_moves(actions, n - 1) + steps_moves(actions[n - 1].steps)
    }
}

/// The moves that steps come to, left to right.
pub open spec fn steps_moves(s: ActionSteps) -> Seq<Move>
    decreases s, 0int,
{
    match s {
        ActionSteps::Nothing => Seq::empty(),
        ActionSteps::Move { mv } => seq![mv],
        ActionSteps::Sequence { actions } => list_moves(actions@, actions@.len() as int),
    }
}

/// The action holds a single move, made intuitively, with no description.
pub open spec fn is_move_leaf(a: Action, mv: Move) -> bool {
    &&& a.reason == ActionReason::Intuitive
    &&& a.description is None
    &&& a.steps == (ActionSteps::Move { mv })
}

/// The action is a sequence of single-move leaves, one for each of its moves, in order.
pub open spec fn is_move_step(a: Action) -> bool {
    &&& a.steps is Sequence
    &&& a.steps->actions@.len() == steps_moves(a.steps).len()
    &&& forall|i: int|
        0 <= i < a.steps->actions@.len() ==> is_move_leaf(
            #[trigger] a.steps->actions@[i],
            steps_moves(a.steps)[i],
        )
}

/// The number of leaves under the first `n` actions, each a sequence of leaves.
pub open spec fn leaf_count(actions: Seq<Action>, n: int) -> int
    decreases n,
{
    if n <= 0 || n > actions.len() {
        0
    } else {
        leaf_count(actions, n - 1) + actions[n - 1].steps->actions@.len()
    }
}

impl ActionSteps {
    /// The moves these steps come to, left to right.
    pub fn move_sequence(&self) -> (r: MoveSequence)
        ensures
            r@ == steps_moves(*self),
        decreases self,
    {
        match self {
            ActionSteps::Nothing => MoveSequence::empty(),
            ActionSteps::Move { mv } => {
                let mut moves: Vec<Move> = Vec::new();
                moves.push(*mv);
                let r = MoveSequence { moves };
                assert(r@ =~= seq![*mv]);
                r
            },
            ActionSteps::Sequence { actions } => {
                let mut moves: Vec<Move> = Vec::new();
                let mut i: usize = 0;
                while i < actions.len()
                    invariant
                        *self is Sequence,
                        self->actions == *actions,
                        i <= actions@.len(),
                        moves@ == list_moves(actions@, i as int),
                    decreases actions@.len() - i,
                {
                    proof {
                        let a = actions@[i as int];
                        assert(decreases_to!(*self => self->actions));
                        assert(self->actions == *actions);
                        assert(decreases_to!(*actions => actions@));
                        assert(decreases_to!(actions@ => a));
                        assert(decreases_to!(a => a.steps));
                        assert(decreases_to!(*self => a.steps));
                    }
                    let sub = actions[i].steps.move_sequence();
                    let mut j: usize = 0;
                    let ghost start = moves@;
                    while j < sub.moves.len()
                        invariant
                            j <= sub@.len(),
                            moves@ == start + sub@.subrange(0, j as int),
                        decreases sub@.len() - j,
                    {
                        moves.push(sub.moves[j]);
                        j = j + 1;
                        assert(moves@ =~= start + sub@.subrange(0, j as int));
                    }
                    assert(sub@.subrange(0, j as int) =~= sub@);
                    i = i + 1;
                }
                MoveSequence { moves }
            },
        }
    }
}

/// The moves of actions that are all single moves are those moves.
pub proof fn lemma_leaf_moves(actions: Seq<Action>, ms: Seq<Move>, n: int)
    requires
        actions.len() == ms.len(),
        0 <= n <= actions.len(),
        forall|i: int| 0 <= i < actions.len() ==> is_move_leaf(#[trigger] actions[i], ms[i]),
    ensures
        list_moves(actions, n) == ms.subrange(0, n),
    decreases n,
{
    if n > 0 {
        lemma_leaf_moves(actions, ms, n - 1);
        assert(is_move_leaf(actions[n - 1], ms[n - 1]));
        assert(steps_moves(actions[n - 1].steps) == seq![ms[n - 1]]);
        assert(list_moves(actions, n) == list_moves(actions, n - 1) + steps_moves(actions[n - 1].steps));
        assert(ms.subrange(0, n - 1) + seq![ms[n - 1]] =~= ms.subrange(0, n));
    }
}

/// A solving step made of the given moves, each as an intuitive single-move action.
pub fn move_sequence_to_intuitive_action(step_name: &str, seq: MoveSequence) -> (r: Action)
    ensures
        r.reason == (ActionReason::SolveStep { step_name: r.reason->step_name }),
        r.reason->step_name@ == step_name@,
        r.description is None,
        r.steps is Sequence,
        r.steps->actions@.len() == seq@.len(),
        forall|i: int| 0 <= i < seq@.len() ==> is_move_leaf(#[trigger] r.steps->actions@[i], seq@[i]),
        steps_moves(r.steps) == seq@,
        is_move_step(r),
{
    let mut actions: Vec<Action> = Vec::new();
    let mut i: usize = 0;
    while i < seq.moves.len()
        invariant
            i <= seq@.len(),
            actions@.len() == i,
            forall|j: int| 0 <= j < i ==> is_move_leaf(#[trigger] actions@[j], seq@[j]),
        decreases seq@.len() - i,
    {
        let mv = seq.moves[i];
        actions.push(Action { reason: ActionReason::Intuitive, description: None, steps: ActionSteps::Move { mv } });
        i = i + 1;
    }
    proof {
        lemma_leaf_moves(actions@, seq@, actions@.len() as int);
        assert(seq@.subrange(0, seq@.len() as int) =~= seq@);
    }
    Action {
        reason: ActionReason::SolveStep { step_name: step_name.to_owned() },
        description: None,
        steps: ActionSteps::Sequence { actions },
    }
}

} // verus!
