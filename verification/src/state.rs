//! Game states, the transitions that they ask for, and the events that
//! they are told of.

use crate::loop_state::LoopState;
use crate::platform::{Event, Platform};
use crate::window::{StateData, StateDataView};
use vstd::prelude::*;

verus! {

broadcast use {
    vstd::seq::axiom_seq_index_decreases,
    vstd::seq::axiom_seq_subrange_decreases,
    vstd::std_specs::vec::axiom_vec_decreases_to_view,
};

/// A change of the stack of states, asked for by the state on top of it.
pub enum Trans<S> {
    /// Leave the stack as it is.
    Stay,
    /// Start the state and put it on top.
    Push(S),
    /// Stop the top state and take it off.
    Pop,
    /// Stop the top state and put the given one in its place. The new
    /// state is not started.
    Switch(S),
    /// Stop every state, from the top down, and end the application.
    Exit,
    /// Make the given changes one after the other.
    Vec(Vec<Trans<S>>),
}

impl<S> Default for Trans<S> {
    fn default() -> (tran: Trans<S>)
        ensures
            tran is Stay,
    {
        Trans::Stay
    }
}

/// A single change of the stack: what is left of a transition once its
/// batches are taken apart.
pub enum Step<S> {
    /// Start the state and put it on top.
    Push(S),
    /// Stop the top state and take it off.
    Pop,
    /// Stop the top state and put the given one in its place.
    Switch(S),
    /// Stop every state, from the top down, and end the application.
    Exit,
}

impl<S> Step<S> {
    /// The depth of a stack of depth `depth` after this step, or `None`
    /// where the step cannot be made: it needs a top state and there is
    /// none, or it would grow the stack beyond `limit`, where there is
    /// one.
    pub open spec fn depth_after(self, depth: nat, limit: Option<nat>) -> Option<nat> {
        match self {
            Step::Push(_) => if limit is None || depth < limit->0 {
                Some(depth + 1)
            } else {
                None
            },
            Step::Pop => if depth > 0 {
                Some((depth - 1) as nat)
            } else {
                None
            },
            Step::Switch(_) => if depth > 0 {
                Some(depth)
            } else {
                None
            },
            Step::Exit => if depth > 0 {
                Some(0)
            } else {
                None
            },
        }
    }
}

/// The depth of a stack of depth `depth` after all of `steps`, or `None`
/// where one of them cannot be made. No stack grows beyond `limit`, where
/// there is one.
pub open spec fn depth_after<S>(depth: nat, steps: Seq<Step<S>>, limit: Option<nat>) -> Option<nat>
    decreases steps.len(),
{
    if steps.len() == 0 {
        Some(depth)
    } else {
        match depth_after(depth, steps.drop_last(), limit) {
            Some(before) => steps.last().depth_after(before, limit),
            None => None,
        }
    }
}

impl<S> Trans<S> {
    /// The single steps that the transition stands for, in their order.
    pub open spec fn steps(self) -> Seq<Step<S>>
        decreases self,
    {
        match self {
            Trans::Stay => Seq::empty(),
            Trans::Push(s) => seq![Step::Push(s)],
            Trans::Pop => seq![Step::Pop],
            Trans::Switch(s) => seq![Step::Switch(s)],
            Trans::Exit => seq![Step::Exit],
            Trans::Vec(ts) => steps_of(ts@),
        }
    }

    /// Whether the transition can be applied to a stack of depth `depth`:
    /// no step of it finds the stack empty where it needs a top state.
    pub open spec fn applies(self, depth: nat) -> bool {
        depth_after(depth, self.steps(), None) is Some
    }

    /// Whether the transition can be applied to a stack of depth `depth`
    /// that a vector holds: it applies, and the stack never outgrows what
    /// a vector can hold.
    pub open spec fn fits(self, depth: nat) -> bool {
        depth_after(depth, self.steps(), Some(usize::MAX as nat)) is Some
    }
}

/// The single steps of a sequence of transitions.
pub open spec fn steps_of<S>(ts: Seq<Trans<S>>) -> Seq<Step<S>>
    decreases ts,
{
    if ts.len() == 0 {
        Seq::empty()
    } else {
        steps_of(ts.drop_last()) + ts.last().steps()
    }
}

/// How many of the steps put a state on the stack.
pub open spec fn pushes<S>(steps: Seq<Step<S>>) -> nat
    decreases steps.len(),
{
    if steps.len() == 0 {
        0
    } else {
        pushes(steps.drop_last()) + if steps.last() is Push {
            1nat
        } else {
            0nat
        }
    }
}

/// How many of the steps take a state off the stack.
pub open spec fn pops<S>(steps: Seq<Step<S>>) -> nat
    decreases steps.len(),
{
    if steps.len() == 0 {
        0
    } else {
        pops(steps.drop_last()) + if steps.last() is Pop {
            1nat
        } else {
            0nat
        }
    }
}

/// Making the steps of `first` and then those of `second` leads to the
/// depth that `second` reaches from the depth that `first` reached.
pub proof fn lemma_depth_after_concat<S>(
    depth: nat,
    first: Seq<Step<S>>,
    second: Seq<Step<S>>,
    limit: Option<nat>,
)
    ensures
        depth_after(depth, first + second, limit) == match depth_after(depth, first, limit) {
            Some(between) => depth_after(between, second, limit),
            None => None,
        },
    decreases second.len(),
{
    if second.len() == 0 {
        assert(first + second =~= first);
    } else {
        assert((first + second).drop_last() =~= first + second.drop_last());
        assert((first + second).last() == second.last());
        lemma_depth_after_concat(depth, first, second.drop_last(), limit);
    }
}

/// The depth after a single step.
pub proof fn lemma_depth_after_one<S>(depth: nat, step: Step<S>, limit: Option<nat>)
    ensures
        depth_after(depth, seq![step], limit) == step.depth_after(depth, limit),
{
    let steps = seq![step];
    assert(steps.drop_last() =~= Seq::<Step<S>>::empty());
    assert(steps.last() == step);
    assert(depth_after(depth, steps.drop_last(), limit) == Some(depth));
}

/// Steps that can be made under a limit can be made without one, and lead
/// to the same depth.
pub proof fn lemma_depth_after_unlimited<S>(depth: nat, steps: Seq<Step<S>>, limit: Option<nat>)
    requires
        depth_after(depth, steps, limit) is Some,
    ensures
        depth_after(depth, steps, None) == depth_after(depth, steps, limit),
    decreases steps.len(),
{
    if steps.len() > 0 {
        lemma_depth_after_unlimited(depth, steps.drop_last(), limit);
    }
}

/// Steps without `Exit` that never take off more states than were there
/// and were put on can all be made, and change the depth of the stack by
/// the number of pushes less the number of pops.
pub proof fn lemma_depth_after_counts<S>(depth: nat, steps: Seq<Step<S>>)
    requires
        forall|i: int| 0 <= i < steps.len() ==> !(#[trigger] steps[i] is Exit),
        forall|k: int|
            0 <= k <= steps.len() ==> pops(#[trigger] steps.take(k)) < depth + pushes(
                steps.take(k),
            ),
    ensures
        depth_after(depth, steps, None) == Some((depth + pushes(steps) - pops(steps)) as nat),
        depth + pushes(steps) - pops(steps) >= 1,
    decreases steps.len(),
{
    assert(steps.take(steps.len() as int) =~= steps);
    if steps.len() > 0 {
        let front = steps.drop_last();
        assert forall|i: int| 0 <= i < front.len() implies !(#[trigger] front[i] is Exit) by {
            assert(front[i] == steps[i]);
        }
        assert forall|k: int| 0 <= k <= front.len() implies pops(#[trigger] front.take(k))
            < depth + pushes(front.take(k)) by {
            assert(front.take(k) =~= steps.take(k));
        }
        lemma_depth_after_counts(depth, front);
        assert(!(steps[steps.len() - 1] is Exit));
    }
}

/// When a transition of a single step fits: a push fits every stack that
/// can still grow, a pop, a switch and an exit fit every stack that holds
/// a state, and to stay fits every stack.
pub proof fn lemma_fits_single<S>(tran: Trans<S>, depth: nat)
    requires
        !(tran is Vec),
    ensures
        tran.fits(depth) == match tran {
            Trans::Stay => true,
            Trans::Push(_) => depth < usize::MAX,
            _ => depth > 0,
        },
{
    let limit = Some(usize::MAX as nat);
    match tran {
        Trans::Push(state) => lemma_depth_after_one(depth, Step::Push(state), limit),
        Trans::Pop => lemma_depth_after_one(depth, Step::<S>::Pop, limit),
        Trans::Switch(state) => lemma_depth_after_one(depth, Step::Switch(state), limit),
        Trans::Exit => lemma_depth_after_one(depth, Step::<S>::Exit, limit),
        _ => {},
    }
}

/// The steps of a sequence of transitions that is cut in two.
pub proof fn lemma_steps_of_concat<S>(first: Seq<Trans<S>>, second: Seq<Trans<S>>)
    ensures
        steps_of(first + second) == steps_of(first) + steps_of(second),
    decreases second.len(),
{
    if second.len() == 0 {
        assert(first + second =~= first);
        assert(steps_of(first) + steps_of(second) =~= steps_of(first));
    } else {
        assert((first + second).drop_last() =~= first + second.drop_last());
        assert((first + second).last() == second.last());
        lemma_steps_of_concat(first, second.drop_last());
        assert((steps_of(first) + steps_of(second.drop_last())) + second.last().steps() =~= steps_of(
            first,
        ) + (steps_of(second.drop_last()) + second.last().steps()));
    }
}

impl<S> Trans<S> {
    /// The depth of a stack of depth `depth` after the transition, or
    /// `None` where the transition does not fit such a stack.
    pub fn check(&self, depth: usize) -> (after: Option<usize>)
        ensures
            after is Some == self.fits(depth as nat),
            after matches Some(d) ==> depth_after(
                depth as nat,
                self.steps(),
                Some(usize::MAX as nat),
            ) == Some(d as nat),
        decreases self,
    {
        let ghost limit = Some(usize::MAX as nat);
        match self {
            Trans::Stay => Some(depth),
            Trans::Push(s) => {
                proof {
                    lemma_depth_after_one(depth as nat, Step::Push(*s), limit);
                }
                if depth < usize::MAX {
                    Some(depth + 1)
                } else {
                    None
                }
            },
            Trans::Pop => {
                proof {
                    lemma_depth_after_one(depth as nat, Step::<S>::Pop, limit);
                }
                if depth > 0 {
                    Some(depth - 1)
                } else {
                    None
                }
            },
            Trans::Switch(s) => {
                proof {
                    lemma_depth_after_one(depth as nat, Step::Switch(*s), limit);
                }
                if depth > 0 {
                    Some(depth)
                } else {
                    None
                }
            },
            Trans::Exit => {
                proof {
                    lemma_depth_after_one(depth as nat, Step::<S>::Exit, limit);
                }
                if depth > 0 {
                    Some(0)
                } else {
                    None
                }
            },
            Trans::Vec(ts) => {
                let mut current = depth;
                for i in 0..ts.len()
                    invariant
                        limit == Some(usize::MAX as nat),
                        self.steps() == steps_of(ts@),
                        depth_after(depth as nat, steps_of(ts@.take(i as int)), limit) == Some(
                            current as nat,
                        ),
                        forall|j: int| 0 <= j < ts@.len() ==> decreases_to!(self => ts@[j]),
                {
                    proof {
                        assert(ts@.take(i + 1) =~= ts@.take(i as int) + seq![ts@[i as int]]);
                        assert(ts@.take(i + 1).drop_last() =~= ts@.take(i as int));
                        assert(steps_of(ts@.take(i + 1)) == steps_of(ts@.take(i as int))
                            + ts@[i as int].steps());
                        lemma_depth_after_concat(
                            depth as nat,
                            steps_of(ts@.take(i as int)),
                            ts@[i as int].steps(),
                            limit,
                        );
                    }
                    match ts[i].check(current) {
                        Some(next) => {
                            current = next;
                        },
                        None => {
                            proof {
                                let rest = ts@.skip(i + 1);
                                assert(ts@ =~= ts@.take(i + 1) + rest);
                                lemma_steps_of_concat(ts@.take(i + 1), rest);
                                lemma_depth_after_concat(
                                    depth as nat,
                                    steps_of(ts@.take(i + 1)),
                                    steps_of(rest),
                                    limit,
                                );
                            }
                            return None;
                        },
                    }
                }
                assert(ts@.take(ts@.len() as int) =~= ts@);
                Some(current)
            },
        }
    }
}

/// What the driver tells every state of.
#[derive(Clone, Copy, Debug, PartialEq, Eq)]
pub enum StateEvent {
    /// An event of the window.
    Window(Event),
    /// The user interface of the frame has been drawn.
    PostUiRender,
    /// A GPU surface is there, newly made or with a new size.
    FoundGPU,
}

/// A layer of interactive behaviour: a menu, a screen of the game. The
/// driver owns the states on its stack and calls their hooks.
///
/// Beside each hook stands a relation between what the hook found and what
/// it left behind. It holds of every call, and the contracts of the driver
/// are stated over it. A type that promises nothing of a hook leaves the
/// relation as it is given here.
pub trait GameState<P: Platform>: Sized {
    /// What `start` does: `post` and `post_data` are what it made of `pre`
    /// and `data`.
    open spec fn start_post(pre: Self, data: StateDataView<P>, post: Self, post_data: StateDataView<P>) -> bool {
        true
    }

    /// Called once, before the state goes on the stack.
    fn start(&mut self, data: &mut StateData<P>)
        ensures
            Self::start_post(*old(self), old(data)@, *final(self), final(data)@),
    ;

    /// What `update` does, and what it returned.
    open spec fn update_post(
        pre: Self,
        data: StateDataView<P>,
        post: Self,
        post_data: StateDataView<P>,
        out: (Trans<Self>, LoopState),
    ) -> bool {
        true
    }

    /// The logic of one tick. It is called on the top state only, and what
    /// it returns decides how the stack changes.
    fn update(&mut self, data: &mut StateData<P>) -> (out: (Trans<Self>, LoopState))
        ensures
            Self::update_post(*old(self), old(data)@, *final(self), final(data)@, out),
    ;

    /// What `shadow_update` does, and what it returned.
    open spec fn shadow_update_post(pre: Self, post: Self, out: LoopState) -> bool {
        true
    }

    /// The background logic of one tick, called on every state of the
    /// stack. It cannot ask for a transition.
    fn shadow_update(&mut self) -> (out: LoopState)
        ensures
            Self::shadow_update_post(*old(self), *final(self), out),
    ;

    /// What `render` does, and what it returned.
    open spec fn render_post(
        pre: Self,
        data: StateDataView<P>,
        ui: P::Ui,
        post: Self,
        post_data: StateDataView<P>,
        out: Trans<Self>,
    ) -> bool {
        true
    }

    /// Builds the user interface of one frame. It is called on the top
    /// state only, and what it returns decides how the stack changes.
    fn render(&mut self, data: &mut StateData<P>, ui: &P::Ui) -> (out: Trans<Self>)
        ensures
            Self::render_post(*old(self), old(data)@, *ui, *final(self), final(data)@, out),
    ;

    /// What `shadow_render` does.
    open spec fn shadow_render_post(pre: Self, data: StateDataView<P>, ui: P::Ui, post: Self) -> bool {
        true
    }

    /// Draws the background of one frame, called on every state of the
    /// stack. It cannot ask for a transition.
    fn shadow_render(&mut self, data: &StateData<P>, ui: &P::Ui)
        ensures
            Self::shadow_render_post(*old(self), data@, *ui, *final(self)),
    ;

    /// What `on_event` does.
    open spec fn on_event_post(
        pre: Self,
        data: StateDataView<P>,
        event: StateEvent,
        post: Self,
        post_data: StateDataView<P>,
    ) -> bool {
        true
    }

    /// Tells the state of an event.
    fn on_event(&mut self, data: &mut StateData<P>, event: StateEvent)
        ensures
            Self::on_event_post(*old(self), old(data)@, event, *final(self), final(data)@),
    ;

    /// What `stop` does.
    open spec fn stop_post(pre: Self, data: StateDataView<P>, post: Self, post_data: StateDataView<P>) -> bool {
        true
    }

    /// Called once, before the state leaves the stack.
    fn stop(&mut self, data: &mut StateData<P>)
        ensures
            Self::stop_post(*old(self), old(data)@, *final(self), final(data)@),
    ;
}

/// The state that does nothing: it touches no data, asks for no
/// transition, and lets the loop wait.
impl<P: Platform> GameState<P> for () {
    open spec fn start_post(pre: (), data: StateDataView<P>, post: (), post_data: StateDataView<P>) -> bool {
        post_data == data
    }

    fn start(&mut self, data: &mut StateData<P>) {
    }

    open spec fn update_post(
        pre: (),
        data: StateDataView<P>,
        post: (),
        post_data: StateDataView<P>,
        out: (Trans<()>, LoopState),
    ) -> bool {
        post_data == data && out.0 is Stay && out.1 == LoopState::spec_wait()
    }

    fn update(&mut self, data: &mut StateData<P>) -> (out: (Trans<()>, LoopState)) {
        (Trans::Stay, LoopState::wait())
    }

    open spec fn shadow_update_post(pre: (), post: (), out: LoopState) -> bool {
        out == LoopState::spec_wait_all()
    }

    fn shadow_update(&mut self) -> (out: LoopState) {
        LoopState::wait_all()
    }

    open spec fn render_post(
        pre: (),
        data: StateDataView<P>,
        ui: P::Ui,
        post: (),
        post_data: StateDataView<P>,
        out: Trans<()>,
    ) -> bool {
        post_data == data && out is Stay
    }

    fn render(&mut self, data: &mut StateData<P>, ui: &P::Ui) -> (out: Trans<()>) {
        Trans::Stay
    }

    fn shadow_render(&mut self, data: &StateData<P>, ui: &P::Ui) {
    }

    open spec fn on_event_post(
        pre: (),
        data: StateDataView<P>,
        event: StateEvent,
        post: (),
        post_data: StateDataView<P>,
    ) -> bool {
        post_data == data
    }

    fn on_event(&mut self, data: &mut StateData<P>, event: StateEvent) {
    }

    open spec fn stop_post(pre: (), data: StateDataView<P>, post: (), post_data: StateDataView<P>) -> bool {
        post_data == data
    }

    fn stop(&mut self, data: &mut StateData<P>) {
    }
}

} // verus!
