//! The stack of game states as the contracts see it: what a transition
//! does to it, what a tick and a frame do to it, and what follows.

use crate::loop_state::{merge_all, LoopState};
use crate::platform::Platform;
use crate::state::{
    depth_after, lemma_depth_after_counts, lemma_depth_after_one, pops, pushes, GameState,
    StateEvent, Step, Trans,
};
use crate::window::StateDataView;
use vstd::prelude::*;

verus! {

/// A transition that does not fit the stack: it would take a state off an
/// empty stack, or grow the stack beyond what a vector holds.
#[derive(Clone, Copy, Debug, PartialEq, Eq)]
pub struct StackError {
    /// The depth of the stack that the transition was meant for.
    pub depth: usize,
}

/// The stack with what its hooks work on.
#[verifier::ext_equal]
pub struct Scene<P: Platform, S> {
    pub data: StateDataView<P>,
    pub states: Seq<S>,
    pub running: bool,
}

impl<P: Platform, S> Scene<P, S> {
    /// The scene with other data for the hooks.
    pub open spec fn with_data(self, data: StateDataView<P>) -> Scene<P, S> {
        Scene { data, ..self }
    }
}

/// `stop` was called on `state` and turned `data` into `post_data`.
pub open spec fn stopped<P: Platform, S: GameState<P>>(
    state: S,
    data: StateDataView<P>,
    post_data: StateDataView<P>,
) -> bool {
    exists|after: S| S::stop_post(state, data, after, post_data)
}

/// Every state of `states` was stopped, from the last one down to the
/// first, and `datas` holds what the hooks found and left: the call on the
/// `k`-th state from the top turned `datas[k]` into `datas[k + 1]`.
pub open spec fn drained_along<P: Platform, S: GameState<P>>(
    states: Seq<S>,
    datas: Seq<StateDataView<P>>,
) -> bool {
    &&& datas.len() == states.len() + 1
    &&& forall|k: int|
        0 <= k < states.len() ==> stopped(
            states[states.len() - 1 - k],
            #[trigger] datas[k],
            datas[k + 1],
        )
}

/// Every state of `states` was stopped, from the last one down to the
/// first, which turned `data` into `post_data`.
pub open spec fn drained<P: Platform, S: GameState<P>>(
    states: Seq<S>,
    data: StateDataView<P>,
    post_data: StateDataView<P>,
) -> bool {
    exists|datas: Seq<StateDataView<P>>|
        drained_along(states, datas) && datas.first() == data && datas.last() == post_data
}

/// One step was made on `pre` and led to `post`.
pub open spec fn stepped<P: Platform, S: GameState<P>>(
    pre: Scene<P, S>,
    step: Step<S>,
    post: Scene<P, S>,
) -> bool {
    match step {
        Step::Push(state) => {
            &&& post.states.len() == pre.states.len() + 1
            &&& post.states.drop_last() == pre.states
            &&& S::start_post(state, pre.data, post.states.last(), post.data)
            &&& post.running == pre.running
        },
        Step::Pop => {
            &&& pre.states.len() > 0
            &&& stopped(pre.states.last(), pre.data, post.data)
            &&& post.states == pre.states.drop_last()
            &&& post.running == pre.running
        },
        Step::Switch(state) => {
            &&& pre.states.len() > 0
            &&& stopped(pre.states.last(), pre.data, post.data)
            &&& post.states == pre.states.drop_last().push(state)
            &&& post.running == pre.running
        },
        Step::Exit => {
            &&& pre.states.len() > 0
            &&& drained(pre.states, pre.data, post.data)
            &&& post.states.len() == 0
            &&& !post.running
        },
    }
}

/// The steps were made one after the other, and `path` holds the scenes
/// that they went through: step `i` led from `path[i]` to `path[i + 1]`.
pub open spec fn ran_along<P: Platform, S: GameState<P>>(
    steps: Seq<Step<S>>,
    path: Seq<Scene<P, S>>,
) -> bool {
    &&& path.len() == steps.len() + 1
    &&& forall|i: int|
        0 <= i < steps.len() ==> stepped(path[i], #[trigger] steps[i], path[i + 1])
}

/// The steps were made on `pre` one after the other and led to `post`.
pub open spec fn ran<P: Platform, S: GameState<P>>(
    pre: Scene<P, S>,
    steps: Seq<Step<S>>,
    post: Scene<P, S>,
) -> bool {
    exists|path: Seq<Scene<P, S>>|
        ran_along(steps, path) && path.first() == pre && path.last() == post
}

/// A run without steps changes nothing.
pub proof fn lemma_ran_none<P: Platform, S: GameState<P>>(pre: Scene<P, S>, post: Scene<P, S>)
    ensures
        ran(pre, Seq::<Step<S>>::empty(), post) == (post == pre),
{
    let steps = Seq::<Step<S>>::empty();
    if post == pre {
        let path = seq![pre];
        assert(ran_along(steps, path) && path.first() == pre && path.last() == post);
    }
}

/// A single step is a run of one step.
pub proof fn lemma_ran_one<P: Platform, S: GameState<P>>(
    pre: Scene<P, S>,
    step: Step<S>,
    post: Scene<P, S>,
)
    ensures
        ran(pre, seq![step], post) == stepped(pre, step, post),
{
    let steps = seq![step];
    if stepped(pre, step, post) {
        let path = seq![pre, post];
        assert(ran_along(steps, path) && path.first() == pre && path.last() == post);
    }
    if ran(pre, steps, post) {
        let path = choose|path: Seq<Scene<P, S>>|
            ran_along(steps, path) && path.first() == pre && path.last() == post;
        assert(steps[0] == step);
    }
}

/// Two runs, the second from where the first ended, are one run of all
/// their steps.
pub proof fn lemma_ran_concat<P: Platform, S: GameState<P>>(
    pre: Scene<P, S>,
    first: Seq<Step<S>>,
    between: Scene<P, S>,
    second: Seq<Step<S>>,
    post: Scene<P, S>,
)
    requires
        ran(pre, first, between),
        ran(between, second, post),
    ensures
        ran(pre, first + second, post),
{
    let head = choose|path: Seq<Scene<P, S>>|
        ran_along(first, path) && path.first() == pre && path.last() == between;
    let tail = choose|path: Seq<Scene<P, S>>|
        ran_along(second, path) && path.first() == between && path.last() == post;
    let steps = first + second;
    let path = head + tail.drop_first();
    assert forall|i: int| 0 <= i < steps.len() implies stepped(
        path[i],
        #[trigger] steps[i],
        path[i + 1],
    ) by {
        if i < first.len() {
            assert(steps[i] == first[i]);
            assert(path[i] == head[i]);
            if i + 1 < head.len() {
                assert(path[i + 1] == head[i + 1]);
            } else {
                assert(path[i + 1] == tail[1]);
                assert(head[i + 1] == tail[0]);
            }
        } else {
            let j = i - first.len();
            assert(steps[i] == second[j]);
            assert(path[i + 1] == tail[j + 1]);
            if j == 0 {
                assert(path[i] == head.last());
            } else {
                assert(path[i] == tail[j]);
            }
        }
    }
    assert(ran_along(steps, path) && path.first() == pre && path.last() == post);
}

/// A run can be cut after any number of steps.
pub proof fn lemma_ran_split<P: Platform, S: GameState<P>>(
    pre: Scene<P, S>,
    first: Seq<Step<S>>,
    second: Seq<Step<S>>,
    post: Scene<P, S>,
)
    requires
        ran(pre, first + second, post),
    ensures
        exists|between: Scene<P, S>| ran(pre, first, between) && ran(between, second, post),
{
    let steps = first + second;
    let path = choose|path: Seq<Scene<P, S>>|
        ran_along(steps, path) && path.first() == pre && path.last() == post;
    let cut = first.len() as int;
    let head = path.take(cut + 1);
    let tail = path.skip(cut);
    assert forall|i: int| 0 <= i < first.len() implies stepped(
        head[i],
        #[trigger] first[i],
        head[i + 1],
    ) by {
        assert(steps[i] == first[i]);
    }
    assert forall|i: int| 0 <= i < second.len() implies stepped(
        tail[i],
        #[trigger] second[i],
        tail[i + 1],
    ) by {
        assert(steps[cut + i] == second[i]);
    }
    let between = path[cut];
    assert(ran_along(first, head) && head.first() == pre && head.last() == between);
    assert(ran_along(second, tail) && tail.first() == between && tail.last() == post);
    assert(ran(pre, first, between) && ran(between, second, post));
}

/// A run changes the depth of the stack as its steps say, and it clears
/// the running flag exactly if one of its steps is `Exit`.
pub proof fn lemma_ran_depth<P: Platform, S: GameState<P>>(
    pre: Scene<P, S>,
    steps: Seq<Step<S>>,
    post: Scene<P, S>,
)
    requires
        ran(pre, steps, post),
    ensures
        depth_after(pre.states.len(), steps, None) == Some(post.states.len()),
        post.running == (pre.running && forall|i: int|
            0 <= i < steps.len() ==> !(#[trigger] steps[i] is Exit)),
    decreases steps.len(),
{
    if steps.len() == 0 {
        lemma_ran_none(pre, post);
        assert(steps =~= Seq::<Step<S>>::empty());
    } else {
        let last = seq![steps.last()];
        assert(steps =~= steps.drop_last() + last);
        lemma_ran_split(pre, steps.drop_last(), last, post);
        let between = choose|between: Scene<P, S>|
            ran(pre, steps.drop_last(), between) && ran(between, last, post);
        lemma_ran_one(between, steps.last(), post);
        lemma_ran_depth(pre, steps.drop_last(), between);
        if between.running && !(steps.last() is Exit) {
            assert forall|i: int| 0 <= i < steps.len() implies !(#[trigger] steps[i] is Exit) by {
                if i < steps.len() - 1 {
                    assert(steps.drop_last()[i] == steps[i]);
                }
            }
        } else if !between.running {
            if pre.running {
                let i = choose|i: int|
                    0 <= i < steps.drop_last().len() && (#[trigger] steps.drop_last()[i] is Exit);
                assert(steps[i] is Exit);
            }
        }
    }
}

/// A run without `Exit` leaves the running flag alone and changes the
/// depth of the stack by the number of its pushes less the number of its
/// pops.
pub proof fn lemma_ran_counts<P: Platform, S: GameState<P>>(
    pre: Scene<P, S>,
    steps: Seq<Step<S>>,
    post: Scene<P, S>,
)
    requires
        ran(pre, steps, post),
        forall|i: int| 0 <= i < steps.len() ==> !(#[trigger] steps[i] is Exit),
    ensures
        post.states.len() == pre.states.len() + pushes(steps) - pops(steps),
        post.running == pre.running,
    decreases steps.len(),
{
    if steps.len() == 0 {
        lemma_ran_none(pre, post);
        assert(steps =~= Seq::<Step<S>>::empty());
    } else {
        let last = seq![steps.last()];
        assert(steps =~= steps.drop_last() + last);
        lemma_ran_split(pre, steps.drop_last(), last, post);
        let between = choose|between: Scene<P, S>|
            ran(pre, steps.drop_last(), between) && ran(between, last, post);
        lemma_ran_one(between, steps.last(), post);
        assert forall|i: int| 0 <= i < steps.drop_last().len() implies !(
        #[trigger] steps.drop_last()[i] is Exit) by {
            assert(steps.drop_last()[i] == steps[i]);
        }
        lemma_ran_counts(pre, steps.drop_last(), between);
        assert(!(steps[steps.len() - 1] is Exit));
    }
}

/// A stack is never empty before `Exit`: while the steps made on it take
/// off no more states than it held at the start and they put on, after
/// any number of the steps the stack still holds a state, as many as it
/// held with the pushes added and the pops taken away, and the
/// application still runs if it ran.
pub proof fn lemma_stack_never_empty<P: Platform, S: GameState<P>>(
    pre: Scene<P, S>,
    steps: Seq<Step<S>>,
    made: int,
    reached: Scene<P, S>,
)
    requires
        forall|i: int| 0 <= i < steps.len() ==> !(#[trigger] steps[i] is Exit),
        forall|k: int|
            0 <= k <= steps.len() ==> pops(#[trigger] steps.take(k)) < pre.states.len() + pushes(
                steps.take(k),
            ),
        0 <= made <= steps.len(),
        ran(pre, steps.take(made), reached),
    ensures
        reached.states.len() == pre.states.len() + pushes(steps.take(made)) - pops(
            steps.take(made),
        ),
        reached.states.len() >= 1,
        reached.running == pre.running,
{
    let prefix = steps.take(made);
    assert forall|i: int| 0 <= i < prefix.len() implies !(#[trigger] prefix[i] is Exit) by {
        assert(prefix[i] == steps[i]);
    }
    lemma_ran_counts(pre, prefix, reached);
}

/// A transition without `Exit` whose steps take off no more states than
/// the stack holds and they put on can always be applied, and leaves a
/// stack that holds a state: as many as it held with the pushes added and
/// the pops taken away. The application still runs if it ran.
pub proof fn lemma_transition_keeps_stack_filled<P: Platform, S: GameState<P>>(
    pre: Scene<P, S>,
    tran: Trans<S>,
    post: Scene<P, S>,
)
    requires
        forall|i: int| 0 <= i < tran.steps().len() ==> !(#[trigger] tran.steps()[i] is Exit),
        forall|k: int|
            0 <= k <= tran.steps().len() ==> pops(#[trigger] tran.steps().take(k))
                < pre.states.len() + pushes(tran.steps().take(k)),
    ensures
        tran.applies(pre.states.len()),
        ran(pre, tran.steps(), post) ==> {
            &&& post.states.len() == pre.states.len() + pushes(tran.steps()) - pops(tran.steps())
            &&& post.states.len() >= 1
            &&& post.running == pre.running
        },
{
    let steps = tran.steps();
    lemma_depth_after_counts(pre.states.len(), steps);
    if ran(pre, steps, post) {
        assert(steps.take(steps.len() as int) =~= steps);
        lemma_stack_never_empty(pre, steps, steps.len() as int, post);
    }
}

/// `Exit` always leaves the stack empty and the application stopped,
/// whatever was done before it.
pub proof fn lemma_exit_empties<P: Platform, S: GameState<P>>(
    pre: Scene<P, S>,
    steps: Seq<Step<S>>,
    post: Scene<P, S>,
)
    requires
        ran(pre, steps, post),
        steps.len() > 0,
        steps.last() is Exit,
    ensures
        post.states.len() == 0,
        !post.running,
{
    let last = seq![steps.last()];
    assert(steps =~= steps.drop_last() + last);
    lemma_ran_split(pre, steps.drop_last(), last, post);
    let between = choose|between: Scene<P, S>|
        ran(pre, steps.drop_last(), between) && ran(between, last, post);
    lemma_ran_one(between, steps.last(), post);
}

/// Once the application has stopped, no transition makes it run again.
pub proof fn lemma_stopped_stays_stopped<P: Platform, S: GameState<P>>(
    pre: Scene<P, S>,
    steps: Seq<Step<S>>,
    post: Scene<P, S>,
)
    requires
        ran(pre, steps, post),
        !pre.running,
    ensures
        !post.running,
{
    lemma_ran_depth(pre, steps, post);
}

/// To pop and then push in one transition is to stop the old top state
/// and then start the new one on the data that the stop left behind; the
/// states below stay as they are, and the stack is as deep as before.
pub proof fn lemma_pop_then_push<P: Platform, S: GameState<P>>(
    pre: Scene<P, S>,
    state: S,
    post: Scene<P, S>,
)
    requires
        ran(pre, seq![Step::Pop, Step::Push(state)], post),
    ensures
        pre.states.len() > 0,
        post.states.len() == pre.states.len(),
        post.states.drop_last() == pre.states.drop_last(),
        post.running == pre.running,
        exists|between: StateDataView<P>|
            stopped(pre.states.last(), pre.data, between) && S::start_post(
                state,
                between,
                post.states.last(),
                post.data,
            ),
{
    let steps = seq![Step::Pop, Step::Push(state)];
    let path = choose|path: Seq<Scene<P, S>>|
        ran_along(steps, path) && path.first() == pre && path.last() == post;
    assert(steps[0] == Step::<S>::Pop);
    assert(steps[1] == Step::Push(state));
    assert(stepped(path[0], steps[0], path[1]));
    assert(stepped(path[1], steps[1], path[2]));
    let between = path[1].data;
    assert(stopped(pre.states.last(), pre.data, between) && S::start_post(
        state,
        between,
        post.states.last(),
        post.data,
    ));
}

/// The transition was applied to `pre` where it fits the stack, which led
/// to `post`, and refused as a whole where it does not.
pub open spec fn applied<P: Platform, S: GameState<P>>(
    pre: Scene<P, S>,
    tran: Trans<S>,
    post: Scene<P, S>,
    out: Result<(), StackError>,
) -> bool {
    if tran.fits(pre.states.len()) {
        &&& ran(pre, tran.steps(), post)
        &&& out == Ok::<(), StackError>(())
    } else {
        &&& post == pre
        &&& out == Err::<(), StackError>(StackError { depth: pre.states.len() as usize })
    }
}

/// Every state was told of `event`, from the first one up to the last,
/// and `datas` holds what the hooks found and left: the call on state `i`
/// turned `datas[i]` into `datas[i + 1]`.
pub open spec fn announced_along<P: Platform, S: GameState<P>>(
    pre: Seq<S>,
    event: StateEvent,
    post: Seq<S>,
    datas: Seq<StateDataView<P>>,
) -> bool {
    &&& post.len() == pre.len()
    &&& datas.len() == pre.len() + 1
    &&& forall|i: int|
        0 <= i < pre.len() ==> S::on_event_post(
            pre[i],
            #[trigger] datas[i],
            event,
            post[i],
            datas[i + 1],
        )
}

/// Every state of `pre` was told of `event`, from the bottom of the stack
/// up to its top, which led to `post`.
pub open spec fn announced<P: Platform, S: GameState<P>>(
    pre: Scene<P, S>,
    event: StateEvent,
    post: Scene<P, S>,
) -> bool {
    &&& post.running == pre.running
    &&& exists|datas: Seq<StateDataView<P>>|
        announced_along(pre.states, event, post.states, datas) && datas.first() == pre.data
            && datas.last() == post.data
}

/// `shadow_update` was called on every state, and `flows` holds what the
/// calls returned.
pub open spec fn shadow_updated<P: Platform, S: GameState<P>>(
    pre: Seq<S>,
    post: Seq<S>,
    flows: Seq<LoopState>,
) -> bool {
    &&& post.len() == pre.len()
    &&& flows.len() == pre.len()
    &&& forall|i: int|
        0 <= i < pre.len() ==> S::shadow_update_post(pre[i], post[i], #[trigger] flows[i])
}

/// `shadow_render` was called on every state.
pub open spec fn shadow_rendered<P: Platform, S: GameState<P>>(
    pre: Seq<S>,
    data: StateDataView<P>,
    ui: P::Ui,
    post: Seq<S>,
) -> bool {
    &&& post.len() == pre.len()
    &&& forall|i: int|
        0 <= i < pre.len() ==> S::shadow_render_post(pre[i], data, ui, #[trigger] post[i])
}

/// What happened in one tick of the logic.
pub struct Tick<P: Platform, S> {
    /// The states after their background updates.
    pub shadowed: Seq<S>,
    /// What the background updates returned.
    pub flows: Seq<LoopState>,
    /// The top state after its update.
    pub top: S,
    /// The data after the update of the top state.
    pub updated: StateDataView<P>,
    /// The transition that the top state asked for.
    pub tran: Trans<S>,
    /// What the top state asked of the loop.
    pub flow: LoopState,
}

/// One tick led from `pre` to `post` and gave `out`, and `tick` is what
/// happened in it. The inputs cross the frame boundary; every state runs
/// its background update; the top state runs its update, on the data as
/// the frame boundary left it; the transition that it asks for is applied
/// where it fits the stack, and refused as a whole where it does not.
pub open spec fn ticked_by<P: Platform, S: GameState<P>>(
    pre: Scene<P, S>,
    tick: Tick<P, S>,
    post: Scene<P, S>,
    out: Result<LoopState, StackError>,
) -> bool {
    &&& shadow_updated(pre.states, tick.shadowed, tick.flows)
    &&& if pre.states.len() == 0 {
        &&& post == (Scene { states: tick.shadowed, ..pre.with_data(pre.data.frame_swapped()) })
        &&& out == Ok::<LoopState, StackError>(merge_all(tick.flows))
    } else {
        let judged = Scene {
            data: tick.updated,
            states: tick.shadowed.drop_last().push(tick.top),
            running: pre.running,
        };
        &&& S::update_post(
            tick.shadowed.last(),
            pre.data.frame_swapped(),
            tick.top,
            tick.updated,
            (tick.tran, tick.flow),
        )
        &&& match out {
            Ok(asked) => {
                &&& applied(judged, tick.tran, post, Ok(()))
                &&& asked == merge_all(tick.flows).merge(tick.flow)
            },
            Err(error) => applied(judged, tick.tran, post, Err(error)),
        }
    }
}

/// One tick led from `pre` to `post` and gave `out`.
pub open spec fn ticked<P: Platform, S: GameState<P>>(
    pre: Scene<P, S>,
    post: Scene<P, S>,
    out: Result<LoopState, StackError>,
) -> bool {
    exists|tick: Tick<P, S>| ticked_by(pre, tick, post, out)
}

/// A tick in which the top state asks for a push puts the new state on
/// top of the stack, started on the data that the update left behind. The
/// states below are those that the background updates and the update left:
/// none of them is stopped.
pub proof fn lemma_tick_pushes<P: Platform, S: GameState<P>>(
    pre: Scene<P, S>,
    tick: Tick<P, S>,
    post: Scene<P, S>,
    out: Result<LoopState, StackError>,
    state: S,
)
    requires
        ticked_by(pre, tick, post, out),
        0 < pre.states.len() < usize::MAX,
        tick.tran == Trans::Push(state),
    ensures
        out == Ok::<LoopState, StackError>(merge_all(tick.flows).merge(tick.flow)),
        post.states.len() == pre.states.len() + 1,
        post.states.drop_last() == tick.shadowed.drop_last().push(tick.top),
        S::start_post(state, tick.updated, post.states.last(), post.data),
        post.running == pre.running,
{
    let judged = Scene {
        data: tick.updated,
        states: tick.shadowed.drop_last().push(tick.top),
        running: pre.running,
    };
    lemma_depth_after_one(judged.states.len(), Step::Push(state), Some(usize::MAX as nat));
    lemma_ran_one(judged, Step::Push(state), post);
}

/// A tick in which the top state asks for a pop stops that state, on the
/// data that its update left behind, and takes it off: the state below is
/// on top for the next tick.
pub proof fn lemma_tick_pops<P: Platform, S: GameState<P>>(
    pre: Scene<P, S>,
    tick: Tick<P, S>,
    post: Scene<P, S>,
    out: Result<LoopState, StackError>,
)
    requires
        ticked_by(pre, tick, post, out),
        pre.states.len() > 0,
        tick.tran is Pop,
    ensures
        out == Ok::<LoopState, StackError>(merge_all(tick.flows).merge(tick.flow)),
        post.states == tick.shadowed.drop_last(),
        stopped(tick.top, tick.updated, post.data),
        post.running == pre.running,
{
    let judged = Scene {
        data: tick.updated,
        states: tick.shadowed.drop_last().push(tick.top),
        running: pre.running,
    };
    lemma_depth_after_one(judged.states.len(), Step::<S>::Pop, Some(usize::MAX as nat));
    lemma_ran_one(judged, Step::<S>::Pop, post);
    assert(judged.states.drop_last() =~= tick.shadowed.drop_last());
}

/// A tick in which the top state asks for nothing leaves the stack as the
/// background updates and the update left it.
pub proof fn lemma_tick_stays<P: Platform, S: GameState<P>>(
    pre: Scene<P, S>,
    tick: Tick<P, S>,
    post: Scene<P, S>,
    out: Result<LoopState, StackError>,
)
    requires
        ticked_by(pre, tick, post, out),
        pre.states.len() > 0,
        tick.tran is Stay,
    ensures
        out == Ok::<LoopState, StackError>(merge_all(tick.flows).merge(tick.flow)),
        post.states == tick.shadowed.drop_last().push(tick.top),
        post.data == tick.updated,
        post.running == pre.running,
{
    let judged = Scene {
        data: tick.updated,
        states: tick.shadowed.drop_last().push(tick.top),
        running: pre.running,
    };
    lemma_ran_none(judged, post);
}

/// What happened while the states built one frame.
pub struct Frame<P: Platform, S> {
    /// The states after they drew their backgrounds.
    pub shadowed: Seq<S>,
    /// The top state after it built its user interface.
    pub top: S,
    /// The data after the top state built its user interface.
    pub drawn: StateDataView<P>,
    /// The transition that the top state asked for.
    pub tran: Trans<S>,
}

/// The states built one frame in `ui`, which led from `pre` to `post` and
/// gave `out`, and `frame` is what happened. Every state draws its
/// background; the top state builds its user interface; the transition
/// that it asks for is applied where it fits the stack, and refused as a
/// whole where it does not.
pub open spec fn rendered_by<P: Platform, S: GameState<P>>(
    pre: Scene<P, S>,
    ui: P::Ui,
    frame: Frame<P, S>,
    post: Scene<P, S>,
    out: Result<(), StackError>,
) -> bool {
    &&& shadow_rendered(pre.states, pre.data, ui, frame.shadowed)
    &&& if pre.states.len() == 0 {
        &&& post == (Scene { states: frame.shadowed, ..pre })
        &&& out == Ok::<(), StackError>(())
    } else {
        let judged = Scene {
            data: frame.drawn,
            states: frame.shadowed.drop_last().push(frame.top),
            running: pre.running,
        };
        &&& S::render_post(
            frame.shadowed.last(),
            pre.data,
            ui,
            frame.top,
            frame.drawn,
            frame.tran,
        )
        &&& applied(judged, frame.tran, post, out)
    }
}

/// The states built one frame in `ui`, which led from `pre` to `post` and
/// gave `out`.
pub open spec fn rendered<P: Platform, S: GameState<P>>(
    pre: Scene<P, S>,
    ui: P::Ui,
    post: Scene<P, S>,
    out: Result<(), StackError>,
) -> bool {
    exists|frame: Frame<P, S>| rendered_by(pre, ui, frame, post, out)
}

} // verus!
