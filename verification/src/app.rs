//! The driver: it owns the window and the stack of states, applies the
//! transitions that the states ask for, and decides what the embedding
//! program has to do for each event of the platform.

use crate::input::KeyCode;
use crate::loop_state::{merge_all, LoopState, WaitPolicy};
use crate::platform::{Event, Platform};
use crate::render::WgpuData;
use crate::stack::{
    announced, announced_along, applied, drained_along, lemma_ran_concat, lemma_ran_none,
    lemma_ran_one, ran, rendered, rendered_by, shadow_rendered, shadow_updated, stepped, stopped,
    ticked, ticked_by, Frame, Scene, StackError, Tick,
};
use crate::state::{
    depth_after, lemma_depth_after_concat, lemma_depth_after_one, lemma_depth_after_unlimited,
    lemma_steps_of_concat, steps_of,
    GameState, StateEvent, Step, Trans,
};
use crate::window::{StateData, StateDataView, WindowInstance};
use std::collections::HashSet;
use vstd::prelude::*;

verus! {

broadcast use {
    vstd::std_specs::hash::group_hash_axioms,
    vstd::seq::axiom_seq_index_decreases,
    vstd::std_specs::vec::axiom_vec_decreases_to_view,
};

/// The application: one window, the stack of states, and what the driver
/// keeps between two events.
pub struct Application<P: Platform, S> {
    /// What the hooks of the states work on.
    pub data: StateData<P>,
    /// The stack of states; the last one is on top.
    pub states: Vec<S>,
    /// Cleared by the transition `Exit`.
    pub running: bool,
    /// Whether the window was asked for a redraw that has not come yet: a
    /// record of where the next redraw comes from, which decides nothing.
    pub game_draw_requested: bool,
    /// Whether a frame was drawn since the platform began to deliver the
    /// current batch of events.
    pub frame_drawn: bool,
    /// The keys that went down since the last tick.
    pub pressed_keys: HashSet<KeyCode>,
    /// The keys that came up since the last tick.
    pub released_keys: HashSet<KeyCode>,
}

/// What an `Application` holds.
#[verifier::ext_equal]
pub struct ApplicationView<P: Platform, S> {
    pub scene: Scene<P, S>,
    pub game_draw_requested: bool,
    pub frame_drawn: bool,
    pub pressed_keys: Set<KeyCode>,
    pub released_keys: Set<KeyCode>,
}

impl<P: Platform, S> View for Application<P, S> {
    type V = ApplicationView<P, S>;

    open spec fn view(&self) -> ApplicationView<P, S> {
        ApplicationView {
            scene: self.scene(),
            game_draw_requested: self.game_draw_requested,
            frame_drawn: self.frame_drawn,
            pressed_keys: self.pressed_keys@,
            released_keys: self.released_keys@,
        }
    }
}

impl<P: Platform, S> Application<P, S> {
    /// The stack with what its hooks work on.
    pub open spec fn scene(&self) -> Scene<P, S> {
        Scene { data: self.data@, states: self.states@, running: self.running }
    }
}

/// What the driver asks the embedding program to do after an event.
#[derive(Clone, Copy, Debug, PartialEq, Eq)]
pub enum Action {
    /// Nothing: wait for the next event as before.
    Idle,
    /// Leave the event loop.
    Exit,
    /// Try to create the GPU surface manager, and hand it to `install_gpu`
    /// if that succeeds.
    CreateSurface,
    /// Configure the surface for this size and make the render targets
    /// anew, then call `resize_gpu`.
    ResizeSurface { width: u32, height: u32 },
    /// Draw a frame: acquire it from the surface, call `begin_frame`, let
    /// the states build the user interface with `render_tick`, paint the
    /// user interface, call `post_ui_render`, present the frame and call
    /// `end_frame`. Where the frame cannot be acquired, call `frame_lost`
    /// in place of all that.
    Render,
    /// The tick is done. Wait for the next event as `control_flow` says,
    /// and ask the window for a redraw if `request_redraw` is set.
    Wait { control_flow: WaitPolicy, request_redraw: bool },
}

impl<P: Platform, S> ApplicationView<P, S> {
    /// The application with another scene.
    pub open spec fn with_scene(self, scene: Scene<P, S>) -> ApplicationView<P, S> {
        ApplicationView { scene, ..self }
    }

    /// The application with other data for the hooks.
    pub open spec fn with_data(self, data: StateDataView<P>) -> ApplicationView<P, S> {
        self.with_scene(self.scene.with_data(data))
    }

    /// The application after the key transitions that had piled up went
    /// to the input baker. Where none had, nothing changes.
    pub open spec fn keys_fed(self) -> ApplicationView<P, S> {
        if self.pressed_keys.is_empty() && self.released_keys.is_empty() {
            self
        } else {
            let inputs = self.scene.data.window.inputs.process(
                self.pressed_keys,
                self.released_keys,
            );
            ApplicationView {
                pressed_keys: Set::empty(),
                released_keys: Set::empty(),
                ..self.with_data(self.scene.data.with_inputs(inputs))
            }
        }
    }

    /// The application after the pointer moved.
    pub open spec fn pointer_moved(self, x: i32, y: i32) -> ApplicationView<P, S> {
        let inputs = self.scene.data.window.inputs.move_pointer(x as int, y as int);
        self.with_data(self.scene.data.with_inputs(inputs))
    }

    /// The application after it gave up its GPU surface and all that was
    /// made with it.
    pub open spec fn gpu_dropped(self) -> ApplicationView<P, S> {
        self.with_data(self.scene.data.with_gpu(None))
    }
}

/// The end of a batch of events led from `seen` to `post` and gave `out`,
/// where `flow` is what the tick gave, if there was one. The key
/// transitions that piled up go to the input baker. An application that
/// runs then makes one tick and reports how to wait; it asks for a redraw
/// whenever the tick wants a frame. An application that does not run
/// leaves the loop.
pub open spec fn events_cleared_by<P: Platform, S: GameState<P>>(
    seen: ApplicationView<P, S>,
    flow: Result<LoopState, StackError>,
    post: ApplicationView<P, S>,
    out: Result<Action, StackError>,
) -> bool {
    let fed = seen.keys_fed();
    if !fed.scene.running {
        &&& post == fed
        &&& out == Ok::<Action, StackError>(Action::Exit)
    } else {
        &&& ticked(fed.scene, post.scene, flow)
        &&& match flow {
            Ok(asked) => {
                &&& post == (ApplicationView {
                    game_draw_requested: fed.game_draw_requested || asked.render,
                    ..fed.with_scene(post.scene)
                })
                &&& out == Ok::<Action, StackError>(
                    Action::Wait {
                        control_flow: asked.control_flow,
                        request_redraw: asked.render,
                    },
                )
            },
            Err(error) => {
                &&& post == fed.with_scene(post.scene)
                &&& out == Err::<Action, StackError>(error)
            },
        }
    }
}

/// The driver acted on `event`, which led from `seen` to `post` and gave
/// `out`.
pub open spec fn acted<P: Platform, S: GameState<P>>(
    seen: ApplicationView<P, S>,
    event: Event,
    post: ApplicationView<P, S>,
    out: Result<Action, StackError>,
) -> bool {
    let gpu = seen.scene.data.window.gpu;
    match event {
        Event::CloseRequested | Event::Destroyed => {
            &&& post == seen
            &&& out == Ok::<Action, StackError>(Action::Exit)
        },
        Event::Resumed => {
            &&& post == seen
            &&& out == Ok::<Action, StackError>(
                if gpu is None {
                    Action::CreateSurface
                } else {
                    Action::Idle
                },
            )
        },
        Event::Suspended => {
            &&& post == seen.gpu_dropped()
            &&& out == Ok::<Action, StackError>(Action::Idle)
        },
        Event::Resized { width, height } => {
            &&& post == seen
            &&& out == Ok::<Action, StackError>(
                if gpu is Some && WgpuData::<P::Gpu>::presentable(width, height) {
                    Action::ResizeSurface { width, height }
                } else {
                    Action::Idle
                },
            )
        },
        Event::KeyboardInput { key, pressed, synthetic } => {
            &&& post == if synthetic || key is None {
                seen
            } else if pressed {
                ApplicationView { pressed_keys: seen.pressed_keys.insert(key->0), ..seen }
            } else {
                ApplicationView { released_keys: seen.released_keys.insert(key->0), ..seen }
            }
            &&& out == Ok::<Action, StackError>(Action::Idle)
        },
        Event::Touch { id, x, y, phase } => {
            &&& post == seen.pointer_moved(x, y)
            &&& out == Ok::<Action, StackError>(Action::Idle)
        },
        Event::RedrawRequested => {
            let draw = gpu is Some && !seen.frame_drawn;
            &&& post == (ApplicationView {
                game_draw_requested: false,
                frame_drawn: seen.frame_drawn || draw,
                ..seen
            })
            &&& out == Ok::<Action, StackError>(
                if draw {
                    Action::Render
                } else {
                    Action::Idle
                },
            )
        },
        Event::MainEventsCleared => exists|flow: Result<LoopState, StackError>|
            events_cleared_by(seen, flow, post, out),
        Event::NewEvents => {
            &&& post == (ApplicationView { frame_drawn: false, ..seen })
            &&& out == Ok::<Action, StackError>(Action::Idle)
        },
        Event::Window | Event::Other => {
            &&& post == seen
            &&& out == Ok::<Action, StackError>(Action::Idle)
        },
    }
}

/// The driver handled `event`, which led from `pre` to `post` and gave
/// `out`, where `seen` is the scene after the states saw the event: every
/// state is told of an event of the window before the driver acts on it.
pub open spec fn handled_by<P: Platform, S: GameState<P>>(
    pre: ApplicationView<P, S>,
    event: Event,
    seen: Scene<P, S>,
    post: ApplicationView<P, S>,
    out: Result<Action, StackError>,
) -> bool {
    &&& if event.of_window() {
        announced(pre.scene, StateEvent::Window(event), seen)
    } else {
        seen == pre.scene
    }
    &&& acted(pre.with_scene(seen), event, post, out)
}

/// The driver handled `event`, which led from `pre` to `post` and gave
/// `out`.
pub open spec fn handled<P: Platform, S: GameState<P>>(
    pre: ApplicationView<P, S>,
    event: Event,
    post: ApplicationView<P, S>,
    out: Result<Action, StackError>,
) -> bool {
    exists|seen: Scene<P, S>| handled_by(pre, event, seen, post, out)
}

impl<P: Platform, S: GameState<P>> Application<P, S> {
    /// An application without states, which runs.
    pub fn new(window: WindowInstance<P>) -> (app: Application<P, S>)
        ensures
            app@ == (ApplicationView::<P, S> {
                scene: Scene {
                    data: StateDataView { window: window@, dt: 0 },
                    states: Seq::empty(),
                    running: true,
                },
                game_draw_requested: false,
                frame_drawn: false,
                pressed_keys: Set::empty(),
                released_keys: Set::empty(),
            }),
    {
        Application {
            data: StateData { window, dt: 0 },
            states: Vec::new(),
            running: true,
            game_draw_requested: false,
            frame_drawn: false,
            pressed_keys: HashSet::new(),
            released_keys: HashSet::new(),
        }
    }

    /// Applies a transition to the stack: each of its steps in turn, each
    /// on the stack as the step before left it.
    pub fn process_tran(&mut self, tran: Trans<S>)
        requires
            tran.applies(old(self).states@.len()),
        ensures
            ran(old(self).scene(), tran.steps(), final(self).scene()),
            depth_after(old(self).states@.len(), tran.steps(), None) == Some(
                final(self).states@.len(),
            ),
            final(self)@ == old(self)@.with_scene(final(self).scene()),
        decreases tran,
    {
        let ghost before = self.scene();
        let ghost limit = None::<nat>;
        let ghost whole = tran;
        match tran {
            Trans::Stay => {
                proof {
                    lemma_ran_none(before, self.scene());
                }
            },
            Trans::Push(state) => {
                let mut state = state;
                let ghost fresh = state;
                state.start(&mut self.data);
                self.states.push(state);
                proof {
                    assert(self.states@.drop_last() =~= before.states);
                    lemma_ran_one(before, Step::Push(fresh), self.scene());
                    lemma_depth_after_one(before.states.len(), Step::Push(fresh), limit);
                }
            },
            Trans::Pop => {
                proof {
                    lemma_depth_after_one(before.states.len(), Step::<S>::Pop, limit);
                }
                let top = self.states.len() - 1;
                self.states[top].stop(&mut self.data);
                let ghost after = self.states@[top as int];
                let _ = self.states.pop();
                proof {
                    assert(S::stop_post(before.states.last(), before.data, after, self.data@));
                    assert(self.states@ =~= before.states.drop_last());
                    lemma_ran_one(before, Step::<S>::Pop, self.scene());
                }
            },
            Trans::Switch(state) => {
                proof {
                    lemma_depth_after_one(before.states.len(), Step::Switch(state), limit);
                }
                let top = self.states.len() - 1;
                self.states[top].stop(&mut self.data);
                let ghost after = self.states@[top as int];
                self.states[top] = state;
                proof {
                    assert(S::stop_post(before.states.last(), before.data, after, self.data@));
                    assert(self.states@ =~= before.states.drop_last().push(state));
                    lemma_ran_one(before, Step::Switch(state), self.scene());
                }
            },
            Trans::Exit => {
                proof {
                    lemma_depth_after_one(before.states.len(), Step::<S>::Exit, limit);
                }
                let ghost mut datas = seq![self.data@];
                while self.states.len() > 0
                    invariant
                        self.states@.len() <= before.states.len(),
                        self.states@ == before.states.take(self.states@.len() as int),
                        datas.len() == before.states.len() - self.states@.len() + 1,
                        datas.first() == before.data,
                        datas.last() == self.data@,
                        forall|k: int|
                            0 <= k < datas.len() - 1 ==> stopped(
                                before.states[before.states.len() - 1 - k],
                                #[trigger] datas[k],
                                datas[k + 1],
                            ),
                        self.running == before.running,
                        self@ == old(self)@.with_scene(self.scene()),
                    decreases self.states@.len(),
                {
                    let ghost found = self.data@;
                    let ghost top = self.states@.last();
                    let mut last = self.states.pop().unwrap();
                    last.stop(&mut self.data);
                    proof {
                        assert(S::stop_post(top, found, last, self.data@));
                        assert(top == before.states[before.states.len() - datas.len()]);
                        datas = datas.push(self.data@);
                        assert(self.states@ =~= before.states.take(self.states@.len() as int));
                    }
                }
                self.running = false;
                proof {
                    assert(drained_along(before.states, datas));
                    lemma_ran_one(before, Step::<S>::Exit, self.scene());
                }
            },
            Trans::Vec(ts) => {
                let ghost items = ts@;
                proof {
                    assert(whole.steps() == steps_of(items));
                    assert(items.take(0) =~= Seq::<Trans<S>>::empty());
                    lemma_ran_none(before, self.scene());
                }
                for t in it: ts
                    invariant
                        limit is None,
                        it.seq() == items,
                        whole == tran,
                        forall|j: int| 0 <= j < items.len() ==> decreases_to!(whole => items[j]),
                        depth_after(before.states.len(), steps_of(items), limit) is Some,
                        ran(before, steps_of(items.take(it.index())), self.scene()),
                        depth_after(before.states.len(), steps_of(items.take(it.index())), limit)
                            == Some(self.states@.len()),
                        self@ == old(self)@.with_scene(self.scene()),
                        it.index() == items.len() ==> ran(before, steps_of(items), self.scene())
                            && depth_after(before.states.len(), steps_of(items), limit) == Some(
                            self.states@.len(),
                        ),
                {
                    let ghost i = it.index();
                    let ghost here = self.scene();
                    proof {
                        let done = items.take(i);
                        let next = items.take(i + 1);
                        let rest = items.skip(i + 1);
                        assert(next.drop_last() =~= done);
                        assert(next.last() == t);
                        assert(steps_of(next) == steps_of(done) + t.steps());
                        assert(items =~= next + rest);
                        lemma_steps_of_concat(next, rest);
                        lemma_depth_after_concat(
                            before.states.len(),
                            steps_of(next),
                            steps_of(rest),
                            limit,
                        );
                        lemma_depth_after_concat(
                            before.states.len(),
                            steps_of(done),
                            t.steps(),
                            limit,
                        );
                    }
                    self.process_tran(t);
                    proof {
                        lemma_ran_concat(
                            before,
                            steps_of(items.take(i)),
                            here,
                            t.steps(),
                            self.scene(),
                        );
                        if i + 1 == items.len() {
                            assert(items.take(i + 1) =~= items);
                        }
                    }
                }
            },
        }
    }

    /// Applies a transition to the stack if it fits, and refuses it as a
    /// whole if it does not: the stack is then as it was.
    pub fn apply(&mut self, tran: Trans<S>) -> (out: Result<(), StackError>)
        ensures
            applied(old(self).scene(), tran, final(self).scene(), out),
            final(self)@ == old(self)@.with_scene(final(self).scene()),
    {
        let depth = self.states.len();
        match tran.check(depth) {
            Some(_) => {
                proof {
                    lemma_depth_after_unlimited(
                        depth as nat,
                        tran.steps(),
                        Some(usize::MAX as nat),
                    );
                }
                self.process_tran(tran);
                Ok(())
            },
            None => Err(StackError { depth }),
        }
    }

    /// Starts the first state and puts it on the stack.
    pub fn start(&mut self, bootstrap: S)
        ensures
            stepped(old(self).scene(), Step::Push(bootstrap), final(self).scene()),
            final(self)@ == old(self)@.with_scene(final(self).scene()),
    {
        let ghost before = self.scene();
        let mut state = bootstrap;
        state.start(&mut self.data);
        self.states.push(state);
        assert(self.states@.drop_last() =~= before.states);
    }

    /// Tells every state of an event, from the bottom of the stack up to
    /// its top.
    pub fn broadcast_event(&mut self, event: StateEvent)
        ensures
            announced(old(self).scene(), event, final(self).scene()),
            final(self)@ == old(self)@.with_scene(final(self).scene()),
    {
        let ghost before = self.scene();
        let ghost mut datas = seq![self.data@];
        let depth = self.states.len();
        for i in 0..depth
            invariant
                depth == before.states.len(),
                self.states@.len() == depth,
                datas.len() == i + 1,
                datas.first() == before.data,
                datas.last() == self.data@,
                forall|j: int|
                    0 <= j < i ==> S::on_event_post(
                        before.states[j],
                        #[trigger] datas[j],
                        event,
                        self.states@[j],
                        datas[j + 1],
                    ),
                forall|j: int| i <= j < depth ==> self.states@[j] == before.states[j],
                self.running == before.running,
                self@ == old(self)@.with_scene(self.scene()),
        {
            self.states[i].on_event(&mut self.data, event);
            proof {
                datas = datas.push(self.data@);
            }
        }
        assert(announced_along(before.states, event, self.states@, datas));
    }

    /// One tick of the logic. The inputs cross the frame boundary, every
    /// state runs its background update, and the top state runs its
    /// update and has its transition applied. Returns what the states ask
    /// of the loop, merged, or the error of a transition that did not fit
    /// the stack; such a transition changes nothing.
    pub fn loop_once(&mut self) -> (out: Result<LoopState, StackError>)
        ensures
            ticked(old(self).scene(), final(self).scene(), out),
            final(self)@ == old(self)@.with_scene(final(self).scene()),
    {
        let ghost before = self.scene();
        self.data.window.inputs.swap_frame();
        self.data.dt = 0;
        let ghost swapped = self.data@;
        assert(swapped == before.data.frame_swapped());
        let mut loop_result = LoopState::wait_all();
        let ghost mut flows = Seq::<LoopState>::empty();
        let depth = self.states.len();
        for i in 0..depth
            invariant
                depth == before.states.len(),
                self.states@.len() == depth,
                self.data@ == swapped,
                self.running == before.running,
                flows.len() == i,
                loop_result == merge_all(flows),
                forall|j: int|
                    0 <= j < i ==> S::shadow_update_post(
                        before.states[j],
                        self.states@[j],
                        #[trigger] flows[j],
                    ),
                forall|j: int| i <= j < depth ==> self.states@[j] == before.states[j],
                self@ == old(self)@.with_scene(self.scene()),
        {
            let flow = self.states[i].shadow_update();
            loop_result.bitor_assign(flow);
            proof {
                assert(flows.push(flow).drop_last() =~= flows);
                flows = flows.push(flow);
            }
        }
        let ghost shadowed = self.states@;
        assert(shadow_updated(before.states, shadowed, flows));
        if depth > 0 {
            let (tran, flow) = self.states[depth - 1].update(&mut self.data);
            loop_result.bitor_assign(flow);
            let ghost tick = Tick {
                shadowed,
                flows,
                top: self.states@.last(),
                updated: self.data@,
                tran,
                flow,
            };
            assert(self.states@ =~= shadowed.drop_last().push(tick.top));
            match self.apply(tran) {
                Ok(()) => {
                    assert(ticked_by(before, tick, self.scene(), Ok(loop_result)));
                    Ok(loop_result)
                },
                Err(error) => {
                    assert(ticked_by(before, tick, self.scene(), Err(error)));
                    Err(error)
                },
            }
        } else {
            let ghost tick = Tick {
                shadowed,
                flows,
                top: arbitrary(),
                updated: swapped,
                tran: Trans::Stay,
                flow: loop_result,
            };
            assert(ticked_by(before, tick, self.scene(), Ok(loop_result)));
            Ok(loop_result)
        }
    }

    /// Lets the states build one frame in `ui`: every state draws its
    /// background, and the top state builds its user interface and has its
    /// transition applied. Returns the error of a transition that did not
    /// fit the stack; such a transition changes nothing.
    pub fn render_tick(&mut self, ui: &P::Ui) -> (out: Result<(), StackError>)
        ensures
            rendered(old(self).scene(), *ui, final(self).scene(), out),
            final(self)@ == old(self)@.with_scene(final(self).scene()),
    {
        let ghost before = self.scene();
        let depth = self.states.len();
        for i in 0..depth
            invariant
                depth == before.states.len(),
                self.states@.len() == depth,
                self.data@ == before.data,
                self.running == before.running,
                forall|j: int|
                    0 <= j < i ==> S::shadow_render_post(
                        before.states[j],
                        before.data,
                        *ui,
                        #[trigger] self.states@[j],
                    ),
                forall|j: int| i <= j < depth ==> self.states@[j] == before.states[j],
                self@ == old(self)@.with_scene(self.scene()),
        {
            self.states[i].shadow_render(&self.data, ui);
        }
        let ghost shadowed = self.states@;
        assert(shadow_rendered(before.states, before.data, *ui, shadowed));
        if depth > 0 {
            let tran = self.states[depth - 1].render(&mut self.data, ui);
            let ghost frame = Frame { shadowed, top: self.states@.last(), drawn: self.data@, tran };
            assert(self.states@ =~= shadowed.drop_last().push(frame.top));
            let out = self.apply(tran);
            assert(rendered_by(before, *ui, frame, self.scene(), out));
            out
        } else {
            let ghost frame = Frame {
                shadowed,
                top: arbitrary(),
                drawn: self.data@,
                tran: Trans::Stay,
            };
            assert(rendered_by(before, *ui, frame, self.scene(), Ok(())));
            Ok(())
        }
    }

    /// Begins a frame at `now`, a reading of the application clock: the
    /// hooks see the time since the last frame began.
    pub fn begin_frame(&mut self, now: u64)
        ensures
            final(self)@ == old(self)@.with_data(old(self).data@.frame_begun(now)),
    {
        let last = self.data.window.last_render_time;
        self.data.dt = if now >= last {
            now - last
        } else {
            0
        };
    }

    /// Tells every state that the user interface of the frame is drawn.
    pub fn post_ui_render(&mut self)
        ensures
            announced(old(self).scene(), StateEvent::PostUiRender, final(self).scene()),
            final(self)@ == old(self)@.with_scene(final(self).scene()),
    {
        self.broadcast_event(StateEvent::PostUiRender);
    }

    /// Ends the frame that began at `now`.
    pub fn end_frame(&mut self, now: u64)
        ensures
            final(self)@ == old(self)@.with_data(old(self).data@.frame_ended(now)),
    {
        self.data.window.last_render_time = now;
        self.data.dt = 0;
    }

    /// Takes over a GPU surface manager that was just made. The registry
    /// is emptied, since what it holds was made with another device, and
    /// then every state learns that a GPU is there.
    pub fn install_gpu(&mut self, gpu: WgpuData<P::Gpu>)
        ensures
            announced(
                old(self).scene().with_data(old(self).data@.with_gpu(Some(gpu))),
                StateEvent::FoundGPU,
                final(self).scene(),
            ),
            final(self)@ == old(self)@.with_scene(final(self).scene()),
    {
        self.data.window.world.clear();
        self.data.window.gpu = Some(gpu);
        self.broadcast_event(StateEvent::FoundGPU);
    }

    /// Gives up the GPU surface manager, after the platform took the
    /// surface away or a frame could not be acquired. The registry is
    /// emptied with it.
    pub fn drop_gpu(&mut self)
        ensures
            final(self)@ == old(self)@.gpu_dropped(),
    {
        self.data.window.world.clear();
        self.data.window.gpu = None;
    }

    /// Gives up the GPU surface manager after a frame could not be
    /// acquired from it, and asks for a new one: a lost surface is made
    /// anew, not tried again.
    pub fn frame_lost(&mut self) -> (action: Action)
        ensures
            final(self)@ == old(self)@.gpu_dropped(),
            action == Action::CreateSurface,
    {
        self.drop_gpu();
        Action::CreateSurface
    }

    /// Records that the surface was configured for a new size, and tells
    /// every state so. Without a GPU surface, or for a size with a zero
    /// side, nothing happens. Returns whether the states were told.
    pub fn resize_gpu(&mut self, width: u32, height: u32) -> (told: bool)
        ensures
            told == (old(self).data.window.gpu is Some && WgpuData::<P::Gpu>::presentable(
                width,
                height,
            )),
            !told ==> final(self)@ == old(self)@,
            told ==> announced(
                old(self).scene().with_data(old(self).data@.resized(width, height)),
                StateEvent::FoundGPU,
                final(self).scene(),
            ),
            final(self)@ == old(self)@.with_scene(final(self).scene()),
    {
        let configure = match &mut self.data.window.gpu {
            Some(gpu) => gpu.resize(width, height),
            None => false,
        };
        if configure {
            assert(self.data@ == old(self).data@.resized(width, height));
            self.broadcast_event(StateEvent::FoundGPU);
        }
        configure
    }

    /// Handles the end of a batch of events.
    fn events_cleared(&mut self) -> (out: Result<Action, StackError>)
        ensures
            exists|flow: Result<LoopState, StackError>|
                events_cleared_by(old(self)@, flow, final(self)@, out),
    {
        if !self.pressed_keys.is_empty() || !self.released_keys.is_empty() {
            self.data.window.inputs.process(&self.pressed_keys, &self.released_keys);
            self.pressed_keys.clear();
            self.released_keys.clear();
        }
        let ghost fed = self@;
        assert(fed == old(self)@.keys_fed());
        if self.running {
            let flow = self.loop_once();
            match flow {
                Ok(asked) => {
                    if asked.render {
                        self.game_draw_requested = true;
                    }
                    let out = Ok(
                        Action::Wait {
                            control_flow: asked.control_flow,
                            request_redraw: asked.render,
                        },
                    );
                    assert(events_cleared_by(old(self)@, flow, self@, out));
                    out
                },
                Err(error) => {
                    assert(events_cleared_by(old(self)@, flow, self@, Err(error)));
                    Err(error)
                },
            }
        } else {
            assert(events_cleared_by(
                old(self)@,
                Ok(LoopState::wait_all()),
                self@,
                Ok(Action::Exit),
            ));
            Ok(Action::Exit)
        }
    }

    /// Handles one event of the platform and says what the embedding
    /// program has to do next. Every state is told of an event of the
    /// window first. An error is the error of a transition that did not
    /// fit the stack.
    pub fn handle_event(&mut self, event: Event) -> (out: Result<Action, StackError>)
        ensures
            handled(old(self)@, event, final(self)@, out),
    {
        if event.is_window_event() {
            self.broadcast_event(StateEvent::Window(event));
        }
        let ghost seen = self.scene();
        let ghost told = self@;
        assert(told == old(self)@.with_scene(seen));
        let out = match event {
            Event::CloseRequested => Ok(Action::Exit),
            Event::Destroyed => Ok(Action::Exit),
            Event::Resumed => {
                if self.data.window.gpu.is_none() {
                    Ok(Action::CreateSurface)
                } else {
                    Ok(Action::Idle)
                }
            },
            Event::Suspended => {
                self.drop_gpu();
                Ok(Action::Idle)
            },
            Event::Resized { width, height } => {
                if self.data.window.gpu.is_some() && width > 0 && height > 0 {
                    Ok(Action::ResizeSurface { width, height })
                } else {
                    Ok(Action::Idle)
                }
            },
            Event::KeyboardInput { key, pressed, synthetic } => {
                if !synthetic {
                    if let Some(key) = key {
                        if pressed {
                            self.pressed_keys.insert(key);
                        } else {
                            self.released_keys.insert(key);
                        }
                    }
                }
                Ok(Action::Idle)
            },
            Event::Touch { id: _, x, y, phase: _ } => {
                self.data.window.inputs.move_pointer(x, y);
                Ok(Action::Idle)
            },
            Event::RedrawRequested => {
                self.game_draw_requested = false;
                if self.data.window.gpu.is_some() && !self.frame_drawn {
                    self.frame_drawn = true;
                    Ok(Action::Render)
                } else {
                    Ok(Action::Idle)
                }
            },
            Event::MainEventsCleared => self.events_cleared(),
            Event::NewEvents => {
                self.frame_drawn = false;
                Ok(Action::Idle)
            },
            Event::Window => Ok(Action::Idle),
            Event::Other => Ok(Action::Idle),
        };
        assert(acted(told, event, self@, out));
        assert(handled_by(old(self)@, event, seen, self@, out));
        out
    }
}

} // verus!
