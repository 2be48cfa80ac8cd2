use andy_clicker_core::app::{Action, Application};
use andy_clicker_core::stack::StackError;
use andy_clicker_core::input::KeyCode;
use andy_clicker_core::loop_state::{LoopState, WaitPolicy};
use andy_clicker_core::platform::{Event, Platform, TouchPhase};
use andy_clicker_core::registry::ResourceKind;
use andy_clicker_core::render::WgpuData;
use andy_clicker_core::state::{GameState, StateEvent, Trans};
use andy_clicker_core::window::{StateData, WindowInstance};

struct Bench;

impl Platform for Bench {
    type Window = Vec<String>;
    type Gpu = &'static str;
    type Resource = String;
    type Ui = ();
}

const ENTER: KeyCode = 40;
const ESCAPE: KeyCode = 1;
const INVERT: ResourceKind = 1;

struct Screen {
    name: &'static str,
    flow: LoopState,
    next: Vec<Trans<Screen>>,
}

impl Screen {
    fn new(name: &'static str, flow: LoopState) -> Screen {
        Screen { name, flow, next: Vec::new() }
    }

    fn then(mut self, tran: Trans<Screen>) -> Screen {
        self.next.push(tran);
        self
    }

    fn note(&self, data: &mut StateData<Bench>, what: String) {
        data.window.window.push(format!("{}.{}", self.name, what));
    }
}

impl GameState<Bench> for Screen {
    fn start(&mut self, data: &mut StateData<Bench>) {
        self.note(data, "start".to_string());
    }

    fn update(&mut self, data: &mut StateData<Bench>) -> (Trans<Screen>, LoopState) {
        let enter = data.window.inputs.is_pressed(&[ENTER]);
        let any = data.window.inputs.pressed_any_cur_frame;
        self.note(data, format!("update(enter={}, any={}, dt={})", enter, any, data.dt));
        let tran = if self.next.is_empty() { Trans::Stay } else { self.next.remove(0) };
        (tran, self.flow)
    }

    fn shadow_update(&mut self) -> LoopState {
        LoopState::wait_all()
    }

    fn render(&mut self, data: &mut StateData<Bench>, _: &()) -> Trans<Screen> {
        let found = data.window.world.try_fetch(INVERT).cloned();
        self.note(data, format!("render(dt={}, invert={:?})", data.dt, found));
        Trans::Stay
    }

    fn shadow_render(&mut self, _: &StateData<Bench>, _: &()) {
    }

    fn on_event(&mut self, data: &mut StateData<Bench>, event: StateEvent) {
        if event == StateEvent::FoundGPU && !data.window.world.has_value(INVERT) {
            if let Some(gpu) = &data.window.gpu {
                let made = format!("invert on {} at {}x{}", gpu.handles, gpu.width, gpu.height);
                data.window.world.insert(INVERT, made);
            }
        }
        self.note(data, format!("on_event({:?})", event));
    }

    fn stop(&mut self, data: &mut StateData<Bench>) {
        self.note(data, "stop".to_string());
    }
}

fn application(gpu: Option<WgpuData<&'static str>>) -> Application<Bench, Screen> {
    Application::new(WindowInstance::new(Vec::new(), gpu, 1_000))
}

fn taken(app: &mut Application<Bench, Screen>) -> Vec<String> {
    app.data.window.window.drain(..).collect()
}

fn key(key: KeyCode, pressed: bool) -> Event {
    Event::KeyboardInput { key: Some(key), pressed, synthetic: false }
}

#[test]
fn window_instance_starts_with_fresh_inputs_and_an_empty_registry() {
    let window: WindowInstance<Bench> = WindowInstance::new(vec!["w".to_string()], None, 42);
    assert_eq!(window.window, vec!["w".to_string()]);
    assert!(window.gpu.is_none());
    assert!(!window.world.has_value(INVERT));
    assert!(window.inputs.cur_temp_input.pressing.is_empty());
    assert_eq!(window.last_render_time, 42);
}

#[test]
fn window_events_are_window_events() {
    assert!(Event::CloseRequested.is_window_event());
    assert!(Event::Destroyed.is_window_event());
    assert!(Event::Resized { width: 1, height: 1 }.is_window_event());
    assert!(key(ENTER, true).is_window_event());
    assert!(Event::Touch { id: 0, x: 0, y: 0, phase: TouchPhase::Started }.is_window_event());
    assert!(Event::Window.is_window_event());
    assert!(!Event::NewEvents.is_window_event());
    assert!(!Event::Resumed.is_window_event());
    assert!(!Event::Suspended.is_window_event());
    assert!(!Event::RedrawRequested.is_window_event());
    assert!(!Event::MainEventsCleared.is_window_event());
    assert!(!Event::Other.is_window_event());
}

#[test]
fn close_and_destroy_leave_the_loop() {
    let mut app = application(None);
    app.start(Screen::new("menu", LoopState::wait()));
    taken(&mut app);
    assert_eq!(app.handle_event(Event::CloseRequested), Ok(Action::Exit));
    assert_eq!(taken(&mut app), vec!["menu.on_event(Window(CloseRequested))"]);
    assert_eq!(app.handle_event(Event::Destroyed), Ok(Action::Exit));
    assert_eq!(taken(&mut app), vec!["menu.on_event(Window(Destroyed))"]);
    assert!(app.running);
    assert_eq!(app.states.len(), 1);
}

#[test]
fn events_outside_the_window_are_not_shown_to_the_states() {
    let mut app = application(None);
    app.start(Screen::new("menu", LoopState::wait()));
    taken(&mut app);
    assert_eq!(app.handle_event(Event::NewEvents), Ok(Action::Idle));
    assert_eq!(app.handle_event(Event::Other), Ok(Action::Idle));
    assert_eq!(app.handle_event(Event::RedrawRequested), Ok(Action::Idle));
    assert!(!app.frame_drawn);
    assert_eq!(app.handle_event(Event::Resumed), Ok(Action::CreateSurface));
    assert_eq!(app.handle_event(Event::Suspended), Ok(Action::Idle));
    assert!(taken(&mut app).is_empty());
    assert_eq!(app.handle_event(Event::Window), Ok(Action::Idle));
    assert_eq!(taken(&mut app), vec!["menu.on_event(Window(Window))"]);
}

#[test]
fn keys_pile_up_until_the_events_are_cleared() {
    let mut app = application(None);
    app.start(Screen::new("menu", LoopState::wait()));
    taken(&mut app);
    assert_eq!(app.handle_event(key(ENTER, true)), Ok(Action::Idle));
    assert_eq!(app.handle_event(key(ESCAPE, false)), Ok(Action::Idle));
    assert!(app.pressed_keys.contains(&ENTER));
    assert!(app.released_keys.contains(&ESCAPE));
    assert_eq!(app.pressed_keys.len(), 1);
    assert_eq!(app.released_keys.len(), 1);
    assert!(app.data.window.inputs.cur_temp_input.pressing.is_empty());
    taken(&mut app);
    assert_eq!(
        app.handle_event(Event::MainEventsCleared),
        Ok(Action::Wait { control_flow: WaitPolicy::Wait, request_redraw: true })
    );
    assert!(app.pressed_keys.is_empty());
    assert!(app.released_keys.is_empty());
    assert_eq!(taken(&mut app), vec!["menu.update(enter=true, any=true, dt=0)"]);
    assert_eq!(
        app.handle_event(Event::MainEventsCleared),
        Ok(Action::Wait { control_flow: WaitPolicy::Wait, request_redraw: true })
    );
    assert_eq!(taken(&mut app), vec!["menu.update(enter=false, any=false, dt=0)"]);
}

#[test]
fn synthetic_and_unmapped_keys_are_dropped() {
    let mut app = application(None);
    app.start(Screen::new("menu", LoopState::wait()));
    let synthetic = Event::KeyboardInput { key: Some(ENTER), pressed: true, synthetic: true };
    let unmapped = Event::KeyboardInput { key: None, pressed: true, synthetic: false };
    assert_eq!(app.handle_event(synthetic), Ok(Action::Idle));
    assert_eq!(app.handle_event(unmapped), Ok(Action::Idle));
    assert!(app.pressed_keys.is_empty());
    assert!(app.released_keys.is_empty());
}

#[test]
fn press_and_release_between_two_ticks_is_seen_by_the_next_tick() {
    let mut app = application(None);
    app.start(Screen::new("menu", LoopState::wait()));
    taken(&mut app);
    app.handle_event(key(ENTER, true)).unwrap();
    app.handle_event(key(ENTER, false)).unwrap();
    taken(&mut app);
    app.handle_event(Event::MainEventsCleared).unwrap();
    assert_eq!(taken(&mut app), vec!["menu.update(enter=true, any=true, dt=0)"]);
    assert!(app.data.window.inputs.pressed_any_cur_frame);
}

#[test]
fn touch_moves_the_pointer() {
    let mut app = application(None);
    let touch = Event::Touch { id: 3, x: 640, y: 360, phase: TouchPhase::Moved };
    assert_eq!(app.handle_event(touch), Ok(Action::Idle));
    assert_eq!(app.data.window.inputs.cur_temp_input.x, 640);
    assert_eq!(app.data.window.inputs.cur_temp_input.y, 360);
    app.handle_event(Event::MainEventsCleared).unwrap();
    assert_eq!(app.data.window.inputs.cur_frame_input.x, 640);
    assert_eq!(app.data.window.inputs.cur_frame_input.y, 360);
}

#[test]
fn tick_reports_how_to_wait() {
    let mut app = application(None);
    let flow = LoopState { control_flow: WaitPolicy::WaitUntil(5_000), render: false };
    app.start(Screen::new("game", flow));
    assert_eq!(
        app.handle_event(Event::MainEventsCleared),
        Ok(Action::Wait { control_flow: WaitPolicy::WaitUntil(5_000), request_redraw: false })
    );
    assert!(!app.game_draw_requested);
}

#[test]
fn redraw_is_asked_for_whenever_the_tick_wants_a_frame() {
    let mut app = application(Some(WgpuData::new("gpu", 1600, 900)));
    app.start(Screen::new("game", LoopState::poll()));
    assert_eq!(
        app.handle_event(Event::MainEventsCleared),
        Ok(Action::Wait { control_flow: WaitPolicy::Poll, request_redraw: true })
    );
    assert!(app.game_draw_requested);
    assert_eq!(
        app.handle_event(Event::MainEventsCleared),
        Ok(Action::Wait { control_flow: WaitPolicy::Poll, request_redraw: true })
    );
    assert!(app.game_draw_requested);
    assert_eq!(app.handle_event(Event::RedrawRequested), Ok(Action::Render));
    assert!(!app.game_draw_requested);
    assert_eq!(
        app.handle_event(Event::MainEventsCleared),
        Ok(Action::Wait { control_flow: WaitPolicy::Poll, request_redraw: true })
    );
}

#[test]
fn one_frame_is_drawn_in_one_batch_of_events() {
    let mut app = application(Some(WgpuData::new("gpu", 1600, 900)));
    app.start(Screen::new("game", LoopState::poll()));
    assert!(!app.frame_drawn);
    assert_eq!(app.handle_event(Event::NewEvents), Ok(Action::Idle));
    app.handle_event(Event::MainEventsCleared).unwrap();
    assert_eq!(app.handle_event(Event::RedrawRequested), Ok(Action::Render));
    assert!(app.frame_drawn);
    assert_eq!(app.handle_event(Event::RedrawRequested), Ok(Action::Idle));
    assert_eq!(app.handle_event(Event::RedrawRequested), Ok(Action::Idle));
    assert_eq!(app.handle_event(Event::NewEvents), Ok(Action::Idle));
    assert!(!app.frame_drawn);
    assert_eq!(app.handle_event(Event::RedrawRequested), Ok(Action::Render));
}

#[test]
fn redraw_without_a_gpu_draws_nothing() {
    let mut app = application(None);
    app.start(Screen::new("game", LoopState::poll()));
    app.handle_event(Event::MainEventsCleared).unwrap();
    assert!(app.game_draw_requested);
    assert_eq!(app.handle_event(Event::RedrawRequested), Ok(Action::Idle));
    assert!(!app.game_draw_requested);
}

#[test]
fn a_stopped_application_leaves_the_loop() {
    let mut app = application(None);
    app.start(Screen::new("game", LoopState::poll()).then(Trans::Exit));
    taken(&mut app);
    assert_eq!(
        app.handle_event(Event::MainEventsCleared),
        Ok(Action::Wait { control_flow: WaitPolicy::Poll, request_redraw: true })
    );
    assert!(!app.running);
    assert!(app.states.is_empty());
    assert_eq!(app.handle_event(Event::MainEventsCleared), Ok(Action::Exit));
    assert_eq!(taken(&mut app), vec!["game.update(enter=false, any=false, dt=0)", "game.stop"]);
}

#[test]
fn a_misfit_is_reported_by_the_driver() {
    let mut app = application(None);
    app.start(Screen::new("game", LoopState::poll()).then(Trans::Vec(vec![Trans::Pop, Trans::Pop])));
    assert_eq!(app.handle_event(Event::MainEventsCleared), Err(StackError { depth: 1 }));
    assert_eq!(app.states.len(), 1);
    assert!(app.running);
    assert!(!app.game_draw_requested);
}

#[test]
fn resize_is_ignored_without_a_gpu_or_with_a_zero_side() {
    let mut app = application(None);
    assert_eq!(app.handle_event(Event::Resized { width: 800, height: 600 }), Ok(Action::Idle));
    assert!(!app.resize_gpu(800, 600));
    assert!(app.data.window.gpu.is_none());
    let mut app = application(Some(WgpuData::new("gpu", 1600, 900)));
    assert_eq!(app.handle_event(Event::Resized { width: 0, height: 600 }), Ok(Action::Idle));
    assert_eq!(app.handle_event(Event::Resized { width: 800, height: 0 }), Ok(Action::Idle));
    assert!(!app.resize_gpu(0, 600));
    assert!(!app.resize_gpu(800, 0));
    assert_eq!(app.data.window.gpu.as_ref().unwrap().get_screen_size(), (1600, 900));
}

#[test]
fn resize_configures_the_surface_and_tells_the_states() {
    let mut app = application(Some(WgpuData::new("gpu", 1600, 900)));
    app.start(Screen::new("menu", LoopState::wait()));
    taken(&mut app);
    assert_eq!(
        app.handle_event(Event::Resized { width: 800, height: 600 }),
        Ok(Action::ResizeSurface { width: 800, height: 600 })
    );
    assert_eq!(
        taken(&mut app),
        vec!["menu.on_event(Window(Resized { width: 800, height: 600 }))"]
    );
    assert_eq!(app.data.window.gpu.as_ref().unwrap().get_screen_size(), (1600, 900));
    assert!(app.resize_gpu(800, 600));
    assert_eq!(app.data.window.gpu.as_ref().unwrap().get_screen_size(), (800, 600));
    assert_eq!(app.data.window.gpu.as_ref().unwrap().handles, "gpu");
    assert_eq!(taken(&mut app), vec!["menu.on_event(FoundGPU)"]);
}

#[test]
fn gpu_that_failed_at_startup_is_made_on_resume() {
    let mut app = application(None);
    app.start(Screen::new("menu", LoopState::wait()));
    app.handle_event(Event::MainEventsCleared).unwrap();
    taken(&mut app);
    assert_eq!(app.handle_event(Event::Resized { width: 800, height: 600 }), Ok(Action::Idle));
    assert!(app.data.window.gpu.is_none());
    assert_eq!(app.handle_event(Event::RedrawRequested), Ok(Action::Idle));
    assert_eq!(app.data.window.world.try_fetch(INVERT), None);
    taken(&mut app);
    assert_eq!(app.handle_event(Event::Resumed), Ok(Action::CreateSurface));
    app.install_gpu(WgpuData::new("card", 800, 600));
    assert_eq!(taken(&mut app), vec!["menu.on_event(FoundGPU)"]);
    assert_eq!(
        app.data.window.world.try_fetch(INVERT),
        Some(&"invert on card at 800x600".to_string())
    );
    assert_eq!(app.handle_event(Event::Resumed), Ok(Action::Idle));
    assert_eq!(app.handle_event(Event::RedrawRequested), Ok(Action::Render));
    app.begin_frame(1_500);
    assert_eq!(app.render_tick(&()), Ok(()));
    assert_eq!(
        taken(&mut app),
        vec!["menu.render(dt=500, invert=Some(\"invert on card at 800x600\"))"]
    );
}

#[test]
fn a_new_gpu_empties_the_registry_before_the_states_hear_of_it() {
    let mut app = application(Some(WgpuData::new("old", 1600, 900)));
    app.data.window.world.insert(INVERT, "invert on old".to_string());
    app.start(Screen::new("menu", LoopState::wait()));
    app.install_gpu(WgpuData::new("new", 320, 200));
    assert_eq!(app.data.window.gpu.as_ref().unwrap().handles, "new");
    assert_eq!(
        app.data.window.world.try_fetch(INVERT),
        Some(&"invert on new at 320x200".to_string())
    );
}

#[test]
fn suspend_gives_up_the_gpu_and_what_was_made_with_it() {
    let mut app = application(Some(WgpuData::new("gpu", 1600, 900)));
    app.data.window.world.insert(INVERT, "invert".to_string());
    app.start(Screen::new("menu", LoopState::wait()));
    taken(&mut app);
    assert_eq!(app.handle_event(Event::Suspended), Ok(Action::Idle));
    assert!(app.data.window.gpu.is_none());
    assert!(!app.data.window.world.has_value(INVERT));
    assert!(taken(&mut app).is_empty());
    assert_eq!(app.handle_event(Event::RedrawRequested), Ok(Action::Idle));
    assert_eq!(app.handle_event(Event::Resumed), Ok(Action::CreateSurface));
}

#[test]
fn drop_gpu_after_a_lost_frame_asks_for_a_new_surface_on_resume() {
    let mut app = application(Some(WgpuData::new("gpu", 1600, 900)));
    app.data.window.world.insert(INVERT, "invert".to_string());
    app.drop_gpu();
    assert!(app.data.window.gpu.is_none());
    assert!(!app.data.window.world.has_value(INVERT));
    assert_eq!(app.handle_event(Event::Resumed), Ok(Action::CreateSurface));
}

#[test]
fn frame_time_is_the_time_since_the_last_frame() {
    let mut app = application(Some(WgpuData::new("gpu", 1600, 900)));
    app.start(Screen::new("menu", LoopState::wait()));
    taken(&mut app);
    app.begin_frame(17_000);
    assert_eq!(app.data.dt, 16_000);
    app.render_tick(&()).unwrap();
    app.post_ui_render();
    assert_eq!(
        taken(&mut app),
        vec!["menu.render(dt=16000, invert=None)", "menu.on_event(PostUiRender)"]
    );
    app.end_frame(17_000);
    assert_eq!(app.data.dt, 0);
    assert_eq!(app.data.window.last_render_time, 17_000);
    app.begin_frame(16_000);
    assert_eq!(app.data.dt, 0);
    app.end_frame(16_000);
    app.begin_frame(16_001);
    assert_eq!(app.data.dt, 1);
}
