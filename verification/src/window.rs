//! What belongs to the one window of the application, and the view of it
//! that the hooks of a state work on.

use crate::input::{BakedInputs, BakedInputsView};
use crate::platform::Platform;
use crate::registry::{ResourceKind, ResourceRegistry};
use crate::render::WgpuData;
use vstd::prelude::*;

verus! {

/// The window with everything that hangs on it.
pub struct WindowInstance<P: Platform> {
    /// The native window.
    pub window: P::Window,
    /// The GPU surface manager. It is absent while the platform gives the
    /// application no surface, or after its creation failed.
    pub gpu: Option<WgpuData<P::Gpu>>,
    /// The GPU-backed resources that the states share.
    pub world: ResourceRegistry<P::Resource>,
    pub inputs: BakedInputs,
    /// The reading of the application clock, in nanoseconds, at which the
    /// last frame began.
    pub last_render_time: u64,
}

/// What a `WindowInstance` holds.
#[verifier::ext_equal]
pub struct WindowView<P: Platform> {
    pub window: P::Window,
    pub gpu: Option<WgpuData<P::Gpu>>,
    pub world: Map<ResourceKind, P::Resource>,
    pub inputs: BakedInputsView,
    pub last_render_time: u64,
}

impl<P: Platform> View for WindowInstance<P> {
    type V = WindowView<P>;

    open spec fn view(&self) -> WindowView<P> {
        WindowView {
            window: self.window,
            gpu: self.gpu,
            world: self.world@,
            inputs: self.inputs@,
            last_render_time: self.last_render_time,
        }
    }
}

impl<P: Platform> WindowInstance<P> {
    /// A window with fresh inputs and an empty registry.
    pub fn new(window: P::Window, gpu: Option<WgpuData<P::Gpu>>, now: u64) -> (instance:
        WindowInstance<P>)
        ensures
            instance@ == (WindowView::<P> {
                window,
                gpu,
                world: Map::empty(),
                inputs: BakedInputsView::empty(),
                last_render_time: now,
            }),
    {
        WindowInstance {
            window,
            gpu,
            world: ResourceRegistry::new(),
            inputs: BakedInputs::default(),
            last_render_time: now,
        }
    }
}

/// What a hook of a state receives: the window, and the time since the
/// frame before.
pub struct StateData<P: Platform> {
    pub window: WindowInstance<P>,
    /// Nanoseconds between the start of the last frame and the start of
    /// this one; zero outside the drawing of a frame.
    pub dt: u64,
}

/// What a `StateData` holds.
#[verifier::ext_equal]
pub struct StateDataView<P: Platform> {
    pub window: WindowView<P>,
    pub dt: u64,
}

impl<P: Platform> View for StateData<P> {
    type V = StateDataView<P>;

    open spec fn view(&self) -> StateDataView<P> {
        StateDataView { window: self.window@, dt: self.dt }
    }
}

impl<P: Platform> StateDataView<P> {
    /// The data with other inputs.
    pub open spec fn with_inputs(self, inputs: BakedInputsView) -> StateDataView<P> {
        StateDataView { window: WindowView { inputs, ..self.window }, ..self }
    }

    /// The data after the inputs crossed the frame boundary, with no frame
    /// time.
    pub open spec fn frame_swapped(self) -> StateDataView<P> {
        StateDataView { dt: 0, ..self.with_inputs(self.window.inputs.swap_frame()) }
    }

    /// The data with another GPU surface, or none, and an empty registry:
    /// what the registry held was made with the surface that is gone.
    pub open spec fn with_gpu(self, gpu: Option<WgpuData<P::Gpu>>) -> StateDataView<P> {
        StateDataView { window: WindowView { gpu, world: Map::empty(), ..self.window }, ..self }
    }

    /// The data with its GPU surface configured for another size.
    pub open spec fn resized(self, width: u32, height: u32) -> StateDataView<P>
        recommends
            self.window.gpu is Some,
    {
        let gpu = WgpuData { width, height, ..self.window.gpu->0 };
        StateDataView { window: WindowView { gpu: Some(gpu), ..self.window }, ..self }
    }

    /// The data while a frame is drawn that began at `now`: the frame time
    /// is the time since the last frame began.
    pub open spec fn frame_begun(self, now: u64) -> StateDataView<P> {
        StateDataView {
            dt: if now >= self.window.last_render_time {
                (now - self.window.last_render_time) as u64
            } else {
                0
            },
            ..self
        }
    }

    /// The data after the frame that began at `now`.
    pub open spec fn frame_ended(self, now: u64) -> StateDataView<P> {
        StateDataView { window: WindowView { last_render_time: now, ..self.window }, dt: 0 }
    }
}

} // verus!
