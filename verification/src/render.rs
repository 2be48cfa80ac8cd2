//! The model of the GPU surface manager and of its double-buffered render
//! targets. The handles themselves belong to the embedding program and are
//! carried through as they are.

use vstd::prelude::*;

verus! {

/// The size of a texture, in pixels.
#[derive(Clone, Copy, Debug, Default, PartialEq, Eq)]
pub struct TextureInfo {
    pub width: u32,
    pub height: u32,
}

impl TextureInfo {
    pub fn new(width: u32, height: u32) -> (info: TextureInfo)
        ensures
            info.width == width,
            info.height == height,
    {
        TextureInfo { width, height }
    }
}

/// The GPU surface manager: the handles of device, queue and surface, and
/// the size that the surface is configured for.
pub struct WgpuData<G> {
    pub handles: G,
    pub width: u32,
    pub height: u32,
}

impl<G> WgpuData<G> {
    /// A surface manager over `handles`, configured for `width` by `height`.
    pub fn new(handles: G, width: u32, height: u32) -> (gpu: WgpuData<G>)
        ensures
            gpu.handles == handles,
            gpu.width == width,
            gpu.height == height,
    {
        WgpuData { handles, width, height }
    }

    /// The size that the surface is configured for.
    pub fn get_screen_size(&self) -> (size: (u32, u32))
        ensures
            size == (self.width, self.height),
    {
        (self.width, self.height)
    }

    /// Whether a surface can have this size: neither side is zero.
    pub open spec fn presentable(width: u32, height: u32) -> bool {
        width > 0 && height > 0
    }

    /// Takes a new size for the surface. A size with a zero side is
    /// ignored. Returns whether the surface has to be configured anew.
    pub fn resize(&mut self, width: u32, height: u32) -> (configure: bool)
        ensures
            configure == Self::presentable(width, height),
            final(self).handles == old(self).handles,
            configure ==> final(self).width == width && final(self).height == height,
            !configure ==> *final(self) == *old(self),
    {
        if width > 0 && height > 0 {
            self.width = width;
            self.height = height;
            true
        } else {
            false
        }
    }
}

/// Two off-screen render targets, one of which is the main screen. The
/// other is free to receive the output of an effect that reads the main
/// one.
pub struct MainRenderViews<T> {
    buffers: [T; 2],
    main: usize,
}

impl<T> MainRenderViews<T> {
    #[verifier::type_invariant]
    spec fn main_in_range(self) -> bool {
        self.main < 2
    }

    /// The two targets, in the order in which they were given.
    pub closed spec fn buffers(self) -> Seq<T> {
        self.buffers@
    }

    /// The index of the main screen: 0 or 1.
    pub closed spec fn main_index(self) -> int {
        self.main as int
    }

    /// The first target starts as the main screen.
    pub fn new(first: T, second: T) -> (views: MainRenderViews<T>)
        ensures
            views.buffers() == seq![first, second],
            views.main_index() == 0,
    {
        let views = MainRenderViews { buffers: [first, second], main: 0 };
        assert(views.buffers@ =~= seq![first, second]);
        views
    }

    /// The main screen.
    pub fn get_screen(&self) -> (screen: &T)
        ensures
            0 <= self.main_index() < 2,
            self.buffers().len() == 2,
            *screen == self.buffers()[self.main_index()],
    {
        proof {
            use_type_invariant(self);
        }
        &self.buffers[self.main]
    }

    /// Makes the other target the main screen. Returns the former main
    /// screen, to read from, and the new one, to draw into.
    pub fn swap_screen(&mut self) -> (pair: (&T, &T))
        ensures
            0 <= old(self).main_index() < 2,
            final(self).main_index() == 1 - old(self).main_index(),
            final(self).buffers() == old(self).buffers(),
            final(self).buffers().len() == 2,
            *pair.0 == old(self).buffers()[old(self).main_index()],
            *pair.1 == old(self).buffers()[1 - old(self).main_index()],
    {
        proof {
            use_type_invariant(&*self);
        }
        let src = self.main;
        self.main = 1 - src;
        let dst = self.main;
        (&self.buffers[src], &self.buffers[dst])
    }
}

} // verus!
