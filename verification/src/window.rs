use vstd::prelude::*;

verus! {

/// The state of a window that the renderer reads: its title, its size in pixels, and whether
/// its framebuffer was resized since the flag was last cleared.
pub struct Window {
    pub width: u32,
    pub height: u32,
    pub framebuffer_resized: bool,
    pub window_name: String,
}

impl Window {
    /// A window titled `title` of the given size, not resized.
    pub fn new(title: &str, width: u32, height: u32) -> (w: Self)
        ensures
            w.width == width,
            w.height == height,
            !w.framebuffer_resized,
            w.window_name@ == title@,
    {
        Window { width, height, framebuffer_resized: false, window_name: title.to_owned() }
    }

    /// The size of the surface to draw: width, then height.
    pub fn get_extent(&self) -> (e: (u32, u32))
        ensures
            e == (self.width, self.height),
    {
        (self.width, self.height)
    }

    /// Whether the framebuffer was resized.
    pub fn was_window_resized(&self) -> (b: bool)
        ensures
            b == self.framebuffer_resized,
    {
        self.framebuffer_resized
    }

    /// Clears the resize flag.
    pub fn reset_window_resized_flag(&mut self)
        ensures
            !final(self).framebuffer_resized,
            final(self).width == old(self).width,
            final(self).height == old(self).height,
            final(self).window_name == old(self).window_name,
    {
        self.framebuffer_resized = false;
    }

    /// Records a resize: the new size, and the flag set.
    pub fn framebuffer_resize_callback(window: &mut Window, width: u32, height: u32)
        ensures
            final(window).framebuffer_resized,
            final(window).width == width,
            final(window).height == height,
            final(window).window_name == old(window).window_name,
    {
        window.framebuffer_resized = true;
        window.width = width;
        window.height = height;
    }
}

} // verus!
