//! One frame: what is needed before it can be drawn, which of the things that
//! were made for earlier frames still serve, and how long it took.

use vstd::prelude::*;

verus! {

/// What is to be drawn.
#[derive(Debug, Clone, Copy, PartialEq, Eq, Structural)]
pub enum RenderScene {
    Sim,
    Menu,
    MainMenu,
}

/// What a renderer lacks.
#[derive(Debug, Clone, Copy, PartialEq, Eq, Structural)]
pub enum RenderNeed {
    /// A window to draw to.
    Window,
    /// A renderer for its window.
    Renderer,
    /// A scene.
    Scene,
}

/// The window that is drawn to, by its generation, and whether there is a
/// renderer for it.
pub struct RenderLoop {
    pub window: Option<usize>,
    pub renderer: bool,
}

impl RenderLoop {
    /// There is a renderer only for a window.
    pub open spec fn wf(self) -> bool {
        self.renderer ==> self.window is Some
    }

    /// Nothing is there yet.
    pub fn new() -> (r: Self)
        ensures
            r.wf(),
            r.window is None,
            !r.renderer,
    {
        RenderLoop { window: None, renderer: false }
    }

    /// A window is offered, or none is. The first window is taken, and one of
    /// a later generation in place of the one that is there; either asks for a
    /// renderer of its own. Returns whether it was taken.
    pub fn on_window(&mut self, offered: Option<usize>) -> (taken: bool)
        requires
            old(self).wf(),
        ensures
            final(self).wf(),
            final(self).window == window_after(old(self).window, offered),
            taken == (final(self).window != old(self).window),
            final(self).renderer == (old(self).renderer && !taken),
    {
        match offered {
            None => false,
            Some(generation) => {
                let newer = match self.window {
                    None => true,
                    Some(stashed) => generation > stashed,
                };
                if newer {
                    self.window = Some(generation);
                    self.renderer = false;
                }
                newer
            },
        }
    }

    /// A renderer was made for the window.
    pub fn on_renderer(&mut self)
        requires
            old(self).window is Some,
        ensures
            final(self).wf(),
            final(self).window == old(self).window,
            final(self).renderer,
    {
        self.renderer = true;
    }

    /// What is lacking, the most basic thing first.
    pub fn need(&self) -> (need: RenderNeed)
        ensures
            need == (if self.window is None {
                RenderNeed::Window
            } else if !self.renderer {
                RenderNeed::Renderer
            } else {
                RenderNeed::Scene
            }),
    {
        if self.window.is_none() {
            RenderNeed::Window
        } else if !self.renderer {
            RenderNeed::Renderer
        } else {
            RenderNeed::Scene
        }
    }
}

/// The window that is drawn to once another is offered, or none is: the first
/// one, or one of a later generation than the one that is there.
pub open spec fn window_after(window: Option<usize>, offered: Option<usize>) -> Option<usize> {
    match (window, offered) {
        (_, None) => window,
        (None, Some(_)) => offered,
        (Some(stashed), Some(generation)) => if generation > stashed {
            offered
        } else {
            window
        },
    }
}

/// A window only ever gives way to a later one, and in whatever order two are
/// offered, the later one is drawn to.
pub proof fn the_latest_window_wins(
    window: Option<usize>,
    a: Option<usize>,
    b: Option<usize>,
)
    ensures
        window is Some ==> window_after(window, a) is Some && window_after(window, a)->0
            >= window->0,
        window_after(window_after(window, a), b) == window_after(window_after(window, b), a),
{
}

/// The scene to draw: the last one asked for, so that none piles up.
pub fn latest_scene(first: RenderScene, later: &Vec<RenderScene>) -> (scene: RenderScene)
    ensures
        scene == (if later@.len() == 0 {
            first
        } else {
            later@.last()
        }),
{
    if later.len() == 0 {
        first
    } else {
        later[later.len() - 1]
    }
}

/// What becomes of a window's swapchain before a frame.
#[derive(Debug, Clone, Copy, PartialEq, Eq, Structural)]
pub enum SwapchainStep {
    /// A first one is made.
    Generate,
    /// It is made anew.
    Regenerate,
    /// It stays.
    Keep,
}

/// What the swapchain of a window was made for.
#[derive(Debug, Clone, Copy, PartialEq, Eq, Structural)]
pub struct Dimensions {
    pub width: u32,
    pub height: u32,
}

/// Whether a swapchain is to be made anew for a window: the window still has
/// the dimensions that the swapchain was made for.
pub fn is_stale_for_window(cached: Dimensions, window: Dimensions) -> (stale: bool)
    ensures
        stale == (cached == window),
{
    cached == window
}

/// What becomes of a window's swapchain, which may not have been made yet.
pub fn swapchain_step(cached: Option<Dimensions>, window: Dimensions) -> (step: SwapchainStep)
    ensures
        step == (match cached {
            None => SwapchainStep::Generate,
            Some(c) => if c == window {
                SwapchainStep::Regenerate
            } else {
                SwapchainStep::Keep
            },
        }),
{
    match cached {
        None => SwapchainStep::Generate,
        Some(c) => if is_stale_for_window(c, window) {
            SwapchainStep::Regenerate
        } else {
            SwapchainStep::Keep
        },
    }
}

/// Images that a swapchain is asked for: one more than its least number.
pub fn swapchain_image_count(min_image_count: u32) -> (count: u32)
    requires
        min_image_count < u32::MAX,
    ensures
        count == min_image_count + 1,
{
    min_image_count + 1
}

/// Times that a swapchain is made anew for the sake of one image.
pub const MAX_RECREATION_OCCURRENCES: usize = 3;

/// The search for an image to draw to.
pub struct ImageSearch {
    pub times_recreated: usize,
}

impl ImageSearch {
    /// The search does not go on for ever.
    pub open spec fn wf(self) -> bool {
        self.times_recreated <= MAX_RECREATION_OCCURRENCES
    }

    /// A search that begins.
    pub fn begin() -> (s: Self)
        ensures
            s.wf(),
            s.times_recreated == 0,
    {
        ImageSearch { times_recreated: 0 }
    }

    /// An image was found. Returns whether the swapchain is made anew to find
    /// a better one; it is, three times at most, while the image is not
    /// optimal.
    pub fn on_image(&mut self, suboptimal: bool) -> (again: bool)
        requires
            old(self).wf(),
        ensures
            final(self).wf(),
            again == (suboptimal && old(self).times_recreated < 3),
            final(self).times_recreated == old(self).times_recreated + (if again {
                1int
            } else {
                0
            }),
    {
        let again = suboptimal && self.times_recreated < MAX_RECREATION_OCCURRENCES;
        if again {
            self.times_recreated = self.times_recreated + 1;
        }
        again
    }
}

/// What a pipeline was made for.
#[derive(Debug, Clone, Copy, PartialEq, Eq, Structural)]
pub struct PipelineKey {
    pub width: u32,
    pub height: u32,
    pub depth: u32,
    pub color_attachment_count: u32,
    pub window_id: u64,
}

/// Whether an earlier frame's pipeline serves, and if not, why.
#[derive(Debug, Clone, Copy, PartialEq, Eq, Structural)]
pub enum PipelineCheck {
    Hit,
    NoCache,
    Extent,
    AttachmentCount,
    WindowId,
}

/// Whether an earlier frame's pipeline serves: it was made for the same
/// extent, as many color attachments, and the same window.
pub fn check_pipeline(cached: Option<PipelineKey>, wanted: PipelineKey) -> (check: PipelineCheck)
    ensures
        check == PipelineCheck::Hit <==> cached == Some(wanted),
        check == PipelineCheck::NoCache <==> cached is None,
        check == PipelineCheck::Extent <==> (cached matches Some(c) && !(c.width == wanted.width
            && c.height == wanted.height && c.depth == wanted.depth)),
        check == PipelineCheck::AttachmentCount <==> (cached matches Some(c) && c.width
            == wanted.width && c.height == wanted.height && c.depth == wanted.depth
            && c.color_attachment_count != wanted.color_attachment_count),
{
    match cached {
        None => PipelineCheck::NoCache,
        Some(c) => {
            if c.width != wanted.width || c.height != wanted.height || c.depth != wanted.depth {
                PipelineCheck::Extent
            } else if c.color_attachment_count != wanted.color_attachment_count {
                PipelineCheck::AttachmentCount
            } else if c.window_id != wanted.window_id {
                PipelineCheck::WindowId
            } else {
                PipelineCheck::Hit
            }
        },
    }
}

/// A part of a frame's work: when it began last, and how long it took last.
/// Times are in nanoseconds since the frame began.
pub struct Lap {
    pub inflight: Option<u64>,
    pub duration: Option<u64>,
}

impl Lap {
    /// A part that has not begun.
    pub fn new() -> (lap: Self)
        ensures
            lap.inflight is None,
            lap.duration is None,
    {
        Lap { inflight: None, duration: None }
    }

    /// The part begins.
    pub fn begin_lap(&mut self, now: u64)
        ensures
            final(self).inflight == Some(now),
            final(self).duration == old(self).duration,
    {
        self.inflight = Some(now);
    }

    /// The part ends. An end without a beginning is not noted.
    pub fn end_lap(&mut self, now: u64)
        requires
            old(self).inflight matches Some(start) ==> start <= now,
        ensures
            final(self).inflight == old(self).inflight,
            final(self).duration == (match old(self).inflight {
                Some(start) => Some((now - start) as u64),
                None => old(self).duration,
            }),
    {
        if let Some(start) = self.inflight {
            self.duration = Some(now - start);
        }
    }
}

/// How long the parts of a frame took.
pub struct RenderTimer {
    pub inflight_load: Option<u64>,
    pub loads: Vec<u64>,
    pub swapchain: Lap,
    pub framebuffer_acquisition: Lap,
    pub pipeline_construction: Lap,
    pub command_record: Lap,
    pub draw: Lap,
}

impl RenderTimer {
    /// A frame begins: nothing is loaded or being loaded, and no part has
    /// begun or was timed.
    pub fn begin() -> (t: Self)
        ensures
            t.inflight_load is None,
            t.loads@ == Seq::<u64>::empty(),
            t.swapchain == (Lap { inflight: None, duration: None }),
            t.framebuffer_acquisition == (Lap { inflight: None, duration: None }),
            t.pipeline_construction == (Lap { inflight: None, duration: None }),
            t.command_record == (Lap { inflight: None, duration: None }),
            t.draw == (Lap { inflight: None, duration: None }),
    {
        RenderTimer {
            inflight_load: None,
            loads: Vec::new(),
            swapchain: Lap::new(),
            framebuffer_acquisition: Lap::new(),
            pipeline_construction: Lap::new(),
            command_record: Lap::new(),
            draw: Lap::new(),
        }
    }

    /// Something is being loaded.
    pub fn record_load_start(&mut self, now: u64)
        ensures
            *final(self) == (RenderTimer { inflight_load: Some(now), ..*old(self) }),
    {
        self.inflight_load = Some(now);
    }

    /// Something is loaded. An end without a beginning is not noted.
    pub fn record_load_end(&mut self, now: u64)
        requires
            old(self).inflight_load matches Some(start) ==> start <= now,
        ensures
            final(self).inflight_load == old(self).inflight_load,
            final(self).loads@ == (match old(self).inflight_load {
                Some(start) => old(self).loads@.push((now - start) as u64),
                None => old(self).loads@,
            }),
            *final(self) == (RenderTimer { loads: final(self).loads, ..*old(self) }),
    {
        if let Some(start) = self.inflight_load {
            self.loads.push(now - start);
        }
    }
}

/// The first window is taken, a later one in place of it, and an earlier one or
/// none leaves the window that is there.
pub proof fn a_later_window_is_taken(stashed: usize, offered: usize)
    ensures
        window_after(None, Some(offered)) == Some(offered),
        window_after(Some(stashed), None) == Some(stashed),
        window_after(None, None) == None::<usize>,
        offered > stashed ==> window_after(Some(stashed), Some(offered)) == Some(offered),
        offered <= stashed ==> window_after(Some(stashed), Some(offered)) == Some(stashed),
{
}

} // verus!
