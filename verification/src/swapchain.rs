//! Keeping a renderer's swapchain in step with its window: the renderer asks before
//! each frame whether the swapchain must be rebuilt, and reports what the GPU answered
//! when it rebuilt it, acquired an image, and presented a frame.
use vstd::prelude::*;

verus! {

/// What an attempt to rebuild the swapchain for the window's current size gave.
#[derive(PartialEq, Eq, Structural, Copy, Clone, Debug)]
pub enum RecreateOutcome {
    /// The swapchain was rebuilt.
    Recreated,
    /// The window's size cannot be used yet (it is being resized); try again.
    UnsupportedDimensions,
}

/// What acquiring the next image of the swapchain gave.
#[derive(PartialEq, Eq, Structural, Copy, Clone, Debug)]
pub enum AcquireOutcome {
    /// The image with this index can be drawn into.
    Acquired(usize),
    /// The swapchain no longer matches the window.
    OutOfDate,
}

/// What presenting a frame gave.
#[derive(PartialEq, Eq, Structural, Copy, Clone, Debug)]
pub enum PresentOutcome {
    /// The frame was presented.
    Presented,
    /// The swapchain no longer matches the window.
    OutOfDate,
}

/// Whether the swapchain must be rebuilt before the next frame.
#[derive(PartialEq, Eq, Structural, Copy, Clone, Debug)]
pub struct SwapchainStatus {
    pub recreate_swapchain: bool,
}

impl SwapchainStatus {
    /// A swapchain just built for its window.
    pub fn new() -> (s: SwapchainStatus)
        ensures
            !s.recreate_swapchain,
    {
        SwapchainStatus { recreate_swapchain: false }
    }

    /// Starts a frame; `force_recreate` asks for a rebuild whatever the GPU said. Returns
    /// whether the swapchain must be rebuilt before drawing.
    pub fn begin_frame(&mut self, force_recreate: bool) -> (recreate: bool)
        ensures
            final(self).recreate_swapchain == (old(self).recreate_swapchain || force_recreate),
            recreate == final(self).recreate_swapchain,
    {
        self.recreate_swapchain = self.recreate_swapchain || force_recreate;
        self.recreate_swapchain
    }

    /// Takes in what an attempt to rebuild gave. Returns whether to try again.
    pub fn recreated(&mut self, outcome: RecreateOutcome) -> (again: bool)
        ensures
            final(self).recreate_swapchain == (outcome == RecreateOutcome::UnsupportedDimensions),
            again == final(self).recreate_swapchain,
    {
        match outcome {
            RecreateOutcome::Recreated => {
                self.recreate_swapchain = false;
            },
            RecreateOutcome::UnsupportedDimensions => {
                self.recreate_swapchain = true;
            },
        }
        self.recreate_swapchain
    }

    /// Takes in what acquiring an image gave. Returns the image to draw into, or `None`
    /// when the frame must be dropped and the swapchain rebuilt first.
    pub fn acquired(&mut self, outcome: AcquireOutcome) -> (image: Option<usize>)
        ensures
            match outcome {
                AcquireOutcome::Acquired(index) => image == Some(index) && *final(self) == *old(self),
                AcquireOutcome::OutOfDate => image is None && final(self).recreate_swapchain,
            },
    {
        match outcome {
            AcquireOutcome::Acquired(index) => Some(index),
            AcquireOutcome::OutOfDate => {
                self.recreate_swapchain = true;
                None
            },
        }
    }

    /// Takes in what presenting a frame gave.
    pub fn presented(&mut self, outcome: PresentOutcome)
        ensures
            final(self).recreate_swapchain == (old(self).recreate_swapchain || outcome
                == PresentOutcome::OutOfDate),
    {
        match outcome {
            PresentOutcome::Presented => {},
            PresentOutcome::OutOfDate => {
                self.recreate_swapchain = true;
            },
        }
    }
}

/// Once the GPU says the swapchain is out of date, on acquiring or on presenting, the
/// next frame rebuilds it before drawing, whether or not a rebuild is forced.
pub proof fn law_out_of_date_is_rebuilt_next_frame(
    reported: SwapchainStatus,
    begun: SwapchainStatus,
    force_recreate: bool,
)
    requires
        reported.recreate_swapchain,
        begun.recreate_swapchain == (reported.recreate_swapchain || force_recreate),
    ensures
        begun.recreate_swapchain,
{
}

} // verus!
