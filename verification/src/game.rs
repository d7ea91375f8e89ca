use vstd::prelude::*;

verus! {

/// Counts frames drawn in the current second and keeps the count of the
/// last whole second as the rate to show.
pub struct FrameCounter {
    pub frames: u64,
    pub fps: u64,
}

impl FrameCounter {
    /// No frame counted yet, and a rate of 0.
    pub fn new() -> (c: FrameCounter)
        ensures
            c.frames == 0,
            c.fps == 0,
    {
        FrameCounter { frames: 0, fps: 0 }
    }

    /// Counts one more frame; when a second has passed since the count
    /// started, that count becomes the rate and counting starts over.
    pub fn tick(&mut self, second_passed: bool)
        requires
            old(self).frames < u64::MAX,
        ensures
            second_passed ==> final(self).fps == old(self).frames + 1 && final(self).frames == 0,
            !second_passed ==> final(self).fps == old(self).fps && final(self).frames
                == old(self).frames + 1,
    {
        self.frames = self.frames + 1;
        if second_passed {
            self.fps = self.frames;
            self.frames = 0;
        }
    }
}

} // verus!
