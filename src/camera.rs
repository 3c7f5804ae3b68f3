use vstd::prelude::*;

verus! {

/// Iterations added or removed by one press of a depth key.
pub const ITER_STEP: i32 = 64;

/// Iteration budget of a fresh camera.
pub const DEFAULT_ITERATIONS: i32 = 64;

/// The keys read in one frame. The pan and zoom keys count while held; the
/// depth keys count only on the frame they are pressed.
#[derive(Clone, Copy, Debug, PartialEq, Eq, Structural)]
pub struct Input {
    pub left: bool,
    pub right: bool,
    pub up: bool,
    pub down: bool,
    pub zoom_in: bool,
    pub zoom_out: bool,
    pub deeper: bool,
    pub shallower: bool,
}

/// `1` when only `plus` is held, `-1` when only `minus` is, else `0`.
pub open spec fn axis(plus: bool, minus: bool) -> int {
    (if plus { 1int } else { 0int }) - (if minus { 1int } else { 0int })
}

/// Clamps `v` into `lo ..= hi`.
pub open spec fn clamp(v: int, lo: int, hi: int) -> int {
    if v < lo {
        lo
    } else if v > hi {
        hi
    } else {
        v
    }
}

/// The iteration budget after one frame: a step up for a press of the
/// deeper key, a step down for a press of the shallower key, never below
/// zero (nor above what an `i32` holds).
pub open spec fn next_depth(depth: int, input: Input) -> int {
    clamp(depth + ITER_STEP * axis(input.deeper, input.shallower), 0, i32::MAX as int)
}

/// The zoom exponent after one frame: one step in while only the zoom-in
/// key is held, one step out while only the zoom-out key is held.
pub open spec fn next_zoom(zoom: int, input: Input) -> int {
    clamp(zoom + axis(input.zoom_in, input.zoom_out), i32::MIN as int, i32::MAX as int)
}

/// The iteration budget after a sequence of frames.
pub open spec fn depth_after(depth: int, inputs: Seq<Input>) -> int
    decreases inputs.len(),
{
    if inputs.len() == 0 {
        depth
    } else {
        depth_after(next_depth(depth, inputs[0]), inputs.drop_first())
    }
}

/// The zoom exponent after a sequence of frames.
pub open spec fn zoom_after(zoom: int, inputs: Seq<Input>) -> int
    decreases inputs.len(),
{
    if inputs.len() == 0 {
        zoom
    } else {
        zoom_after(next_zoom(zoom, inputs[0]), inputs.drop_first())
    }
}

/// Direction of a zoom step in one frame.
#[derive(Clone, Copy, Debug, PartialEq, Eq, Structural)]
pub enum Zoom {
    In,
    Out,
    Hold,
}

impl Input {
    /// Horizontal pan direction: right minus left.
    pub fn horizontal(&self) -> (r: i32)
        ensures
            r == axis(self.right, self.left),
    {
        (self.right as i32) - (self.left as i32)
    }

    /// Vertical pan direction (downwards on screen): down minus up.
    pub fn vertical(&self) -> (r: i32)
        ensures
            r == axis(self.down, self.up),
    {
        (self.down as i32) - (self.up as i32)
    }

    /// Zoom direction: in when only the zoom-in key is held, out when only
    /// the zoom-out key is, else hold.
    pub fn zoom(&self) -> (r: Zoom)
        ensures
            r == Zoom::In <==> axis(self.zoom_in, self.zoom_out) > 0,
            r == Zoom::Out <==> axis(self.zoom_in, self.zoom_out) < 0,
            r == Zoom::Hold <==> axis(self.zoom_in, self.zoom_out) == 0,
    {
        let scroll: i32 = (self.zoom_in as i32) - (self.zoom_out as i32);
        if scroll > 0 {
            Zoom::In
        } else if scroll < 0 {
            Zoom::Out
        } else {
            Zoom::Hold
        }
    }
}

/// The discrete part of the viewport: the iteration budget, and how many
/// zoom steps in (negative: out) the view has taken from its initial
/// extent. The extent is the initial extent times the zoom factor to the
/// power of `zoom`.
#[derive(Clone, Copy, Debug, PartialEq, Eq, Structural)]
pub struct Camera {
    iterations: i32,
    zoom: i32,
}

impl Camera {
    pub closed spec fn spec_iterations(&self) -> i32 {
        self.iterations
    }

    pub closed spec fn spec_zoom(&self) -> i32 {
        self.zoom
    }

    pub open spec fn wf(&self) -> bool {
        self.spec_iterations() >= 0
    }

    /// A camera at the initial extent with the given iteration budget.
    pub fn new(iterations: i32) -> (r: Camera)
        requires
            iterations >= 0,
        ensures
            r.wf(),
            r.spec_iterations() == iterations,
            r.spec_zoom() == 0,
    {
        Camera { iterations, zoom: 0 }
    }

    #[verifier::when_used_as_spec(spec_iterations)]
    pub fn iterations(&self) -> (r: i32)
        ensures
            r == self.spec_iterations(),
    {
        self.iterations
    }

    #[verifier::when_used_as_spec(spec_zoom)]
    pub fn zoom(&self) -> (r: i32)
        ensures
            r == self.spec_zoom(),
    {
        self.zoom
    }

    /// Advances the budget and zoom by one frame of input.
    pub fn update(&mut self, input: &Input)
        requires
            old(self).wf(),
        ensures
            final(self).wf(),
            final(self).spec_iterations() == next_depth(old(self).spec_iterations() as int, *input),
            final(self).spec_zoom() == next_zoom(old(self).spec_zoom() as int, *input),
    {
        let mut depth: i64 = self.iterations as i64;
        if input.deeper {
            depth = depth + ITER_STEP as i64;
        }
        if input.shallower {
            depth = depth - ITER_STEP as i64;
        }
        self.iterations = if depth < 0 {
            0
        } else if depth > i32::MAX as i64 {
            i32::MAX
        } else {
            depth as i32
        };
        let mut zoom: i64 = self.zoom as i64;
        match input.zoom() {
            Zoom::In => {
                zoom = zoom + 1;
            },
            Zoom::Out => {
                zoom = zoom - 1;
            },
            Zoom::Hold => {},
        }
        self.zoom = if zoom > i32::MAX as i64 {
            i32::MAX
        } else if zoom < i32::MIN as i64 {
            i32::MIN
        } else {
            zoom as i32
        };
    }
}

impl Default for Camera {
    fn default() -> (r: Camera)
        ensures
            r.wf(),
            r.spec_iterations() == DEFAULT_ITERATIONS,
            r.spec_zoom() == 0,
    {
        Camera::new(DEFAULT_ITERATIONS)
    }
}

/// Whatever keys are pressed, the iteration budget stays within
/// `0 ..= i32::MAX`: it never goes negative.
pub proof fn lemma_depth_stays_in_range(depth: int, inputs: Seq<Input>)
    requires
        0 <= depth <= i32::MAX,
    ensures
        0 <= depth_after(depth, inputs) <= i32::MAX,
    decreases inputs.len(),
{
    if inputs.len() > 0 {
        lemma_depth_stays_in_range(next_depth(depth, inputs[0]), inputs.drop_first());
    }
}

/// Frames that each press only the shallower key lower the budget by one
/// step each, down to zero and no lower.
pub proof fn lemma_shallower_presses(depth: int, inputs: Seq<Input>)
    requires
        0 <= depth <= i32::MAX,
        forall|i: int| 0 <= i < inputs.len() ==> #[trigger] inputs[i].shallower && !inputs[i].deeper,
    ensures
        depth_after(depth, inputs) == if depth - ITER_STEP * inputs.len() > 0 {
            depth - ITER_STEP * inputs.len()
        } else {
            0
        },
    decreases inputs.len(),
{
    if inputs.len() > 0 {
        let rest = inputs.drop_first();
        assert(inputs[0].shallower && !inputs[0].deeper);
        assert forall|i: int| 0 <= i < rest.len() implies #[trigger] rest[i].shallower
            && !rest[i].deeper by {
            assert(rest[i] == inputs[i + 1]);
            assert(inputs[i + 1].shallower && !inputs[i + 1].deeper);
        }
        lemma_shallower_presses(next_depth(depth, inputs[0]), rest);
    }
}

/// `k` frames with only the zoom-in key held take `k` zoom steps in (up to
/// the largest exponent an `i32` holds): the extent is the initial one
/// times the zoom factor to the power `k`.
pub proof fn lemma_zoom_in_frames(zoom: int, inputs: Seq<Input>)
    requires
        i32::MIN <= zoom <= i32::MAX,
        forall|i: int| 0 <= i < inputs.len() ==> #[trigger] inputs[i].zoom_in && !inputs[i].zoom_out,
    ensures
        zoom_after(zoom, inputs) == clamp(zoom + inputs.len(), i32::MIN as int, i32::MAX as int),
    decreases inputs.len(),
{
    if inputs.len() > 0 {
        let rest = inputs.drop_first();
        assert(inputs[0].zoom_in && !inputs[0].zoom_out);
        assert forall|i: int| 0 <= i < rest.len() implies #[trigger] rest[i].zoom_in
            && !rest[i].zoom_out by {
            assert(rest[i] == inputs[i + 1]);
            assert(inputs[i + 1].zoom_in && !inputs[i + 1].zoom_out);
        }
        lemma_zoom_in_frames(next_zoom(zoom, inputs[0]), rest);
    }
}

} // verus!
