//! The incremental render scheduler: a pixel buffer in raster order and a
//! cursor into it. Every tick shades at most a fixed budget of pixels, so a
//! full frame may take many ticks, and the buffer can be shown at any time.
//!
//! The scheduler never shades a pixel itself: a tick calls the shader that
//! the host hands it, once for each pixel that is due.

use vstd::prelude::*;
use crate::color::Color;

verus! {

/// The raster index of the pixel in column `x` of row `y`, in rows of
/// `width` pixels: rows follow one another from the top, and in a row the
/// pixels from the left.
pub open spec fn raster_index(width: nat, x: nat, y: nat) -> nat {
    y * width + x
}

/// The column of the pixel with this raster index.
pub open spec fn raster_column(width: nat, index: nat) -> nat {
    index % width
}

/// The row of the pixel with this raster index.
pub open spec fn raster_row(width: nat, index: nat) -> nat {
    index / width
}

/// The scheduler's state as a mathematical value.
pub struct Frame {
    /// Pixels per row.
    pub width: nat,
    /// Rows.
    pub height: nat,
    /// Raster index of the next pixel to shade, or the number of pixels when
    /// the pass is complete.
    pub cursor: nat,
    /// The colours, row after row.
    pub pixels: Seq<Color>,
}

/// What goes into one tick: its budget, and the colours that the shader
/// gives for the pixels due.
pub struct Tick {
    pub budget: nat,
    pub colors: Seq<Color>,
}

impl Frame {
    /// The number of pixels.
    pub open spec fn total(self) -> nat {
        self.width * self.height
    }

    /// The buffer holds one colour per pixel and the cursor is within it or
    /// just behind its end.
    pub open spec fn wf(self) -> bool {
        &&& self.pixels.len() == self.total()
        &&& self.cursor <= self.total()
    }

    /// The number of pixels still to shade in this pass.
    pub open spec fn remaining(self) -> nat {
        (self.total() - self.cursor) as nat
    }

    /// The number of pixels that a tick with this budget shades: the budget,
    /// or what is left of the pass if that is less.
    pub open spec fn pending(self, budget: nat) -> nat {
        if budget <= self.remaining() {
            budget
        } else {
            self.remaining()
        }
    }

    /// Whether a tick with this budget ends by taking the cursor back to the
    /// first pixel: it does when budget is left once the pass is complete.
    pub open spec fn wraps(self, budget: nat) -> bool {
        budget > self.remaining()
    }

    /// Whether the pixel with this raster index is one of those that a tick
    /// with this budget shades.
    pub open spec fn due(self, budget: nat, index: int) -> bool {
        self.cursor <= index < self.cursor + self.pending(budget)
    }

    /// The colours that a tick with this budget, run from this state, has
    /// shaded, read from the state `next` that it left.
    pub open spec fn shaded(self, budget: nat, next: Frame) -> Seq<Color> {
        next.pixels.subrange(self.cursor as int, (self.cursor + self.pending(budget)) as int)
    }

    /// The state after one tick. The colours replace the pixels from the
    /// cursor on, every other pixel stays as it was, and the cursor moves
    /// behind the last pixel shaded, or back to the start if the tick wraps.
    pub open spec fn tick(self, budget: nat, colors: Seq<Color>) -> Frame {
        Frame {
            width: self.width,
            height: self.height,
            cursor: if self.wraps(budget) {
                0
            } else {
                self.cursor + budget
            },
            pixels: Seq::new(
                self.pixels.len(),
                |i: int|
                    if self.cursor <= i < self.cursor + colors.len() {
                        colors[i - self.cursor]
                    } else {
                        self.pixels[i]
                    },
            ),
        }
    }

    /// Whether each of these ticks, run in turn from this state, is given as
    /// many colours as it shades.
    pub open spec fn accepts(self, ticks: Seq<Tick>) -> bool
        decreases ticks.len(),
    {
        ticks.len() == 0 || {
            &&& self.accepts(ticks.drop_last())
            &&& ticks.last().colors.len() == self.after(ticks.drop_last()).pending(
                ticks.last().budget,
            )
        }
    }

    /// The state after these ticks, run in turn from this state.
    pub open spec fn after(self, ticks: Seq<Tick>) -> Frame
        decreases ticks.len(),
    {
        if ticks.len() == 0 {
            self
        } else {
            self.after(ticks.drop_last()).tick(ticks.last().budget, ticks.last().colors)
        }
    }
}

/// The budgets of these ticks, added up.
pub open spec fn budget_sum(ticks: Seq<Tick>) -> nat
    decreases ticks.len(),
{
    if ticks.len() == 0 {
        0
    } else {
        budget_sum(ticks.drop_last()) + ticks.last().budget
    }
}

/// The colours handed to these ticks, one tick after the other.
pub open spec fn painted(ticks: Seq<Tick>) -> Seq<Color>
    decreases ticks.len(),
{
    if ticks.len() == 0 {
        Seq::empty()
    } else {
        painted(ticks.drop_last()) + ticks.last().colors
    }
}

/// Raster order gives each pixel of a row its own index: from the index of
/// a pixel its column and row are read back.
pub proof fn lemma_raster_index_is_unique(width: nat, x: nat, y: nat)
    requires
        x < width,
    ensures
        raster_column(width, raster_index(width, x, y)) == x,
        raster_row(width, raster_index(width, x, y)) == y,
{
    vstd::arithmetic::div_mod::lemma_fundamental_div_mod_converse(
        raster_index(width, x, y) as int,
        width as int,
        y as int,
        x as int,
    );
}

/// A tick that is given as many colours as it shades leaves a well-formed
/// state of the same resolution.
pub proof fn lemma_tick_keeps_wf(frame: Frame, budget: nat, colors: Seq<Color>)
    requires
        frame.wf(),
        colors.len() == frame.pending(budget),
    ensures
        frame.tick(budget, colors).wf(),
        frame.tick(budget, colors).width == frame.width,
        frame.tick(budget, colors).height == frame.height,
{
}

/// A tick with a budget of zero changes nothing.
pub proof fn lemma_empty_budget(frame: Frame)
    requires
        frame.wf(),
    ensures
        frame.tick(0, Seq::empty()) == frame,
{
    assert(frame.tick(0, Seq::empty()).pixels =~= frame.pixels);
}

/// Once the pass is complete, the next tick with any budget shades nothing:
/// it leaves every pixel as it is and takes the cursor back to the first
/// pixel, so a finished frame outlives the tick that finished it.
pub proof fn lemma_complete_pass_wraps(frame: Frame, budget: nat)
    requires
        frame.wf(),
        frame.cursor == frame.total(),
        budget >= 1,
    ensures
        frame.pending(budget) == 0,
        frame.tick(budget, Seq::empty()).cursor == 0,
        frame.tick(budget, Seq::empty()).pixels == frame.pixels,
{
    assert(frame.tick(budget, Seq::empty()).pixels =~= frame.pixels);
}

/// Within a pass the cursor counts the budget spent. From the first pixel
/// on, while the budgets add up to no more than the number of pixels, the
/// cursor equals their sum, the pixels before it hold the colours handed
/// over, in raster order, and the pixels from it on are untouched.
pub proof fn lemma_pass_progress(frame: Frame, ticks: Seq<Tick>)
    requires
        frame.wf(),
        frame.cursor == 0,
        frame.accepts(ticks),
        budget_sum(ticks) <= frame.total(),
    ensures
        frame.after(ticks).wf(),
        frame.after(ticks).width == frame.width,
        frame.after(ticks).height == frame.height,
        frame.after(ticks).cursor == budget_sum(ticks),
        painted(ticks).len() == budget_sum(ticks),
        frame.after(ticks).pixels == painted(ticks) + frame.pixels.subrange(
            budget_sum(ticks) as int,
            frame.total() as int,
        ),
    decreases ticks.len(),
{
    if ticks.len() == 0 {
        assert(frame.pixels =~= Seq::<Color>::empty() + frame.pixels.subrange(
            0,
            frame.total() as int,
        ));
    } else {
        let earlier = ticks.drop_last();
        let last = ticks.last();
        lemma_pass_progress(frame, earlier);
        let before = frame.after(earlier);
        lemma_tick_keeps_wf(before, last.budget, last.colors);
        assert(before.tick(last.budget, last.colors).pixels =~= painted(ticks)
            + frame.pixels.subrange(budget_sum(ticks) as int, frame.total() as int));
    }
}

/// A pass takes exactly as much budget as there are pixels. From the first
/// pixel on, over any number of ticks whose budgets add up to the number of
/// pixels, every pixel is assigned exactly once, in raster order, and the
/// cursor stands behind the last pixel.
pub proof fn lemma_pass_completes(frame: Frame, ticks: Seq<Tick>)
    requires
        frame.wf(),
        frame.cursor == 0,
        frame.accepts(ticks),
        budget_sum(ticks) == frame.total(),
    ensures
        frame.after(ticks).cursor == frame.total(),
        frame.after(ticks).pixels == painted(ticks),
{
    lemma_pass_progress(frame, ticks);
    assert(frame.after(ticks).pixels =~= painted(ticks));
}

/// The cursor is back at the first pixel after one unit of budget more than
/// there are pixels: the unit in which the scheduler finds the pass complete.
/// By then every pixel has been assigned exactly once, in raster order, and
/// none has been overwritten.
pub proof fn lemma_cursor_returns(frame: Frame, ticks: Seq<Tick>)
    requires
        frame.wf(),
        frame.cursor == 0,
        frame.accepts(ticks),
        budget_sum(ticks) == frame.total() + 1,
    ensures
        frame.after(ticks).wf(),
        frame.after(ticks).cursor == 0,
        frame.after(ticks).pixels == painted(ticks),
    decreases ticks.len(),
{
    let earlier = ticks.drop_last();
    let last = ticks.last();
    if last.budget == 0 {
        lemma_cursor_returns(frame, earlier);
        assert(last.colors =~= Seq::<Color>::empty());
        assert(painted(ticks) =~= painted(earlier));
        lemma_empty_budget(frame.after(earlier));
    } else {
        lemma_pass_progress(frame, earlier);
        let before = frame.after(earlier);
        lemma_tick_keeps_wf(before, last.budget, last.colors);
        assert(before.tick(last.budget, last.colors).pixels =~= painted(ticks));
    }
}

/// The scheduler: the pixel buffer of a frame and the cursor of the pass
/// that is under way.
pub struct RenderState {
    width: usize,
    height: usize,
    cursor: usize,
    pixels: Vec<Color>,
}

impl View for RenderState {
    type V = Frame;

    closed spec fn view(&self) -> Frame {
        Frame {
            width: self.width as nat,
            height: self.height as nat,
            cursor: self.cursor as nat,
            pixels: self.pixels@,
        }
    }
}

impl RenderState {
    /// A buffer of `width` by `height` pixels, each of the colour `fill`,
    /// with the cursor on the first pixel.
    pub fn new(width: usize, height: usize, fill: Color) -> (state: RenderState)
        requires
            width * height <= usize::MAX,
        ensures
            state@.wf(),
            state@ == (Frame {
                width: width as nat,
                height: height as nat,
                cursor: 0,
                pixels: Seq::new((width * height) as nat, |i: int| fill),
            }),
    {
        let total: usize = width * height;
        let mut pixels: Vec<Color> = Vec::new();
        let mut count: usize = 0;
        while count < total
            invariant
                count <= total,
                pixels@.len() == count,
                forall|i: int| 0 <= i < count ==> pixels@[i] == fill,
            decreases total - count,
        {
            pixels.push(fill);
            count += 1;
        }
        let state = RenderState { width, height, cursor: 0, pixels };
        assert(state@.pixels =~= Seq::new((width * height) as nat, |i: int| fill));
        state
    }

    /// Pixels per row.
    pub fn width(&self) -> (width: usize)
        ensures
            width == self@.width,
    {
        self.width
    }

    /// Rows.
    pub fn height(&self) -> (height: usize)
        ensures
            height == self@.height,
    {
        self.height
    }

    /// The raster index of the next pixel to shade; the number of pixels
    /// when the pass is complete.
    pub fn cursor(&self) -> (cursor: usize)
        ensures
            cursor == self@.cursor,
    {
        self.cursor
    }

    /// The whole buffer in raster order, stale and fresh pixels alike.
    pub fn pixels(&self) -> (pixels: &Vec<Color>)
        ensures
            pixels@ == self@.pixels,
    {
        &self.pixels
    }

    /// The colour of the pixel in column `x` of row `y`.
    pub fn pixel(&self, x: usize, y: usize) -> (color: Color)
        requires
            self@.wf(),
            x < self@.width,
            y < self@.height,
        ensures
            color == self@.pixels[raster_index(self@.width, x as nat, y as nat) as int],
    {
        assert(self.width * self.height == self.pixels.len());
        assert(y * self.width + x < self.width * self.height && y * self.width >= 0) by (nonlinear_arith)
            requires
                x < self.width,
                y < self.height,
        ;
        self.pixels[y * self.width + x]
    }

    /// The column and row of the pixel with raster index `index`.
    pub fn coordinates(&self, index: usize) -> (at: (usize, usize))
        requires
            self@.wf(),
            index < self@.total(),
        ensures
            at.0 == raster_column(self@.width, index as nat),
            at.1 == raster_row(self@.width, index as nat),
            at.0 < self@.width,
            at.1 < self@.height,
            raster_index(self@.width, at.0 as nat, at.1 as nat) == index,
    {
        assert(self.width > 0) by (nonlinear_arith)
            requires
                index < self.width * self.height,
        ;
        let x: usize = index % self.width;
        let y: usize = index / self.width;
        proof {
            vstd::arithmetic::div_mod::lemma_fundamental_div_mod(index as int, self.width as int);
            assert(y < self.height) by (nonlinear_arith)
                requires
                    index == self.width * y + x,
                    index < self.width * self.height,
                    self.width > 0,
            ;
            assert(self.width * y == y * self.width) by (nonlinear_arith);
        }
        (x, y)
    }

    /// One tick: shades up to `budget` pixels in raster order from the cursor
    /// on, each by a call of `shade` with its column and row, stores the
    /// colours and moves the cursor. Once the pass is complete, budget that
    /// is left takes the cursor back to the first pixel and ends the tick, so
    /// a tick never shades a pixel twice.
    pub fn tick<F: Fn(usize, usize) -> Color>(&mut self, budget: usize, shade: F)
        requires
            old(self)@.wf(),
            forall|x: usize, y: usize|
                x < old(self)@.width && y < old(self)@.height ==> call_requires(shade, (x, y)),
        ensures
            final(self)@.wf(),
            final(self)@ == old(self)@.tick(
                budget as nat,
                old(self)@.shaded(budget as nat, final(self)@),
            ),
            forall|x: usize, y: usize|
                x < old(self)@.width && y < old(self)@.height && old(self)@.due(
                    budget as nat,
                    #[trigger] raster_index(old(self)@.width, x as nat, y as nat) as int,
                ) ==> call_ensures(
                    shade,
                    (x, y),
                    final(self)@.pixels[raster_index(old(self)@.width, x as nat, y as nat) as int],
                ),
    {
        let start: usize = self.cursor;
        let remaining: usize = self.pixels.len() - start;
        let count: usize = if budget <= remaining {
            budget
        } else {
            remaining
        };
        let ghost before = self@;
        let mut done: usize = 0;
        while done < count
            invariant
                done <= count,
                before.wf(),
                start == before.cursor,
                start + count <= before.pixels.len() <= usize::MAX,
                self.pixels@.len() == before.pixels.len(),
                self.width == before.width,
                self.height == before.height,
                self.cursor == start,
                forall|x: usize, y: usize|
                    x < before.width && y < before.height ==> call_requires(shade, (x, y)),
                forall|i: int|
                    0 <= i < before.pixels.len() && !(start <= i < start + done)
                        ==> self.pixels@[i] == before.pixels[i],
                forall|x: usize, y: usize|
                    x < before.width && y < before.height && start <= (#[trigger] raster_index(
                        before.width,
                        x as nat,
                        y as nat,
                    )) < start + done ==> call_ensures(
                        shade,
                        (x, y),
                        self.pixels@[raster_index(before.width, x as nat, y as nat) as int],
                    ),
            decreases count - done,
        {
            let at = self.coordinates(start + done);
            let color = shade(at.0, at.1);
            self.pixels.set(start + done, color);
            proof {
                assert forall|x: usize, y: usize|
                    x < before.width && y < before.height && (#[trigger] raster_index(
                        before.width,
                        x as nat,
                        y as nat,
                    )) == start + done implies x == at.0 && y == at.1 by {
                    lemma_raster_index_is_unique(before.width, x as nat, y as nat);
                }
            }
            done += 1;
        }
        if budget > remaining {
            self.cursor = 0;
        } else {
            self.cursor = start + budget;
        }
        assert(self@.pixels =~= before.tick(
            budget as nat,
            before.shaded(budget as nat, self@),
        ).pixels);
    }
}

} // verus!
