//! Placement of the canvas inside a viewport, and the steps that draw it.
//!
//! Lengths are whole units of the drawing context. The outlines of the drop
//! shadow lie on half units, so they are given in half units; gray levels
//! are given in hundredths of full intensity.

use vstd::prelude::*;
use crate::canvas::Canvas;

verus! {

/// The least margin kept around the canvas on every side.
pub const MIN_MARGIN_SIZE: u32 = 50;

/// Lightness of the viewport around the canvas, in hundredths.
pub const BACKGROUND_LIGHTNESS: u8 = 90;

/// Number of rings that make up the drop shadow.
pub const SHADOW_RINGS: u8 = 3;

/// Width of the stroke of every shadow ring, in units.
pub const SHADOW_LINE_WIDTH: u32 = 1;

/// Size of the canvas.
#[derive(Debug, Copy, Clone, Eq, PartialEq, Structural)]
pub struct CanvasGeometry {
    pub width: u32,
    pub height: u32,
}

/// Size of the margin: `width` to the left and right of the canvas,
/// `height` above and below it.
#[derive(Debug, Copy, Clone, Eq, PartialEq, Structural)]
pub struct MarginGeometry {
    pub width: u32,
    pub height: u32,
}

/// A rectangle in half units.
#[derive(Debug, Copy, Clone, Eq, PartialEq, Structural)]
pub struct Outline {
    pub x: u64,
    pub y: u64,
    pub width: u64,
    pub height: u64,
}

/// One drawing command.
#[derive(Debug, Copy, Clone, Eq, PartialEq, Structural)]
pub enum DrawStep {
    /// Fill the whole context with a gray of this lightness.
    Background { lightness: u8 },
    /// Stroke `outline` with a line `line_width` units wide, in a gray of
    /// this lightness.
    Shadow { outline: Outline, line_width: u32, lightness: u8 },
    /// Draw the canvas image, `width` by `height` units, with its top-left
    /// corner at `(x, y)`.
    Image { x: u32, y: u32, width: u32, height: u32 },
}

/// The margin along one axis: half of what the allocation leaves beside the
/// canvas, rounded down, and never less than `MIN_MARGIN_SIZE`. An
/// allocation smaller than the canvas leaves nothing.
pub open spec fn margin_for(allocation: u32, canvas: u32) -> u32 {
    let spare: int = if allocation > canvas {
        (allocation - canvas) / 2
    } else {
        0
    };
    if spare > MIN_MARGIN_SIZE {
        spare as u32
    } else {
        MIN_MARGIN_SIZE
    }
}

/// Distance of shadow ring `ring` from the edge of the canvas, in half
/// units: a half, one and a half, two and a half units.
pub open spec fn shadow_offset(ring: int) -> int {
    2 * ring + 1
}

/// Shade strength of shadow ring `ring`, in hundredths: the rings fade
/// outwards.
pub open spec fn shadow_strength(ring: int) -> int {
    if ring == 0 {
        60
    } else if ring == 1 {
        30
    } else {
        15
    }
}

/// The step that draws shadow ring `ring` around a canvas set in by
/// `margin`.
pub open spec fn shadow_step(canvas: CanvasGeometry, margin: MarginGeometry, ring: int) -> DrawStep {
    DrawStep::Shadow {
        outline: Outline {
            x: (2 * margin.width - shadow_offset(ring)) as u64,
            y: (2 * margin.height - shadow_offset(ring)) as u64,
            width: (2 * canvas.width + 2 * shadow_offset(ring)) as u64,
            height: (2 * canvas.height + 2 * shadow_offset(ring)) as u64,
        },
        line_width: SHADOW_LINE_WIDTH,
        lightness: (100 - shadow_strength(ring)) as u8,
    }
}

/// The steps that draw one frame, in their order: the background, the
/// shadow rings from the innermost outwards, the canvas image inside the
/// margin.
pub open spec fn frame(canvas: CanvasGeometry, margin: MarginGeometry) -> Seq<DrawStep> {
    seq![
        DrawStep::Background { lightness: BACKGROUND_LIGHTNESS },
        shadow_step(canvas, margin, 0),
        shadow_step(canvas, margin, 1),
        shadow_step(canvas, margin, 2),
        DrawStep::Image {
            x: margin.width,
            y: margin.height,
            width: canvas.width,
            height: canvas.height,
        },
    ]
}

/// Lays the canvas out in a viewport whose size the host reports.
#[derive(Debug)]
pub struct CanvasRenderer {
    canvas: CanvasGeometry,
    allocation_width: u32,
    allocation_height: u32,
}

impl CanvasRenderer {
    /// The size of the canvas that is laid out.
    pub closed spec fn geometry(&self) -> CanvasGeometry {
        self.canvas
    }

    /// The last size reported for the viewport: width, then height.
    pub closed spec fn allocation(&self) -> (u32, u32) {
        (self.allocation_width, self.allocation_height)
    }

    /// The margin around a canvas of size `canvas` in the present
    /// allocation.
    pub open spec fn margin(&self, canvas: CanvasGeometry) -> MarginGeometry {
        MarginGeometry {
            width: margin_for(self.allocation().0, canvas.width),
            height: margin_for(self.allocation().1, canvas.height),
        }
    }

    /// A renderer for `canvas` in a viewport of the given size. A canvas
    /// keeps its dimensions for life, so the renderer holds them.
    pub fn new(canvas: &Canvas, allocation_width: u32, allocation_height: u32) -> (renderer:
        CanvasRenderer)
        ensures
            renderer.geometry() == (CanvasGeometry {
                width: canvas.spec_width(),
                height: canvas.spec_height(),
            }),
            renderer.allocation() == (allocation_width, allocation_height),
    {
        CanvasRenderer {
            canvas: CanvasGeometry { width: canvas.width(), height: canvas.height() },
            allocation_width,
            allocation_height,
        }
    }

    /// Records the size of the viewport. Draws nothing.
    pub fn set_size_allocation(&mut self, width: u32, height: u32)
        ensures
            final(self).allocation() == (width, height),
            final(self).geometry() == old(self).geometry(),
    {
        self.allocation_width = width;
        self.allocation_height = height;
    }

    /// The least size of the viewport: the canvas with the least margin on
    /// every side.
    pub fn min_total_size(&self) -> (size: (u32, u32))
        requires
            self.geometry().width + 2 * MIN_MARGIN_SIZE <= u32::MAX,
            self.geometry().height + 2 * MIN_MARGIN_SIZE <= u32::MAX,
        ensures
            size.0 == self.geometry().width + 2 * MIN_MARGIN_SIZE,
            size.1 == self.geometry().height + 2 * MIN_MARGIN_SIZE,
    {
        let canvas_geometry = self.canvas_geometry();
        let min_total_width = canvas_geometry.width + 2 * MIN_MARGIN_SIZE;
        let min_total_height = canvas_geometry.height + 2 * MIN_MARGIN_SIZE;
        (min_total_width, min_total_height)
    }

    pub fn canvas_geometry(&self) -> (canvas_geometry: CanvasGeometry)
        ensures
            canvas_geometry == self.geometry(),
    {
        self.canvas
    }

    /// The margin around a canvas of size `canvas_geometry` in the present
    /// allocation, each axis by itself.
    pub fn margin_geometry(&self, canvas_geometry: CanvasGeometry) -> (margin: MarginGeometry)
        ensures
            margin == self.margin(canvas_geometry),
    {
        let margin_width_allocation = self.allocation_width.saturating_sub(canvas_geometry.width)
            / 2;
        let margin_height_allocation = self.allocation_height.saturating_sub(
            canvas_geometry.height,
        ) / 2;
        let margin_width = if margin_width_allocation > MIN_MARGIN_SIZE {
            margin_width_allocation
        } else {
            MIN_MARGIN_SIZE
        };
        let margin_height = if margin_height_allocation > MIN_MARGIN_SIZE {
            margin_height_allocation
        } else {
            MIN_MARGIN_SIZE
        };
        MarginGeometry { width: margin_width, height: margin_height }
    }

    /// The steps that draw the present frame, in the order in which they
    /// are to be carried out.
    pub fn draw(&self) -> (steps: Vec<DrawStep>)
        ensures
            steps@ == frame(self.geometry(), self.margin(self.geometry())),
    {
        let canvas_geometry = self.canvas_geometry();
        let margin_geometry = self.margin_geometry(canvas_geometry);
        let mut steps: Vec<DrawStep> = Vec::new();
        steps.push(fill_background());
        let mut ring: u8 = 0;
        while ring < SHADOW_RINGS
            invariant
                ring <= SHADOW_RINGS,
                margin_geometry.width >= MIN_MARGIN_SIZE,
                margin_geometry.height >= MIN_MARGIN_SIZE,
                steps@.len() == ring + 1,
                steps@[0] == (DrawStep::Background { lightness: BACKGROUND_LIGHTNESS }),
                forall|i: int|
                    1 <= i <= ring ==> #[trigger] steps@[i] == shadow_step(
                        canvas_geometry,
                        margin_geometry,
                        i - 1,
                    ),
            decreases SHADOW_RINGS - ring,
        {
            steps.push(draw_shadow(canvas_geometry, margin_geometry, ring));
            ring += 1;
        }
        steps.push(draw_image(canvas_geometry, margin_geometry));
        assert(steps@ =~= frame(canvas_geometry, margin_geometry));
        steps
    }
}

/// The step that fills the viewport.
fn fill_background() -> (step: DrawStep)
    ensures
        step == (DrawStep::Background { lightness: BACKGROUND_LIGHTNESS }),
{
    DrawStep::Background { lightness: BACKGROUND_LIGHTNESS }
}

/// The step that strokes shadow ring `ring`.
fn draw_shadow(canvas_geometry: CanvasGeometry, margin_geometry: MarginGeometry, ring: u8) -> (step:
    DrawStep)
    requires
        ring < SHADOW_RINGS,
        margin_geometry.width >= MIN_MARGIN_SIZE,
        margin_geometry.height >= MIN_MARGIN_SIZE,
    ensures
        step == shadow_step(canvas_geometry, margin_geometry, ring as int),
{
    let base_x: u64 = 2 * (margin_geometry.width as u64);
    let base_y: u64 = 2 * (margin_geometry.height as u64);
    let base_width: u64 = 2 * (canvas_geometry.width as u64);
    let base_height: u64 = 2 * (canvas_geometry.height as u64);
    let offset: u64 = 2 * (ring as u64) + 1;
    let shade: u8 = if ring == 0 {
        60
    } else if ring == 1 {
        30
    } else {
        15
    };
    DrawStep::Shadow {
        outline: Outline {
            x: base_x - offset,
            y: base_y - offset,
            width: base_width + 2 * offset,
            height: base_height + 2 * offset,
        },
        line_width: SHADOW_LINE_WIDTH,
        lightness: 100 - shade,
    }
}

/// The step that draws the canvas image inside the margin.
fn draw_image(canvas_geometry: CanvasGeometry, margin_geometry: MarginGeometry) -> (step: DrawStep)
    ensures
        step == (DrawStep::Image {
            x: margin_geometry.width,
            y: margin_geometry.height,
            width: canvas_geometry.width,
            height: canvas_geometry.height,
        }),
{
    DrawStep::Image {
        x: margin_geometry.width,
        y: margin_geometry.height,
        width: canvas_geometry.width,
        height: canvas_geometry.height,
    }
}

} // verus!
