//! The pixel buffer of one raster surface.

use vstd::prelude::*;
use crate::color::{Color, pixels_of, presentation_of, read_pixel};
use crate::diff::{Diff, Direction, PixelDelta, covers, records_changes, replay};
use crate::point::Coordinate;

verus! {

/// The mathematical content of a canvas: its dimensions and one color per
/// pixel, in scan order (row by row, left to right).
pub struct Raster {
    pub width: nat,
    pub height: nat,
    pub pixels: Seq<Color>,
}

impl Raster {
    /// The raster holds one color for every pixel.
    pub open spec fn wf(self) -> bool {
        self.pixels.len() == self.width * self.height
    }

    /// The point `(x, y)` lies on the raster.
    pub open spec fn in_bounds(self, x: int, y: int) -> bool {
        0 <= x < self.width && 0 <= y < self.height
    }

    /// Position of pixel `(x, y)` in scan order.
    pub open spec fn index_of(self, x: int, y: int) -> int {
        y * self.width + x
    }

    /// The color at `(x, y)`, if the point lies on the raster.
    pub open spec fn get(self, x: int, y: int) -> Option<Color> {
        if self.in_bounds(x, y) {
            Some(self.pixels[self.index_of(x, y)])
        } else {
            None
        }
    }

    /// The raster after writing `color` at `(x, y)`; a point off the raster
    /// changes nothing.
    pub open spec fn set(self, x: int, y: int, color: Color) -> Raster {
        if self.in_bounds(x, y) {
            Raster { pixels: self.pixels.update(self.index_of(x, y), color), ..self }
        } else {
            self
        }
    }

    /// The raster after replaying `deltas` in `direction`.
    pub open spec fn apply(self, deltas: Seq<PixelDelta>, direction: Direction) -> Raster {
        Raster { pixels: replay(self.pixels, deltas, direction), ..self }
    }
}

/// A mutable raster of fixed dimensions. Each pixel occupies four bytes of
/// storage, in the order blue, green, red, alpha.
#[derive(Debug)]
pub struct Canvas {
    width: u32,
    height: u32,
    data: Vec<u8>,
}

impl View for Canvas {
    type V = Raster;

    open spec fn view(&self) -> Raster {
        Raster {
            width: self.spec_width() as nat,
            height: self.spec_height() as nat,
            pixels: pixels_of(self.bytes()),
        }
    }
}

impl Canvas {
    pub closed spec fn spec_width(&self) -> u32 {
        self.width
    }

    pub closed spec fn spec_height(&self) -> u32 {
        self.height
    }

    /// The stored bytes, four per pixel.
    pub closed spec fn bytes(&self) -> Seq<u8> {
        self.data@
    }

    /// The storage holds exactly four bytes for every pixel.
    pub open spec fn wf(&self) -> bool {
        self.bytes().len() == 4 * (self.spec_width() * self.spec_height())
    }

    /// A canvas of the given dimensions with every pixel opaque white.
    pub fn new(width: u32, height: u32) -> (canvas: Canvas)
        requires
            4 * (width * height) <= usize::MAX,
        ensures
            canvas.wf(),
            canvas.spec_width() == width,
            canvas.spec_height() == height,
            forall|i: int| 0 <= i < width * height ==> #[trigger] canvas@.pixels[i] == Color::white(),
    {
        assert(width * height <= 4 * (width * height)) by (nonlinear_arith);
        let area: usize = (width as usize) * (height as usize);
        let data = vec![255u8; area * 4];
        Canvas { width, height, data }
    }

    #[verifier::when_used_as_spec(spec_width)]
    pub fn width(&self) -> (w: u32)
        ensures
            w == self.spec_width(),
    {
        self.width
    }

    #[verifier::when_used_as_spec(spec_height)]
    pub fn height(&self) -> (h: u32)
        ensures
            h == self.spec_height(),
    {
        self.height
    }

    /// Number of pixels.
    pub fn area(&self) -> (n: usize)
        requires
            self.wf(),
        ensures
            n == self.spec_width() * self.spec_height(),
    {
        self.data.len() / 4
    }

    /// Hit test for a pixel position: `x` must lie in `0 .. width` and `y`
    /// in `0 .. height`, both without their upper end.
    pub fn contains_pixel(&self, x: u32, y: u32) -> (inside: bool)
        ensures
            inside == self@.in_bounds(x as int, y as int),
            inside == (x < self.spec_width() && y < self.spec_height()),
    {
        x < self.width && y < self.height
    }

    /// Hit test for a point in canvas space: true exactly when `x` is at
    /// least zero and less than the width, and `y` is at least zero and less
    /// than the height.
    pub fn contains_point(&self, x: Coordinate, y: Coordinate) -> (inside: bool)
        ensures
            inside == (x.in_range(self.spec_width() as int) && y.in_range(
                self.spec_height() as int,
            )),
    {
        x.lies_below(self.width) && y.lies_below(self.height)
    }

    /// The color at `(x, y)`, or `None` when the point lies off the canvas.
    pub fn get(&self, x: u32, y: u32) -> (color: Option<Color>)
        requires
            self.wf(),
        ensures
            color == self@.get(x as int, y as int),
            x >= self.spec_width() || y >= self.spec_height() ==> color.is_none(),
    {
        if !self.contains_pixel(x, y) {
            return None;
        }
        proof {
            assert(self.data.len() <= usize::MAX);
            lemma_offset_in_storage(self.width as int, self.height as int, x as int, y as int);
        }
        let index: usize = y as usize * self.width as usize + x as usize;
        Some(read_pixel(self.data.as_slice(), index))
    }

    /// Writes `color` at `(x, y)`. A point off the canvas is refused with
    /// `None` and the canvas stays as it was.
    pub fn set(&mut self, x: u32, y: u32, color: Color) -> (done: Option<()>)
        requires
            old(self).wf(),
        ensures
            final(self).wf(),
            final(self)@ == old(self)@.set(x as int, y as int, color),
            done.is_some() == old(self)@.in_bounds(x as int, y as int),
            x >= old(self).spec_width() || y >= old(self).spec_height() ==> done.is_none()
                && final(self).bytes() == old(self).bytes(),
    {
        if !self.contains_pixel(x, y) {
            return None;
        }
        proof {
            assert(self.data.len() <= usize::MAX);
            lemma_offset_in_storage(self.width as int, self.height as int, x as int, y as int);
        }
        let index: usize = y as usize * self.width as usize + x as usize;
        self.write_pixel(index, color);
        Some(())
    }

    /// The stored bytes, four per pixel in the order blue, green, red,
    /// alpha, row by row.
    pub fn as_bytes(&self) -> (bytes: &[u8])
        ensures
            bytes@ == self.bytes(),
    {
        self.data.as_slice()
    }

    /// An independent copy of the stored bytes, to diff against later.
    pub fn snapshot(&self) -> (shadow: Vec<u8>)
        ensures
            shadow@ == self.bytes(),
    {
        self.data.clone()
    }

    /// Overwrites `shadow` with the stored bytes, whatever it held before.
    pub fn refresh_snapshot(&self, shadow: &mut Vec<u8>)
        ensures
            final(shadow)@ == self.bytes(),
    {
        shadow.clear();
        shadow.extend_from_slice(self.data.as_slice());
        assert(shadow@ =~= self.data@);
    }

    /// A copy of the stored bytes in presentation order: red, green, blue,
    /// alpha for every pixel. The canvas itself is not changed.
    pub fn build_presentation_bytes(&self) -> (out: Vec<u8>)
        requires
            self.wf(),
        ensures
            out@ == presentation_of(self.bytes()),
    {
        let area = self.area();
        let mut out: Vec<u8> = Vec::with_capacity(self.data.len());
        let mut index: usize = 0;
        while index < area
            invariant
                self.wf(),
                area == self.spec_width() * self.spec_height(),
                index <= area,
                out@ == presentation_of(self.bytes()).take(4 * index),
            decreases area - index,
        {
            assert(self.data.len() <= usize::MAX);
            let at: usize = index * 4;
            out.push(self.data[at + 2]);
            out.push(self.data[at + 1]);
            out.push(self.data[at]);
            out.push(self.data[at + 3]);
            assert(out@ =~= presentation_of(self.bytes()).take(4 * (index + 1)));
            index += 1;
        }
        assert(out@ =~= presentation_of(self.bytes()));
        out
    }

    /// The diff from the state captured in `shadow`, a snapshot of a canvas
    /// of the same dimensions, to the present state.
    pub fn diff_against(&self, shadow: &[u8]) -> (diff: Diff)
        requires
            self.wf(),
            shadow@.len() == self.bytes().len(),
        ensures
            diff.wf(),
            records_changes(diff@, pixels_of(shadow@), self@.pixels),
    {
        let area = self.area();
        let ghost before = pixels_of(shadow@);
        let ghost after = self@.pixels;
        let mut deltas: Vec<PixelDelta> = Vec::new();
        let mut index: usize = 0;
        while index < area
            invariant
                self.wf(),
                shadow@.len() == self.bytes().len(),
                area == self.spec_width() * self.spec_height(),
                before == pixels_of(shadow@),
                after == self@.pixels,
                index <= area,
                records_changes(deltas@, before.take(index as int), after.take(index as int)),
            decreases area - index,
        {
            let was = read_pixel(shadow, index);
            let is = read_pixel(self.data.as_slice(), index);
            let ghost earlier = deltas@;
            if was != is {
                deltas.push(PixelDelta { index, before: was, after: is });
            }
            proof {
                let cut_before = before.take(index + 1);
                let cut_after = after.take(index + 1);
                assert forall|k: int| 0 <= k < earlier.len() implies (#[trigger] deltas@[k]).faithful(
                    cut_before,
                    cut_after,
                ) by {
                    assert(earlier[k].faithful(before.take(index as int), after.take(index as int)));
                }
                assert forall|j: int, k: int| 0 <= j < k < deltas@.len() implies (
                #[trigger] deltas@[j]).index < (#[trigger] deltas@[k]).index by {
                    assert(earlier[j].faithful(before.take(index as int), after.take(index as int)));
                    if k < earlier.len() {
                        assert(earlier[j].index < earlier[k].index);
                    }
                }
                assert forall|i: int|
                    0 <= i < cut_before.len() && cut_before[i] != cut_after[i] implies covers(
                    deltas@,
                    i,
                ) by {
                    if i < index {
                        assert(before.take(index as int)[i] != after.take(index as int)[i]);
                        assert(covers(earlier, i));
                        let k = choose|k: int|
                            0 <= k < earlier.len() && #[trigger] earlier[k].index == i;
                        assert(deltas@[k].index == i);
                    } else {
                        assert(deltas@[earlier.len() as int].index == i);
                    }
                }
            }
            index += 1;
        }
        assert(before.take(index as int) =~= before);
        assert(after.take(index as int) =~= after);
        Diff::Sparse(deltas)
    }

    /// Replays `diff` over the canvas: forward writes every delta's `after`
    /// color, reverse its `before` color. A delta whose index lies past the
    /// last pixel writes nothing.
    pub fn apply(&mut self, diff: &Diff, direction: Direction)
        requires
            old(self).wf(),
        ensures
            final(self).wf(),
            final(self)@ == old(self)@.apply(diff@, direction),
    {
        let area = self.area();
        let deltas = diff.deltas();
        let ghost start = self@;
        let mut k: usize = 0;
        while k < deltas.len()
            invariant
                self.wf(),
                self.spec_width() == start.width,
                self.spec_height() == start.height,
                area == start.width * start.height,
                start.pixels.len() == area,
                k <= deltas.len(),
                self@.pixels == replay(start.pixels, deltas@.take(k as int), direction),
            decreases deltas.len() - k,
        {
            let delta = deltas[k];
            proof {
                assert(deltas@.take(k + 1).drop_last() =~= deltas@.take(k as int));
            }
            if delta.index < area {
                let color = match direction {
                    Direction::Forward => delta.after,
                    Direction::Reverse => delta.before,
                };
                self.write_pixel(delta.index, color);
            }
            k += 1;
        }
        assert(deltas@.take(k as int) =~= deltas@);
    }

    /// Stores `color` in the four bytes of pixel `index`.
    fn write_pixel(&mut self, index: usize, color: Color)
        requires
            old(self).wf(),
            index < old(self).spec_width() * old(self).spec_height(),
        ensures
            final(self).wf(),
            final(self).spec_width() == old(self).spec_width(),
            final(self).spec_height() == old(self).spec_height(),
            final(self)@.pixels == old(self)@.pixels.update(index as int, color),
    {
        assert(self.data.len() <= usize::MAX);
        let at: usize = index * 4;
        self.data[at] = color.blue;
        self.data[at + 1] = color.green;
        self.data[at + 2] = color.red;
        self.data[at + 3] = color.alpha;
        assert(final(self)@.pixels =~= old(self)@.pixels.update(index as int, color));
    }
}

/// Reading a pixel that was just written gives the written color back.
pub proof fn lemma_set_then_get(raster: Raster, x: int, y: int, color: Color)
    requires
        raster.wf(),
        raster.in_bounds(x, y),
    ensures
        raster.set(x, y, color).get(x, y) == Some(color),
{
    lemma_offset_in_storage(raster.width as int, raster.height as int, x, y);
}

/// Writing one pixel leaves every other pixel as it was.
pub proof fn lemma_set_keeps_others(raster: Raster, x: int, y: int, color: Color, u: int, v: int)
    requires
        raster.wf(),
        (u, v) != (x, y),
    ensures
        raster.set(x, y, color).get(u, v) == raster.get(u, v),
{
    if raster.in_bounds(x, y) && raster.in_bounds(u, v) {
        let w = raster.width as int;
        lemma_offset_in_storage(w, raster.height as int, x, y);
        lemma_offset_in_storage(w, raster.height as int, u, v);
        if v != y {
            assert(v * w + u != y * w + x) by (nonlinear_arith)
                requires
                    v != y,
                    0 <= u < w,
                    0 <= x < w,
            {
                if v < y {
                    assert((v + 1) * w <= y * w);
                } else {
                    assert((y + 1) * w <= v * w);
                }
            }
        }
    }
}

/// A point off the raster reads as `None`, and writing there changes nothing.
pub proof fn lemma_out_of_bounds(raster: Raster, x: int, y: int, color: Color)
    requires
        x >= raster.width || y >= raster.height,
    ensures
        raster.get(x, y) is None,
        raster.set(x, y, color) == raster,
{
}

/// Pixel `(x, y)` of a `width` by `height` raster lies before the raster's
/// end in scan order.
pub proof fn lemma_offset_in_storage(width: int, height: int, x: int, y: int)
    requires
        0 <= x < width,
        0 <= y < height,
    ensures
        0 <= y * width + x < width * height,
{
    assert(y * width + x < width * height) by (nonlinear_arith)
        requires
            0 <= x < width,
            0 <= y < height,
    {
        assert(y * width + width == (y + 1) * width);
        assert((y + 1) * width <= height * width);
    }
    assert(0 <= y * width) by (nonlinear_arith)
        requires
            0 <= y,
            0 <= width,
    ;
}

} // verus!
