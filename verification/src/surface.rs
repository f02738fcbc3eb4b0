//! The presentation texture that mirrors a region of a canvas.

use vstd::prelude::*;
use vstd::slice::slice_subrange;
use vstd::arithmetic::div_mod::{
    lemma_fundamental_div_mod,
    lemma_fundamental_div_mod_converse,
    lemma_mod_bound,
};
use crate::canvas::{Canvas, lemma_offset_in_storage};

verus! {

/// A rectangle in canvas coordinates. Its origin may lie off the canvas, as
/// a viewport's does when the canvas is scrolled.
#[derive(Clone, Copy, Debug, PartialEq, Eq, Structural)]
pub struct Rect {
    pub x: i32,
    pub y: i32,
    pub width: u32,
    pub height: u32,
}

impl Rect {
    pub fn new(x: i32, y: i32, width: u32, height: u32) -> (rect: Rect)
        ensures
            rect == (Rect { x, y, width, height }),
    {
        Rect { x, y, width, height }
    }

    /// The pixel `(px, py)` lies in the rectangle.
    pub open spec fn contains(self, px: int, py: int) -> bool {
        self.x <= px < self.x + self.width && self.y <= py < self.y + self.height
    }

    /// The rectangle is not empty and lies on a `width` by `height` raster.
    pub open spec fn within(self, width: int, height: int) -> bool {
        &&& 0 <= self.x
        &&& 0 <= self.y
        &&& 0 < self.width
        &&& 0 < self.height
        &&& self.x + self.width <= width
        &&& self.y + self.height <= height
    }

    /// The part of the rectangle that lies on a `width` by `height` raster,
    /// or `None` when no pixel of it does.
    pub open spec fn clipped(self, width: u32, height: u32) -> Option<Rect> {
        let left = if self.x > 0 {
            self.x as int
        } else {
            0
        };
        let top = if self.y > 0 {
            self.y as int
        } else {
            0
        };
        let right = if self.x + self.width < width {
            self.x + self.width
        } else {
            width as int
        };
        let bottom = if self.y + self.height < height {
            self.y + self.height
        } else {
            height as int
        };
        if left < right && top < bottom {
            Some(
                Rect {
                    x: left as i32,
                    y: top as i32,
                    width: (right - left) as u32,
                    height: (bottom - top) as u32,
                },
            )
        } else {
            None
        }
    }

    /// Clips the rectangle to a `width` by `height` raster.
    pub fn clip(&self, width: u32, height: u32) -> (kept: Option<Rect>)
        ensures
            kept == self.clipped(width, height),
    {
        let left: i64 = if self.x > 0 {
            self.x as i64
        } else {
            0
        };
        let top: i64 = if self.y > 0 {
            self.y as i64
        } else {
            0
        };
        let far_x: i64 = self.x as i64 + self.width as i64;
        let far_y: i64 = self.y as i64 + self.height as i64;
        let right: i64 = if far_x < width as i64 {
            far_x
        } else {
            width as i64
        };
        let bottom: i64 = if far_y < height as i64 {
            far_y
        } else {
            height as i64
        };
        if left < right && top < bottom {
            Some(
                Rect {
                    x: left as i32,
                    y: top as i32,
                    width: (right - left) as u32,
                    height: (bottom - top) as u32,
                },
            )
        } else {
            None
        }
    }
}

/// Clipping keeps exactly the pixels of the rectangle that lie on the
/// raster, and what it keeps is a rectangle on the raster.
pub proof fn lemma_clip_is_intersection(rect: Rect, width: u32, height: u32)
    ensures
        match rect.clipped(width, height) {
            Some(kept) => kept.within(width as int, height as int) && forall|px: int, py: int|
                #[trigger] kept.contains(px, py) <==> rect.contains(px, py) && 0 <= px < width && 0
                    <= py < height,
            None => forall|px: int, py: int|
                !(#[trigger] rect.contains(px, py) && 0 <= px < width && 0 <= py < height),
        },
{
}

/// What one sync hands to the texture.
#[derive(Clone, Copy, Debug, PartialEq, Eq, Structural)]
pub struct RegionUpdate {
    /// The pixels that are rewritten: the visible rectangle, clipped.
    pub region: Rect,
    /// Offset of the first stored byte handed over: the first byte of the
    /// region's top-left pixel.
    pub start: usize,
    /// Offset one past the last byte handed over: the end of the region's
    /// bottom-right pixel.
    pub end: usize,
    /// Bytes from the start of one row to the start of the next within what
    /// is handed over: a full row of the canvas, not of the region.
    pub stride: usize,
}

/// Offset of the first byte of the top-left pixel of `region` in the
/// storage of a raster `width` pixels wide.
pub open spec fn region_start(width: int, region: Rect) -> int {
    4 * (region.y * width + region.x)
}

/// Offset one past the last byte of the bottom-right pixel of `region` in
/// the storage of a raster `width` pixels wide.
pub open spec fn region_end(width: int, region: Rect) -> int {
    4 * ((region.y + region.height - 1) * width + (region.x + region.width - 1)) + 4
}

/// The update that syncs the visible part of a `width` by `height` canvas,
/// or `None` when no pixel of the canvas is visible.
pub open spec fn region_update(width: u32, height: u32, visible: Rect) -> Option<RegionUpdate> {
    match visible.clipped(width, height) {
        Some(region) => Some(
            RegionUpdate {
                region,
                start: region_start(width as int, region) as usize,
                end: region_end(width as int, region) as usize,
                stride: (4 * width) as usize,
            },
        ),
        None => None,
    }
}

/// Byte `j` of a raster `width` pixels wide belongs to a pixel of `region`.
pub open spec fn in_region(j: int, width: int, region: Rect) -> bool {
    region.contains((j / 4) % width, (j / 4) / width)
}

/// The texture after a sync of `region` from `source`: inside the region it
/// holds the source's bytes, outside it holds what it held.
pub open spec fn synced(texture: Seq<u8>, source: Seq<u8>, width: int, region: Option<Rect>) -> Seq<
    u8,
> {
    match region {
        Some(region) => Seq::new(
            texture.len(),
            |j: int|
                if in_region(j, width, region) {
                    source[j]
                } else {
                    texture[j]
                },
        ),
        None => texture,
    }
}

/// Syncing a region a second time from the same source changes nothing.
pub proof fn lemma_sync_idempotent(
    texture: Seq<u8>,
    source: Seq<u8>,
    width: int,
    region: Option<Rect>,
)
    ensures
        synced(synced(texture, source, width, region), source, width, region) == synced(
            texture,
            source,
            width,
            region,
        ),
{
    assert(synced(synced(texture, source, width, region), source, width, region) =~= synced(
        texture,
        source,
        width,
        region,
    ));
}

/// A sync leaves every byte outside the region as it was and makes every
/// byte inside it equal to the source's.
pub proof fn lemma_sync_bytes(
    texture: Seq<u8>,
    source: Seq<u8>,
    width: int,
    region: Rect,
    j: int,
)
    requires
        0 <= j < texture.len(),
    ensures
        synced(texture, source, width, Some(region)).len() == texture.len(),
        in_region(j, width, region) ==> synced(texture, source, width, Some(region))[j]
            == source[j],
        !in_region(j, width, region) ==> synced(texture, source, width, Some(region))[j]
            == texture[j],
{
}

/// Where a texture update whose rows lie `stride` bytes apart finds byte `j`
/// of the texture in the bytes it was handed. The handed bytes start at the
/// region's top-left pixel.
pub open spec fn handed_index(j: int, width: int, region: Rect, stride: int) -> int {
    let row = (j / 4) / width;
    (row - region.y) * stride + (j - 4 * (row * width + region.x))
}

/// The texture after an update of `region` from `handed` bytes whose rows
/// lie `stride` bytes apart.
pub open spec fn uploaded(
    texture: Seq<u8>,
    width: int,
    region: Rect,
    handed: Seq<u8>,
    stride: int,
) -> Seq<u8> {
    Seq::new(
        texture.len(),
        |j: int|
            if in_region(j, width, region) {
                handed[handed_index(j, width, region, stride)]
            } else {
                texture[j]
            },
    )
}

/// The texture while an update is under way: `rows` rows of the region and
/// the first `extra` bytes of the next have been written.
spec fn partly_uploaded(
    texture: Seq<u8>,
    width: int,
    region: Rect,
    handed: Seq<u8>,
    stride: int,
    rows: int,
    extra: int,
) -> Seq<u8> {
    Seq::new(
        texture.len(),
        |j: int|
            if in_region(j, width, region) && ((j / 4) / width < region.y + rows || ((j / 4) / width
                == region.y + rows && j < 4 * ((region.y + rows) * width + region.x) + extra)) {
                handed[handed_index(j, width, region, stride)]
            } else {
                texture[j]
            },
    )
}

/// The bytes of the pixels `left .. left + span` of row `row` are those from
/// `4 * (row * width + left)` up to `4 * (row * width + left + span)`.
proof fn lemma_row_span(j: int, width: int, left: int, span: int, row: int)
    requires
        0 < width,
        0 <= left,
        left + span <= width,
        0 <= row,
        0 <= j,
    ensures
        (4 * (row * width + left) <= j < 4 * (row * width + left + span)) <==> ((j / 4) / width
            == row && left <= (j / 4) % width < left + span),
{
    let p = j / 4;
    lemma_fundamental_div_mod(p, width);
    lemma_mod_bound(p, width);
    assert(width * (p / width) == (p / width) * width) by (nonlinear_arith);
    if 4 * (row * width + left) <= j < 4 * (row * width + left + span) {
        lemma_fundamental_div_mod_converse(p, width, row, p - row * width);
    }
}

/// The bytes from the top-left to the bottom-right pixel of a region lie in
/// the storage, and they are as many as the region's rows but the last
/// times a full canvas row, and one row of the region.
pub proof fn lemma_region_span(width: int, height: int, region: Rect)
    requires
        region.within(width, height),
    ensures
        0 <= region_start(width, region) < region_end(width, region) <= 4 * (width * height),
        region_end(width, region) - region_start(width, region) == (region.height - 1) * (4
            * width) + 4 * region.width,
{
    lemma_offset_in_storage(width, height, region.x as int, region.y as int);
    lemma_offset_in_storage(
        width,
        height,
        region.x + region.width - 1,
        region.y + region.height - 1,
    );
    assert((region.y + region.height - 1) * width == region.y * width + (region.height - 1)
        * width) by (nonlinear_arith);
    assert((region.height - 1) * (4 * width) == 4 * ((region.height - 1) * width))
        by (nonlinear_arith);
}

/// A texture update that is handed the stored bytes from the top-left to the
/// bottom-right pixel of the region, with rows a full canvas row apart,
/// brings exactly the region: it is the sync of that region.
pub proof fn lemma_full_row_stride(
    texture: Seq<u8>,
    source: Seq<u8>,
    width: int,
    height: int,
    region: Rect,
)
    requires
        region.within(width, height),
        texture.len() == 4 * (width * height),
        source.len() == texture.len(),
    ensures
        uploaded(
            texture,
            width,
            region,
            source.subrange(region_start(width, region), region_end(width, region)),
            4 * width,
        ) == synced(texture, source, width, Some(region)),
{
    let start = region_start(width, region);
    let end = region_end(width, region);
    lemma_region_span(width, height, region);
    let handed = source.subrange(start, end);
    let brought = uploaded(texture, width, region, handed, 4 * width);
    let target = synced(texture, source, width, Some(region));
    assert forall|j: int| 0 <= j < texture.len() implies brought[j] == target[j] by {
        if in_region(j, width, region) {
            let row = (j / 4) / width;
            lemma_row_span(j, width, region.x as int, region.width as int, row);
            assert((row - region.y) * (4 * width) == 4 * (row * width) - 4 * (region.y * width))
                by (nonlinear_arith);
            assert(handed_index(j, width, region, 4 * width) == j - start);
            assert(0 <= (row - region.y) * (4 * width) <= (region.height - 1) * (4 * width))
                by (nonlinear_arith)
                requires
                    0 <= row - region.y <= region.height - 1,
                    0 <= width,
            ;
            assert(start <= j < end);
            assert(handed[j - start] == source[j]);
        }
    }
    assert(brought =~= target);
}

/// The texture of one canvas: as many bytes as the canvas stores, in the
/// same layout. It holds the canvas's pixels wherever a sync has brought
/// them and is not kept up to date anywhere else.
#[derive(Debug)]
pub struct PresentationSurface {
    width: u32,
    height: u32,
    texture: Vec<u8>,
}

impl PresentationSurface {
    pub closed spec fn spec_width(&self) -> u32 {
        self.width
    }

    pub closed spec fn spec_height(&self) -> u32 {
        self.height
    }

    /// The bytes of the texture.
    pub closed spec fn texels(&self) -> Seq<u8> {
        self.texture@
    }

    /// The texture holds exactly four bytes for every pixel.
    pub open spec fn wf(&self) -> bool {
        self.texels().len() == 4 * (self.spec_width() * self.spec_height())
    }

    /// The surface and the canvas have the same dimensions.
    pub open spec fn fits(&self, canvas: &Canvas) -> bool {
        self.spec_width() == canvas.spec_width() && self.spec_height() == canvas.spec_height()
    }

    /// A surface for `canvas`, with a texture of the canvas's size that is
    /// zero everywhere.
    pub fn new(canvas: &Canvas) -> (surface: PresentationSurface)
        requires
            canvas.wf(),
        ensures
            surface.wf(),
            surface.fits(canvas),
            forall|j: int| 0 <= j < surface.texels().len() ==> surface.texels()[j] == 0,
    {
        let texture = vec![0u8; canvas.as_bytes().len()];
        PresentationSurface { width: canvas.width(), height: canvas.height(), texture }
    }

    #[verifier::when_used_as_spec(spec_width)]
    pub fn width(&self) -> (w: u32)
        ensures
            w == self.spec_width(),
    {
        self.width
    }

    #[verifier::when_used_as_spec(spec_height)]
    pub fn height(&self) -> (h: u32)
        ensures
            h == self.spec_height(),
    {
        self.height
    }

    /// The bytes of the texture, to be drawn.
    pub fn texture(&self) -> (bytes: &[u8])
        ensures
            bytes@ == self.texels(),
    {
        self.texture.as_slice()
    }

    /// Plans the sync of what `visible` shows of the canvas.
    pub fn region_update(&self, visible: Rect) -> (update: Option<RegionUpdate>)
        requires
            self.wf(),
        ensures
            update == region_update(self.spec_width(), self.spec_height(), visible),
            update matches Some(u) ==> {
                &&& u.region.within(self.spec_width() as int, self.spec_height() as int)
                &&& u.start == region_start(self.spec_width() as int, u.region)
                &&& u.end == region_end(self.spec_width() as int, u.region)
                &&& u.stride == 4 * self.spec_width()
                &&& u.start < u.end <= self.texels().len()
            },
    {
        match visible.clip(self.width, self.height) {
            Some(region) => {
                proof {
                    assert(self.texture.len() <= usize::MAX);
                    lemma_clip_is_intersection(visible, self.width, self.height);
                    lemma_region_span(self.width as int, self.height as int, region);
                    lemma_offset_in_storage(
                        self.width as int,
                        self.height as int,
                        region.x as int,
                        region.y as int,
                    );
                    assert(self.width <= self.width * self.height) by (nonlinear_arith)
                        requires
                            self.width >= 0,
                            self.height >= 1,
                    ;
                }
                let left = region.x as usize;
                let top = region.y as usize;
                let right = left + (region.width as usize - 1);
                let bottom = top + (region.height as usize - 1);
                let row = self.width as usize;
                Some(
                    RegionUpdate {
                        region,
                        start: 4 * (top * row + left),
                        end: 4 * (bottom * row + right) + 4,
                        stride: 4 * row,
                    },
                )
            },
            None => None,
        }
    }

    /// The texture update: rewrites `region` from `handed`, which starts at
    /// the region's top-left pixel and whose rows lie `stride` bytes apart.
    #[verifier::loop_isolation(false)]
    fn upload(&mut self, region: Rect, handed: &[u8], stride: usize)
        requires
            old(self).wf(),
            region.within(old(self).spec_width() as int, old(self).spec_height() as int),
            4 * region.width <= stride,
            (region.height - 1) * stride + 4 * region.width <= handed@.len(),
        ensures
            final(self).wf(),
            final(self).spec_width() == old(self).spec_width(),
            final(self).spec_height() == old(self).spec_height(),
            final(self).texels() == uploaded(
                old(self).texels(),
                old(self).spec_width() as int,
                region,
                handed@,
                stride as int,
            ),
    {
        let ghost before = self.texture@;
        let ghost w = self.width as int;
        let left = region.x as usize;
        let top = region.y as usize;
        let span = region.width as usize;
        let rows = region.height as usize;
        let row_bytes: usize = 4 * span;
        let mut row: usize = 0;
        proof {
            let untouched = partly_uploaded(before, w, region, handed@, stride as int, 0, 0);
            assert forall|j: int| 0 <= j < before.len() implies before[j] == untouched[j] by {
                lemma_row_span(j, w, left as int, span as int, top as int);
            }
            assert(self.texture@ =~= untouched);
        }
        while row < rows
            invariant
                self.wf(),
                self.width == w,
                self.spec_height() == old(self).spec_height(),
                row <= rows,
                self.texture@ == partly_uploaded(
                    before,
                    w,
                    region,
                    handed@,
                    stride as int,
                    row as int,
                    0,
                ),
            decreases rows - row,
        {
            proof {
                assert(self.texture.len() <= usize::MAX);
                assert(handed.len() <= usize::MAX);
                lemma_offset_in_storage(w, self.height as int, left as int, top + row);
                lemma_offset_in_storage(w, self.height as int, left + span - 1, top + row);
                assert(row * stride <= (rows - 1) * stride) by (nonlinear_arith)
                    requires
                        row <= rows - 1,
                        0 <= stride,
                ;
            }
            let to: usize = 4 * ((top + row) * self.width as usize + left);
            let from: usize = row * stride;
            let mut b: usize = 0;
            while b < row_bytes
                invariant
                    self.wf(),
                    self.width == w,
                    self.spec_height() == old(self).spec_height(),
                    b <= row_bytes,
                    self.texture@ == partly_uploaded(
                        before,
                        w,
                        region,
                        handed@,
                        stride as int,
                        row as int,
                        b as int,
                    ),
                decreases row_bytes - b,
            {
                assert(self.texture.len() <= usize::MAX);
                assert(handed.len() <= usize::MAX);
                self.texture[to + b] = handed[from + b];
                proof {
                    let at = to + b;
                    let next = partly_uploaded(
                        before,
                        w,
                        region,
                        handed@,
                        stride as int,
                        row as int,
                        b + 1,
                    );
                    lemma_row_span(at, w, left as int, span as int, top + row);
                    assert(handed_index(at, w, region, stride as int) == from + b);
                    assert(self.texture@ =~= next);
                }
                b += 1;
            }
            proof {
                let done = partly_uploaded(
                    before,
                    w,
                    region,
                    handed@,
                    stride as int,
                    row + 1,
                    0,
                );
                assert forall|j: int| 0 <= j < before.len() implies self.texture@[j] == done[j] by {
                    lemma_row_span(j, w, left as int, span as int, top + row);
                    lemma_row_span(j, w, left as int, span as int, top + row + 1);
                }
                assert(self.texture@ =~= done);
            }
            row += 1;
        }
        assert(self.texture@ =~= uploaded(before, w, region, handed@, stride as int));
    }

    /// Brings the part of `canvas` that `visible` shows into the texture.
    /// The texture is handed the stored bytes from the region's top-left to
    /// its bottom-right pixel, with the stride of a full canvas row.
    pub fn sync_region(&mut self, canvas: &Canvas, visible: Rect) -> (update: Option<RegionUpdate>)
        requires
            old(self).wf(),
            canvas.wf(),
            old(self).fits(canvas),
        ensures
            final(self).wf(),
            final(self).fits(canvas),
            update == region_update(canvas.spec_width(), canvas.spec_height(), visible),
            final(self).texels() == synced(
                old(self).texels(),
                canvas.bytes(),
                canvas.spec_width() as int,
                visible.clipped(canvas.spec_width(), canvas.spec_height()),
            ),
    {
        let update = self.region_update(visible);
        if let Some(plan) = update {
            let handed = slice_subrange(canvas.as_bytes(), plan.start, plan.end);
            proof {
                lemma_region_span(self.width as int, self.height as int, plan.region);
                lemma_full_row_stride(
                    self.texture@,
                    canvas.bytes(),
                    self.width as int,
                    self.height as int,
                    plan.region,
                );
            }
            self.upload(plan.region, handed, plan.stride);
        }
        update
    }
}

} // verus!
