//! Blocks into pixels: the points of a block in plotting order, and the
//! calls to a drawing surface that paint it.
//!
//! A surface plots single points. A block is painted by setting the color
//! once and plotting each of its points.

use vstd::prelude::*;
use vstd::arithmetic::div_mod::{lemma_fundamental_div_mod, lemma_fundamental_div_mod_converse,
    lemma_mod_bound};
use crate::config::FrameModel;
use crate::noise_field::{mean_of, OurNoise};
use crate::raster::{blocks_from, frame_blocks, lemma_blocks_cover, row_blocks, Block, BlockModel};
use crate::schedule::{first_row, lemma_first_row_within_limits, live, next_row, start_row,
    strip_end};
use crate::shade::{intensity, noise_val_to_u8};

verus! {

impl BlockModel {
    /// Pixel number `k` of the block, counted row after row from the top,
    /// and in each row from the left.
    pub open spec fn point_at(self, k: int) -> (int, int) {
        (self.x + k % self.width, self.y + k / self.width)
    }

    /// The number under which the pixel in column `x` of row `y` is
    /// plotted, if the block covers it.
    pub open spec fn index_of(self, x: int, y: int) -> int {
        (y - self.y) * self.width + (x - self.x)
    }

    /// The pixels of the block in the order in which they are plotted. A
    /// block without a width or without a height has none.
    pub open spec fn points(self) -> Seq<(int, int)> {
        if self.width >= 1 && self.height >= 1 {
            Seq::new((self.width * self.height) as nat, |k: int| self.point_at(k))
        } else {
            Seq::empty()
        }
    }
}

/// What a call to the drawing surface stands for.
pub ghost enum CallModel {
    SetColor(int, int, int),
    PlotPoint(int, int),
}

/// A call to the drawing surface.
#[derive(Clone, Copy, Debug, PartialEq, Eq, Structural)]
pub enum DrawCall {
    /// Sets the color of the points that follow: red, green and blue.
    SetColor(u8, u8, u8),
    /// Plots the point in column `.0` of row `.1`.
    PlotPoint(i32, i32),
}

impl View for DrawCall {
    type V = CallModel;

    open spec fn view(&self) -> CallModel {
        match *self {
            DrawCall::SetColor(r, g, b) => CallModel::SetColor(r as int, g as int, b as int),
            DrawCall::PlotPoint(x, y) => CallModel::PlotPoint(x as int, y as int),
        }
    }
}

/// What a sequence of calls stands for.
pub open spec fn call_views(calls: Seq<DrawCall>) -> Seq<CallModel> {
    calls.map_values(|c: DrawCall| c@)
}

/// The calls that paint a block in the gray level `shade`: the color is
/// set once, to the gray with all three parts at `shade`, and then every
/// point of the block is plotted.
pub open spec fn paint_calls(block: BlockModel, shade: int) -> Seq<CallModel> {
    seq![CallModel::SetColor(shade, shade, shade)] + block.points().map_values(
        |p: (int, int)| CallModel::PlotPoint(p.0, p.1),
    )
}

/// What a sequence of pixels stands for.
pub open spec fn point_views(points: Seq<(i32, i32)>) -> Seq<(int, int)> {
    points.map_values(|p: (i32, i32)| (p.0 as int, p.1 as int))
}

/// A block plots the pixels that it covers, each once: a pixel is among the
/// points of a block exactly when the block covers it, and then under one
/// number only.
pub proof fn lemma_points_once(block: BlockModel, x: int, y: int)
    requires
        block.width >= 1,
        block.height >= 1,
    ensures
        forall|k: int|
            0 <= k < block.points().len() ==> (#[trigger] block.points()[k] == (x, y)
                <==> block.covers(x, y) && k == block.index_of(x, y)),
        block.covers(x, y) ==> 0 <= block.index_of(x, y) < block.points().len(),
{
    let w = block.width;
    let h = block.height;
    assert(0 <= w * h) by (nonlinear_arith)
        requires
            1 <= w,
            1 <= h,
    ;
    assert forall|k: int| 0 <= k < block.points().len() implies (#[trigger] block.points()[k] == (
        x,
        y,
    ) <==> block.covers(x, y) && k == block.index_of(x, y)) by {
        lemma_fundamental_div_mod(k, w);
        lemma_mod_bound(k, w);
        assert(0 <= k / w < h) by (nonlinear_arith)
            requires
                k == w * (k / w) + k % w,
                0 <= k % w < w,
                0 <= k < w * h,
                1 <= w,
        ;
        if block.covers(x, y) && k == block.index_of(x, y) {
            lemma_fundamental_div_mod_converse(k, w, y - block.y, x - block.x);
        }
        if block.points()[k] == (x, y) {
            assert(w * (k / w) == (k / w) * w) by (nonlinear_arith);
        }
    }
    if block.covers(x, y) {
        let r = y - block.y;
        let c = x - block.x;
        assert(0 <= r * w + c < w * h) by (nonlinear_arith)
            requires
                0 <= r < h,
                0 <= c < w,
        ;
    }
}

/// Every pixel of the strip is plotted exactly once. Of a frame's blocks
/// and their points: a pixel that is plotted lies right of column 0 and
/// between the start row and the end of the strip; no pixel is plotted
/// twice, by two blocks or by one; and where the start row lies below the
/// screen's first row, every pixel of the frame's columns between the start
/// row and the end of the strip is plotted.
pub proof fn lemma_strip_plotted_once(cfg: FrameModel, cam: (int, int), x: int, y: int)
    requires
        cfg.valid(),
    ensures
        forall|i: int, k: int|
            0 <= i < frame_blocks(cfg, cam).len() && 0 <= k < frame_blocks(
                cfg,
                cam,
            )[i].points().len() && #[trigger] frame_blocks(cfg, cam)[i].points()[k] == (x, y)
                ==> 0 <= x && start_row(cfg) <= y < strip_end(cfg),
        forall|i: int, k: int, j: int, m: int|
            0 <= i < frame_blocks(cfg, cam).len() && 0 <= k < frame_blocks(
                cfg,
                cam,
            )[i].points().len() && 0 <= j < frame_blocks(cfg, cam).len() && 0 <= m < frame_blocks(
                cfg,
                cam,
            )[j].points().len() && #[trigger] frame_blocks(cfg, cam)[i].points()[k] == (x, y)
                && #[trigger] frame_blocks(cfg, cam)[j].points()[m] == (x, y) ==> i == j && k == m,
        0 <= x < cfg.width && 0 < start_row(cfg) <= y < strip_end(cfg) ==> exists|
            i: int,
            k: int,
        |
            0 <= i < frame_blocks(cfg, cam).len() && 0 <= k < frame_blocks(
                cfg,
                cam,
            )[i].points().len() && #[trigger] frame_blocks(cfg, cam)[i].points()[k] == (x, y),
{
    let first = first_row(cfg);
    let blocks = frame_blocks(cfg, cam);
    lemma_first_row_within_limits(cfg);
    if start_row(cfg) > 0 {
        lemma_blocks_cover(cfg, cam, first, x, y);
        assert forall|i: int, k: int|
            0 <= i < blocks.len() && 0 <= k < blocks[i].points().len() implies (
        #[trigger] blocks[i].points()[k] == (x, y) <==> blocks[i].covers(x, y) && k
            == blocks[i].index_of(x, y)) by {
            lemma_points_once(blocks[i], x, y);
        }
        if 0 <= x < cfg.width && start_row(cfg) <= y < strip_end(cfg) {
            let i = choose|i: int| 0 <= i < blocks.len() && (#[trigger] blocks[i]).covers(x, y);
            let k = blocks[i].index_of(x, y);
            lemma_points_once(blocks[i], x, y);
            assert(blocks[i].points()[k] == (x, y));
        }
    } else {
        let next = next_row(cfg, first);
        assert(!live(cfg, next));
        assert(blocks_from(cfg, cam, next) =~= Seq::<BlockModel>::empty());
        assert(row_blocks(cfg, cam, first) =~= Seq::<BlockModel>::empty());
        assert(blocks =~= Seq::<BlockModel>::empty());
    }
}

impl Block {
    /// The pixels of the block, in the order in which they are plotted.
    pub fn points(&self) -> (points: Vec<(i32, i32)>)
        requires
            self.x + self.width <= i32::MAX,
            self.y + self.height <= i32::MAX,
        ensures
            point_views(points@) == self@.points(),
    {
        let mut points: Vec<(i32, i32)> = Vec::new();
        if self.width < 1 || self.height < 1 {
            assert(point_views(points@) =~= self@.points());
            return points;
        }
        let ghost model = self@;
        let width: i32 = self.width;
        let mut row: i32 = 0;
        assert(0 * width == 0);
        assert(point_views(points@) =~= Seq::new(0nat, |k: int| model.point_at(k)));
        while row < self.height
            invariant
                0 <= row <= self.height,
                1 <= width == self.width,
                self.x + self.width <= i32::MAX,
                self.y + self.height <= i32::MAX,
                model == self@,
                point_views(points@) == Seq::new(
                    (row * width) as nat,
                    |k: int| model.point_at(k),
                ),
            decreases self.height - row,
        {
            let mut col: i32 = 0;
            while col < width
                invariant
                    0 <= row < self.height,
                    0 <= col <= width,
                    width == self.width,
                    self.x + self.width <= i32::MAX,
                    self.y + self.height <= i32::MAX,
                    model == self@,
                    point_views(points@) == Seq::new(
                        (row * width + col) as nat,
                        |k: int| model.point_at(k),
                    ),
                decreases width - col,
            {
                let ghost k = row * width + col;
                let ghost earlier = points@;
                proof {
                    assert(0 <= row * width) by (nonlinear_arith)
                        requires
                            0 <= row,
                            0 <= width,
                    ;
                    lemma_fundamental_div_mod_converse(k, width as int, row as int, col as int);
                }
                points.push((self.x + col, self.y + row));
                assert(point_views(points@) =~= point_views(earlier).push(model.point_at(k)));
                assert(point_views(points@) =~= Seq::new(
                    (row * width + (col + 1)) as nat,
                    |k: int| model.point_at(k),
                ));
                col = col + 1;
            }
            assert((row + 1) * width == row * width + width) by (nonlinear_arith);
            row = row + 1;
        }
        proof {
            assert(row * width == self.width * self.height) by (nonlinear_arith)
                requires
                    row == self.height,
                    width == self.width,
            ;
        }
        points
    }

    /// The calls that paint the block in the gray level `shade`.
    pub fn paint(&self, shade: u8) -> (calls: Vec<DrawCall>)
        requires
            self.x + self.width <= i32::MAX,
            self.y + self.height <= i32::MAX,
        ensures
            call_views(calls@) == paint_calls(self@, shade as int),
    {
        let points = self.points();
        let mut calls: Vec<DrawCall> = Vec::new();
        calls.push(DrawCall::SetColor(shade, shade, shade));
        let ghost plots = self@.points().map_values(|p: (int, int)| CallModel::PlotPoint(p.0, p.1));
        let ghost color = seq![CallModel::SetColor(shade as int, shade as int, shade as int)];
        assert(call_views(calls@) =~= color + plots.take(0));
        let mut i: usize = 0;
        while i < points.len()
            invariant
                i <= points.len(),
                point_views(points@) == self@.points(),
                plots == self@.points().map_values(|p: (int, int)| CallModel::PlotPoint(p.0, p.1)),
                color == seq![CallModel::SetColor(shade as int, shade as int, shade as int)],
                call_views(calls@) == color + plots.take(i as int),
            decreases points.len() - i,
        {
            let point = points[i];
            let ghost earlier = calls@;
            assert(point_views(points@)[i as int] == (point.0 as int, point.1 as int));
            calls.push(DrawCall::PlotPoint(point.0, point.1));
            assert(call_views(calls@) =~= call_views(earlier).push(
                CallModel::PlotPoint(point.0 as int, point.1 as int),
            ));
            assert(plots.take(i + 1) =~= plots.take(i as int).push(plots[i as int]));
            assert(call_views(calls@) =~= color + plots.take(i + 1));
            i = i + 1;
        }
        assert(plots.take(i as int) =~= plots);
        calls
    }

    /// The calls that paint the block in the gray level of the field's
    /// noise value: the mean of `evaluations`, which holds what each
    /// generator of `field` returns at the block's sample point. With any
    /// other number of evaluations there are no calls.
    pub fn paint_sampled(&self, field: &OurNoise, evaluations: &Vec<i64>) -> (calls: Option<
        Vec<DrawCall>,
    >)
        requires
            self.x + self.width <= i32::MAX,
            self.y + self.height <= i32::MAX,
        ensures
            calls.is_some() <==> evaluations.len() == field@.len(),
            calls matches Some(c) ==> call_views(c@) == paint_calls(
                self@,
                intensity(mean_of(evaluations@).numer, mean_of(evaluations@).denom),
            ),
    {
        match field.at(evaluations) {
            Some(mean) => Some(self.paint(noise_val_to_u8(&mean))),
            None => None,
        }
    }
}

} // verus!
