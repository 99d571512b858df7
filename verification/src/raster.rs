//! Bands into blocks: which blocks a frame is drawn with, in drawing order,
//! and which point of the noise field each of them samples.

use vstd::prelude::*;
use vstd::arithmetic::div_mod::{lemma_fundamental_div_mod, lemma_fundamental_div_mod_converse,
    lemma_mod_bound};
use crate::camera::{GameObject, UNITS_PER_PIXEL};
use crate::config::{FrameConfig, FrameModel};
use crate::schedule::{block_height, block_width, first_row, lemma_next_row_within_limits,
    lemma_schedule_end, live, next_row, row_within_limits, rows_from, rows_left, schedule_end,
    RenderRow, RowModel, MAX_BLOCK_SIDE};

verus! {

/// How far off a block's corner its sample point lies, in world units.
pub const SAMPLE_OFFSET: i64 = 1;

/// What a block stands for.
pub ghost struct BlockModel {
    /// Leftmost screen column.
    pub x: int,
    /// Topmost screen row.
    pub y: int,
    /// Number of columns.
    pub width: int,
    /// Number of rows.
    pub height: int,
    /// Where the noise field is sampled for the block, in world units:
    /// across, and down.
    pub sample_x: int,
    pub sample_y: int,
}

/// A rectangle of pixels that is drawn in one gray level.
#[derive(Clone, Copy, Debug, PartialEq, Eq, Structural)]
pub struct Block {
    /// Leftmost screen column.
    pub x: i32,
    /// Topmost screen row.
    pub y: i32,
    /// Number of columns.
    pub width: i32,
    /// Number of rows.
    pub height: i32,
    /// Where the noise field is sampled for the block, in world units:
    /// across, and down.
    pub sample_x: i128,
    pub sample_y: i128,
}

impl View for Block {
    type V = BlockModel;

    open spec fn view(&self) -> BlockModel {
        BlockModel {
            x: self.x as int,
            y: self.y as int,
            width: self.width as int,
            height: self.height as int,
            sample_x: self.sample_x as int,
            sample_y: self.sample_y as int,
        }
    }
}

/// What a sequence of blocks stands for.
pub open spec fn block_views(blocks: Seq<Block>) -> Seq<BlockModel> {
    blocks.map_values(|b: Block| b@)
}

impl BlockModel {
    /// Whether the pixel in column `x` of row `y` lies in the block.
    pub open spec fn covers(self, x: int, y: int) -> bool {
        self.x <= x < self.x + self.width && self.y <= y < self.y + self.height
    }

    /// A block can be drawn when it has a width and a height, lies right of
    /// and below the screen's origin, and ends on a column and a row that a
    /// surface can address.
    pub open spec fn drawable(self) -> bool {
        &&& 0 <= self.x
        &&& 0 <= self.y
        &&& 1 <= self.width
        &&& 1 <= self.height
        &&& self.x + self.width <= i32::MAX
        &&& self.y + self.height <= i32::MAX
    }
}

/// The point of the noise field that belongs to the screen position
/// `(x, y)` for a camera at `cam`: the pixel in world units, shifted by the
/// camera's position and by `SAMPLE_OFFSET`.
pub open spec fn sample_point(cam: (int, int), x: int, y: int) -> (int, int) {
    (UNITS_PER_PIXEL * x + cam.0 + SAMPLE_OFFSET, UNITS_PER_PIXEL * y + cam.1 + SAMPLE_OFFSET)
}

/// The number of blocks in the band of `row`: as many as it takes to reach
/// the frame's right edge.
pub open spec fn block_count(cfg: FrameModel, row: RowModel) -> int {
    (cfg.width + block_width(cfg, row) - 1) / block_width(cfg, row)
}

/// Block number `i` in the band of `row`, counted from the left.
pub open spec fn block_at(cfg: FrameModel, cam: (int, int), row: RowModel, i: int) -> BlockModel {
    let x = i * block_width(cfg, row);
    let sample = sample_point(cam, x, row.y_screen);
    BlockModel {
        x,
        y: row.y_screen,
        width: block_width(cfg, row),
        height: block_height(cfg, row),
        sample_x: sample.0,
        sample_y: sample.1,
    }
}

/// The blocks of the band of `row`, left to right. A row that starts no
/// lower than the one before it has none.
pub open spec fn row_blocks(cfg: FrameModel, cam: (int, int), row: RowModel) -> Seq<BlockModel> {
    if row.y_screen > row.last_y {
        Seq::new(block_count(cfg, row) as nat, |i: int| block_at(cfg, cam, row, i))
    } else {
        Seq::empty()
    }
}

/// The blocks of the bands from `row` on, band after band.
pub open spec fn blocks_from(cfg: FrameModel, cam: (int, int), row: RowModel) -> Seq<BlockModel>
    decreases rows_left(cfg, row),
{
    if live(cfg, row) {
        row_blocks(cfg, cam, row) + blocks_from(cfg, cam, next_row(cfg, row))
    } else {
        Seq::empty()
    }
}

/// All blocks of a frame, in drawing order: bands top to bottom, and the
/// blocks of a band left to right.
pub open spec fn frame_blocks(cfg: FrameModel, cam: (int, int)) -> Seq<BlockModel> {
    blocks_from(cfg, cam, first_row(cfg))
}

/// The blocks from a row on are the blocks of the live rows from that row
/// on, band after band.
pub proof fn lemma_blocks_by_band(cfg: FrameModel, cam: (int, int), row: RowModel)
    ensures
        blocks_from(cfg, cam, row) == rows_from(cfg, row).map_values(
            |r: RowModel| row_blocks(cfg, cam, r),
        ).flatten(),
    decreases rows_left(cfg, row),
{
    let bands = rows_from(cfg, row).map_values(|r: RowModel| row_blocks(cfg, cam, r));
    if live(cfg, row) {
        let next = next_row(cfg, row);
        let rest = rows_from(cfg, next).map_values(|r: RowModel| row_blocks(cfg, cam, r));
        lemma_blocks_by_band(cfg, cam, next);
        assert(rows_from(cfg, row) =~= seq![row] + rows_from(cfg, next));
        assert(bands.first() == row_blocks(cfg, cam, row));
        assert(bands.drop_first() =~= rest);
    } else {
        assert(bands =~= Seq::<Seq<BlockModel>>::empty());
    }
}

/// The blocks of a band lie side by side from the frame's left edge to its
/// right edge or beyond: the first starts at column 0, each later one where
/// the one before it ends, and the last one starts inside the frame.
pub proof fn lemma_blocks_tile(cfg: FrameModel, cam: (int, int), row: RowModel)
    requires
        cfg.valid(),
        block_width(cfg, row) >= 1,
    ensures
        0 <= block_count(cfg, row),
        cfg.width <= block_count(cfg, row) * block_width(cfg, row),
        block_count(cfg, row) >= 1 ==> (block_count(cfg, row) - 1) * block_width(cfg, row)
            < cfg.width,
        block_at(cfg, cam, row, 0).x == 0,
        forall|i: int|
            block_at(cfg, cam, row, i + 1).x == (#[trigger] block_at(cfg, cam, row, i)).x
                + block_at(cfg, cam, row, i).width,
{
    let w = block_width(cfg, row);
    let n = block_count(cfg, row);
    let t = cfg.width + w - 1;
    lemma_fundamental_div_mod(t, w);
    lemma_mod_bound(t, w);
    assert(n * w == w * n) by (nonlinear_arith);
    assert(0 <= n) by (nonlinear_arith)
        requires
            t == w * n + t % w,
            0 <= t % w < w,
            t >= 0,
            w >= 1,
    ;
    assert((n - 1) * w == n * w - w) by (nonlinear_arith);
    assert forall|i: int|
        block_at(cfg, cam, row, i + 1).x == (#[trigger] block_at(cfg, cam, row, i)).x + block_at(
            cfg,
            cam,
            row,
            i,
        ).width by {
        assert((i + 1) * w == i * w + w) by (nonlinear_arith);
    }
}

/// Every block of the band of a live row within the limits can be drawn,
/// and starts inside the frame.
pub proof fn lemma_row_blocks_drawable(cfg: FrameModel, cam: (int, int), row: RowModel)
    requires
        cfg.valid(),
        row_within_limits(cfg, row),
        live(cfg, row),
    ensures
        forall|k: int|
            0 <= k < row_blocks(cfg, cam, row).len() ==> (#[trigger] row_blocks(cfg, cam, row)[k]).drawable()
                && row_blocks(cfg, cam, row)[k].x < cfg.width
                && row_blocks(cfg, cam, row)[k].y <= cfg.height,
{
    let w = block_width(cfg, row);
    let n = block_count(cfg, row);
    lemma_blocks_tile(cfg, cam, row);
    assert forall|k: int| 0 <= k < row_blocks(cfg, cam, row).len() implies (#[trigger] row_blocks(
        cfg,
        cam,
        row,
    )[k]).drawable() && row_blocks(cfg, cam, row)[k].x < cfg.width && row_blocks(
        cfg,
        cam,
        row,
    )[k].y <= cfg.height by {
        assert(0 <= k * w <= (n - 1) * w) by (nonlinear_arith)
            requires
                0 <= k <= n - 1,
                w >= 1,
        ;
    }
}

/// Which block of a band a pixel lies in: a block of the band covers the
/// pixel exactly when the pixel's row lies in the band and the block's
/// number is the pixel's column divided by the width of the blocks. Every
/// pixel of the band inside the frame has such a block.
pub proof fn lemma_band_covers(cfg: FrameModel, cam: (int, int), row: RowModel, x: int, y: int)
    requires
        cfg.valid(),
        block_width(cfg, row) >= 1,
        row.y_screen > row.last_y,
    ensures
        forall|i: int|
            0 <= i < row_blocks(cfg, cam, row).len() ==> ((#[trigger] row_blocks(
                cfg,
                cam,
                row,
            )[i]).covers(x, y) <==> row.y_screen <= y < row.y_screen + block_height(cfg, row) && i
                == x / block_width(cfg, row)),
        0 <= x < cfg.width ==> 0 <= x / block_width(cfg, row) < row_blocks(cfg, cam, row).len(),
{
    let w = block_width(cfg, row);
    let band = row_blocks(cfg, cam, row);
    lemma_blocks_tile(cfg, cam, row);
    lemma_fundamental_div_mod(x, w);
    lemma_mod_bound(x, w);
    assert forall|i: int| 0 <= i < band.len() implies ((#[trigger] band[i]).covers(x, y)
        <==> row.y_screen <= y < row.y_screen + block_height(cfg, row) && i == x / w) by {
        if i * w <= x < i * w + w {
            lemma_fundamental_div_mod_converse(x, w, i, x - i * w);
        }
        if i == x / w {
            assert(i * w == w * (x / w)) by (nonlinear_arith)
                requires
                    i == x / w,
            ;
        }
    }
    if 0 <= x < cfg.width {
        let n = block_count(cfg, row);
        assert(0 <= x / w < n) by (nonlinear_arith)
            requires
                x == w * (x / w) + x % w,
                0 <= x % w < w,
                0 <= x < n * w,
                w >= 1,
        ;
    }
}

/// Which block from a row on a pixel lies in. From a row within the limits
/// that starts below the one before it: a block covers only pixels right of
/// column 0 and between the row and the end of the schedule, no pixel lies
/// in two blocks, and every such pixel inside the frame lies in one.
pub proof fn lemma_blocks_cover(cfg: FrameModel, cam: (int, int), row: RowModel, x: int, y: int)
    requires
        cfg.valid(),
        row_within_limits(cfg, row),
        row.y_screen > row.last_y,
    ensures
        forall|i: int|
            0 <= i < blocks_from(cfg, cam, row).len() ==> (#[trigger] blocks_from(
                cfg,
                cam,
                row,
            )[i]).drawable(),
        forall|i: int|
            0 <= i < blocks_from(cfg, cam, row).len() && (#[trigger] blocks_from(
                cfg,
                cam,
                row,
            )[i]).covers(x, y) ==> 0 <= x && row.y_screen <= y < schedule_end(cfg, row),
        forall|i: int, j: int|
            0 <= i < blocks_from(cfg, cam, row).len() && 0 <= j < blocks_from(cfg, cam, row).len()
                && (#[trigger] blocks_from(cfg, cam, row)[i]).covers(x, y) && (
            #[trigger] blocks_from(cfg, cam, row)[j]).covers(x, y) ==> i == j,
        0 <= x < cfg.width && row.y_screen <= y < schedule_end(cfg, row) ==> exists|i: int|
            0 <= i < blocks_from(cfg, cam, row).len() && (#[trigger] blocks_from(
                cfg,
                cam,
                row,
            )[i]).covers(x, y),
    decreases rows_left(cfg, row),
{
    if live(cfg, row) {
        let next = next_row(cfg, row);
        let band = row_blocks(cfg, cam, row);
        let rest = blocks_from(cfg, cam, next);
        let all = blocks_from(cfg, cam, row);
        let w = block_width(cfg, row);
        lemma_next_row_within_limits(cfg, row);
        lemma_schedule_end(cfg, next);
        lemma_band_covers(cfg, cam, row, x, y);
        lemma_row_blocks_drawable(cfg, cam, row);
        lemma_blocks_cover(cfg, cam, next, x, y);
        assert(all =~= band + rest);
        assert forall|i: int| 0 <= i < all.len() implies (#[trigger] all[i]).covers(x, y) == (if i
            < band.len() {
            y < next.y_screen && row.y_screen <= y && i == x / w
        } else {
            rest[i - band.len()].covers(x, y)
        }) by {
            if i < band.len() {
                assert(all[i] == band[i]);
            } else {
                assert(all[i] == rest[i - band.len()]);
            }
        }
        assert forall|i: int| 0 <= i < all.len() implies (#[trigger] all[i]).drawable() by {
            if i < band.len() {
                assert(all[i] == band[i]);
            } else {
                assert(all[i] == rest[i - band.len()]);
            }
        }
        assert forall|i: int| 0 <= i < all.len() && (#[trigger] all[i]).covers(x, y) implies 0 <= x
            && row.y_screen <= y < schedule_end(cfg, row) by {
            if i < band.len() {
                assert(band[i].drawable());
                assert(all[i] == band[i]);
            } else {
                assert(rest[i - band.len()].covers(x, y));
            }
        }
        assert forall|i: int, j: int|
            0 <= i < all.len() && 0 <= j < all.len() && (#[trigger] all[i]).covers(x, y) && (
            #[trigger] all[j]).covers(x, y) implies i == j by {
            if i >= band.len() {
                assert(rest[i - band.len()].covers(x, y));
            }
            if j >= band.len() {
                assert(rest[j - band.len()].covers(x, y));
            }
        }
        if 0 <= x < cfg.width && row.y_screen <= y < schedule_end(cfg, row) {
            if y < next.y_screen {
                assert(all[x / w].covers(x, y));
            } else {
                let i = choose|i: int| 0 <= i < rest.len() && (#[trigger] rest[i]).covers(x, y);
                assert(all[i + band.len()] == rest[i]);
                assert(all[i + band.len()].covers(x, y));
            }
        }
    }
}

/// Appends the blocks of the band of `row` to `blocks`.
fn fill_row(cfg: &FrameConfig, cam: &GameObject, row: &RenderRow, blocks: &mut Vec<Block>)
    requires
        row.frame() == cfg@,
        cfg@.valid(),
        row_within_limits(cfg@, row@),
        live(cfg@, row@),
    ensures
        block_views(final(blocks)@) == block_views(old(blocks)@) + row_blocks(
            cfg@,
            cam.position(),
            row@,
        ),
        forall|k: int|
            0 <= k < row_blocks(cfg@, cam.position(), row@).len() ==> (#[trigger] row_blocks(
                cfg@,
                cam.position(),
                row@,
            )[k]).drawable(),
{
    proof {
        lemma_row_blocks_drawable(cfg@, cam.position(), row@);
    }
    if row.y_screen() <= row.last_y() {
        assert(block_views(blocks@) + Seq::<BlockModel>::empty() =~= block_views(blocks@));
        return ;
    }
    let width: i32 = cfg.width() as i32;
    let step: i32 = row.block_width();
    let height: i32 = row.block_height();
    let y: i32 = row.y_screen();
    let sample_y: i128 = UNITS_PER_PIXEL as i128 * y as i128 + cam.y as i128
        + SAMPLE_OFFSET as i128;
    let ghost before = block_views(blocks@);
    let ghost position = cam.position();
    let mut x: i32 = 0;
    let mut i: i32 = 0;
    while x < width
        invariant
            0 <= i <= width,
            x == i * step,
            i > 0 ==> (i - 1) * step < width,
            0 <= width <= u16::MAX,
            1 <= step <= MAX_BLOCK_SIDE,
            step == block_width(cfg@, row@),
            height == block_height(cfg@, row@),
            y == row@.y_screen,
            position == cam.position(),
            sample_y == sample_point(position, 0, y as int).1,
            block_views(blocks@) == before + Seq::new(
                i as nat,
                |j: int| block_at(cfg@, position, row@, j),
            ),
        decreases width - i,
    {
        let sample_x: i128 = UNITS_PER_PIXEL as i128 * x as i128 + cam.x as i128
            + SAMPLE_OFFSET as i128;
        let block = Block { x, y, width: step, height, sample_x, sample_y };
        assert(block@ == block_at(cfg@, position, row@, i as int));
        let ghost earlier = blocks@;
        blocks.push(block);
        assert(block_views(blocks@) =~= block_views(earlier).push(block@));
        assert(block_views(blocks@) =~= before + Seq::new(
            (i + 1) as nat,
            |j: int| block_at(cfg@, position, row@, j),
        ));
        assert((i + 1) * step == x + step) by (nonlinear_arith)
            requires
                x == i * step,
        ;
        assert(i + 1 <= width) by (nonlinear_arith)
            requires
                i * step < width,
                step >= 1,
                i >= 0,
        ;
        x = x + step;
        i = i + 1;
    }
    proof {
        let n = cfg@.width + step - 1;
        if i == 0 {
            lemma_fundamental_div_mod_converse(n, step as int, 0, n);
        } else {
            assert(i * step == (i - 1) * step + step) by (nonlinear_arith);
            lemma_fundamental_div_mod_converse(n, step as int, i as int, n - i * step);
        }
        assert(block_count(cfg@, row@) == i);
    }
}

/// Lays out one frame for a camera at `cam`: all its blocks, in drawing
/// order.
pub fn draw_road(cfg: &FrameConfig, cam: &GameObject) -> (blocks: Vec<Block>)
    ensures
        block_views(blocks@) == frame_blocks(cfg@, cam.position()),
        forall|k: int| 0 <= k < blocks.len() ==> (#[trigger] blocks[k])@.drawable(),
{
    let mut blocks: Vec<Block> = Vec::new();
    let mut row = RenderRow::first(cfg);
    assert(block_views(blocks@) =~= Seq::<BlockModel>::empty());
    while row.is_live()
        invariant
            row.frame() == cfg@,
            cfg@.valid(),
            row_within_limits(cfg@, row@),
            forall|k: int|
                0 <= k < blocks.len() ==> (#[trigger] block_views(blocks@)[k]).drawable(),
            block_views(blocks@) + blocks_from(cfg@, cam.position(), row@) == frame_blocks(
                cfg@,
                cam.position(),
            ),
        decreases rows_left(cfg@, row@),
    {
        let ghost earlier = block_views(blocks@);
        let ghost band = row_blocks(cfg@, cam.position(), row@);
        fill_row(cfg, cam, &row, &mut blocks);
        assert(block_views(blocks@) == earlier + band);
        assert(block_views(blocks@).len() == blocks.len());
        assert(earlier.len() + band.len() == blocks.len());
        assert forall|k: int| 0 <= k < blocks.len() implies (#[trigger] block_views(
            blocks@,
        )[k]).drawable() by {
            if k >= earlier.len() {
                assert((earlier + band)[k] == band[k - earlier.len()]);
            } else {
                assert((earlier + band)[k] == earlier[k]);
            }
        }
        let next = row.advance();
        assert((earlier + row_blocks(cfg@, cam.position(), row@)) + blocks_from(
            cfg@,
            cam.position(),
            next@,
        ) =~= earlier + (row_blocks(cfg@, cam.position(), row@) + blocks_from(
            cfg@,
            cam.position(),
            next@,
        )));
        row = next;
    }
    assert(block_views(blocks@) + Seq::<BlockModel>::empty() =~= block_views(blocks@));
    assert forall|k: int| 0 <= k < blocks.len() implies (#[trigger] blocks[k])@.drawable() by {
        assert(block_views(blocks@)[k] == blocks[k]@);
    }
    blocks
}

} // verus!
