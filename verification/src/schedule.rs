//! The schedule of bands: where each band of a frame starts, and how much
//! its blocks are magnified.
//!
//! A band is described by a row state. The first row lies two thirds down
//! the frame; each later row follows from the one before it. Magnification
//! grows with the distance covered, so bands get taller and their blocks
//! wider towards the bottom of the frame.

use vstd::prelude::*;
use crate::config::{FrameConfig, FrameModel};
use crate::roots::{ceil_sqrt, ceil_sqrt_u64, lemma_ceil_sqrt, lemma_ceil_sqrt_monotone,
    lemma_ceil_sqrt_of_square, lemma_square_monotone};

verus! {

/// What the vertical magnification lags behind the root it is taken from.
pub const V_MAG_LAG: i32 = 15;

/// The state of the schedule at one band.
pub ghost struct RowModel {
    /// Screen row at which the band starts.
    pub y_screen: int,
    /// Horizontal progress accumulated so far.
    pub x_progress: int,
    /// Screen row at which the band before this one started; 0 for the first.
    pub last_y: int,
    /// Horizontal magnification of the band's blocks.
    pub h_mag: int,
    /// Vertical magnification of the band's blocks.
    pub v_mag: int,
}

/// The screen row of the first band: the frame's height less a third of it,
/// the third rounded down.
pub open spec fn start_row(cfg: FrameModel) -> int {
    cfg.height - cfg.height / 3
}

/// The state at the first band of a frame.
pub open spec fn first_row(cfg: FrameModel) -> RowModel {
    RowModel { y_screen: start_row(cfg), x_progress: 0, last_y: 0, h_mag: 1, v_mag: 0 }
}

/// Width of the blocks of a band.
pub open spec fn block_width(cfg: FrameModel, row: RowModel) -> int {
    cfg.base_scale + row.h_mag
}

/// Height of a band, and of its blocks.
pub open spec fn block_height(cfg: FrameModel, row: RowModel) -> int {
    cfg.base_scale + row.v_mag
}

/// The state that follows `row`: the band starts where the one before it
/// ends, progress grows by twice the base scale, and both magnifications
/// are taken anew from rounded-up square roots.
pub open spec fn next_row(cfg: FrameModel, row: RowModel) -> RowModel {
    let y = row.y_screen + block_height(cfg, row);
    let x = row.x_progress + 2 * cfg.base_scale;
    RowModel {
        y_screen: y,
        x_progress: x,
        last_y: row.y_screen,
        h_mag: ceil_sqrt(x),
        v_mag: ceil_sqrt(y * cfg.base_scale) - V_MAG_LAG,
    }
}

/// A row is live while it starts on a screen row up to the frame's height
/// and its band has a height. The schedule of a frame ends at the first
/// row that is not live: below the frame, or where a band would be empty
/// and the schedule could not move on.
pub open spec fn live(cfg: FrameModel, row: RowModel) -> bool {
    row.y_screen <= cfg.height && block_height(cfg, row) > 0
}

/// How many screen rows a live row is away from the frame's end, plus one;
/// 0 for a row that is not live.
pub open spec fn rows_left(cfg: FrameModel, row: RowModel) -> int {
    if live(cfg, row) {
        cfg.height - row.y_screen + 1
    } else {
        0
    }
}

/// The live rows from `row` on, in order.
pub open spec fn rows_from(cfg: FrameModel, row: RowModel) -> Seq<RowModel>
    decreases rows_left(cfg, row),
{
    if live(cfg, row) {
        seq![row] + rows_from(cfg, next_row(cfg, row))
    } else {
        Seq::empty()
    }
}

/// The rows of all bands of a frame, top to bottom.
pub open spec fn frame_rows(cfg: FrameModel) -> Seq<RowModel> {
    rows_from(cfg, first_row(cfg))
}

/// The screen row on which the schedule from `row` on ends: where the first
/// row that is not live starts.
pub open spec fn schedule_end(cfg: FrameModel, row: RowModel) -> int
    decreases rows_left(cfg, row),
{
    if live(cfg, row) {
        schedule_end(cfg, next_row(cfg, row))
    } else {
        row.y_screen
    }
}

/// The screen row on which the strip of a frame ends: the bands of the
/// frame lie above it.
pub open spec fn strip_end(cfg: FrameModel) -> int {
    schedule_end(cfg, first_row(cfg))
}

/// The highest screen row that a row state of a frame can lie on.
pub const MAX_ROW: i32 = 0x4_0000;

/// The largest horizontal magnification of a frame's bands.
pub const MAX_H_MAG: i32 = 0x4_0000;

/// The largest vertical magnification of a frame's bands.
pub const MAX_V_MAG: i32 = 0x2_0000;

/// A bound on the width and on the height of a frame's blocks.
pub const MAX_BLOCK_SIDE: i32 = 0x5_0000;

/// The limits within which every row state of a valid frame lies.
pub open spec fn row_within_limits(cfg: FrameModel, row: RowModel) -> bool {
    &&& 0 <= row.last_y <= row.y_screen <= MAX_ROW
    &&& start_row(cfg) <= row.y_screen
    &&& 0 <= row.x_progress <= 2 * cfg.base_scale * (row.y_screen - start_row(cfg))
    &&& 0 <= row.h_mag <= MAX_H_MAG
    &&& -V_MAG_LAG <= row.v_mag <= MAX_V_MAG
}

/// The first row of a valid frame lies within the limits.
pub proof fn lemma_first_row_within_limits(cfg: FrameModel)
    requires
        cfg.valid(),
    ensures
        row_within_limits(cfg, first_row(cfg)),
{
    assert(2 * cfg.base_scale * (start_row(cfg) - start_row(cfg)) == 0) by (nonlinear_arith);
}

/// The row after a live row within the limits lies within them too, and
/// strictly lower on the screen.
pub proof fn lemma_next_row_within_limits(cfg: FrameModel, row: RowModel)
    requires
        cfg.valid(),
        row_within_limits(cfg, row),
        live(cfg, row),
    ensures
        row_within_limits(cfg, next_row(cfg, row)),
        next_row(cfg, row).y_screen > row.y_screen,
        next_row(cfg, row).x_progress <= 0x8_0000_0000,
        next_row(cfg, row).y_screen * cfg.base_scale <= 0x4_0000_0000,
{
    let next = next_row(cfg, row);
    let s = cfg.base_scale;
    let y0 = start_row(cfg);
    assert(next.x_progress <= 2 * s * (next.y_screen - y0)) by (nonlinear_arith)
        requires
            next.x_progress == row.x_progress + 2 * s,
            row.x_progress <= 2 * s * (row.y_screen - y0),
            next.y_screen >= row.y_screen + 1,
            s >= 1,
    ;
    assert(2 * s * (next.y_screen - y0) <= 0x8_0000_0000) by (nonlinear_arith)
        requires
            1 <= s <= 0xffff,
            0 <= next.y_screen - y0 <= 0x4_0000,
    ;
    assert(0 <= next.y_screen * s <= 0x4_0000_0000) by (nonlinear_arith)
        requires
            1 <= s <= 0xffff,
            0 <= next.y_screen <= 0x4_0000,
    ;
    lemma_ceil_sqrt(next.x_progress);
    lemma_ceil_sqrt_monotone(next.x_progress, 0x4_0000int * 0x4_0000int);
    lemma_ceil_sqrt_of_square(0x4_0000);
    lemma_ceil_sqrt(next.y_screen * s);
    lemma_ceil_sqrt_monotone(next.y_screen * s, 0x2_0000int * 0x2_0000int);
    lemma_ceil_sqrt_of_square(0x2_0000);
}

/// How the rows of a schedule hang together. From a row within the limits
/// on: every listed row is live and within the limits, the first listed is
/// the row itself, each later one follows from the one before it, the row
/// that would follow the last is not live, and there is at most one row for
/// each screen row that is left.
pub proof fn lemma_rows_chain(cfg: FrameModel, row: RowModel)
    requires
        cfg.valid(),
        row_within_limits(cfg, row),
    ensures
        rows_from(cfg, row).len() <= rows_left(cfg, row),
        live(cfg, row) ==> rows_from(cfg, row).len() >= 1 && rows_from(cfg, row)[0] == row,
        forall|k: int|
            0 <= k < rows_from(cfg, row).len() ==> live(cfg, #[trigger] rows_from(cfg, row)[k])
                && row_within_limits(cfg, rows_from(cfg, row)[k]),
        forall|k: int|
            1 <= k < rows_from(cfg, row).len() ==> #[trigger] rows_from(cfg, row)[k] == next_row(
                cfg,
                rows_from(cfg, row)[k - 1],
            ),
        rows_from(cfg, row).len() >= 1 ==> !live(cfg, next_row(cfg, rows_from(cfg, row).last())),
    decreases rows_left(cfg, row),
{
    if live(cfg, row) {
        let next = next_row(cfg, row);
        let rest = rows_from(cfg, next);
        let rows = rows_from(cfg, row);
        lemma_next_row_within_limits(cfg, row);
        lemma_rows_chain(cfg, next);
        assert(rows =~= seq![row] + rest);
        assert(rows[0] == row);
        assert forall|k: int| 0 <= k < rows.len() implies live(cfg, #[trigger] rows[k])
            && row_within_limits(cfg, rows[k]) by {
            if k >= 1 {
                assert(rows[k] == rest[k - 1]);
            }
        }
        assert forall|k: int| 1 <= k < rows.len() implies #[trigger] rows[k] == next_row(
            cfg,
            rows[k - 1],
        ) by {
            assert(rows[k] == rest[k - 1]);
            if k >= 2 {
                assert(rows[k - 1] == rest[k - 2]);
            }
        }
        if rest.len() >= 1 {
            assert(rows.last() == rest.last());
        }
    }
}

/// The schedule from a row on ends no higher than the row, and where the
/// row after the last live row starts.
pub proof fn lemma_schedule_end(cfg: FrameModel, row: RowModel)
    ensures
        row.y_screen <= schedule_end(cfg, row),
        live(cfg, row) ==> next_row(cfg, row).y_screen <= schedule_end(cfg, row),
        rows_from(cfg, row).len() >= 1 ==> schedule_end(cfg, row) == next_row(
            cfg,
            rows_from(cfg, row).last(),
        ).y_screen,
    decreases rows_left(cfg, row),
{
    if live(cfg, row) {
        let next = next_row(cfg, row);
        let rest = rows_from(cfg, next);
        lemma_schedule_end(cfg, next);
        assert(rows_from(cfg, row) =~= seq![row] + rest);
        if rest.len() >= 1 {
            assert(rows_from(cfg, row).last() == rest.last());
        } else {
            assert(rows_from(cfg, row).last() == row);
        }
    }
}

/// The schedule of a frame ends: a frame has at most one band for each
/// screen row from its start row to its height.
pub proof fn lemma_frame_rows_bounded(cfg: FrameModel)
    requires
        cfg.valid(),
    ensures
        frame_rows(cfg).len() <= cfg.height - start_row(cfg) + 1,
{
    lemma_first_row_within_limits(cfg);
    lemma_rows_chain(cfg, first_row(cfg));
}

/// The bands of a frame lie one below the other without a gap or an
/// overlap: the first starts at the frame's start row, each later one on
/// the screen row where the one before it ends, and every band has a
/// height.
pub proof fn lemma_bands_tile(cfg: FrameModel)
    requires
        cfg.valid(),
    ensures
        frame_rows(cfg).len() >= 1 ==> frame_rows(cfg)[0].y_screen == start_row(cfg),
        forall|k: int|
            0 <= k < frame_rows(cfg).len() ==> block_height(cfg, #[trigger] frame_rows(cfg)[k])
                > 0,
        forall|k: int|
            1 <= k < frame_rows(cfg).len() ==> (#[trigger] frame_rows(cfg)[k]).y_screen
                == frame_rows(cfg)[k - 1].y_screen + block_height(cfg, frame_rows(cfg)[k - 1])
                && frame_rows(cfg)[k].last_y == frame_rows(cfg)[k - 1].y_screen,
{
    lemma_first_row_within_limits(cfg);
    lemma_rows_chain(cfg, first_row(cfg));
    if live(cfg, first_row(cfg)) {
    } else {
        assert(frame_rows(cfg).len() == 0);
    }
}

/// A row is settled when its vertical magnification is the one that the
/// schedule takes from the row's own position, and is not negative.
pub open spec fn settled(cfg: FrameModel, row: RowModel) -> bool {
    row.v_mag >= 0 && row.v_mag == ceil_sqrt(row.y_screen * cfg.base_scale) - V_MAG_LAG
}

/// A frame is steady when the band after the first is no thinner than the
/// first.
pub open spec fn steady(cfg: FrameModel) -> bool {
    next_row(cfg, first_row(cfg)).v_mag >= 0
}

/// A frame is steady exactly when its start row and base scale, added and
/// multiplied by the base scale, come to more than the square of 14: then
/// the root that the second band's height is taken from reaches
/// `V_MAG_LAG`.
pub proof fn lemma_steady_frames(cfg: FrameModel)
    requires
        cfg.valid(),
    ensures
        steady(cfg) <==> (start_row(cfg) + cfg.base_scale) * cfg.base_scale > 196,
{
    let n = (start_row(cfg) + cfg.base_scale) * cfg.base_scale;
    assert(next_row(cfg, first_row(cfg)).v_mag == ceil_sqrt(n) - V_MAG_LAG);
    lemma_ceil_sqrt(n);
    lemma_ceil_sqrt_of_square(14);
    assert(14int * 14int == 196);
    if n > 196 {
        if ceil_sqrt(n) < 15 {
            lemma_square_monotone(ceil_sqrt(n), 14);
        }
    } else {
        lemma_ceil_sqrt_monotone(n, 196);
    }
}

/// How many steps of at least `step` rows fit into the rows that are left:
/// none less than 0, and one fewer after a step than before it.
proof fn lemma_rows_fit(left: int, left_after: int, step: int)
    requires
        1 <= step,
        0 <= left,
    ensures
        0 <= left / step,
        0 <= left_after && left_after + step <= left ==> left_after / step + 1 <= left / step,
{
    assert(0 <= left / step) by (nonlinear_arith)
        requires
            1 <= step,
            0 <= left,
    ;
    if 0 <= left_after && left_after + step <= left {
        assert(left_after / step + 1 <= left / step) by (nonlinear_arith)
            requires
                1 <= step,
                0 <= left_after,
                left_after + step <= left,
        ;
    }
}

/// The row after a live, settled row is settled, and its band is no thinner
/// than the one before it.
proof fn lemma_next_settled(cfg: FrameModel, row: RowModel)
    requires
        cfg.valid(),
        row_within_limits(cfg, row),
        live(cfg, row),
        settled(cfg, row),
    ensures
        settled(cfg, next_row(cfg, row)),
        next_row(cfg, row).v_mag >= row.v_mag,
{
    let next = next_row(cfg, row);
    let s = cfg.base_scale;
    assert(row.y_screen * s <= next.y_screen * s) by (nonlinear_arith)
        requires
            row.y_screen <= next.y_screen,
            s >= 1,
    ;
    lemma_ceil_sqrt_monotone(row.y_screen * s, next.y_screen * s);
}

/// From a settled row on, every row is settled, each band is at least as
/// tall as the one before it, the schedule ends below the frame, and the
/// number of bands is bounded by the rows left divided by the base scale.
proof fn lemma_settled_rows(cfg: FrameModel, row: RowModel)
    requires
        cfg.valid(),
        row_within_limits(cfg, row),
        settled(cfg, row),
    ensures
        forall|k: int|
            0 <= k < rows_from(cfg, row).len() ==> settled(cfg, #[trigger] rows_from(cfg, row)[k]),
        forall|k: int|
            1 <= k < rows_from(cfg, row).len() ==> (#[trigger] rows_from(cfg, row)[k]).v_mag
                >= rows_from(cfg, row)[k - 1].v_mag,
        rows_from(cfg, row).len() >= 1 ==> next_row(cfg, rows_from(cfg, row).last()).y_screen
            > cfg.height,
        live(cfg, row) ==> rows_from(cfg, row).len() <= (cfg.height - row.y_screen)
            / cfg.base_scale + 1,
    decreases rows_left(cfg, row),
{
    if live(cfg, row) {
        let next = next_row(cfg, row);
        let rest = rows_from(cfg, next);
        let rows = rows_from(cfg, row);
        let s = cfg.base_scale;
        lemma_next_row_within_limits(cfg, row);
        lemma_next_settled(cfg, row);
        lemma_settled_rows(cfg, next);
        lemma_rows_chain(cfg, next);
        assert(rows =~= seq![row] + rest);
        assert(rows[0] == row);
        assert forall|k: int| 0 <= k < rows.len() implies settled(cfg, #[trigger] rows[k]) by {
            if k >= 1 {
                assert(rows[k] == rest[k - 1]);
            }
        }
        assert forall|k: int| 1 <= k < rows.len() implies (#[trigger] rows[k]).v_mag >= rows[k
            - 1].v_mag by {
            assert(rows[k] == rest[k - 1]);
            if k >= 2 {
                assert(rows[k - 1] == rest[k - 2]);
            } else {
                assert(rest[0] == next);
            }
        }
        lemma_rows_fit(cfg.height - row.y_screen, cfg.height - next.y_screen, s);
        if rest.len() >= 1 {
            assert(rows.last() == rest.last());
            assert(live(cfg, next));
        } else {
            assert(rows.last() == row);
        }
    }
}

/// In a steady frame the schedule moves down by at least the base scale
/// with every band: no band is thinner than the base scale, the schedule
/// and with it the strip end below the frame, and there are at most as many
/// bands as the base scale goes into the rows below the start row, and one
/// more.
pub proof fn lemma_steady_frame(cfg: FrameModel)
    requires
        cfg.valid(),
        steady(cfg),
    ensures
        forall|k: int|
            0 <= k < frame_rows(cfg).len() ==> block_height(cfg, #[trigger] frame_rows(cfg)[k])
                >= cfg.base_scale,
        frame_rows(cfg).len() >= 1 ==> next_row(cfg, frame_rows(cfg).last()).y_screen
            > cfg.height,
        strip_end(cfg) > cfg.height,
        frame_rows(cfg).len() <= (cfg.height - start_row(cfg)) / cfg.base_scale + 1,
{
    let first = first_row(cfg);
    lemma_schedule_end(cfg, first);
    let rows = frame_rows(cfg);
    let s = cfg.base_scale;
    lemma_first_row_within_limits(cfg);
    lemma_rows_chain(cfg, first);
    if live(cfg, first) {
        let next = next_row(cfg, first);
        let rest = rows_from(cfg, next);
        lemma_next_row_within_limits(cfg, first);
        lemma_settled_rows(cfg, next);
        lemma_rows_chain(cfg, next);
        assert(rows =~= seq![first] + rest);
        assert forall|k: int| 0 <= k < rows.len() implies block_height(cfg, #[trigger] rows[k])
            >= s by {
            if k >= 1 {
                assert(rows[k] == rest[k - 1]);
            }
        }
        lemma_rows_fit(cfg.height - first.y_screen, cfg.height - next.y_screen, s);
        if rest.len() >= 1 {
            assert(rows.last() == rest.last());
            assert(live(cfg, next));
        } else {
            assert(rows.last() == first);
        }
    } else {
        assert(rows.len() == 0);
        lemma_rows_fit(cfg.height - start_row(cfg), 0, s);
    }
}

/// The state of the schedule at one band of a frame.
#[derive(Clone, Copy, Debug)]
pub struct RenderRow {
    cfg: FrameConfig,
    y_screen: i32,
    x_progress: i64,
    last_y: i32,
    h_mag: i32,
    v_mag: i32,
}

impl View for RenderRow {
    type V = RowModel;

    closed spec fn view(&self) -> RowModel {
        RowModel {
            y_screen: self.y_screen as int,
            x_progress: self.x_progress as int,
            last_y: self.last_y as int,
            h_mag: self.h_mag as int,
            v_mag: self.v_mag as int,
        }
    }
}

impl RenderRow {
    #[verifier::type_invariant]
    spec fn within_limits(self) -> bool {
        self.cfg@.valid() && row_within_limits(self.cfg@, self@)
    }

    /// The frame whose schedule the row belongs to.
    pub closed spec fn frame(&self) -> FrameModel {
        self.cfg@
    }

    /// The state at the first band of a frame.
    pub fn first(cfg: &FrameConfig) -> (row: RenderRow)
        ensures
            row@ == first_row(cfg@),
            row.frame() == cfg@,
            row.frame().valid(),
            row_within_limits(row.frame(), row@),
    {
        let height: u16 = cfg.height();
        proof {
            lemma_first_row_within_limits(cfg@);
        }
        RenderRow {
            cfg: *cfg,
            y_screen: (height - height / 3) as i32,
            x_progress: 0,
            last_y: 0,
            h_mag: 1,
            v_mag: 0,
        }
    }

    /// Whether the row is live: a band is drawn for it, and a row follows.
    pub fn is_live(&self) -> (b: bool)
        ensures
            b == live(self.frame(), self@),
            self.frame().valid(),
            row_within_limits(self.frame(), self@),
    {
        proof {
            use_type_invariant(self);
        }
        self.y_screen <= self.cfg.height() as i32 && self.block_height() > 0
    }

    /// The state that follows a live row.
    pub fn advance(&self) -> (next: RenderRow)
        requires
            live(self.frame(), self@),
        ensures
            next@ == next_row(self.frame(), self@),
            next.frame() == self.frame(),
            row_within_limits(next.frame(), next@),
    {
        proof {
            use_type_invariant(self);
            lemma_next_row_within_limits(self.cfg@, self@);
        }
        let scale: u16 = self.cfg.base_scale();
        let y: i32 = self.y_screen + self.block_height();
        let x: i64 = self.x_progress + 2 * (scale as i64);
        let h: u64 = ceil_sqrt_u64(x as u64);
        let v: u64 = ceil_sqrt_u64((y as u64) * (scale as u64));
        RenderRow {
            cfg: self.cfg,
            y_screen: y,
            x_progress: x,
            last_y: self.y_screen,
            h_mag: h as i32,
            v_mag: v as i32 - V_MAG_LAG,
        }
    }

    /// Screen row at which the band starts.
    pub fn y_screen(&self) -> (y: i32)
        ensures
            y == self@.y_screen,
    {
        self.y_screen
    }

    /// Screen row at which the band before this one started; 0 for the
    /// first.
    pub fn last_y(&self) -> (y: i32)
        ensures
            y == self@.last_y,
    {
        self.last_y
    }

    /// Horizontal progress accumulated so far.
    pub fn x_progress(&self) -> (x: i64)
        ensures
            x == self@.x_progress,
    {
        self.x_progress
    }

    /// Horizontal magnification of the band's blocks.
    pub fn h_mag(&self) -> (h: i32)
        ensures
            h == self@.h_mag,
    {
        self.h_mag
    }

    /// Vertical magnification of the band's blocks.
    pub fn v_mag(&self) -> (v: i32)
        ensures
            v == self@.v_mag,
    {
        self.v_mag
    }

    /// Width of the band's blocks.
    pub fn block_width(&self) -> (w: i32)
        ensures
            w == block_width(self.frame(), self@),
            1 <= w <= MAX_BLOCK_SIDE,
    {
        proof {
            use_type_invariant(self);
        }
        self.cfg.base_scale() as i32 + self.h_mag
    }

    /// Height of the band and of its blocks.
    pub fn block_height(&self) -> (h: i32)
        ensures
            h == block_height(self.frame(), self@),
            h <= MAX_BLOCK_SIDE,
    {
        proof {
            use_type_invariant(self);
        }
        self.cfg.base_scale() as i32 + self.v_mag
    }
}

} // verus!
