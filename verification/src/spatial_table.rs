//! Uniform spatial hash over the toroidal domain: the broad phase.
//!
//! Bodies' wrapped bounding boxes are inserted each step; every cell a box
//! touches receives the body's id, and each insertion emits one candidate
//! pair for every id already stored in a touched cell, deduplicated per
//! insertion. A wrapped box whose `left` exceeds its `right` straddles the
//! domain edge, so the cell walk wraps modulo the grid dimensions.

use vstd::prelude::*;

use crate::bounding::AxisAlignmentBoundingBox;
use crate::scalar::SCALE;
use crate::toroidal::period;

verus! {

/// Number of grid cells covering one axis: the raw axis extent divided by
/// the cell size, rounded up.
pub open spec fn grid_dim(space: int, cell: int) -> int
    recommends
        cell >= 1,
{
    (space * SCALE + cell - 1) / cell
}

/// The grid cell holding a canonical raw coordinate.
pub open spec fn cell_of(coord: int, cell: int) -> int
    recommends
        cell >= 1,
        coord >= 0,
{
    coord / cell
}

/// Whether `v` occurs in the cyclic walk of `len` cells starting at `start`
/// modulo `w`.
pub open spec fn in_cyc(v: int, start: int, len: int, w: int) -> bool {
    exists|k: int| 0 <= k < len && v == #[trigger] ((start + k) % w)
}

/// Number of cells walked on one axis for the wrapped raw interval
/// `[raw_lo, raw_hi]`: the cell range of the interval, wrapping around the
/// grid when the interval straddles the domain edge, capped at one full turn.
pub open spec fn span_cells(raw_lo: int, raw_hi: int, cell: int, w: int) -> int {
    let lc = cell_of(raw_lo, cell);
    let hc = cell_of(raw_hi, cell);
    let raw = if raw_lo <= raw_hi {
        hc - lc + 1
    } else {
        hc + w - lc + 1
    };
    if raw > w {
        w
    } else {
        raw
    }
}

/// Whether grid column `cx` is touched by the wrapped horizontal extent of
/// `aabb`.
pub open spec fn covers_x(aabb: AxisAlignmentBoundingBox, cell: int, w: int, cx: int) -> bool {
    in_cyc(cx, cell_of(aabb.left as int, cell), span_cells(aabb.left as int, aabb.right as int, cell, w), w)
}

/// Whether grid row `cy` is touched by the wrapped vertical extent of
/// `aabb`.
pub open spec fn covers_y(aabb: AxisAlignmentBoundingBox, cell: int, h: int, cy: int) -> bool {
    in_cyc(cy, cell_of(aabb.top as int, cell), span_cells(aabb.top as int, aabb.bottom as int, cell, h), h)
}

/// Whether some grid cell is touched by both boxes.
pub open spec fn share_cell(
    b1: AxisAlignmentBoundingBox,
    b2: AxisAlignmentBoundingBox,
    cell: int,
    w: int,
    h: int,
) -> bool {
    exists|cx: int, cy: int|
        0 <= cx < w && 0 <= cy < h && covers_x(b1, cell, w, cx) && covers_y(b1, cell, h, cy)
            && covers_x(b2, cell, w, cx) && covers_y(b2, cell, h, cy)
}

/// Whether the canonical coordinate `c` lies in the wrapped interval from
/// `lo` to `hi` on an axis of raw extent `l`: the plain interval when
/// `lo <= hi`, and its complementary wrap-around otherwise.
pub open spec fn in_wrapped_interval(c: int, lo: int, hi: int, l: int) -> bool {
    if lo <= hi {
        lo <= c <= hi
    } else {
        c >= lo || c <= hi
    }
}

/// A canonical coordinate falls in a cell inside the grid.
pub proof fn lemma_cell_in_grid(coord: int, cell: int, space: int)
    requires
        cell >= 1,
        space >= 1,
        0 <= coord < space * SCALE,
    ensures
        0 <= cell_of(coord, cell) < grid_dim(space, cell),
{
    vstd::arithmetic::div_mod::lemma_div_pos_is_pos(coord, cell);
    vstd::arithmetic::div_mod::lemma_div_is_ordered(coord, space * SCALE - 1, cell);
    vstd::arithmetic::div_mod::lemma_div_plus_one(space * SCALE - 1, cell);
    assert(cell + space * SCALE - 1 == space * SCALE + cell - 1);
}

/// Two offsets under one grid turn that land on the same wrapped cell are
/// equal.
pub proof fn lemma_cyc_injective(s: int, k1: int, k2: int, w: int)
    requires
        0 <= s,
        0 <= k1 < w,
        0 <= k2 < w,
        (s + k1) % w == (s + k2) % w,
    ensures
        k1 == k2,
{
    if k1 != k2 {
        vstd::arithmetic::div_mod::lemma_sub_mod_noop(s + k1, s + k2, w);
        vstd::arithmetic::div_mod::lemma_sub_mod_noop(s + k2, s + k1, w);
        vstd::arithmetic::div_mod::lemma_small_mod(0nat, w as nat);
        if k1 > k2 {
            vstd::arithmetic::div_mod::lemma_small_mod((k1 - k2) as nat, w as nat);
            assert(((s + k1) - (s + k2)) % w == ((s + k1) % w - (s + k2) % w) % w);
            assert((k1 - k2) % w == 0int % w);
        } else {
            vstd::arithmetic::div_mod::lemma_small_mod((k2 - k1) as nat, w as nat);
            assert(((s + k2) - (s + k1)) % w == ((s + k2) % w - (s + k1) % w) % w);
            assert((k2 - k1) % w == 0int % w);
        }
    }
}

/// A walk of one full grid turn reaches every cell.
pub proof fn lemma_in_cyc_full(v: int, s: int, w: int)
    requires
        0 <= v < w,
        0 <= s < w,
    ensures
        in_cyc(v, s, w, w),
{
    if v >= s {
        let k = v - s;
        vstd::arithmetic::div_mod::lemma_small_mod(v as nat, w as nat);
        assert(0 <= k < w && v == (s + k) % w);
    } else {
        let k = v + w - s;
        assert((s + k) == v + w);
        vstd::arithmetic::div_mod::lemma_mod_multiples_vanish(1, v, w);
        vstd::arithmetic::div_mod::lemma_small_mod(v as nat, w as nat);
        assert(0 <= k < w && v == (s + k) % w);
    }
}

/// Every cell whose coordinate range meets the wrapped interval of a box
/// edge pair is walked by the cell walk of that pair.
pub proof fn lemma_interval_covered(c: int, lo: int, hi: int, cell: int, space: int, w: int)
    requires
        cell >= 1,
        space >= 1,
        w == grid_dim(space, cell),
        0 <= c < space * SCALE,
        0 <= lo < space * SCALE,
        0 <= hi < space * SCALE,
        in_wrapped_interval(c, lo, hi, space * SCALE),
    ensures
        in_cyc(cell_of(c, cell), cell_of(lo, cell), span_cells(lo, hi, cell, w), w),
{
    let cc = cell_of(c, cell);
    let lc = cell_of(lo, cell);
    let hc = cell_of(hi, cell);
    let span = span_cells(lo, hi, cell, w);
    lemma_cell_in_grid(c, cell, space);
    lemma_cell_in_grid(lo, cell, space);
    lemma_cell_in_grid(hi, cell, space);
    if lo <= hi {
        vstd::arithmetic::div_mod::lemma_div_is_ordered(lo, c, cell);
        vstd::arithmetic::div_mod::lemma_div_is_ordered(c, hi, cell);
        assert(hc - lc + 1 <= w);
        let k = cc - lc;
        vstd::arithmetic::div_mod::lemma_small_mod(cc as nat, w as nat);
        assert(0 <= k < span && cc == (lc + k) % w);
    } else {
        if span == w {
            lemma_in_cyc_full(cc, lc, w);
        } else {
            if c >= lo {
                vstd::arithmetic::div_mod::lemma_div_is_ordered(lo, c, cell);
                let k = cc - lc;
                vstd::arithmetic::div_mod::lemma_small_mod(cc as nat, w as nat);
                assert(cc <= w - 1);
                assert(k <= w - 1 - lc);
                assert(span == hc + w - lc + 1);
                assert(0 <= k < span && cc == (lc + k) % w);
            } else {
                vstd::arithmetic::div_mod::lemma_div_is_ordered(c, hi, cell);
                let k = cc + w - lc;
                assert(lc + k == cc + w);
                vstd::arithmetic::div_mod::lemma_mod_multiples_vanish(1, cc, w);
                vstd::arithmetic::div_mod::lemma_small_mod(cc as nat, w as nat);
                assert(k <= hc + w - lc);
                assert(0 <= k < span && cc == (lc + k) % w);
            }
        }
    }
}

/// Walk offsets already processed when the column offset is `kx` and the row
/// offset within that column is `ky`.
spec fn walk_processed(a: int, b: int, kx: int, ky: int, y_len: int) -> bool {
    0 <= a && 0 <= b < y_len && (a < kx || (a == kx && b < ky))
}

/// Flat cell index reached by walk offsets `(a, b)` from start cells
/// `(sx, sy)`.
spec fn walk_cell_index(sx: int, sy: int, a: int, b: int, w: int, h: int) -> int {
    ((sy + b) % h) * w + ((sx + a) % w)
}

/// Whether flat cell `ci` has been visited by a processed walk offset.
spec fn is_walked(ci: int, sx: int, sy: int, kx: int, ky: int, y_len: int, w: int, h: int) -> bool {
    exists|a: int, b: int|
        walk_processed(a, b, kx, ky, y_len) && walk_cell_index(sx, sy, a, b, w, h) == ci
}

/// Distinct cell coordinates give distinct flat indices.
proof fn lemma_cell_index_injective(cx1: int, cy1: int, cx2: int, cy2: int, w: int)
    requires
        0 <= cx1 < w,
        0 <= cx2 < w,
        0 <= cy1,
        0 <= cy2,
        cy1 * w + cx1 == cy2 * w + cx2,
    ensures
        cx1 == cx2,
        cy1 == cy2,
{
    assert(cx1 == cx2 && cy1 == cy2) by (nonlinear_arith)
        requires
            0 <= cx1 < w,
            0 <= cx2 < w,
            0 <= cy1,
            0 <= cy2,
            cy1 * w + cx1 == cy2 * w + cx2,
    ;
}

/// A flat cell index decomposes back into its column and row.
proof fn lemma_flat_index_decompose(cx: int, cy: int, w: int)
    requires
        0 <= cx < w,
        0 <= cy,
    ensures
        (cy * w + cx) % w == cx,
        (cy * w + cx) / w == cy,
{
    vstd::arithmetic::div_mod::lemma_fundamental_div_mod_converse(cy * w + cx, w, cy, cx);
}

/// A walked flat index lies inside the grid.
proof fn lemma_walk_index_in_range(sx: int, sy: int, a: int, b: int, w: int, h: int)
    requires
        w >= 1,
        h >= 1,
    ensures
        0 <= walk_cell_index(sx, sy, a, b, w, h) < w * h,
{
    vstd::arithmetic::div_mod::lemma_mod_bound(sx + a, w);
    vstd::arithmetic::div_mod::lemma_mod_bound(sy + b, h);
    let cx = (sx + a) % w;
    let cy = (sy + b) % h;
    assert(0 <= cy * w + cx < w * h) by (nonlinear_arith)
        requires
            0 <= cx < w,
            0 <= cy < h,
    ;
}

/// Distinct walk offsets within one insertion visit distinct cells.
proof fn lemma_walk_distinct(
    sx: int,
    sy: int,
    a: int,
    b: int,
    kx: int,
    ky: int,
    x_len: int,
    y_len: int,
    w: int,
    h: int,
)
    requires
        0 <= sx,
        0 <= sy,
        0 <= a < x_len,
        0 <= b < y_len,
        0 <= kx < x_len,
        0 <= ky < y_len,
        x_len <= w,
        y_len <= h,
        !(a == kx && b == ky),
    ensures
        walk_cell_index(sx, sy, a, b, w, h) != walk_cell_index(sx, sy, kx, ky, w, h),
{
    vstd::arithmetic::div_mod::lemma_mod_bound(sx + a, w);
    vstd::arithmetic::div_mod::lemma_mod_bound(sy + b, h);
    vstd::arithmetic::div_mod::lemma_mod_bound(sx + kx, w);
    vstd::arithmetic::div_mod::lemma_mod_bound(sy + ky, h);
    if walk_cell_index(sx, sy, a, b, w, h) == walk_cell_index(sx, sy, kx, ky, w, h) {
        lemma_cell_index_injective(
            (sx + a) % w,
            (sy + b) % h,
            (sx + kx) % w,
            (sy + ky) % h,
            w,
        );
        lemma_cyc_injective(sx, a, kx, w);
        lemma_cyc_injective(sy, b, ky, h);
    }
}

/// Whether `x` is the id of one of the recorded insertions.
pub open spec fn id_is_inserted(recs: Seq<(usize, AxisAlignmentBoundingBox)>, x: usize) -> bool {
    exists|i: int| 0 <= i < recs.len() && (#[trigger] recs[i]).0 == x
}

/// Whether `x` is the id of a recorded insertion whose box touches the grid
/// cell with flat index `ci`.
pub open spec fn id_occupies(
    recs: Seq<(usize, AxisAlignmentBoundingBox)>,
    x: usize,
    ci: int,
    cell: int,
    w: int,
    h: int,
) -> bool {
    exists|i: int|
        0 <= i < recs.len() && (#[trigger] recs[i]).0 == x && covers_x(recs[i].1, cell, w, ci % w)
            && covers_y(recs[i].1, cell, h, ci / w)
}

/// Whether a pair emitted by one insertion call names the inserting id first
/// and, second, the id of an earlier insertion whose box shares a grid cell
/// with the inserted box.
pub open spec fn new_pair_shares(
    pr: (usize, usize),
    id: usize,
    aabb: AxisAlignmentBoundingBox,
    recs: Seq<(usize, AxisAlignmentBoundingBox)>,
    cell: int,
    w: int,
    h: int,
) -> bool {
    &&& pr.0 == id
    &&& exists|k: int|
        0 <= k < recs.len() && (#[trigger] recs[k]).0 == pr.1 && share_cell(
            recs[k].1,
            aabb,
            cell,
            w,
            h,
        )
}

/// Whether a pair names two distinct recorded insertions, the later first.
pub open spec fn pair_is_sound(
    recs: Seq<(usize, AxisAlignmentBoundingBox)>,
    pr: (usize, usize),
) -> bool {
    exists|i: int, j: int| 0 <= i < j < recs.len() && pr == (
    (#[trigger] recs[j]).0,
    (#[trigger] recs[i]).0,
    )
}

/// Whether two wrapped boxes overlap under the toroidal metric: their
/// wrapped extents meet on both axes, wraparound included.
pub open spec fn tor_boxes_overlap(
    b1: AxisAlignmentBoundingBox,
    b2: AxisAlignmentBoundingBox,
    wp: int,
    hp: int,
) -> bool {
    &&& exists|c: int|
        0 <= c < wp && #[trigger] in_wrapped_interval(c, b1.left as int, b1.right as int, wp)
            && in_wrapped_interval(c, b2.left as int, b2.right as int, wp)
    &&& exists|c: int|
        0 <= c < hp && #[trigger] in_wrapped_interval(c, b1.top as int, b1.bottom as int, hp)
            && in_wrapped_interval(c, b2.top as int, b2.bottom as int, hp)
}

/// Broad-phase completeness: any two insertions whose wrapped bounding boxes
/// overlap under the toroidal metric, wraparound included, appear among the
/// accumulated candidate pairs, the later insertion's id first.
pub proof fn lemma_broad_phase_complete(t: SpatialTable, i: int, j: int)
    requires
        t.wf(),
        0 <= i < j < t.inserted@.len(),
        tor_boxes_overlap(
            t.inserted@[i].1,
            t.inserted@[j].1,
            period(t.space_width as int),
            period(t.space_height as int),
        ),
    ensures
        t.pairs@.contains((t.inserted@[j].0, t.inserted@[i].0)),
{
    let b1 = t.inserted@[i].1;
    let b2 = t.inserted@[j].1;
    let ce = t.cell_size as int;
    let wi = t.width as int;
    let hi = t.height as int;
    let wp = period(t.space_width as int);
    let hp = period(t.space_height as int);
    let cxc = choose|c: int|
        0 <= c < wp && #[trigger] in_wrapped_interval(c, b1.left as int, b1.right as int, wp)
            && in_wrapped_interval(c, b2.left as int, b2.right as int, wp);
    let cyc = choose|c: int|
        0 <= c < hp && #[trigger] in_wrapped_interval(c, b1.top as int, b1.bottom as int, hp)
            && in_wrapped_interval(c, b2.top as int, b2.bottom as int, hp);
    lemma_cell_in_grid(cxc, ce, t.space_width as int);
    lemma_cell_in_grid(cyc, ce, t.space_height as int);
    lemma_interval_covered(cxc, b1.left as int, b1.right as int, ce, t.space_width as int, wi);
    lemma_interval_covered(cxc, b2.left as int, b2.right as int, ce, t.space_width as int, wi);
    lemma_interval_covered(cyc, b1.top as int, b1.bottom as int, ce, t.space_height as int, hi);
    lemma_interval_covered(cyc, b2.top as int, b2.bottom as int, ce, t.space_height as int, hi);
    let cx = cell_of(cxc, ce);
    let cy = cell_of(cyc, ce);
    assert(0 <= cx < wi && 0 <= cy < hi && covers_x(b1, ce, wi, cx) && covers_y(b1, ce, hi, cy)
        && covers_x(b2, ce, wi, cx) && covers_y(b2, ce, hi, cy));
    assert(share_cell(b1, b2, ce, wi, hi));
}

/// Each candidate pair is generated at most once per step, in either order:
/// downstream contact generation never sees one body pair twice.
pub proof fn lemma_pair_generated_once(t: SpatialTable, p1: int, p2: int)
    requires
        t.wf(),
        0 <= p1 < p2 < t.pairs@.len(),
    ensures
        t.pairs@[p1] != t.pairs@[p2],
        t.pairs@[p1] != ((t.pairs@[p2]).1, (t.pairs@[p2]).0),
{
    let recs = t.inserted@;
    assert(pair_is_sound(recs, t.pairs@[p1]));
    assert(pair_is_sound(recs, t.pairs@[p2]));
    if t.pairs@[p1] == ((t.pairs@[p2]).1, (t.pairs@[p2]).0) {
        let (i1, j1) = choose|i1: int, j1: int|
            0 <= i1 < j1 < recs.len() && t.pairs@[p1] == (
            (#[trigger] recs[j1]).0,
            (#[trigger] recs[i1]).0,
            );
        let (i2, j2) = choose|i2: int, j2: int|
            0 <= i2 < j2 < recs.len() && t.pairs@[p2] == (
            (#[trigger] recs[j2]).0,
            (#[trigger] recs[i2]).0,
            );
        assert(recs[j1].0 == recs[i2].0);
        assert(recs[i1].0 == recs[j2].0);
        assert(j1 == i2 && i1 == j2);
        assert(false);
    }
}

/// No entry of the pair list repeats.
pub open spec fn pairs_distinct(pairs: Seq<(usize, usize)>) -> bool {
    forall|p1: int, p2: int|
        0 <= p1 < p2 < pairs.len() ==> #[trigger] pairs[p1] != #[trigger] pairs[p2]
}

/// Every pair appended since `from` has its second component recorded in the
/// dedup scratch.
spec fn new_pairs_checked(pairs: Seq<(usize, usize)>, checked: Seq<usize>, from: int) -> bool {
    forall|p: int| from <= p < pairs.len() ==> checked.contains((#[trigger] pairs[p]).1)
}

/// A pair appended during the current insertion: the new id first, some
/// earlier insertion's id second.
spec fn new_pair_ok(pr: (usize, usize), id: usize, recs: Seq<(usize, AxisAlignmentBoundingBox)>) -> bool {
    exists|i: int| 0 <= i < recs.len() && pr == (id, (#[trigger] recs[i]).0)
}

/// The cell contents during an insertion walk: every visited cell has the new
/// id appended, every other cell is untouched.
spec fn cells_state_ok(
    cells: Seq<Vec<usize>>,
    old_cells: Seq<Vec<usize>>,
    id: usize,
    sx: int,
    sy: int,
    kx: int,
    ky: int,
    y_len: int,
    w: int,
    h: int,
) -> bool {
    &&& cells.len() == old_cells.len()
    &&& forall|ci: int|
        0 <= ci < cells.len() ==> (#[trigger] cells[ci])@ == (if is_walked(
            ci,
            sx,
            sy,
            kx,
            ky,
            y_len,
            w,
            h,
        ) {
            old_cells[ci]@.push(id)
        } else {
            old_cells[ci]@
        })
}

/// Every id stored in an already-visited cell has been recorded in the
/// dedup scratch.
spec fn checked_covers(
    checked: Seq<usize>,
    old_cells: Seq<Vec<usize>>,
    sx: int,
    sy: int,
    kx: int,
    ky: int,
    y_len: int,
    w: int,
    h: int,
) -> bool {
    forall|a: int, b: int, j: int|
        walk_processed(a, b, kx, ky, y_len) && 0 <= j < old_cells[walk_cell_index(
            sx,
            sy,
            a,
            b,
            w,
            h,
        )]@.len() ==> checked.contains(
            #[trigger] old_cells[walk_cell_index(sx, sy, a, b, w, h)]@[j],
        )
}

/// Every id in the dedup scratch has been emitted as a candidate pair with
/// the new id.
spec fn checked_paired(checked: Seq<usize>, pairs: Seq<(usize, usize)>, id: usize) -> bool {
    forall|q: int| 0 <= q < checked.len() ==> pairs.contains((id, #[trigger] checked[q]))
}


/// After a full insertion walk, the table invariant holds for the extended
/// insertion record.
proof fn lemma_insert_wf(
    pre: SpatialTable,
    post: SpatialTable,
    id: usize,
    aabb: AxisAlignmentBoundingBox,
    sx: int,
    sy: int,
    x_length: int,
    y_length: int,
    checked: Seq<usize>,
    old_cells: Seq<Vec<usize>>,
    old_pairs: Seq<(usize, usize)>,
    recs: Seq<(usize, AxisAlignmentBoundingBox)>,
)
    requires
        pre.wf(),
        pre.box_valid(aabb),
        forall|i: int| 0 <= i < pre.inserted@.len() ==> (#[trigger] pre.inserted@[i]).0 != id,
        old_cells == pre.cells@,
        old_pairs == pre.pairs@,
        recs == pre.inserted@,
        post.space_width == pre.space_width,
        post.space_height == pre.space_height,
        post.cell_size == pre.cell_size,
        post.width == pre.width,
        post.height == pre.height,
        post.inserted@ == recs.push((id, aabb)),
        sx == cell_of(aabb.left as int, pre.cell_size as int),
        sy == cell_of(aabb.top as int, pre.cell_size as int),
        x_length == span_cells(
            aabb.left as int,
            aabb.right as int,
            pre.cell_size as int,
            pre.width as int,
        ),
        y_length == span_cells(
            aabb.top as int,
            aabb.bottom as int,
            pre.cell_size as int,
            pre.height as int,
        ),
        cells_state_ok(
            post.cells@,
            old_cells,
            id,
            sx,
            sy,
            x_length,
            0,
            y_length,
            pre.width as int,
            pre.height as int,
        ),
        post.pairs@.len() >= old_pairs.len(),
        forall|p: int| 0 <= p < old_pairs.len() ==> post.pairs@[p] == old_pairs[p],
        forall|p: int|
            old_pairs.len() <= p < post.pairs@.len() ==> new_pair_ok(
                #[trigger] post.pairs@[p],
                id,
                recs,
            ),
        checked_paired(checked, post.pairs@, id),
        pairs_distinct(post.pairs@),
        checked_covers(
            checked,
            old_cells,
            sx,
            sy,
            x_length,
            0,
            y_length,
            pre.width as int,
            pre.height as int,
        ),
    ensures
        post.wf(),
{
            let ce = pre.cell_size as int;
            let wi = pre.width as int;
            let hi = pre.height as int;
            assert(post.inserted@ == recs.push((id, aabb)));
            // A cell touched by the new box was walked, so it now holds `id`.
            assert forall|cx: int, cy: int|
                0 <= cx < wi && 0 <= cy < hi && post.covers(aabb, cx, cy) implies post.cells@[post.cell_index(
                cx,
                cy,
            )]@.contains(id) by {
                let a = choose|a: int|
                    0 <= a < span_cells(aabb.left as int, aabb.right as int, ce, wi) && cx
                        == #[trigger] ((cell_of(aabb.left as int, ce) + a) % wi);
                let b = choose|b: int|
                    0 <= b < span_cells(aabb.top as int, aabb.bottom as int, ce, hi) && cy
                        == #[trigger] ((cell_of(aabb.top as int, ce) + b) % hi);
                assert(walk_processed(a, b, x_length, 0, y_length));
                assert(walk_cell_index(sx, sy, a, b, wi, hi) == post.cell_index(cx, cy));
                assert(is_walked(
                    post.cell_index(cx, cy),
                    sx,
                    sy,
                    x_length,
                    0,
                    y_length,
                    wi,
                    hi,
                ));
                lemma_walk_index_in_range(sx, sy, a, b, wi, hi);
                assert(post.cells@[post.cell_index(cx, cy)]@ == old_cells[post.cell_index(cx, cy)]@.push(
                    id,
                ));
                assert(post.cells@[post.cell_index(cx, cy)]@.last() == id);
            }
            // Coverage: every insertion is stored in every cell its box
            // touches.
            assert forall|i: int, cx: int, cy: int|
                0 <= i < post.inserted@.len() && 0 <= cx < wi && 0 <= cy < hi && post.covers(
                    post.inserted@[i].1,
                    cx,
                    cy,
                ) implies post.cells@[post.cell_index(cx, cy)]@.contains(post.inserted@[i].0) by {
                if i < recs.len() {
                    assert(0 <= post.cell_index(cx, cy) < wi * hi) by (nonlinear_arith)
                        requires
                            0 <= cx < wi,
                            0 <= cy < hi,
                            post.cell_index(cx, cy) == cy * wi + cx,
                    ;
                    assert(post.cells@.len() == wi * hi);
                    assert(pre.covers(pre.inserted@[i].1, cx, cy));
                    assert(pre.cells@[pre.cell_index(cx, cy)]@.contains(
                        pre.inserted@[i].0,
                    ));
                    assert(old_cells[post.cell_index(cx, cy)]@.contains(recs[i].0));
                    let jj = choose|jj: int|
                        0 <= jj < old_cells[post.cell_index(cx, cy)]@.len() && old_cells[post.cell_index(
                            cx,
                            cy,
                        )]@[jj] == recs[i].0;
                    assert(post.cells@[post.cell_index(cx, cy)]@[jj] == recs[i].0);
                } else {
                    assert(post.inserted@[i] == (id, aabb));
                }
            }
            // Every stored id comes from an insertion.
            assert forall|ci: int, jj: int|
                0 <= ci < post.cells@.len() && 0 <= jj < post.cells@[ci]@.len() implies id_is_inserted(
                post.inserted@,
                #[trigger] post.cells@[ci]@[jj],
            ) by {
                if post.cells@[ci]@ == old_cells[ci]@.push(id) && jj == old_cells[ci]@.len() {
                    assert((post.inserted@[recs.len() as int]).0 == id);
                } else {
                    assert(post.cells@[ci]@[jj] == old_cells[ci]@[jj]);
                    assert(pre.cells@[ci]@[jj] == post.cells@[ci]@[jj]);
                    assert(id_is_inserted(pre.inserted@, pre.cells@[ci]@[jj]));
                    let i = choose|i: int|
                        0 <= i < pre.inserted@.len() && (#[trigger] pre.inserted@[i]).0
                            == pre.cells@[ci]@[jj];
                    assert((post.inserted@[i]).0 == post.cells@[ci]@[jj]);
                }
            }
            // Every stored id sits in a cell its own box touches.
            assert forall|ci: int, jj: int|
                0 <= ci < post.cells@.len() && 0 <= jj < post.cells@[ci]@.len() implies id_occupies(
                post.inserted@,
                #[trigger] post.cells@[ci]@[jj],
                ci,
                post.cell_size as int,
                post.width as int,
                post.height as int,
            ) by {
                let ce = pre.cell_size as int;
                let wi = pre.width as int;
                let hi = pre.height as int;
                if post.cells@[ci]@ == old_cells[ci]@.push(id) && jj == old_cells[ci]@.len() {
                    assert(is_walked(ci, sx, sy, x_length, 0, y_length, wi, hi));
                    let (a, b) = choose|a: int, b: int|
                        walk_processed(a, b, x_length, 0, y_length) && walk_cell_index(
                            sx,
                            sy,
                            a,
                            b,
                            wi,
                            hi,
                        ) == ci;
                    let cx = (sx + a) % wi;
                    let cy = (sy + b) % hi;
                    vstd::arithmetic::div_mod::lemma_mod_bound(sx + a, wi);
                    vstd::arithmetic::div_mod::lemma_mod_bound(sy + b, hi);
                    lemma_flat_index_decompose(cx, cy, wi);
                    assert(ci % wi == cx && ci / wi == cy);
                    assert(0 <= a < x_length && 0 <= b < y_length);
                    assert(covers_x(aabb, ce, wi, cx));
                    assert(covers_y(aabb, ce, hi, cy));
                    let k = recs.len() as int;
                    assert((post.inserted@[k]).0 == id && post.inserted@[k].1 == aabb);
                    assert(id_occupies(post.inserted@, id, ci, ce, wi, hi));
                } else {
                    assert(post.cells@[ci]@[jj] == old_cells[ci]@[jj]);
                    assert(pre.cells@[ci]@[jj] == post.cells@[ci]@[jj]);
                    assert(id_occupies(pre.inserted@, pre.cells@[ci]@[jj], ci, ce, wi, hi));
                    let k = choose|k: int|
                        0 <= k < pre.inserted@.len() && (#[trigger] pre.inserted@[k]).0
                            == pre.cells@[ci]@[jj] && covers_x(pre.inserted@[k].1, ce, wi, ci % wi)
                            && covers_y(pre.inserted@[k].1, ce, hi, ci / wi);
                    assert((post.inserted@[k]).0 == post.cells@[ci]@[jj]);
                    assert(covers_x(post.inserted@[k].1, ce, wi, ci % wi));
                }
            }
            // Completeness: the new insertion is paired with every earlier
            // one whose box shares a cell with it.
            assert forall|i: int, j: int|
                0 <= i < j < post.inserted@.len() && share_cell(
                    post.inserted@[i].1,
                    post.inserted@[j].1,
                    ce,
                    wi,
                    hi,
                ) implies post.pairs@.contains((post.inserted@[j].0, post.inserted@[i].0)) by {
                if j < recs.len() {
                    assert(share_cell(
                        pre.inserted@[i].1,
                        pre.inserted@[j].1,
                        pre.cell_size as int,
                        pre.width as int,
                        pre.height as int,
                    ));
                    assert(pre.pairs@.contains(
                        (pre.inserted@[j].0, pre.inserted@[i].0),
                    ));
                    let p = choose|p: int|
                        0 <= p < old_pairs.len() && old_pairs[p] == (recs[j].0, recs[i].0);
                    assert(post.pairs@[p] == (recs[j].0, recs[i].0));
                } else {
                    let (cx, cy) = choose|cx: int, cy: int|
                        0 <= cx < wi && 0 <= cy < hi && covers_x(post.inserted@[i].1, ce, wi, cx)
                            && covers_y(post.inserted@[i].1, ce, hi, cy) && covers_x(
                            post.inserted@[j].1,
                            ce,
                            wi,
                            cx,
                        ) && covers_y(post.inserted@[j].1, ce, hi, cy);
                    let a = choose|a: int|
                        0 <= a < span_cells(aabb.left as int, aabb.right as int, ce, wi) && cx
                            == #[trigger] ((cell_of(aabb.left as int, ce) + a) % wi);
                    let b = choose|b: int|
                        0 <= b < span_cells(aabb.top as int, aabb.bottom as int, ce, hi) && cy
                            == #[trigger] ((cell_of(aabb.top as int, ce) + b) % hi);
                    assert(walk_processed(a, b, x_length, 0, y_length));
                    lemma_walk_index_in_range(sx, sy, a, b, wi, hi);
                    assert(walk_cell_index(sx, sy, a, b, wi, hi) == post.cell_index(cx, cy));
                    assert(pre.covers(pre.inserted@[i].1, cx, cy));
                    assert(pre.cells@[pre.cell_index(cx, cy)]@.contains(
                        pre.inserted@[i].0,
                    ));
                    assert(old_cells[post.cell_index(cx, cy)]@.contains(recs[i].0));
                    let jj = choose|jj: int|
                        0 <= jj < old_cells[post.cell_index(cx, cy)]@.len() && old_cells[post.cell_index(
                            cx,
                            cy,
                        )]@[jj] == recs[i].0;
                    assert(old_cells[walk_cell_index(sx, sy, a, b, wi, hi)]@[jj] == recs[i].0);
                    assert(checked.contains(recs[i].0));
                    let qi = choose|qi: int|
                        0 <= qi < checked.len() && checked[qi] == recs[i].0;
                    assert(post.pairs@.contains((id, checked[qi])));
                    assert(post.pairs@.contains((post.inserted@[j].0, post.inserted@[i].0)));
                }
            }
            // Soundness: every pair names two distinct insertions, later id
            // first.
            assert forall|p: int| 0 <= p < post.pairs@.len() implies pair_is_sound(
                post.inserted@,
                #[trigger] post.pairs@[p],
            ) by {
                if p < old_pairs.len() {
                    assert(pre.pairs@[p] == old_pairs[p]);
                    assert(pair_is_sound(pre.inserted@, pre.pairs@[p]));
                    let (i, j) = choose|i: int, j: int|
                        0 <= i < j < pre.inserted@.len() && pre.pairs@[p] == (
                        (#[trigger] pre.inserted@[j]).0,
                        (#[trigger] pre.inserted@[i]).0,
                        );
                    assert(post.pairs@[p] == ((post.inserted@[j]).0, (post.inserted@[i]).0));
                } else {
                    assert(new_pair_ok(post.pairs@[p], id, recs));
                    let i = choose|i: int|
                        0 <= i < recs.len() && post.pairs@[p] == (id, (#[trigger] recs[i]).0);
                    assert(post.pairs@[p] == (
                        (post.inserted@[recs.len() as int]).0,
                        (post.inserted@[i]).0,
                    ));
                }
            }
            // Boxes stay canonical and ids distinct.
            assert forall|i: int|
                0 <= i < post.inserted@.len() implies post.box_valid(#[trigger] post.inserted@[i].1) by {
                if i < recs.len() {
                    assert(pre.box_valid(pre.inserted@[i].1));
                } else {
                    assert(post.inserted@[i].1 == aabb);
                }
            }
            assert forall|i: int, j: int|
                0 <= i < j < post.inserted@.len() implies (#[trigger] post.inserted@[i]).0 != (
            #[trigger] post.inserted@[j]).0 by {
                if j < recs.len() {
                    assert(pre.inserted@[i].0 != pre.inserted@[j].0);
                } else {
                    assert(post.inserted@[j].0 == id);
                    assert(pre.inserted@[i].0 != id);
                }
            }
            assert(post.cells@.len() == (post.width as int) * (post.height as int));
            assert(post.dims_ok());

}

/// A uniform grid over the toroidal domain, rebuilt once per step, that
/// accumulates broad-phase candidate pairs as boxes are inserted.
pub struct SpatialTable {
    pub space_width: u32,
    pub space_height: u32,
    pub cell_size: i64,
    pub width: u32,
    pub height: u32,
    pub cells: Vec<Vec<usize>>,
    pub pairs: Vec<(usize, usize)>,
    /// Transient per-insertion dedup scratch, kept to avoid reallocation.
    pub checked: Vec<usize>,
    pub inserted: Ghost<Seq<(usize, AxisAlignmentBoundingBox)>>,
}

impl SpatialTable {
    /// Whether a wrapped box is canonical for this table's domain.
    pub open spec fn box_valid(self, aabb: AxisAlignmentBoundingBox) -> bool {
        &&& 0 <= aabb.left < period(self.space_width as int)
        &&& 0 <= aabb.right < period(self.space_width as int)
        &&& 0 <= aabb.top < period(self.space_height as int)
        &&& 0 <= aabb.bottom < period(self.space_height as int)
    }

    /// Whether the box of insertion `i` touches grid cell `(cx, cy)`.
    pub open spec fn covers(self, aabb: AxisAlignmentBoundingBox, cx: int, cy: int) -> bool {
        covers_x(aabb, self.cell_size as int, self.width as int, cx) && covers_y(
            aabb,
            self.cell_size as int,
            self.height as int,
            cy,
        )
    }

    /// Index of grid cell `(cx, cy)` in the flat cell vector.
    pub open spec fn cell_index(self, cx: int, cy: int) -> int {
        cy * self.width + cx
    }

    /// The grid dimensions and backing storage are consistent.
    pub open spec fn dims_ok(self) -> bool {
        &&& self.space_width >= 1
        &&& self.space_height >= 1
        &&& self.cell_size >= 1
        &&& self.width as int == grid_dim(self.space_width as int, self.cell_size as int)
        &&& self.height as int == grid_dim(self.space_height as int, self.cell_size as int)
        &&& self.width >= 1
        &&& self.height >= 1
        &&& self.cells@.len() == (self.width as int) * (self.height as int)
    }

    /// The cells and the pair list faithfully reflect the boxes inserted
    /// since the last clear:
    /// every insertion's id is stored in every cell its box touches; every
    /// stored id comes from an insertion; boxes are canonical and ids
    /// distinct; and two insertions whose boxes touch a common cell appear
    /// in the pair list, later id first.
    pub open spec fn contents_ok(self) -> bool {
        &&& forall|i: int, cx: int, cy: int|
            0 <= i < self.inserted@.len() && 0 <= cx < self.width && 0 <= cy < self.height
                && self.covers(self.inserted@[i].1, cx, cy) ==> self.cells@[self.cell_index(
                cx,
                cy,
            )]@.contains(self.inserted@[i].0)
        &&& forall|ci: int, j: int|
            0 <= ci < self.cells@.len() && 0 <= j < self.cells@[ci]@.len() ==> id_is_inserted(
                self.inserted@,
                #[trigger] self.cells@[ci]@[j],
            )
        &&& forall|ci: int, j: int|
            0 <= ci < self.cells@.len() && 0 <= j < self.cells@[ci]@.len() ==> id_occupies(
                self.inserted@,
                #[trigger] self.cells@[ci]@[j],
                ci,
                self.cell_size as int,
                self.width as int,
                self.height as int,
            )
        &&& forall|i: int|
            0 <= i < self.inserted@.len() ==> self.box_valid(#[trigger] self.inserted@[i].1)
        &&& forall|i: int, j: int|
            0 <= i < j < self.inserted@.len() ==> (#[trigger] self.inserted@[i]).0 != (
            #[trigger] self.inserted@[j]).0
        &&& forall|i: int, j: int|
            0 <= i < j < self.inserted@.len() && share_cell(
                self.inserted@[i].1,
                self.inserted@[j].1,
                self.cell_size as int,
                self.width as int,
                self.height as int,
            ) ==> self.pairs@.contains(
                ((#[trigger] self.inserted@[j]).0, (#[trigger] self.inserted@[i]).0),
            )
        &&& forall|p: int|
            0 <= p < self.pairs@.len() ==> pair_is_sound(self.inserted@, #[trigger] self.pairs@[p])
        &&& pairs_distinct(self.pairs@)
    }

    /// The full invariant of the table.
    pub open spec fn wf(self) -> bool {
        self.dims_ok() && self.contents_ok()
    }

    /// A table over a `space_width` by `space_height` domain with grid cells
    /// of raw size `cell_size`.
    pub fn new(space_width: u32, space_height: u32, cell_size: i64) -> (r: SpatialTable)
        requires
            space_width >= 1,
            space_height >= 1,
            cell_size >= 1,
            grid_dim(space_width as int, cell_size as int) <= u32::MAX,
            grid_dim(space_height as int, cell_size as int) <= u32::MAX,
            grid_dim(space_width as int, cell_size as int) * grid_dim(
                space_height as int,
                cell_size as int,
            ) <= usize::MAX,
        ensures
            r.wf(),
            r.space_width == space_width,
            r.space_height == space_height,
            r.cell_size == cell_size,
            r.inserted@ == Seq::<(usize, AxisAlignmentBoundingBox)>::empty(),
            r.pairs@ == Seq::<(usize, usize)>::empty(),
    {
        proof {
            vstd::arithmetic::div_mod::lemma_div_pos_is_pos(
                space_width as int * SCALE + cell_size - 1,
                cell_size as int,
            );
            vstd::arithmetic::div_mod::lemma_div_pos_is_pos(
                space_height as int * SCALE + cell_size - 1,
                cell_size as int,
            );
            assert(grid_dim(space_width as int, cell_size as int) >= 1 && grid_dim(
                space_height as int,
                cell_size as int,
            ) >= 1) by {
                assert(space_width as int * SCALE >= 1024 && space_height as int * SCALE >= 1024)
                    by (nonlinear_arith)
                    requires
                        space_width >= 1 && space_height >= 1 && SCALE == 1024,
                ;
                vstd::arithmetic::div_mod::lemma_div_by_multiple(1, cell_size as int);
                vstd::arithmetic::div_mod::lemma_div_is_ordered(
                    cell_size as int,
                    space_width as int * SCALE + cell_size - 1,
                    cell_size as int,
                );
                vstd::arithmetic::div_mod::lemma_div_is_ordered(
                    cell_size as int,
                    space_height as int * SCALE + cell_size - 1,
                    cell_size as int,
                );
            }
        }
        let wsum: u64 = space_width as u64 * (SCALE as u64) + (cell_size - 1) as u64;
        let hsum: u64 = space_height as u64 * (SCALE as u64) + (cell_size - 1) as u64;
        let width: u32 = (wsum / cell_size as u64) as u32;
        let height: u32 = (hsum / cell_size as u64) as u32;
        let count: usize = width as usize * height as usize;
        let mut cells: Vec<Vec<usize>> = Vec::new();
        let mut i: usize = 0;
        while i < count
            invariant
                i <= count,
                cells@.len() == i,
                forall|ci: int| 0 <= ci < i ==> #[trigger] cells@[ci]@.len() == 0,
            decreases count - i,
        {
            cells.push(Vec::new());
            i += 1;
        }
        SpatialTable {
            space_width,
            space_height,
            cell_size,
            width,
            height,
            cells,
            pairs: Vec::new(),
            checked: Vec::new(),
            inserted: Ghost(Seq::empty()),
        }
    }

    /// The candidate pairs accumulated since the last clear.
    pub fn pairs(&self) -> (r: &Vec<(usize, usize)>)
        ensures
            r == self.pairs,
    {
        &self.pairs
    }

    /// The grid cell holding a canonical raw coordinate.
    pub fn transform_coordinate(&self, coordinate: i64) -> (r: u32)
        requires
            self.dims_ok(),
            0 <= coordinate,
            cell_of(coordinate as int, self.cell_size as int) <= u32::MAX,
        ensures
            r as int == cell_of(coordinate as int, self.cell_size as int),
    {
        (coordinate as u64 / self.cell_size as u64) as u32
    }

    /// Empty every cell and the accumulated pair list, forgetting all
    /// insertions.
    pub fn clear(&mut self)
        requires
            old(self).dims_ok(),
        ensures
            final(self).wf(),
            final(self).inserted@ == Seq::<(usize, AxisAlignmentBoundingBox)>::empty(),
            final(self).pairs@ == Seq::<(usize, usize)>::empty(),
            final(self).space_width == old(self).space_width,
            final(self).space_height == old(self).space_height,
            final(self).cell_size == old(self).cell_size,
            final(self).width == old(self).width,
            final(self).height == old(self).height,
    {
        let n: usize = self.cells.len();
        let mut i: usize = 0;
        while i < n
            invariant
                i <= n,
                self.cells@.len() == n,
                forall|ci: int| 0 <= ci < i ==> #[trigger] self.cells@[ci]@.len() == 0,
                self.space_width == old(self).space_width,
                self.space_height == old(self).space_height,
                self.cell_size == old(self).cell_size,
                self.width == old(self).width,
                self.height == old(self).height,
                self.pairs == old(self).pairs,
                self.inserted == old(self).inserted,
            decreases n - i,
        {
            self.cells[i].clear();
            i += 1;
        }
        self.pairs.clear();
        self.inserted = Ghost(Seq::empty());
    }

    /// Record the wrapped bounding box of body `id`: every touched cell
    /// receives `id`, and one candidate pair is emitted for every id already
    /// stored in a touched cell, deduplicated within this call.
    #[verifier::loop_isolation(false)]
    #[verifier::rlimit(100)]
    pub fn insert(&mut self, id: usize, aabb: &AxisAlignmentBoundingBox)
        requires
            old(self).wf(),
            old(self).box_valid(*aabb),
            forall|i: int|
                0 <= i < old(self).inserted@.len() ==> (#[trigger] old(self).inserted@[i]).0
                    != id,
        ensures
            final(self).wf(),
            final(self).inserted@ == old(self).inserted@.push((id, *aabb)),
            final(self).space_width == old(self).space_width,
            final(self).space_height == old(self).space_height,
            final(self).cell_size == old(self).cell_size,
            final(self).width == old(self).width,
            final(self).height == old(self).height,
            final(self).pairs@.len() >= old(self).pairs@.len(),
            forall|p: int|
                0 <= p < old(self).pairs@.len() ==> final(self).pairs@[p] == old(self).pairs@[p],
            forall|p: int|
                old(self).pairs@.len() <= p < final(self).pairs@.len() ==> new_pair_shares(
                    #[trigger] final(self).pairs@[p],
                    id,
                    *aabb,
                    old(self).inserted@,
                    old(self).cell_size as int,
                    old(self).width as int,
                    old(self).height as int,
                ),
    {
        let cell = self.cell_size;
        let w: u32 = self.width;
        let h: u32 = self.height;
        proof {
            lemma_cell_in_grid(aabb.left as int, cell as int, self.space_width as int);
            lemma_cell_in_grid(aabb.right as int, cell as int, self.space_width as int);
            lemma_cell_in_grid(aabb.top as int, cell as int, self.space_height as int);
            lemma_cell_in_grid(aabb.bottom as int, cell as int, self.space_height as int);
        }
        let left_c: u32 = self.transform_coordinate(aabb.left());
        let right_c: u32 = self.transform_coordinate(aabb.right());
        let top_c: u32 = self.transform_coordinate(aabb.top());
        let bottom_c: u32 = self.transform_coordinate(aabb.bottom());

        proof {
            if aabb.left <= aabb.right {
                vstd::arithmetic::div_mod::lemma_div_is_ordered(
                    aabb.left as int,
                    aabb.right as int,
                    cell as int,
                );
            }
            if aabb.top <= aabb.bottom {
                vstd::arithmetic::div_mod::lemma_div_is_ordered(
                    aabb.top as int,
                    aabb.bottom as int,
                    cell as int,
                );
            }
        }
        let xs: u64 = if aabb.left() <= aabb.right() {
            (right_c - left_c) as u64 + 1
        } else {
            right_c as u64 + (w - left_c) as u64 + 1
        };
        let x_length: u32 = if xs > w as u64 {
            w
        } else {
            xs as u32
        };
        let ys: u64 = if aabb.top() <= aabb.bottom() {
            (bottom_c - top_c) as u64 + 1
        } else {
            bottom_c as u64 + (h - top_c) as u64 + 1
        };
        let y_length: u32 = if ys > h as u64 {
            h
        } else {
            ys as u32
        };
        assert(x_length as int == span_cells(
            aabb.left as int,
            aabb.right as int,
            cell as int,
            w as int,
        ));
        assert(y_length as int == span_cells(
            aabb.top as int,
            aabb.bottom as int,
            cell as int,
            h as int,
        ));

        self.checked.clear();

        let ghost sx = left_c as int;
        let ghost sy = top_c as int;
        let ghost old_cells = self.cells@;
        let ghost old_pairs = self.pairs@;
        let ghost recs = self.inserted@;

        let mut kx: u32 = 0;
        while kx < x_length
            invariant
                kx <= x_length,
                self.space_width == old(self).space_width,
                self.space_height == old(self).space_height,
                self.cell_size == old(self).cell_size,
                self.width == old(self).width,
                self.height == old(self).height,
                self.inserted@ == recs,
                cells_state_ok(
                    self.cells@,
                    old_cells,
                    id,
                    sx,
                    sy,
                    kx as int,
                    0,
                    y_length as int,
                    w as int,
                    h as int,
                ),
                self.pairs@.len() >= old_pairs.len(),
                forall|p: int| 0 <= p < old_pairs.len() ==> self.pairs@[p] == old_pairs[p],
                forall|p: int|
                    old_pairs.len() <= p < self.pairs@.len() ==> new_pair_ok(
                        #[trigger] self.pairs@[p],
                        id,
                        recs,
                    ),
                new_pairs_checked(self.pairs@, self.checked@, old_pairs.len() as int),
                pairs_distinct(self.pairs@),
                forall|p: int|
                    old_pairs.len() <= p < self.pairs@.len() ==> new_pair_shares(
                        #[trigger] self.pairs@[p],
                        id,
                        *aabb,
                        recs,
                        cell as int,
                        w as int,
                        h as int,
                    ),
                checked_paired(self.checked@, self.pairs@, id),
                checked_covers(
                    self.checked@,
                    old_cells,
                    sx,
                    sy,
                    kx as int,
                    0,
                    y_length as int,
                    w as int,
                    h as int,
                ),
            decreases x_length - kx,
        {
            let cx: u32 = ((left_c as u64 + kx as u64) % w as u64) as u32;
            let mut ky: u32 = 0;
            while ky < y_length
                invariant
                    ky <= y_length,
                    self.space_width == old(self).space_width,
                    self.space_height == old(self).space_height,
                    self.cell_size == old(self).cell_size,
                    self.width == old(self).width,
                    self.height == old(self).height,
                    self.inserted@ == recs,
                    cells_state_ok(
                        self.cells@,
                        old_cells,
                        id,
                        sx,
                        sy,
                        kx as int,
                        ky as int,
                        y_length as int,
                        w as int,
                        h as int,
                    ),
                    self.pairs@.len() >= old_pairs.len(),
                    forall|p: int| 0 <= p < old_pairs.len() ==> self.pairs@[p] == old_pairs[p],
                    forall|p: int|
                        old_pairs.len() <= p < self.pairs@.len() ==> new_pair_ok(
                            #[trigger] self.pairs@[p],
                            id,
                            recs,
                        ),
                    new_pairs_checked(self.pairs@, self.checked@, old_pairs.len() as int),
                    pairs_distinct(self.pairs@),
                    forall|p: int|
                        old_pairs.len() <= p < self.pairs@.len() ==> new_pair_shares(
                            #[trigger] self.pairs@[p],
                            id,
                            *aabb,
                            recs,
                            cell as int,
                            w as int,
                            h as int,
                        ),
                    checked_paired(self.checked@, self.pairs@, id),
                    checked_covers(
                        self.checked@,
                        old_cells,
                        sx,
                        sy,
                        kx as int,
                        ky as int,
                        y_length as int,
                        w as int,
                        h as int,
                    ),
                decreases y_length - ky,
            {
                let cy: u32 = ((top_c as u64 + ky as u64) % h as u64) as u32;
                proof {
                    lemma_walk_index_in_range(sx, sy, kx as int, ky as int, w as int, h as int);
                    assert((cy as int) * (w as int) + (cx as int) == walk_cell_index(
                        sx,
                        sy,
                        kx as int,
                        ky as int,
                        w as int,
                        h as int,
                    ));
                    assert(old_cells.len() == (w as int) * (h as int));
                    assert forall|a: int, b: int|
                        walk_processed(
                            a,
                            b,
                            kx as int,
                            ky as int,
                            y_length as int,
                        ) implies walk_cell_index(sx, sy, a, b, w as int, h as int) != (cy as int)
                        * (w as int) + (cx as int) by {
                        lemma_walk_distinct(
                            sx,
                            sy,
                            a,
                            b,
                            kx as int,
                            ky as int,
                            x_length as int,
                            y_length as int,
                            w as int,
                            h as int,
                        );
                    }
                    assert(!is_walked(
                        (cy as int) * (w as int) + (cx as int),
                        sx,
                        sy,
                        kx as int,
                        ky as int,
                        y_length as int,
                        w as int,
                        h as int,
                    ));
                }
                proof {
                    vstd::std_specs::vec::axiom_spec_len(&self.cells);
                    vstd::arithmetic::mul::lemma_mul_nonnegative(cy as int, w as int);
                    assert((cy as int) * (w as int) + (cx as int) < (w as int) * (h as int));
                    assert((w as int) * (h as int) == self.cells@.len());
                }
                let ci: usize = cy as usize * w as usize + cx as usize;
                assert(self.cells@[ci as int]@ == old_cells[ci as int]@);
                let n: usize = self.cells[ci].len();
                let mut j: usize = 0;
                while j < n
                    invariant
                        j <= n,
                        self.space_width == old(self).space_width,
                        self.space_height == old(self).space_height,
                        self.cell_size == old(self).cell_size,
                        self.width == old(self).width,
                        self.height == old(self).height,
                        self.inserted@ == recs,
                        cells_state_ok(
                            self.cells@,
                            old_cells,
                            id,
                            sx,
                            sy,
                            kx as int,
                            ky as int,
                            y_length as int,
                            w as int,
                            h as int,
                        ),
                        self.cells@[ci as int]@ == old_cells[ci as int]@,
                        n == old_cells[ci as int]@.len(),
                        self.pairs@.len() >= old_pairs.len(),
                        forall|p: int| 0 <= p < old_pairs.len() ==> self.pairs@[p] == old_pairs[p],
                        forall|p: int|
                            old_pairs.len() <= p < self.pairs@.len() ==> new_pair_ok(
                                #[trigger] self.pairs@[p],
                                id,
                                recs,
                            ),
                        new_pairs_checked(self.pairs@, self.checked@, old_pairs.len() as int),
                        pairs_distinct(self.pairs@),
                        forall|p: int|
                            old_pairs.len() <= p < self.pairs@.len() ==> new_pair_shares(
                                #[trigger] self.pairs@[p],
                                id,
                                *aabb,
                                recs,
                                cell as int,
                                w as int,
                                h as int,
                            ),
                        checked_paired(self.checked@, self.pairs@, id),
                        checked_covers(
                            self.checked@,
                            old_cells,
                            sx,
                            sy,
                            kx as int,
                            ky as int,
                            y_length as int,
                            w as int,
                            h as int,
                        ),
                        forall|jj: int|
                            0 <= jj < j ==> self.checked@.contains(
                                #[trigger] old_cells[ci as int]@[jj],
                            ),
                    decreases n - j,
                {
                    let sid: usize = self.cells[ci][j];
                    assert(old_cells[ci as int]@[j as int] == sid);
                    if !contains_id(&self.checked, sid) {
                        let ghost pre_checked = self.checked@;
                        let ghost pre_pairs = self.pairs@;
                        self.checked.push(sid);
                        self.pairs.push((id, sid));
                        proof {
                            assert(old(self).cells@[ci as int]@[j as int] == sid);
                            assert(id_is_inserted(old(self).inserted@, sid));
                            let i0 = choose|i0: int|
                                0 <= i0 < old(self).inserted@.len() && (#[trigger] old(
                                    self,
                                ).inserted@[i0]).0 == sid;
                            assert(recs[i0].0 == sid);
                            assert(new_pair_ok((id, sid), id, recs));
                            assert forall|p: int|
                                old_pairs.len() <= p < self.pairs@.len() implies new_pair_ok(
                                #[trigger] self.pairs@[p],
                                id,
                                recs,
                            ) by {
                                if p < pre_pairs.len() {
                                    assert(self.pairs@[p] == pre_pairs[p]);
                                } else {
                                    assert(self.pairs@[p] == (id, sid));
                                }
                            }
                            assert forall|q: int|
                                0 <= q < self.checked@.len() implies self.pairs@.contains(
                                (id, #[trigger] self.checked@[q]),
                            ) by {
                                if q < pre_checked.len() {
                                    assert(self.checked@[q] == pre_checked[q]);
                                    assert(pre_pairs.contains((id, pre_checked[q])));
                                    let pi = choose|pi: int|
                                        0 <= pi < pre_pairs.len() && pre_pairs[pi] == (
                                        id,
                                        pre_checked[q],
                                        );
                                    assert(self.pairs@[pi] == (id, self.checked@[q]));
                                } else {
                                    assert(self.checked@[q] == sid);
                                    assert(self.pairs@[pre_pairs.len() as int] == (id, sid));
                                }
                            }
                            assert(new_pairs_checked(
                                pre_pairs,
                                pre_checked,
                                old_pairs.len() as int,
                            ));
                            assert(pairs_distinct(pre_pairs));
                            assert forall|p: int|
                                old_pairs.len() <= p
                                    < self.pairs@.len() implies self.checked@.contains(
                                (#[trigger] self.pairs@[p]).1,
                            ) by {
                                if p < pre_pairs.len() {
                                    assert(self.pairs@[p] == pre_pairs[p]);
                                    assert(pre_checked.contains(pre_pairs[p].1));
                                    let qi = choose|qi: int|
                                        0 <= qi < pre_checked.len() && pre_checked[qi]
                                            == pre_pairs[p].1;
                                    assert(self.checked@[qi] == pre_pairs[p].1);
                                } else {
                                    assert(self.pairs@[p] == (id, sid));
                                    assert(self.checked@[pre_checked.len() as int] == sid);
                                }
                            }
                            assert(new_pairs_checked(
                                self.pairs@,
                                self.checked@,
                                old_pairs.len() as int,
                            ));
                            assert forall|p1: int, p2: int|
                                0 <= p1 < p2 < self.pairs@.len() implies #[trigger] self.pairs@[p1]
                                != #[trigger] self.pairs@[p2] by {
                                if p2 == pre_pairs.len() {
                                    assert(self.pairs@[p2] == (id, sid));
                                    if p1 < old_pairs.len() {
                                        assert(self.pairs@[p1] == old_pairs[p1]);
                                        assert(old(self).pairs@[p1] == old_pairs[p1]);
                                        assert(pair_is_sound(recs, old(self).pairs@[p1]));
                                        let (i1, j1) = choose|i1: int, j1: int|
                                            0 <= i1 < j1 < recs.len() && old(self).pairs@[p1] == (
                                            (#[trigger] recs[j1]).0,
                                            (#[trigger] recs[i1]).0,
                                            );
                                        assert(recs[j1].0 != id);
                                    } else {
                                        assert(self.pairs@[p1] == pre_pairs[p1]);
                                        assert(pre_checked.contains(pre_pairs[p1].1));
                                    }
                                } else {
                                    assert(self.pairs@[p1] == pre_pairs[p1]);
                                    assert(self.pairs@[p2] == pre_pairs[p2]);
                                }
                            }
                            assert(pairs_distinct(self.pairs@));
                            assert(id_occupies(
                                old(self).inserted@,
                                sid,
                                ci as int,
                                cell as int,
                                w as int,
                                h as int,
                            ));
                            let k0 = choose|k0: int|
                                0 <= k0 < old(self).inserted@.len() && (#[trigger] old(
                                    self,
                                ).inserted@[k0]).0 == sid && covers_x(
                                    old(self).inserted@[k0].1,
                                    cell as int,
                                    w as int,
                                    ci as int % (w as int),
                                ) && covers_y(
                                    old(self).inserted@[k0].1,
                                    cell as int,
                                    h as int,
                                    ci as int / (w as int),
                                );
                            let cxv = (sx + kx) % (w as int);
                            let cyv = (sy + ky) % (h as int);
                            vstd::arithmetic::div_mod::lemma_mod_bound(sx + kx, w as int);
                            vstd::arithmetic::div_mod::lemma_mod_bound(sy + ky, h as int);
                            lemma_flat_index_decompose(cxv, cyv, w as int);
                            assert(ci as int % (w as int) == cxv && ci as int / (w as int) == cyv);
                            assert(covers_x(*aabb, cell as int, w as int, cxv));
                            assert(covers_y(*aabb, cell as int, h as int, cyv));
                            assert(share_cell(
                                recs[k0].1,
                                *aabb,
                                cell as int,
                                w as int,
                                h as int,
                            ));
                            assert(new_pair_shares(
                                (id, sid),
                                id,
                                *aabb,
                                recs,
                                cell as int,
                                w as int,
                                h as int,
                            ));
                            assert forall|p: int|
                                old_pairs.len() <= p < self.pairs@.len() implies new_pair_shares(
                                #[trigger] self.pairs@[p],
                                id,
                                *aabb,
                                recs,
                                cell as int,
                                w as int,
                                h as int,
                            ) by {
                                if p < pre_pairs.len() {
                                    assert(self.pairs@[p] == pre_pairs[p]);
                                } else {
                                    assert(self.pairs@[p] == (id, sid));
                                }
                            }
                            assert forall|a: int, b: int, jj: int|
                                walk_processed(a, b, kx as int, ky as int, y_length as int) && 0
                                    <= jj < old_cells[walk_cell_index(
                                    sx,
                                    sy,
                                    a,
                                    b,
                                    w as int,
                                    h as int,
                                )]@.len() implies self.checked@.contains(
                                #[trigger] old_cells[walk_cell_index(
                                    sx,
                                    sy,
                                    a,
                                    b,
                                    w as int,
                                    h as int,
                                )]@[jj],
                            ) by {
                                let x = old_cells[walk_cell_index(
                                    sx,
                                    sy,
                                    a,
                                    b,
                                    w as int,
                                    h as int,
                                )]@[jj];
                                assert(pre_checked.contains(x));
                                let qi = choose|qi: int|
                                    0 <= qi < pre_checked.len() && pre_checked[qi] == x;
                                assert(self.checked@[qi] == x);
                            }
                            assert forall|jj: int|
                                0 <= jj <= j implies self.checked@.contains(
                                #[trigger] old_cells[ci as int]@[jj],
                            ) by {
                                if jj < j {
                                    let x = old_cells[ci as int]@[jj];
                                    assert(pre_checked.contains(x));
                                    let qi = choose|qi: int|
                                        0 <= qi < pre_checked.len() && pre_checked[qi] == x;
                                    assert(self.checked@[qi] == x);
                                } else {
                                    assert(self.checked@[pre_checked.len() as int] == sid);
                                }
                            }
                        }
                    }
                    j += 1;
                }
                let ghost pre_cells = self.cells@;
                self.cells[ci].push(id);
                proof {
                    assert(self.cells@[ci as int]@ == old_cells[ci as int]@.push(id));
                    assert forall|ci2: int|
                        0 <= ci2 < self.cells@.len() implies (#[trigger] self.cells@[ci2])@ == (
                        if is_walked(
                            ci2,
                            sx,
                            sy,
                            kx as int,
                            ky as int + 1,
                            y_length as int,
                            w as int,
                            h as int,
                        ) {
                            old_cells[ci2]@.push(id)
                        } else {
                            old_cells[ci2]@
                        }) by {
                        if ci2 == ci as int {
                            assert(walk_processed(
                                kx as int,
                                ky as int,
                                kx as int,
                                ky as int + 1,
                                y_length as int,
                            ));
                            assert(is_walked(
                                ci2,
                                sx,
                                sy,
                                kx as int,
                                ky as int + 1,
                                y_length as int,
                                w as int,
                                h as int,
                            ));
                        } else {
                            assert(self.cells@[ci2] == pre_cells[ci2]);
                            if is_walked(
                                ci2,
                                sx,
                                sy,
                                kx as int,
                                ky as int + 1,
                                y_length as int,
                                w as int,
                                h as int,
                            ) {
                                let (a, b) = choose|a: int, b: int|
                                    walk_processed(
                                        a,
                                        b,
                                        kx as int,
                                        ky as int + 1,
                                        y_length as int,
                                    ) && walk_cell_index(sx, sy, a, b, w as int, h as int) == ci2;
                                assert(!(a == kx as int && b == ky as int));
                                assert(walk_processed(a, b, kx as int, ky as int, y_length as int));
                                assert(is_walked(
                                    ci2,
                                    sx,
                                    sy,
                                    kx as int,
                                    ky as int,
                                    y_length as int,
                                    w as int,
                                    h as int,
                                ));
                            } else {
                                if is_walked(
                                    ci2,
                                    sx,
                                    sy,
                                    kx as int,
                                    ky as int,
                                    y_length as int,
                                    w as int,
                                    h as int,
                                ) {
                                    let (a, b) = choose|a: int, b: int|
                                        walk_processed(
                                            a,
                                            b,
                                            kx as int,
                                            ky as int,
                                            y_length as int,
                                        ) && walk_cell_index(sx, sy, a, b, w as int, h as int)
                                        == ci2;
                                    assert(walk_processed(
                                        a,
                                        b,
                                        kx as int,
                                        ky as int + 1,
                                        y_length as int,
                                    ));
                                    assert(false);
                                }
                            }
                        }
                    }
                    assert forall|a: int, b: int, jj: int|
                        walk_processed(a, b, kx as int, ky as int + 1, y_length as int) && 0 <= jj
                            < old_cells[walk_cell_index(sx, sy, a, b, w as int, h as int)]@.len()
                            implies self.checked@.contains(
                        #[trigger] old_cells[walk_cell_index(sx, sy, a, b, w as int, h as int)]@[jj],
                    ) by {
                        if a == kx as int && b == ky as int {
                            assert(walk_cell_index(sx, sy, a, b, w as int, h as int) == ci as int);
                        } else {
                            assert(walk_processed(a, b, kx as int, ky as int, y_length as int));
                        }
                    }
                }
                ky += 1;
            }
            proof {
                assert forall|ci2: int|
                    0 <= ci2 < self.cells@.len() implies (#[trigger] self.cells@[ci2])@ == (
                    if is_walked(
                        ci2,
                        sx,
                        sy,
                        kx as int + 1,
                        0,
                        y_length as int,
                        w as int,
                        h as int,
                    ) {
                        old_cells[ci2]@.push(id)
                    } else {
                        old_cells[ci2]@
                    }) by {
                    if is_walked(
                        ci2,
                        sx,
                        sy,
                        kx as int + 1,
                        0,
                        y_length as int,
                        w as int,
                        h as int,
                    ) {
                        let (a, b) = choose|a: int, b: int|
                            walk_processed(a, b, kx as int + 1, 0, y_length as int)
                                && walk_cell_index(sx, sy, a, b, w as int, h as int) == ci2;
                        assert(walk_processed(a, b, kx as int, y_length as int, y_length as int));
                        assert(is_walked(
                            ci2,
                            sx,
                            sy,
                            kx as int,
                            y_length as int,
                            y_length as int,
                            w as int,
                            h as int,
                        ));
                    } else {
                        if is_walked(
                            ci2,
                            sx,
                            sy,
                            kx as int,
                            y_length as int,
                            y_length as int,
                            w as int,
                            h as int,
                        ) {
                            let (a, b) = choose|a: int, b: int|
                                walk_processed(a, b, kx as int, y_length as int, y_length as int)
                                    && walk_cell_index(sx, sy, a, b, w as int, h as int) == ci2;
                            assert(walk_processed(a, b, kx as int + 1, 0, y_length as int));
                            assert(false);
                        }
                    }
                }
                assert forall|a: int, b: int, jj: int|
                    walk_processed(a, b, kx as int + 1, 0, y_length as int) && 0 <= jj
                        < old_cells[walk_cell_index(sx, sy, a, b, w as int, h as int)]@.len()
                        implies self.checked@.contains(
                    #[trigger] old_cells[walk_cell_index(sx, sy, a, b, w as int, h as int)]@[jj],
                ) by {
                    assert(walk_processed(a, b, kx as int, y_length as int, y_length as int));
                }
            }
            kx += 1;
        }
        self.inserted = Ghost(self.inserted@.push((id, *aabb)));
        proof {
            lemma_insert_wf(
                *old(self),
                *self,
                id,
                *aabb,
                sx,
                sy,
                x_length as int,
                y_length as int,
                self.checked@,
                old_cells,
                old_pairs,
                recs,
            );
        }
    }
}

/// Whether `v` holds `id`.
fn contains_id(v: &Vec<usize>, id: usize) -> (r: bool)
    ensures
        r == v@.contains(id),
{
    let n: usize = v.len();
    let mut i: usize = 0;
    while i < n
        invariant
            i <= n,
            n == v@.len(),
            forall|j: int| 0 <= j < i ==> v@[j] != id,
        decreases n - i,
    {
        if v[i] == id {
            assert(v@[i as int] == id);
            return true;
        }
        i += 1;
    }
    false
}

} // verus!
