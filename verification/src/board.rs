use vstd::prelude::*;

use crate::block::{
    abs_x, abs_y, block_hits, block_wf, can_move_down, can_move_left, can_move_right, cell_hits,
    covers, footprint_ok, grid, in_bounds, rotate_rel, shifted_down, shifted_left, shifted_right,
    Block, Position, Rect,
};
use crate::color::Color;
use crate::rng::random_usize;
use crate::tetris_block::{catalog_block, fresh_spawn, spawn_anchored};

verus! {

/// Number of rows of a board.
pub const ROWS: u16 = 20;

/// Number of columns of a board.
pub const COLS: u16 = 10;

/// Points awarded for each cleared line: three per column.
pub const SCORE_FOR_LINE: u32 = 30;

/// How many consecutive resting ticks a piece is given before it is locked.
pub const LOCK_DELAY_TICKS: u8 = 3;

/// A player command, as delivered by the input-mapping collaborator.
#[derive(Clone, Copy, Debug, PartialEq, Eq, Structural)]
pub enum Action {
    Left,
    Right,
    Down,
    Rotate,
    Put,
}

/// One player's complete game state: the grid of locked cells (with the
/// active piece painted on top), the board rectangle, the background and
/// garbage colors, the active piece, the game-over flag, the consecutive
/// resting-tick counter and the score.
#[derive(Debug, Clone)]
pub struct Board {
    pub state: Vec<Vec<Color>>,
    pub rect: Rect,
    pub bg_color: Color,
    pub enemy_lines_color: Color,
    pub block: Block,
    pub has_game_ended: bool,
    pub tick_count: u8,
    pub score: u32,
}

/// The rectangle every board occupies: a 10 x 20 grid at the origin.
pub open spec fn board_rect() -> Rect {
    Rect { x: 0, y: 0, width: COLS, height: ROWS }
}

/// The grid has exactly `COLS` columns of `ROWS` rows each.
pub open spec fn grid_wf(g: Seq<Seq<Color>>) -> bool {
    &&& g.len() == COLS
    &&& forall|c: int| 0 <= c < g.len() ==> (#[trigger] g[c]).len() == ROWS
}

/// The grid with the piece's cells repainted in the given color and every
/// other cell unchanged.
pub open spec fn painted(g: Seq<Seq<Color>>, b: Block, color: Color) -> Seq<Seq<Color>> {
    Seq::new(
        g.len(),
        |x: int|
            Seq::new(
                g[x].len(),
                |y: int|
                    if covers(b, x, y) {
                        color
                    } else {
                        g[x][y]
                    },
            ),
    )
}

/// The board's grid as it stands without the active piece: the overlay
/// erased back to the background color.
pub open spec fn locked_grid(b: Board) -> Seq<Seq<Color>> {
    painted(grid(b.state), b.block, b.bg_color)
}

/// Cell `j` of the board's active piece lies on the grid and is painted in
/// the piece's color.
pub open spec fn piece_cell_drawn(b: Board, j: int) -> bool {
    let x = abs_x(b.block, j);
    let y = abs_y(b.block, j);
    &&& 0 <= x < grid(b.state).len()
    &&& 0 <= y < grid(b.state)[x].len()
    &&& grid(b.state)[x][y] == b.block.color
}

/// The active piece is painted on the grid, cell for cell.
pub open spec fn overlay_drawn(b: Board) -> bool {
    forall|j: int| 0 <= j < 4 ==> #[trigger] piece_cell_drawn(b, j)
}

/// Core board well-formedness: the fixed rectangle and colors, a
/// well-formed active piece inside the board, and the piece's overlay
/// painted on the grid. The resting-tick counter is constrained separately,
/// because a hard lock runs at the moment the counter reaches the
/// lock-delay threshold.
pub open spec fn board_core_wf(b: Board) -> bool {
    &&& b.rect == board_rect()
    &&& grid_wf(grid(b.state))
    &&& b.bg_color == Color::Black
    &&& b.enemy_lines_color == Color::Gray
    &&& block_wf(b.block)
    &&& footprint_ok(b.block)
    &&& in_bounds(b.block, b.rect)
    &&& b.block.color != b.bg_color
    &&& overlay_drawn(b)
}

/// Board well-formedness between operations: the core invariant, with the
/// resting-tick counter strictly below the lock-delay threshold.
pub open spec fn board_wf(b: Board) -> bool {
    &&& board_core_wf(b)
    &&& b.tick_count < LOCK_DELAY_TICKS
}

/// The overlay invariant depends only on the grid and the piece: any two
/// boards that share them agree on it.
proof fn lemma_overlay_same(a: Board, b: Board)
    requires
        b.state == a.state,
        b.block == a.block,
        overlay_drawn(a),
    ensures
        overlay_drawn(b),
{
    assert forall|j: int| 0 <= j < 4 implies #[trigger] piece_cell_drawn(b, j) by {
        assert(piece_cell_drawn(a, j));
    }
}

/// Every absolute cell of a well-formed piece that lies inside the board's
/// bounds also lies inside the bounds' rectangle of cells.
pub proof fn lemma_block_cells_in_bounds(b: Block, bounds: Rect)
    requires
        block_wf(b),
        footprint_ok(b),
        in_bounds(b, bounds),
    ensures
        forall|j: int|
            0 <= j < 4 ==> 0 <= #[trigger] abs_x(b, j) < bounds.width && 0 <= abs_y(b, j)
                < bounds.height,
{
    assert forall|j: int|
        0 <= j < 4 implies 0 <= #[trigger] abs_x(b, j) < bounds.width && 0 <= abs_y(b, j)
        < bounds.height by {
        assert(crate::block::offset_in_box(
            b.positions@[b.cur_pos as int]@[j],
            b.pos_rects@[b.cur_pos as int],
        ));
    }
}

/// The piece covers cell `(x, y)` using only its first `n` cells.
pub open spec fn covers_upto(b: Block, n: int, x: int, y: int) -> bool {
    exists|j: int| 0 <= j < n && abs_x(b, j) == x && abs_y(b, j) == y
}

/// `painted`, restricted to the piece's first `n` cells.
pub open spec fn painted_upto(g: Seq<Seq<Color>>, b: Block, color: Color, n: int) -> Seq<
    Seq<Color>,
> {
    Seq::new(
        g.len(),
        |x: int|
            Seq::new(
                g[x].len(),
                |y: int|
                    if covers_upto(b, n, x, y) {
                        color
                    } else {
                        g[x][y]
                    },
            ),
    )
}

/// Painting all four cells paints the whole piece.
proof fn lemma_painted_upto_full(g: Seq<Seq<Color>>, b: Block, color: Color)
    ensures
        painted_upto(g, b, color, 4) == painted(g, b, color),
{
    assert forall|x: int| 0 <= x < g.len() implies painted_upto(g, b, color, 4)[x] =~= painted(
        g,
        b,
        color,
    )[x] by {
        assert forall|y: int| 0 <= y < g[x].len() implies painted_upto(g, b, color, 4)[x][y]
            == painted(g, b, color)[x][y] by {
            assert(covers_upto(b, 4, x, y) == covers(b, x, y));
        }
    }
    assert(painted_upto(g, b, color, 4) =~= painted(g, b, color));
}

/// The board fields no piece operation ever changes.
pub open spec fn unchanged_misc(pre: Board, post: Board) -> bool {
    &&& post.rect == pre.rect
    &&& post.bg_color == pre.bg_color
    &&& post.enemy_lines_color == pre.enemy_lines_color
    &&& post.has_game_ended == pre.has_game_ended
    &&& post.tick_count == pre.tick_count
}

/// One left command: the piece moves one column left exactly when that is
/// legal against the locked cells, and the grid is the locked grid with the
/// piece repainted at its resulting place.
pub open spec fn step_left(pre: Board, post: Board) -> bool {
    &&& post.block == (if can_move_left(pre.block, locked_grid(pre), pre.bg_color) {
        shifted_left(pre.block)
    } else {
        pre.block
    })
    &&& grid(post.state) == painted(locked_grid(pre), post.block, post.block.color)
    &&& unchanged_misc(pre, post)
    &&& post.score == pre.score
}

/// One right command, analogous to `step_left`.
pub open spec fn step_right(pre: Board, post: Board) -> bool {
    &&& post.block == (if can_move_right(pre.block, locked_grid(pre), pre.bg_color, pre.rect) {
        shifted_right(pre.block)
    } else {
        pre.block
    })
    &&& grid(post.state) == painted(locked_grid(pre), post.block, post.block.color)
    &&& unchanged_misc(pre, post)
    &&& post.score == pre.score
}

/// One down move, score aside: the piece moves one row down exactly when
/// that is legal against the locked cells.
pub open spec fn step_down(pre: Board, post: Board) -> bool {
    &&& post.block == (if can_move_down(pre.block, locked_grid(pre), pre.bg_color, pre.rect) {
        shifted_down(pre.block)
    } else {
        pre.block
    })
    &&& grid(post.state) == painted(locked_grid(pre), post.block, post.block.color)
    &&& unchanged_misc(pre, post)
}

/// One rotate command: the piece changes as `rotate` promises against the
/// locked cells, and the grid is the locked grid with the piece repainted.
pub open spec fn step_rotate(pre: Board, post: Board) -> bool {
    &&& rotate_rel(pre.block, locked_grid(pre), pre.bg_color, pre.rect, post.block)
    &&& grid(post.state) == painted(locked_grid(pre), post.block, post.block.color)
    &&& unchanged_misc(pre, post)
    &&& post.score == pre.score
}

/// The piece is resting: it cannot move down against the locked cells.
pub open spec fn resting(b: Board) -> bool {
    !can_move_down(b.block, locked_grid(b), b.bg_color, b.rect)
}

/// A well-formed board's own piece never collides with the locked grid: its
/// cells are erased there.
pub proof fn lemma_block_clear_of_locked(bd: Board)
    ensures
        !block_hits(bd.block, locked_grid(bd), bd.bg_color),
{
    assert forall|j: int|
        0 <= j < 4 implies !cell_hits(
        locked_grid(bd),
        abs_x(bd.block, j),
        abs_y(bd.block, j),
        bd.bg_color,
    ) by {
        let x = abs_x(bd.block, j);
        let y = abs_y(bd.block, j);
        if 0 <= x < locked_grid(bd).len() && 0 <= y < locked_grid(bd)[x].len() {
            assert(covers(bd.block, x, y));
            assert(locked_grid(bd)[x][y] == bd.bg_color);
        }
    }
}

/// On the locked grid, a cell is filled exactly when it is filled on the
/// drawn grid and is not one of the active piece's own cells.
pub proof fn lemma_cell_hits_locked(bd: Board, x: int, y: int)
    requires
        bd.block.color != bd.bg_color,
        overlay_drawn(bd),
    ensures
        cell_hits(locked_grid(bd), x, y, bd.bg_color) == (cell_hits(
            grid(bd.state),
            x,
            y,
            bd.bg_color,
        ) && !covers(bd.block, x, y)),
{
    let g = grid(bd.state);
    let l = locked_grid(bd);
    if 0 <= x < g.len() && 0 <= y < g[x].len() {
        assert(l[x].len() == g[x].len());
        if covers(bd.block, x, y) {
            assert(l[x][y] == bd.bg_color);
            let j = choose|j: int| 0 <= j < 4 && abs_x(bd.block, j) == x && abs_y(bd.block, j) == y;
            assert(piece_cell_drawn(bd, j));
            assert(g[x][y] == bd.block.color);
        } else {
            assert(l[x][y] == g[x][y]);
        }
    }
}

/// Row `j` is full: every column holds a non-background cell there.
pub open spec fn row_full(g: Seq<Seq<Color>>, j: int, bg: Color) -> bool {
    forall|c: int| 0 <= c < g.len() ==> (#[trigger] g[c])[j] != bg
}

/// One flag per row, set exactly for the full rows.
pub open spec fn row_flags(g: Seq<Seq<Color>>, bg: Color) -> Seq<bool> {
    Seq::new(ROWS as nat, |j: int| row_full(g, j, bg))
}

/// How many flags are set.
pub open spec fn count_full(flags: Seq<bool>) -> nat
    decreases flags.len(),
{
    if flags.len() == 0 {
        0
    } else {
        count_full(flags.drop_last()) + (if flags.last() {
            1nat
        } else {
            0nat
        })
    }
}

/// The rows of a column whose flag is clear, top row first.
pub open spec fn keep_unfull(col: Seq<Color>, flags: Seq<bool>) -> Seq<Color>
    decreases col.len(),
{
    if col.len() == 0 || flags.len() == 0 {
        Seq::empty()
    } else {
        keep_unfull(col.drop_last(), flags.drop_last()) + (if flags.last() {
            Seq::empty()
        } else {
            seq![col.last()]
        })
    }
}

/// `n` fresh background rows.
pub open spec fn bg_rows(n: int, bg: Color) -> Seq<Color> {
    Seq::new(n as nat, |i: int| bg)
}

/// A column after clearing: one fresh background row on top for every full
/// line, then the rows of the lines that were not full, in their original
/// order.
pub open spec fn compact_col(col: Seq<Color>, flags: Seq<bool>, bg: Color) -> Seq<Color> {
    bg_rows(count_full(flags) as int, bg) + keep_unfull(col, flags)
}

/// The grid after removing every full row at once: each column compacted
/// with the same global set of full-row indices.
pub open spec fn cleared_grid(g: Seq<Seq<Color>>, bg: Color) -> Seq<Seq<Color>> {
    Seq::new(g.len(), |c: int| compact_col(g[c], row_flags(g, bg), bg))
}

/// Where a piece comes to rest against the given grid: the position reached
/// by moving down one row at a time while that is legal.
pub open spec fn landing(b: Block, g: Seq<Seq<Color>>, bg: Color, bounds: Rect) -> Block
    decreases bounds.height - b.rect.y,
{
    if can_move_down(b, g, bg, bounds) {
        landing(shifted_down(b), g, bg, bounds)
    } else {
        b
    }
}

/// Score addition that sticks at the maximum instead of wrapping.
pub open spec fn added_score(s: u32, pts: int) -> u32 {
    if s + pts <= u32::MAX {
        (s + pts) as u32
    } else {
        u32::MAX
    }
}

/// Everything a hard lock does, score aside: drop the piece to its landing
/// place on the locked grid, bake it there, clear every full row at once,
/// spawn a random catalog piece, set the game-over flag exactly when the
/// spawned piece overlaps the cleared grid, and repaint the overlay. `n` is
/// the number of rows cleared.
pub open spec fn lock_step(pre: Board, post: Board, n: nat) -> bool {
    let locked = locked_grid(pre);
    let landed = landing(pre.block, locked, pre.bg_color, pre.rect);
    let baked = painted(locked, landed, pre.block.color);
    let cleared = cleared_grid(baked, pre.bg_color);
    &&& n == count_full(row_flags(baked, pre.bg_color))
    &&& fresh_spawn(post.block)
    &&& spawn_anchored(post.block)
    &&& post.has_game_ended == (pre.has_game_ended || block_hits(
        post.block,
        cleared,
        pre.bg_color,
    ))
    &&& grid(post.state) == painted(cleared, post.block, post.block.color)
    &&& post.rect == pre.rect
    &&& post.bg_color == pre.bg_color
    &&& post.enemy_lines_color == pre.enemy_lines_color
    &&& post.tick_count == pre.tick_count
}

/// The locked grid after one garbage line: every column loses its oldest
/// (top-stored) row and gains a new last row that is enemy-colored in every
/// column but `k`, which stays background.
pub open spec fn garbage_shift(g: Seq<Seq<Color>>, k: int, bg: Color, enemy: Color) -> Seq<
    Seq<Color>,
> {
    Seq::new(
        g.len(),
        |c: int|
            g[c].subrange(1, g[c].len() as int).push(
                if c == k {
                    bg
                } else {
                    enemy
                },
            ),
    )
}

/// One garbage injection: for some uniformly chosen column `k`, the locked
/// grid is shifted as `garbage_shift` says and the untouched active piece is
/// repainted on top.
pub open spec fn garbage_one(pre: Board, post: Board) -> bool {
    &&& exists|k: int|
        0 <= k < COLS && grid(post.state) == painted(
            garbage_shift(locked_grid(pre), k, pre.bg_color, pre.enemy_lines_color),
            post.block,
            post.block.color,
        )
    &&& post.block == pre.block
    &&& unchanged_misc(pre, post)
    &&& post.score == pre.score
}

/// `n` garbage injections in sequence.
pub open spec fn garbage_steps(pre: Board, post: Board, n: nat) -> bool
    decreases n,
{
    if n == 0 {
        post == pre
    } else {
        exists|mid: Board| garbage_steps(pre, mid, (n - 1) as nat) && garbage_one(mid, post)
    }
}

/// A fully background-colored grid.
pub open spec fn empty_grid() -> Seq<Seq<Color>> {
    Seq::new(COLS as nat, |c: int| Seq::new(ROWS as nat, |r: int| Color::Black))
}

/// A piece re-anchored at the given corner, if one is given.
pub open spec fn placed_block(block: Block, left_corner: Option<Rect>) -> Block {
    match left_corner {
        Some(lc) => Block { rect: Rect { x: lc.x, y: lc.y, ..block.rect }, ..block },
        None => block,
    }
}

/// What `from_data` accepts: a full-sized grid and a well-formed piece that
/// sits inside the board with its footprint in step, in a color that is not
/// the background.
pub open spec fn from_data_ok(state: Vec<Vec<Color>>, block: Block, left_corner: Option<Rect>) -> bool {
    let b = placed_block(block, left_corner);
    &&& grid_wf(grid(state))
    &&& block_wf(b)
    &&& footprint_ok(b)
    &&& in_bounds(b, board_rect())
    &&& b.color != Color::Black
}

/// Repainting the piece over its own erased overlay restores the grid: the
/// drawn grid, the locked grid and the piece's cells determine each other.
pub proof fn lemma_redraw_restores(b: Board)
    requires
        overlay_drawn(b),
    ensures
        painted(locked_grid(b), b.block, b.block.color) == grid(b.state),
{
    let g = grid(b.state);
    let l = locked_grid(b);
    let p = painted(l, b.block, b.block.color);
    assert forall|x: int| 0 <= x < g.len() implies p[x] =~= g[x] by {
        assert(l[x].len() == g[x].len());
        assert forall|y: int| 0 <= y < g[x].len() implies p[x][y] == g[x][y] by {
            if covers(b.block, x, y) {
                let j = choose|j: int|
                    0 <= j < 4 && abs_x(b.block, j) == x && abs_y(b.block, j) == y;
                assert(piece_cell_drawn(b, j));
            }
        }
    }
    assert(p =~= g);
}

/// On a grid with no filled cell, only the floor can stop a descending
/// piece: a piece that cannot move down has its bounding box's bottom edge
/// on the board's bottom edge.
pub proof fn lemma_rests_at_floor_on_empty(b: Block, g: Seq<Seq<Color>>, bg: Color, bounds: Rect)
    requires
        forall|c: int, r: int| 0 <= c < g.len() && 0 <= r < g[c].len() ==> #[trigger] g[c][r] == bg,
        in_bounds(b, bounds),
        !can_move_down(b, g, bg, bounds),
    ensures
        b.rect.y + b.rect.height == bounds.height,
{
    assert(!block_hits(shifted_down(b), g, bg)) by {
        if block_hits(shifted_down(b), g, bg) {
            let j = choose|j: int|
                0 <= j < 4 && cell_hits(g, abs_x(shifted_down(b), j), abs_y(shifted_down(b), j), bg);
            assert(g[abs_x(shifted_down(b), j)][abs_y(shifted_down(b), j)] == bg);
        }
    }
}

/// On a grid with no filled cell, a piece's landing place is exactly one
/// footprint height above the board's bottom edge, whatever row it starts
/// from.
pub proof fn lemma_landing_on_empty(b: Block, g: Seq<Seq<Color>>, bg: Color, bounds: Rect)
    requires
        forall|c: int, r: int| 0 <= c < g.len() && 0 <= r < g[c].len() ==> #[trigger] g[c][r] == bg,
        in_bounds(b, bounds),
    ensures
        landing(b, g, bg, bounds).rect.y + landing(b, g, bg, bounds).rect.height == bounds.height,
        landing(b, g, bg, bounds).rect.x == b.rect.x,
        landing(b, g, bg, bounds).rect.width == b.rect.width,
        landing(b, g, bg, bounds).rect.height == b.rect.height,
        landing(b, g, bg, bounds).cur_pos == b.cur_pos,
    decreases bounds.height - b.rect.y,
{
    if can_move_down(b, g, bg, bounds) {
        lemma_landing_on_empty(shifted_down(b), g, bg, bounds);
    } else {
        lemma_rests_at_floor_on_empty(b, g, bg, bounds);
    }
}


/// With no flag set, every row is kept and nothing is counted.
proof fn lemma_keep_unfull_none(col: Seq<Color>, f: Seq<bool>)
    requires
        col.len() == f.len(),
        forall|j: int| 0 <= j < f.len() ==> !f[j],
    ensures
        keep_unfull(col, f) == col,
        count_full(f) == 0,
    decreases col.len(),
{
    if col.len() > 0 {
        lemma_keep_unfull_none(col.drop_last(), f.drop_last());
        assert(keep_unfull(col, f) =~= col);
    } else {
        assert(keep_unfull(col, f) =~= col);
    }
}

/// A grid with no full row is unchanged by line clearing, and the clear
/// count is zero. Rows that are not full always survive with their cells
/// intact and in order; this is the boundary case in which nothing moves at
/// all.
pub proof fn lemma_clear_without_full_rows(g: Seq<Seq<Color>>, bg: Color)
    requires
        grid_wf(g),
        forall|j: int| 0 <= j < ROWS ==> !row_full(g, j, bg),
    ensures
        cleared_grid(g, bg) == g,
        count_full(row_flags(g, bg)) == 0,
{
    let flags = row_flags(g, bg);
    assert(forall|j: int| 0 <= j < flags.len() ==> !flags[j]);
    lemma_keep_unfull_none(g[0], flags);
    assert forall|c: int| 0 <= c < g.len() implies #[trigger] cleared_grid(g, bg)[c] == g[c] by {
        lemma_keep_unfull_none(g[c], flags);
        assert(compact_col(g[c], flags, bg) =~= g[c]);
    }
    assert(cleared_grid(g, bg) =~= g);
}

/// Counting one more flag adds one exactly when that flag is set.
proof fn lemma_count_step(f: Seq<bool>, j: int)
    requires
        0 <= j < f.len(),
    ensures
        count_full(f.take(j + 1)) == count_full(f.take(j)) + (if f[j] {
            1int
        } else {
            0int
        }),
{
    assert(f.take(j + 1).drop_last() =~= f.take(j));
    assert(f.take(j + 1).last() == f[j]);
}

/// Keeping one more row appends it exactly when its flag is clear.
proof fn lemma_keep_step(col: Seq<Color>, f: Seq<bool>, j: int)
    requires
        0 <= j < col.len(),
        0 <= j < f.len(),
    ensures
        keep_unfull(col.take(j + 1), f.take(j + 1)) == keep_unfull(col.take(j), f.take(j)) + (
        if f[j] {
            Seq::<Color>::empty()
        } else {
            seq![col[j]]
        }),
{
    assert(col.take(j + 1).drop_last() =~= col.take(j));
    assert(f.take(j + 1).drop_last() =~= f.take(j));
    assert(col.take(j + 1).last() == col[j]);
    assert(f.take(j + 1).last() == f[j]);
}

/// A compacted column is as long as the original: the kept rows plus one
/// fresh row per full line.
proof fn lemma_keep_unfull_len(col: Seq<Color>, f: Seq<bool>)
    requires
        col.len() == f.len(),
    ensures
        keep_unfull(col, f).len() + count_full(f) == col.len(),
    decreases col.len(),
{
    if col.len() > 0 {
        lemma_keep_unfull_len(col.drop_last(), f.drop_last());
    }
}

/// Removes the oldest (top-stored) row of one column and appends a new row
/// value at its far end, leaving the other columns unchanged.
fn shift_col(state: &mut Vec<Vec<Color>>, x: usize, c: Color)
    requires
        x < old(state)@.len(),
        old(state)@[x as int]@.len() >= 1,
    ensures
        final(state)@.len() == old(state)@.len(),
        forall|i: int|
            0 <= i < old(state)@.len() && i != x ==> final(state)@[i] == old(state)@[i],
        final(state)@[x as int]@ == old(state)@[x as int]@.subrange(
            1,
            old(state)@[x as int]@.len() as int,
        ).push(c),
{
    let col = &mut state[x];
    let ghost before = col@;
    col.remove(0);
    col.push(c);
    proof {
        assert(col@ =~= before.subrange(1, before.len() as int).push(c));
    }
}

/// Overwrites one whole column, leaving the others unchanged.
fn set_col(state: &mut Vec<Vec<Color>>, x: usize, col: Vec<Color>)
    requires
        x < old(state)@.len(),
    ensures
        final(state)@.len() == old(state)@.len(),
        forall|i: int|
            0 <= i < old(state)@.len() && i != x ==> final(state)@[i] == old(state)@[i],
        final(state)@[x as int] == col,
{
    state[x] = col;
}

/// Checks a piece's structural well-formedness at run time, so that boards
/// can be rebuilt from plain data.
fn check_block_wf(b: &Block) -> (r: bool)
    ensures
        r == block_wf(*b),
{
    let n = b.positions.len();
    if n < 1 {
        return false;
    }
    if b.pos_rects.len() != n {
        return false;
    }
    if b.cur_pos >= n {
        return false;
    }
    let mut i: usize = 0;
    while i < n
        invariant
            n == b.positions@.len(),
            n == b.pos_rects@.len(),
            i <= n,
            forall|t: int| 0 <= t < i ==> (#[trigger] b.positions@[t])@.len() == 4,
            forall|t: int| 0 <= t < i ==> crate::block::rect16_wf(#[trigger] b.pos_rects@[t]),
            forall|t: int, j: int|
                0 <= t < i && 0 <= j < 4 ==> crate::block::offset_in_box(
                    #[trigger] b.positions@[t]@[j],
                    b.pos_rects@[t],
                ),
        decreases n - i,
    {
        let pr = b.pos_rects[i];
        if !(1 <= pr.width && pr.width <= 4 && 1 <= pr.height && pr.height <= 4 && -2 <= pr.x
            && pr.x <= 2 && -1 <= pr.y && pr.y <= 1) {
            return false;
        }
        if b.positions[i].len() != 4 {
            return false;
        }
        let mut j: usize = 0;
        while j < 4
            invariant
                n == b.positions@.len(),
                n == b.pos_rects@.len(),
                i < n,
                b.positions@[i as int]@.len() == 4,
                pr == b.pos_rects@[i as int],
                j <= 4,
                forall|u: int|
                    0 <= u < j ==> crate::block::offset_in_box(
                        #[trigger] b.positions@[i as int]@[u],
                        b.pos_rects@[i as int],
                    ),
            decreases 4 - j,
        {
            let cell = b.positions[i][j];
            if !(0 <= cell.x && (cell.x as u16) < pr.width && 0 <= cell.y && (cell.y as u16)
                < pr.height) {
                return false;
            }
            j = j + 1;
        }
        i = i + 1;
    }
    true
}

/// Overwrites one grid cell, leaving every other column and row unchanged.
fn set_cell(state: &mut Vec<Vec<Color>>, x: usize, y: usize, c: Color)
    requires
        x < old(state)@.len(),
        y < old(state)@[x as int]@.len(),
    ensures
        final(state)@.len() == old(state)@.len(),
        forall|i: int|
            0 <= i < old(state)@.len() && i != x ==> final(state)@[i] == old(state)@[i],
        final(state)@[x as int]@ == old(state)@[x as int]@.update(y as int, c),
{
    let col = &mut state[x];
    col[y] = c;
}

impl Board {
    /// Paints the active piece's four cells in the given color.
    #[verifier::loop_isolation(false)]
    fn paint_cells(&mut self, c: Color)
        requires
            block_wf(old(self).block),
            footprint_ok(old(self).block),
            in_bounds(old(self).block, board_rect()),
            grid_wf(grid(old(self).state)),
        ensures
            grid(final(self).state) == painted(grid(old(self).state), old(self).block, c),
            grid_wf(grid(final(self).state)),
            final(self).block == old(self).block,
            final(self).rect == old(self).rect,
            final(self).bg_color == old(self).bg_color,
            final(self).enemy_lines_color == old(self).enemy_lines_color,
            final(self).has_game_ended == old(self).has_game_ended,
            final(self).tick_count == old(self).tick_count,
            final(self).score == old(self).score,
    {
        proof {
            lemma_block_cells_in_bounds(self.block, board_rect());
        }
        let ghost pre = *self;
        let ghost g0 = grid(self.state);
        let ghost b = self.block;
        let pos = self.block.position();
        proof {
            assert forall|x: int| 0 <= x < g0.len() implies painted_upto(g0, b, c, 0)[x]
                =~= g0[x] by {}
            assert(painted_upto(g0, b, c, 0) =~= g0);
        }
        let mut k: usize = 0;
        while k < 4
            invariant
                block_wf(b),
                footprint_ok(b),
                in_bounds(b, board_rect()),
                grid_wf(g0),
                self.block == b,
                self.rect == pre.rect,
                self.bg_color == pre.bg_color,
                self.enemy_lines_color == pre.enemy_lines_color,
                self.has_game_ended == pre.has_game_ended,
                self.tick_count == pre.tick_count,
                self.score == pre.score,
                pos@.len() == 4,
                forall|j: int|
                    0 <= j < 4 ==> (#[trigger] pos@[j]).x == abs_x(b, j) && pos@[j].y == abs_y(
                        b,
                        j,
                    ),
                forall|j: int|
                    0 <= j < 4 ==> 0 <= #[trigger] abs_x(b, j) < COLS && 0 <= abs_y(b, j) < ROWS,
                k <= 4,
                grid(self.state) == painted_upto(g0, b, c, k as int),
            decreases 4 - k,
        {
            let ghost gk = grid(self.state);
            let cell = pos[k];
            let cx = cell.x as usize;
            let cy = cell.y as usize;
            assert(cx < grid(self.state).len());
            assert(cy < grid(self.state)[cx as int].len());
            set_cell(&mut self.state, cx, cy, c);
            proof {
                let gn = grid(self.state);
                let gk1 = painted_upto(g0, b, c, k as int + 1);
                assert(gk == painted_upto(g0, b, c, k as int));
                assert(gn.len() == g0.len() && gk.len() == g0.len() && gk1.len() == g0.len());
                assert forall|x: int| 0 <= x < gk1.len() implies gn[x] =~= gk1[x] by {
                    assert(gk[x].len() == g0[x].len());
                    assert(gk1[x].len() == g0[x].len());
                    assert(gn[x] == self.state@[x]@);
                    if x == cx as int {
                        assert(gn[x] == gk[x].update(cy as int, c));
                    } else {
                        assert(gn[x] == gk[x]);
                    }
                    assert(gn[x].len() == g0[x].len());
                    assert forall|y: int| 0 <= y < gk1[x].len() implies gn[x][y] == gk1[x][y] by {
                        if x == cx as int && y == cy as int {
                            assert(covers_upto(b, k as int + 1, x, y)) by {
                                assert(abs_x(b, k as int) == x && abs_y(b, k as int) == y);
                            }
                        } else {
                            if covers_upto(b, k as int + 1, x, y) {
                                let j = choose|j: int|
                                    0 <= j < k + 1 && abs_x(b, j) == x && abs_y(b, j) == y;
                                assert(j < k);
                                assert(covers_upto(b, k as int, x, y));
                            }
                            if covers_upto(b, k as int, x, y) {
                                assert(covers_upto(b, k as int + 1, x, y));
                            }
                        }
                    }
                }
                assert(gn =~= gk1);
            }
            k = k + 1;
        }
        proof {
            lemma_painted_upto_full(g0, b, c);
        }
    }

    /// Paints the active piece on to the grid in its own color.
    fn draw_block(&mut self)
        requires
            block_wf(old(self).block),
            footprint_ok(old(self).block),
            in_bounds(old(self).block, board_rect()),
            grid_wf(grid(old(self).state)),
        ensures
            grid(final(self).state) == painted(
                grid(old(self).state),
                old(self).block,
                old(self).block.color,
            ),
            grid_wf(grid(final(self).state)),
            final(self).block == old(self).block,
            final(self).rect == old(self).rect,
            final(self).bg_color == old(self).bg_color,
            final(self).enemy_lines_color == old(self).enemy_lines_color,
            final(self).has_game_ended == old(self).has_game_ended,
            final(self).tick_count == old(self).tick_count,
            final(self).score == old(self).score,
            overlay_drawn(*final(self)),
    {
        let c = self.block.color();
        self.paint_cells(c);
        proof {
            lemma_block_cells_in_bounds(self.block, board_rect());
            assert forall|j: int| 0 <= j < 4 implies #[trigger] piece_cell_drawn(*self, j) by {
                assert(covers(self.block, abs_x(self.block, j), abs_y(self.block, j)));
            }
        }
    }

    /// Erases the active piece's overlay back to the background color.
    fn erase_block(&mut self)
        requires
            block_wf(old(self).block),
            footprint_ok(old(self).block),
            in_bounds(old(self).block, board_rect()),
            grid_wf(grid(old(self).state)),
        ensures
            grid(final(self).state) == locked_grid(*old(self)),
            grid_wf(grid(final(self).state)),
            final(self).block == old(self).block,
            final(self).rect == old(self).rect,
            final(self).bg_color == old(self).bg_color,
            final(self).enemy_lines_color == old(self).enemy_lines_color,
            final(self).has_game_ended == old(self).has_game_ended,
            final(self).tick_count == old(self).tick_count,
            final(self).score == old(self).score,
    {
        let c = self.bg_color;
        self.paint_cells(c);
    }

    /// A cell of the given position equals `(x, y)`.
    fn pos_contains(pos: &Position, x: i16, y: i16) -> (r: bool)
        ensures
            r == exists|j: int| 0 <= j < pos@.len() && pos@[j].x == x && pos@[j].y == y,
    {
        let n = pos.len();
        let mut k: usize = 0;
        while k < n
            invariant
                n == pos@.len(),
                k <= n,
                forall|j: int| 0 <= j < k ==> !((#[trigger] pos@[j]).x == x && pos@[j].y == y),
            decreases n - k,
        {
            let cell = pos[k];
            if cell.x == x && cell.y == y {
                return true;
            }
            k = k + 1;
        }
        false
    }

    /// Reports whether the active piece is resting: a down move against the
    /// locked cells would fail. The board is left untouched.
    pub fn is_put_down(&mut self) -> (r: bool)
        requires
            board_wf(*old(self)),
        ensures
            *final(self) == *old(self),
            r == resting(*old(self)),
    {
        proof {
            lemma_block_cells_in_bounds(self.block, board_rect());
        }
        if self.block.rect.y + self.block.rect.height + 1 > self.rect.height {
            return true;
        }
        let pos = Self::position_of(&self.block);
        let ghost b = self.block;
        let ghost l = locked_grid(*self);
        let mut hit = false;
        let mut k: usize = 0;
        while k < 4
            invariant
                board_wf(*self),
                *self == *old(self),
                b == self.block,
                l == locked_grid(*self),
                pos@.len() == 4,
                forall|j: int|
                    0 <= j < 4 ==> (#[trigger] pos@[j]).x == abs_x(b, j) && pos@[j].y == abs_y(
                        b,
                        j,
                    ),
                forall|j: int|
                    0 <= j < 4 ==> 0 <= #[trigger] abs_x(b, j) < COLS && 0 <= abs_y(b, j) < ROWS,
                k <= 4,
                hit == exists|j: int|
                    0 <= j < k && cell_hits(l, abs_x(b, j), abs_y(b, j) + 1, self.bg_color),
            decreases 4 - k,
        {
            let cell = pos[k];
            let nx = cell.x;
            let ny = cell.y + 1;
            let mut this_hit = false;
            if nx >= 0 && ny >= 0 {
                let cx = nx as usize;
                let cy = ny as usize;
                if cx < self.state.len() && cy < self.state[cx].len() && self.state[cx][cy]
                    != self.bg_color && !Self::pos_contains(&pos, nx, ny) {
                    this_hit = true;
                }
            }
            proof {
                lemma_cell_hits_locked(*self, nx as int, ny as int);
                assert forall|j: int|
                    0 <= j < pos@.len() && pos@[j].x == nx && pos@[j].y == ny implies covers(
                    b,
                    nx as int,
                    ny as int,
                ) by {
                    assert(abs_x(b, j) == nx && abs_y(b, j) == ny);
                }
                if covers(b, nx as int, ny as int) {
                    let j = choose|j: int|
                        0 <= j < 4 && abs_x(b, j) == nx && abs_y(b, j) == ny;
                    assert(pos@[j].x == nx && pos@[j].y == ny);
                }
                assert(this_hit == cell_hits(l, abs_x(b, k as int), abs_y(b, k as int) + 1, self.bg_color));
            }
            hit = hit || this_hit;
            k = k + 1;
        }
        proof {
            assert forall|j: int| 0 <= j < 4 implies abs_x(shifted_down(b), j) == abs_x(b, j)
                && abs_y(shifted_down(b), j) == abs_y(b, j) + 1 by {}
            if hit {
                let j = choose|j: int|
                    0 <= j < 4 && cell_hits(l, abs_x(b, j), abs_y(b, j) + 1, self.bg_color);
                assert(cell_hits(l, abs_x(shifted_down(b), j), abs_y(shifted_down(b), j), self.bg_color));
                assert(block_hits(shifted_down(b), l, self.bg_color));
            }
            if block_hits(shifted_down(b), l, self.bg_color) {
                let j = choose|j: int|
                    0 <= j < 4 && cell_hits(l, abs_x(shifted_down(b), j), abs_y(shifted_down(b), j), self.bg_color);
                assert(cell_hits(l, abs_x(b, j), abs_y(b, j) + 1, self.bg_color));
            }
        }
        hit
    }

    /// The absolute cells of a piece; a helper shared by board operations.
    fn position_of(b: &Block) -> (pos: Position)
        requires
            block_wf(*b),
            b.rect.x <= 30001,
            b.rect.y <= 30001,
        ensures
            pos@.len() == 4,
            forall|j: int|
                0 <= j < 4 ==> (#[trigger] pos@[j]).x == abs_x(*b, j) && pos@[j].y == abs_y(*b, j),
    {
        b.position()
    }

    /// Applies a left command: erase the overlay, try the move against the
    /// locked cells, and repaint.
    fn move_left(&mut self)
        requires
            board_wf(*old(self)),
        ensures
            board_wf(*final(self)),
            step_left(*old(self), *final(self)),
    {
        self.erase_block();
        let r = self.rect;
        let bg = self.bg_color;
        let moved = self.block.move_left(&r, &self.state, &bg);
        proof {
            if moved {
                assert(self.block == shifted_left(old(self).block));
            }
        }
        self.draw_block();
    }

    /// Applies a right command, analogous to `move_left`.
    fn move_right(&mut self)
        requires
            board_wf(*old(self)),
        ensures
            board_wf(*final(self)),
            step_right(*old(self), *final(self)),
    {
        self.erase_block();
        let r = self.rect;
        let bg = self.bg_color;
        let moved = self.block.move_right(&r, &self.state, &bg);
        proof {
            if moved {
                assert(self.block == shifted_right(old(self).block));
            }
        }
        self.draw_block();
    }

    /// Applies a down command. Once the game has ended this is a no-op;
    /// otherwise the piece descends one row exactly when that is legal.
    pub fn move_down(&mut self)
        requires
            board_wf(*old(self)),
        ensures
            board_wf(*final(self)),
            old(self).has_game_ended ==> *final(self) == *old(self),
            !old(self).has_game_ended ==> step_down(*old(self), *final(self)) && final(self).score
                == old(self).score,
    {
        if self.has_game_ended {
            return ;
        }
        self.erase_block();
        let r = self.rect;
        let bg = self.bg_color;
        let moved = self.block.move_down(&r, &self.state, &bg);
        proof {
            if moved {
                assert(self.block == shifted_down(old(self).block));
            }
        }
        self.draw_block();
    }

    /// Applies a rotate command: erase the overlay, rotate with corrective
    /// nudges against the locked cells, and repaint.
    fn rotate(&mut self)
        requires
            board_wf(*old(self)),
        ensures
            board_wf(*final(self)),
            step_rotate(*old(self), *final(self)),
    {
        self.erase_block();
        proof {
            lemma_block_clear_of_locked(*old(self));
        }
        let r = self.rect;
        let bg = self.bg_color;
        self.block.rotate(&r, &self.state, &bg);
        self.draw_block();
    }

    /// Detects every full row in one pass, removes them all at once, and
    /// inserts the same number of fresh background rows at the top of every
    /// column. Returns how many rows were removed.
    #[verifier::loop_isolation(false)]
    pub fn remove_full_lines(&mut self) -> (r: usize)
        requires
            grid_wf(grid(old(self).state)),
        ensures
            r == count_full(row_flags(grid(old(self).state), old(self).bg_color)),
            r <= ROWS,
            grid(final(self).state) == cleared_grid(grid(old(self).state), old(self).bg_color),
            grid_wf(grid(final(self).state)),
            final(self).block == old(self).block,
            final(self).rect == old(self).rect,
            final(self).bg_color == old(self).bg_color,
            final(self).enemy_lines_color == old(self).enemy_lines_color,
            final(self).has_game_ended == old(self).has_game_ended,
            final(self).tick_count == old(self).tick_count,
            final(self).score == old(self).score,
    {
        let ghost g0 = grid(self.state);
        let ghost bg = self.bg_color;
        proof {
            assert forall|u: int| 0 <= u < COLS implies (#[trigger] self.state@[u])@.len()
                == ROWS by {
                assert(grid(self.state)[u] == self.state@[u]@);
            }
        }

        // Holds flags for each line if it is full.
        let mut are_lines_full_flags: Vec<bool> = Vec::new();
        let mut j: usize = 0;
        while j < ROWS as usize
            invariant
                j <= ROWS,
                grid(self.state) == g0,
                self.state@.len() == COLS,
                forall|u: int| 0 <= u < COLS ==> (#[trigger] self.state@[u])@.len() == ROWS,
                are_lines_full_flags@.len() == j,
                forall|t: int|
                    0 <= t < j ==> are_lines_full_flags@[t] == row_full(g0, t, bg),
            decreases ROWS - j,
        {
            let mut full = true;
            let mut c: usize = 0;
            while c < COLS as usize
                invariant
                    j < ROWS,
                    c <= COLS,
                    grid(self.state) == g0,
                    self.state@.len() == COLS,
                    forall|u: int| 0 <= u < COLS ==> (#[trigger] self.state@[u])@.len() == ROWS,
                    full == forall|u: int| 0 <= u < c ==> (#[trigger] g0[u])[j as int] != bg,
                decreases COLS - c,
            {
                let ghost was = full;
                let v = self.state[c][j];
                proof {
                    assert(grid(self.state)[c as int] == self.state@[c as int]@);
                    assert(v == g0[c as int][j as int]);
                }
                if v == self.bg_color {
                    full = false;
                }
                proof {
                    if was && v != bg {
                        assert forall|u: int| 0 <= u < c + 1 implies (#[trigger] g0[u])[j as int]
                            != bg by {}
                    }
                    if was && v == bg {
                        assert(g0[c as int][j as int] == bg);
                    }
                    if !was {
                        assert(exists|u: int| 0 <= u < c && (#[trigger] g0[u])[j as int] == bg);
                        let u0 = choose|u: int| 0 <= u < c && (#[trigger] g0[u])[j as int] == bg;
                        assert(g0[u0][j as int] == bg);
                    }
                }
                c = c + 1;
            }
            assert(full == row_full(g0, j as int, bg));
            are_lines_full_flags.push(full);
            j = j + 1;
        }
        let ghost flags = row_flags(g0, bg);
        proof {
            assert(are_lines_full_flags@ =~= flags);
        }

        let mut num_full_lines: usize = 0;
        let mut t: usize = 0;
        while t < ROWS as usize
            invariant
                t <= ROWS,
                num_full_lines <= t,
                are_lines_full_flags@ == flags,
                num_full_lines == count_full(flags.take(t as int)),
            decreases ROWS - t,
        {
            proof {
                lemma_count_step(flags, t as int);
            }
            if are_lines_full_flags[t] {
                num_full_lines = num_full_lines + 1;
            }
            t = t + 1;
        }
        proof {
            assert(flags.take(ROWS as int) =~= flags);
        }

        let mut c: usize = 0;
        while c < COLS as usize
            invariant
                c <= COLS,
                num_full_lines == count_full(flags),
                are_lines_full_flags@ == flags,
                self.state@.len() == COLS,
                grid(self.state).len() == COLS,
                forall|u: int| c <= u < COLS ==> grid(self.state)[u] == g0[u],
                forall|u: int|
                    0 <= u < c ==> grid(self.state)[u] == compact_col(g0[u], flags, bg),
                self.bg_color == bg,
                self.block == old(self).block,
                self.rect == old(self).rect,
                self.enemy_lines_color == old(self).enemy_lines_color,
                self.has_game_ended == old(self).has_game_ended,
                self.tick_count == old(self).tick_count,
                self.score == old(self).score,
            decreases COLS - c,
        {
            let ghost col0 = g0[c as int];
            let mut new_col: Vec<Color> = Vec::new();
            let mut i: usize = 0;
            while i < num_full_lines
                invariant
                    i <= num_full_lines,
                    new_col@.len() == i,
                    forall|u: int| 0 <= u < i ==> new_col@[u] == bg,
                    self.bg_color == bg,
                decreases num_full_lines - i,
            {
                new_col.push(self.bg_color);
                i = i + 1;
            }
            proof {
                assert(new_col@ =~= bg_rows(count_full(flags) as int, bg));
                assert(keep_unfull(col0.take(0), flags.take(0)) =~= Seq::<Color>::empty());
                assert(new_col@ =~= bg_rows(count_full(flags) as int, bg) + keep_unfull(
                    col0.take(0),
                    flags.take(0),
                ));
            }
            let mut jj: usize = 0;
            while jj < ROWS as usize
                invariant
                    jj <= ROWS,
                    c < COLS,
                    self.state@.len() == COLS,
                    grid(self.state)[c as int] == col0,
                    col0.len() == ROWS,
                    are_lines_full_flags@ == flags,
                    self.bg_color == bg,
                    new_col@ == bg_rows(count_full(flags) as int, bg) + keep_unfull(
                        col0.take(jj as int),
                        flags.take(jj as int),
                    ),
                decreases ROWS - jj,
            {
                proof {
                    lemma_keep_step(col0, flags, jj as int);
                    assert(grid(self.state)[c as int] == self.state@[c as int]@);
                }
                if !are_lines_full_flags[jj] {
                    let v = self.state[c][jj];
                    proof {
                        assert(v == col0[jj as int]);
                    }
                    new_col.push(v);
                    proof {
                        assert(new_col@ =~= bg_rows(count_full(flags) as int, bg) + keep_unfull(
                            col0.take(jj as int + 1),
                            flags.take(jj as int + 1),
                        ));
                    }
                } else {
                    proof {
                        assert(new_col@ =~= bg_rows(count_full(flags) as int, bg) + keep_unfull(
                            col0.take(jj as int + 1),
                            flags.take(jj as int + 1),
                        ));
                    }
                }
                jj = jj + 1;
            }
            proof {
                assert(col0.take(ROWS as int) =~= col0);
                assert(flags.take(ROWS as int) =~= flags);
                assert(new_col@ == compact_col(col0, flags, bg));
            }
            let ghost gprev = grid(self.state);
            set_col(&mut self.state, c, new_col);
            proof {
                assert forall|u: int| 0 <= u < COLS implies #[trigger] grid(self.state)[u] == (
                if u == c as int {
                    compact_col(g0[u], flags, bg)
                } else {
                    gprev[u]
                }) by {
                    assert(grid(self.state)[u] == self.state@[u]@);
                }
            }
            c = c + 1;
        }
        proof {
            assert(grid(self.state) =~= cleared_grid(g0, bg));
            assert forall|u: int| 0 <= u < COLS implies (#[trigger] cleared_grid(g0, bg)[u]).len()
                == ROWS by {
                lemma_keep_unfull_len(g0[u], flags);
            }
        }
        num_full_lines
    }

    /// Replaces the active piece by a catalog piece chosen uniformly at
    /// random, leaving everything else untouched.
    fn init_block(&mut self)
        ensures
            fresh_spawn(final(self).block),
            block_wf(final(self).block),
            footprint_ok(final(self).block),
            spawn_anchored(final(self).block),
            final(self).state == old(self).state,
            final(self).rect == old(self).rect,
            final(self).bg_color == old(self).bg_color,
            final(self).enemy_lines_color == old(self).enemy_lines_color,
            final(self).has_game_ended == old(self).has_game_ended,
            final(self).tick_count == old(self).tick_count,
            final(self).score == old(self).score,
    {
        let idx = random_usize() % 7;
        self.block = catalog_block(idx);
    }

    /// Hard-locks the active piece: drops it to its resting place, bakes it
    /// into the grid, clears every full row, awards the per-line score,
    /// spawns a random new piece, and detects game over. Returns the number
    /// of rows cleared.
    #[verifier::loop_isolation(false)]
    pub fn put_block(&mut self) -> (r: usize)
        requires
            board_core_wf(*old(self)),
        ensures
            board_core_wf(*final(self)),
            final(self).tick_count == old(self).tick_count,
            r <= ROWS,
            lock_step(*old(self), *final(self), r as nat),
            final(self).score == added_score(old(self).score, SCORE_FOR_LINE * r),
    {
        self.erase_block();
        let r = self.rect;
        let bg = self.bg_color;
        let ghost locked = grid(self.state);
        let ghost orig_block = self.block;
        while self.block.move_down(&r, &self.state, &bg)
            invariant
                block_wf(self.block),
                footprint_ok(self.block),
                in_bounds(self.block, r),
                crate::block::same_tables(orig_block, self.block),
                self.block.cur_pos == orig_block.cur_pos,
                self.block.color == orig_block.color,
                grid(self.state) == locked,
                grid_wf(locked),
                landing(self.block, locked, bg, r) == landing(orig_block, locked, bg, r),
                self.bg_color == bg,
                self.rect == r,
                self.has_game_ended == old(self).has_game_ended,
                self.tick_count == old(self).tick_count,
                self.score == old(self).score,
                self.enemy_lines_color == old(self).enemy_lines_color,
            decreases r.height - self.block.rect.y,
        {
        }
        proof {
            assert(self.block == landing(orig_block, locked, bg, r));
        }
        self.draw_block();
        let ghost baked = grid(self.state);
        let num_full_lines = self.remove_full_lines();
        assert(num_full_lines <= 20);
        let pts = SCORE_FOR_LINE * num_full_lines as u32;
        self.score = self.score.saturating_add(pts);
        let ghost cleared = grid(self.state);
        self.init_block();
        let pos = Self::position_of(&self.block);
        let hit = crate::block::does_intersect(&pos, &r, &self.state, &bg);
        proof {
            crate::block::lemma_pos_hits_iff_block_hits(self.block, pos@, grid(self.state), bg);
        }
        if hit {
            self.has_game_ended = true;
        }
        self.draw_block();
        num_full_lines
    }

    /// Delivers one timer tick. Once the game has ended this is a no-op.
    /// Otherwise a resting piece earns one more consecutive resting tick,
    /// a falling piece resets the counter, and on the third consecutive
    /// resting tick the piece is hard-locked. Returns the number of rows the
    /// lock cleared, or zero when no lock happened. Timer ticks award no
    /// points of their own.
    pub fn tick_count(&mut self) -> (r: usize)
        requires
            board_wf(*old(self)),
        ensures
            board_wf(*final(self)),
            r <= ROWS,
            old(self).has_game_ended ==> *final(self) == *old(self) && r == 0,
            !old(self).has_game_ended && !resting(*old(self)) ==> *final(self) == (Board {
                tick_count: 0,
                ..*old(self)
            }) && r == 0,
            !old(self).has_game_ended && resting(*old(self)) && old(self).tick_count + 1
                < LOCK_DELAY_TICKS ==> *final(self) == (Board {
                tick_count: (old(self).tick_count + 1) as u8,
                ..*old(self)
            }) && r == 0,
            !old(self).has_game_ended && resting(*old(self)) && old(self).tick_count + 1
                == LOCK_DELAY_TICKS ==> {
                &&& lock_step(Board { tick_count: 0, ..*old(self) }, *final(self), r as nat)
                &&& final(self).score == added_score(old(self).score, SCORE_FOR_LINE * r)
                &&& final(self).tick_count == 0
            },
    {
        if self.has_game_ended {
            return 0;
        }
        let is_resting = self.is_put_down();
        if is_resting {
            self.tick_count = self.tick_count + 1;
        } else {
            self.tick_count = 0;
        }
        proof {
            lemma_overlay_same(*old(self), *self);
        }
        let mut cleared: usize = 0;
        if self.tick_count == LOCK_DELAY_TICKS {
            let ghost before_lock = *self;
            cleared = self.put_block();
            self.tick_count = 0;
            proof {
                assert forall|j: int| 0 <= j < 4 implies #[trigger] piece_cell_drawn(
                    *self,
                    j,
                ) by {
                    assert(piece_cell_drawn(Board { tick_count: 0, ..*self }, j)
                        == piece_cell_drawn(*self, j));
                }
            }
        }
        cleared
    }

    /// Applies one player command. Once the game has ended every command is
    /// a no-op. A down command awards one point when the piece is still
    /// falling afterwards; a put command hard-locks the piece and awards a
    /// flat five points on top of the per-line score. Returns the number of
    /// rows cleared (only a put command can clear any).
    pub fn make_action(&mut self, action: Action) -> (r: usize)
        requires
            board_wf(*old(self)),
        ensures
            board_wf(*final(self)),
            r <= ROWS,
            old(self).has_game_ended ==> *final(self) == *old(self) && r == 0,
            !old(self).has_game_ended ==> match action {
                Action::Left => step_left(*old(self), *final(self)) && r == 0,
                Action::Right => step_right(*old(self), *final(self)) && r == 0,
                Action::Down => {
                    &&& step_down(*old(self), *final(self))
                    &&& r == 0
                    &&& final(self).score == (if resting(*final(self)) {
                        old(self).score
                    } else {
                        added_score(old(self).score, 1)
                    })
                },
                Action::Rotate => step_rotate(*old(self), *final(self)) && r == 0,
                Action::Put => {
                    &&& lock_step(*old(self), *final(self), r as nat)
                    &&& final(self).score == added_score(
                        added_score(old(self).score, SCORE_FOR_LINE * r) as u32,
                        5,
                    )
                },
            },
    {
        if self.has_game_ended {
            return 0;
        }
        match action {
            Action::Left => {
                self.move_left();
                0
            },
            Action::Right => {
                self.move_right();
                0
            },
            Action::Down => {
                self.move_down();
                if !self.is_put_down() {
                    self.score = self.score.saturating_add(1);
                }
                0
            },
            Action::Rotate => {
                self.rotate();
                0
            },
            Action::Put => {
                let n = self.put_block();
                self.score = self.score.saturating_add(5);
                n
            },
        }
    }

    /// Injects one garbage line: drops the oldest stored row of every
    /// column and appends a new row that is enemy-colored everywhere except
    /// in one uniformly random column, re-overlaying the active piece
    /// afterwards.
    #[verifier::loop_isolation(false)]
    pub fn add_enemy_line(&mut self)
        requires
            board_wf(*old(self)),
        ensures
            board_wf(*final(self)),
            garbage_one(*old(self), *final(self)),
    {
        self.erase_block();
        let rand_col_index = random_usize() % self.state.len();
        let ghost l = grid(self.state);
        let ghost bg = self.bg_color;
        let ghost enemy = self.enemy_lines_color;
        let ghost shifted = garbage_shift(l, rand_col_index as int, bg, enemy);
        let mut col_index: usize = 0;
        while col_index < COLS as usize
            invariant
                col_index <= COLS,
                rand_col_index < COLS,
                self.state@.len() == COLS,
                grid(self.state).len() == COLS,
                forall|u: int| col_index <= u < COLS ==> grid(self.state)[u] == l[u],
                forall|u: int| 0 <= u < col_index ==> grid(self.state)[u] == shifted[u],
                forall|u: int|
                    0 <= u < COLS ==> (#[trigger] grid(self.state)[u]).len() == ROWS,
                self.block == old(self).block,
                self.rect == old(self).rect,
                self.bg_color == bg,
                self.enemy_lines_color == enemy,
                self.has_game_ended == old(self).has_game_ended,
                self.tick_count == old(self).tick_count,
                self.score == old(self).score,
            decreases COLS - col_index,
        {
            let c = if col_index == rand_col_index {
                self.bg_color
            } else {
                self.enemy_lines_color
            };
            let ghost gprev = grid(self.state);
            proof {
                assert(gprev[col_index as int] == l[col_index as int]);
                assert(l[col_index as int].len() == ROWS);
                assert(gprev[col_index as int] == self.state@[col_index as int]@);
            }
            shift_col(&mut self.state, col_index, c);
            proof {
                assert forall|u: int| 0 <= u < COLS implies #[trigger] grid(self.state)[u] == (
                if u == col_index as int {
                    shifted[u]
                } else {
                    gprev[u]
                }) by {
                    assert(grid(self.state)[u] == self.state@[u]@);
                }
            }
            col_index = col_index + 1;
        }
        self.draw_block();
        proof {
            let k = rand_col_index as int;
            assert(grid(self.state) == painted(shifted, self.block, self.block.color));
        }
    }

    /// Injects the given number of garbage lines, one after the other; one
    /// per full line the attacking player cleared.
    #[verifier::loop_isolation(false)]
    pub fn add_enemy_lines(&mut self, num_lines: usize)
        requires
            board_wf(*old(self)),
        ensures
            board_wf(*final(self)),
            garbage_steps(*old(self), *final(self), num_lines as nat),
    {
        let mut i: usize = 0;
        while i < num_lines
            invariant
                i <= num_lines,
                board_wf(*self),
                garbage_steps(*old(self), *self, i as nat),
            decreases num_lines - i,
        {
            let ghost prev = *self;
            self.add_enemy_line();
            proof {
                assert(garbage_steps(*old(self), prev, i as nat) && garbage_one(prev, *self));
                assert(garbage_steps(*old(self), *self, (i + 1) as nat));
            }
            i = i + 1;
        }
    }

    /// The board's current score.
    pub fn score(&self) -> (s: u32)
        ensures
            s == self.score,
    {
        self.score
    }

    /// Whether this board has topped out.
    pub fn has_game_ended(&self) -> (r: bool)
        ensures
            r == self.has_game_ended,
    {
        self.has_game_ended
    }
}

impl Default for Board {
    /// A fresh board: an empty 10 x 20 grid, a random catalog piece drawn
    /// at its spawn anchor, zero score, and the game running.
    fn default() -> (b: Board)
        ensures
            board_wf(b),
            b.score == 0,
            b.tick_count == 0,
            !b.has_game_ended,
            fresh_spawn(b.block),
            spawn_anchored(b.block),
            grid(b.state) == painted(empty_grid(), b.block, b.block.color),
    {
        let mut state: Vec<Vec<Color>> = Vec::new();
        let mut i: usize = 0;
        while i < COLS as usize
            invariant
                i <= COLS,
                state@.len() == i,
                forall|c: int| 0 <= c < i ==> (#[trigger] state@[c])@ =~= empty_grid()[c],
            decreases COLS - i,
        {
            let mut col: Vec<Color> = Vec::new();
            let mut j: usize = 0;
            while j < ROWS as usize
                invariant
                    j <= ROWS,
                    col@.len() == j,
                    forall|r: int| 0 <= r < j ==> col@[r] == Color::Black,
                decreases ROWS - j,
            {
                col.push(Color::Black);
                j = j + 1;
            }
            proof {
                assert(col@ =~= empty_grid()[state@.len() as int]);
            }
            state.push(col);
            i = i + 1;
        }
        // Initialize with random block.
        let block = catalog_block(random_usize() % 7);
        let mut board = Board {
            state,
            rect: Rect { x: 0, y: 0, width: COLS, height: ROWS },
            bg_color: Color::Black,
            enemy_lines_color: Color::Gray,
            block,
            has_game_ended: false,
            tick_count: 0,
            score: 0,
        };
        proof {
            assert(grid(board.state) =~= empty_grid()) by {
                assert forall|c: int| 0 <= c < COLS implies #[trigger] grid(board.state)[c]
                    == empty_grid()[c] by {
                    assert(grid(board.state)[c] == board.state@[c]@);
                }
            }
        }
        board.draw_block();
        board
    }
}

impl Board {
    /// A fresh board for one player, identical to `default`. Key bindings
    /// live with the input-mapping collaborator, not in the engine.
    pub fn new_player() -> (b: Board)
        ensures
            board_wf(b),
            b.score == 0,
            b.tick_count == 0,
            !b.has_game_ended,
            fresh_spawn(b.block),
            spawn_anchored(b.block),
            grid(b.state) == painted(empty_grid(), b.block, b.block.color),
    {
        Board::default()
    }

    /// Rebuilds a board from a grid and a piece, optionally re-anchored at
    /// `left_corner`, with the piece drawn on top. Returns `None` exactly
    /// when the data does not form a well-formed board.
    pub fn from_data(state: Vec<Vec<Color>>, block: Block, left_corner: Option<Rect>) -> (r: Option<
        Board,
    >)
        ensures
            r.is_some() == from_data_ok(state, block, left_corner),
            r matches Some(bd) ==> {
                &&& board_wf(bd)
                &&& bd.score == 0
                &&& bd.tick_count == 0
                &&& !bd.has_game_ended
                &&& bd.bg_color == Color::Black
                &&& bd.enemy_lines_color == Color::Gray
                &&& bd.block == placed_block(block, left_corner)
                &&& grid(bd.state) == painted(grid(state), bd.block, bd.block.color)
            },
    {
        let ghost state0 = state;
        let mut blk = block;
        match left_corner {
            Some(lc) => {
                blk.rect.x = lc.x;
                blk.rect.y = lc.y;
            },
            None => (),
        }
        assert(blk == placed_block(block, left_corner));
        if state.len() != COLS as usize {
            return None;
        }
        let mut c: usize = 0;
        while c < COLS as usize
            invariant
                state@.len() == COLS,
                c <= COLS,
                forall|u: int| 0 <= u < c ==> (#[trigger] state@[u])@.len() == ROWS,
            decreases COLS - c,
        {
            if state[c].len() != ROWS as usize {
                assert(grid(state)[c as int].len() != ROWS);
                return None;
            }
            c = c + 1;
        }
        proof {
            assert forall|u: int| 0 <= u < COLS implies (#[trigger] grid(state)[u]).len()
                == ROWS by {
                assert(grid(state)[u] == state@[u]@);
            }
        }
        if !check_block_wf(&blk) {
            return None;
        }
        let pr = blk.pos_rects[blk.cur_pos];
        if blk.rect.width != pr.width || blk.rect.height != pr.height {
            return None;
        }
        if blk.rect.x > COLS - blk.rect.width || blk.rect.y > ROWS - blk.rect.height {
            return None;
        }
        if blk.color == Color::Black {
            return None;
        }
        let mut bd = Board {
            state,
            rect: Rect { x: 0, y: 0, width: COLS, height: ROWS },
            bg_color: Color::Black,
            enemy_lines_color: Color::Gray,
            block: blk,
            has_game_ended: false,
            tick_count: 0,
            score: 0,
        };
        bd.draw_block();
        Some(bd)
    }
}

} // verus!
