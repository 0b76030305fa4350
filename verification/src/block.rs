use vstd::prelude::*;

use crate::color::Color;

verus! {

/// A board-space coordinate pair, measured in cells. Values may be negative
/// while a shape offset has not yet been translated on to the board.
#[derive(Clone, Copy, Debug, PartialEq, Eq, Structural)]
pub struct Cell {
    pub x: i16,
    pub y: i16,
}

/// The cells a piece occupies, already translated to absolute board
/// coordinates.
pub type Position = Vec<Cell>;

/// An axis-aligned rectangle in board space. The board itself is the
/// rectangle at the origin; a piece's anchor rectangle tracks the top-left
/// corner and footprint of its current rotation state.
#[derive(Clone, Copy, Debug, PartialEq, Eq, Structural)]
pub struct Rect {
    pub x: u16,
    pub y: u16,
    pub width: u16,
    pub height: u16,
}

/// A bounding-box descriptor for one rotation state: the offset of the new
/// bounding box relative to the pre-rotation anchor, and its footprint.
#[derive(Clone, Copy, Debug, PartialEq, Eq, Structural)]
pub struct Recti16 {
    pub x: i16,
    pub y: i16,
    pub width: u16,
    pub height: u16,
}

/// A tetromino piece: a display color, the table of rotation states (each a
/// list of four cell offsets), the bounding-box descriptor of each state, the
/// index of the current state, and the anchor rectangle on the board.
#[derive(Debug, Clone)]
pub struct Block {
    pub color: Color,
    pub positions: Vec<Position>,
    pub cur_pos: usize,
    pub pos_rects: Vec<Recti16>,
    pub rect: Rect,
}

/// Every bounding-box descriptor of a well-formed piece is small: the seven
/// tetromino shapes never exceed a 4 x 4 footprint, and rotation re-anchors
/// them by at most two columns and at most one row.
pub open spec fn rect16_wf(r: Recti16) -> bool {
    &&& 1 <= r.width <= 4
    &&& 1 <= r.height <= 4
    &&& -2 <= r.x <= 2
    &&& -1 <= r.y <= 1
}

/// A cell offset lies within the given bounding box.
pub open spec fn offset_in_box(c: Cell, r: Recti16) -> bool {
    &&& 0 <= c.x < r.width
    &&& 0 <= c.y < r.height
}

/// Structural well-formedness of a piece: the rotation tables line up, every
/// state has exactly four cells, and every offset fits inside its state's
/// bounding box.
pub open spec fn block_wf(b: Block) -> bool {
    &&& 1 <= b.positions@.len()
    &&& b.pos_rects@.len() == b.positions@.len()
    &&& (b.cur_pos as int) < b.positions@.len()
    &&& forall|i: int| 0 <= i < b.positions@.len() ==> (#[trigger] b.positions@[i])@.len() == 4
    &&& forall|i: int| 0 <= i < b.pos_rects@.len() ==> rect16_wf(#[trigger] b.pos_rects@[i])
    &&& forall|i: int, j: int|
        0 <= i < b.positions@.len() && 0 <= j < 4 ==> offset_in_box(
            #[trigger] b.positions@[i]@[j],
            b.pos_rects@[i],
        )
}

/// The anchor rectangle carries the footprint of the current rotation state.
/// This link is broken temporarily inside `rotate` (the corrective nudges
/// still move the old footprint) and restored when the rotation commits or
/// reverts.
pub open spec fn footprint_ok(b: Block) -> bool {
    &&& b.rect.width == b.pos_rects@[b.cur_pos as int].width
    &&& b.rect.height == b.pos_rects@[b.cur_pos as int].height
}

/// The anchor rectangle lies inside a board of the given bounds (whose own
/// corner is the origin).
pub open spec fn in_bounds(b: Block, bounds: Rect) -> bool {
    &&& b.rect.x + b.rect.width <= bounds.width
    &&& b.rect.y + b.rect.height <= bounds.height
}

/// A board rectangle the engine accepts: anchored at the origin, at least as
/// large as any piece footprint, and small enough that all coordinate
/// arithmetic stays well inside 16 bits.
pub open spec fn bounds_wf(bounds: Rect) -> bool {
    &&& bounds.x == 0
    &&& bounds.y == 0
    &&& 4 <= bounds.width <= 30000
    &&& 4 <= bounds.height <= 30000
}

/// The cell offset at index `j` of the current rotation state.
pub open spec fn cur_offset(b: Block, j: int) -> Cell {
    b.positions@[b.cur_pos as int]@[j]
}

/// The absolute column of the piece's `j`-th cell.
pub open spec fn abs_x(b: Block, j: int) -> int {
    cur_offset(b, j).x + b.rect.x
}

/// The absolute row of the piece's `j`-th cell.
pub open spec fn abs_y(b: Block, j: int) -> int {
    cur_offset(b, j).y + b.rect.y
}

/// The piece covers board cell `(x, y)`.
pub open spec fn covers(b: Block, x: int, y: int) -> bool {
    exists|j: int| 0 <= j < 4 && abs_x(b, j) == x && abs_y(b, j) == y
}

/// The grid contents as a sequence of columns, each a sequence of rows.
pub open spec fn grid(state: Vec<Vec<Color>>) -> Seq<Seq<Color>> {
    state@.map_values(|col: Vec<Color>| col@)
}

/// Board cell `(x, y)` exists in the grid and holds something other than the
/// background color.
pub open spec fn cell_hits(g: Seq<Seq<Color>>, x: int, y: int, bg: Color) -> bool {
    &&& 0 <= x < g.len()
    &&& 0 <= y < g[x].len()
    &&& g[x][y] != bg
}

/// Some cell of the given position overlaps a filled grid cell. Cells outside
/// the grid are not collisions here; boundary legality is checked separately
/// by the movement operations.
pub open spec fn pos_hits(pos: Seq<Cell>, g: Seq<Seq<Color>>, bg: Color) -> bool {
    exists|j: int| 0 <= j < pos.len() && cell_hits(g, pos[j].x as int, pos[j].y as int, bg)
}

/// Some cell of the piece overlaps a filled grid cell.
pub open spec fn block_hits(b: Block, g: Seq<Seq<Color>>, bg: Color) -> bool {
    exists|j: int| 0 <= j < 4 && cell_hits(g, abs_x(b, j), abs_y(b, j), bg)
}

/// The piece, moved one row down.
pub open spec fn shifted_down(b: Block) -> Block {
    Block { rect: Rect { y: (b.rect.y + 1) as u16, ..b.rect }, ..b }
}

/// The piece, moved one row up.
pub open spec fn shifted_up(b: Block) -> Block {
    Block { rect: Rect { y: (b.rect.y - 1) as u16, ..b.rect }, ..b }
}

/// The piece, moved one column left.
pub open spec fn shifted_left(b: Block) -> Block {
    Block { rect: Rect { x: (b.rect.x - 1) as u16, ..b.rect }, ..b }
}

/// The piece, moved one column right.
pub open spec fn shifted_right(b: Block) -> Block {
    Block { rect: Rect { x: (b.rect.x + 1) as u16, ..b.rect }, ..b }
}

/// A move down succeeds exactly when the footprint stays above the floor and
/// the shifted piece overlaps no filled cell.
pub open spec fn can_move_down(b: Block, g: Seq<Seq<Color>>, bg: Color, bounds: Rect) -> bool {
    &&& b.rect.y + b.rect.height + 1 <= bounds.height
    &&& !block_hits(shifted_down(b), g, bg)
}

/// A move up succeeds exactly when the piece is below the top edge and the
/// shifted piece overlaps no filled cell.
pub open spec fn can_move_up(b: Block, g: Seq<Seq<Color>>, bg: Color) -> bool {
    &&& b.rect.y >= 1
    &&& !block_hits(shifted_up(b), g, bg)
}

/// A move left succeeds exactly when the piece is right of the left edge and
/// the shifted piece overlaps no filled cell.
pub open spec fn can_move_left(b: Block, g: Seq<Seq<Color>>, bg: Color) -> bool {
    &&& b.rect.x >= 1
    &&& !block_hits(shifted_left(b), g, bg)
}

/// A move right succeeds exactly when the footprint stays left of the right
/// edge and the shifted piece overlaps no filled cell.
pub open spec fn can_move_right(b: Block, g: Seq<Seq<Color>>, bg: Color, bounds: Rect) -> bool {
    &&& b.rect.x + b.rect.width + 1 <= bounds.width
    &&& !block_hits(shifted_right(b), g, bg)
}

/// The fields a movement operation never touches.
pub open spec fn same_tables(a: Block, b: Block) -> bool {
    &&& b.color == a.color
    &&& b.positions == a.positions
    &&& b.pos_rects == a.pos_rects
}

/// Reports whether any cell of `position` that lies inside the grid holds a
/// non-background color. Cells outside the grid are ignored.
pub fn does_intersect(
    position: &Position,
    rect: &Rect,
    state: &Vec<Vec<Color>>,
    bg_color: &Color,
) -> (r: bool)
    requires
        rect.x == 0 && rect.y == 0,
    ensures
        r == pos_hits(position@, grid(*state), *bg_color),
{
    let n = position.len();
    let mut k: usize = 0;
    while k < n
        invariant
            n == position@.len(),
            k <= n,
            forall|j: int|
                0 <= j < k ==> !cell_hits(
                    grid(*state),
                    position@[j].x as int,
                    position@[j].y as int,
                    *bg_color,
                ),
        decreases n - k,
    {
        let cell = position[k];
        if cell.x >= 0 && cell.y >= 0 {
            let cx = cell.x as usize;
            let cy = cell.y as usize;
            if cx < state.len() && cy < state[cx].len() && state[cx][cy] != *bg_color {
                assert(cell_hits(grid(*state), position@[k as int].x as int, position@[k as int].y as int, *bg_color));
                return true;
            }
        }
        k = k + 1;
    }
    false
}

impl Block {
    /// The absolute board cells of the current rotation state: each offset of
    /// the state, translated by the anchor.
    pub fn position(&self) -> (pos: Position)
        requires
            block_wf(*self),
            self.rect.x <= 30001,
            self.rect.y <= 30001,
        ensures
            pos@.len() == 4,
            forall|j: int|
                0 <= j < 4 ==> (#[trigger] pos@[j]).x == abs_x(*self, j) && pos@[j].y == abs_y(
                    *self,
                    j,
                ),
    {
        let mut pos = Position::new();
        let cur_pos = &self.positions[self.cur_pos];
        let n = cur_pos.len();
        let mut i: usize = 0;
        while i < n
            invariant
                block_wf(*self),
                self.rect.x <= 30001,
                self.rect.y <= 30001,
                n == 4,
                cur_pos@ == self.positions@[self.cur_pos as int]@,
                i <= n,
                pos@.len() == i,
                forall|j: int|
                    0 <= j < i ==> (#[trigger] pos@[j]).x == abs_x(*self, j) && pos@[j].y == abs_y(
                        *self,
                        j,
                    ),
            decreases n - i,
        {
            let x = cur_pos[i].x + self.rect.x as i16;
            let y = cur_pos[i].y + self.rect.y as i16;
            pos.push(Cell { x, y });
            i = i + 1;
        }
        pos
    }

    /// The piece's display color.
    pub fn color(&self) -> (c: Color)
        ensures
            c == self.color,
    {
        self.color
    }

    /// Moves the piece one column right if the result stays on the board and
    /// overlaps no filled cell; otherwise leaves it unchanged.
    pub fn move_right(
        &mut self,
        rect: &Rect,
        state: &Vec<Vec<Color>>,
        bg_color: &Color,
    ) -> (r: bool)
        requires
            block_wf(*old(self)),
            bounds_wf(*rect),
            in_bounds(*old(self), *rect),
        ensures
            block_wf(*final(self)),
            in_bounds(*final(self), *rect),
            same_tables(*old(self), *final(self)),
            final(self).cur_pos == old(self).cur_pos,
            final(self).rect.y == old(self).rect.y,
            final(self).rect.width == old(self).rect.width,
            final(self).rect.height == old(self).rect.height,
            r == can_move_right(*old(self), grid(*state), *bg_color, *rect),
            r ==> final(self).rect.x == old(self).rect.x + 1,
            !r ==> *final(self) == *old(self),
    {
        if self.rect.x + self.rect.width + 1 <= rect.width {
            self.rect.x = self.rect.x + 1;
            let pos = self.position();
            let hit = does_intersect(&pos, rect, state, bg_color);
            proof {
                assert(*self == shifted_right(*old(self)));
                lemma_pos_hits_iff_block_hits(*self, pos@, grid(*state), *bg_color);
            }
            if hit {
                self.rect.x = self.rect.x - 1;
                assert(*self == *old(self));
                return false;
            }
            return true;
        }
        return false;
    }

    /// Moves the piece one column left if the result stays on the board and
    /// overlaps no filled cell; otherwise leaves it unchanged.
    pub fn move_left(
        &mut self,
        rect: &Rect,
        state: &Vec<Vec<Color>>,
        bg_color: &Color,
    ) -> (r: bool)
        requires
            block_wf(*old(self)),
            bounds_wf(*rect),
            in_bounds(*old(self), *rect),
        ensures
            block_wf(*final(self)),
            in_bounds(*final(self), *rect),
            same_tables(*old(self), *final(self)),
            final(self).cur_pos == old(self).cur_pos,
            final(self).rect.y == old(self).rect.y,
            final(self).rect.width == old(self).rect.width,
            final(self).rect.height == old(self).rect.height,
            r == can_move_left(*old(self), grid(*state), *bg_color),
            r ==> final(self).rect.x == old(self).rect.x - 1,
            !r ==> *final(self) == *old(self),
    {
        if self.rect.x >= 1 {
            self.rect.x = self.rect.x - 1;
            let pos = self.position();
            let hit = does_intersect(&pos, rect, state, bg_color);
            proof {
                assert(*self == shifted_left(*old(self)));
                lemma_pos_hits_iff_block_hits(*self, pos@, grid(*state), *bg_color);
            }
            if hit {
                self.rect.x = self.rect.x + 1;
                assert(*self == *old(self));
                return false;
            }
            return true;
        }
        return false;
    }

    /// Moves the piece one row down if the result stays above the floor and
    /// overlaps no filled cell; otherwise leaves it unchanged. Every cell
    /// keeps its column and gains exactly one row on success.
    pub fn move_down(
        &mut self,
        rect: &Rect,
        state: &Vec<Vec<Color>>,
        bg_color: &Color,
    ) -> (r: bool)
        requires
            block_wf(*old(self)),
            bounds_wf(*rect),
            in_bounds(*old(self), *rect),
        ensures
            block_wf(*final(self)),
            in_bounds(*final(self), *rect),
            same_tables(*old(self), *final(self)),
            final(self).cur_pos == old(self).cur_pos,
            final(self).rect.x == old(self).rect.x,
            final(self).rect.width == old(self).rect.width,
            final(self).rect.height == old(self).rect.height,
            r == can_move_down(*old(self), grid(*state), *bg_color, *rect),
            r ==> final(self).rect.y == old(self).rect.y + 1,
            r ==> forall|j: int|
                0 <= j < 4 ==> abs_x(*final(self), j) == abs_x(*old(self), j) && abs_y(*final(self), j) == abs_y(
                    *old(self),
                    j,
                ) + 1,
            !r ==> *final(self) == *old(self),
    {
        if self.rect.y + self.rect.height + 1 <= rect.height {
            self.rect.y = self.rect.y + 1;
            let pos = self.position();
            let hit = does_intersect(&pos, rect, state, bg_color);
            proof {
                assert(*self == shifted_down(*old(self)));
                lemma_pos_hits_iff_block_hits(*self, pos@, grid(*state), *bg_color);
            }
            if hit {
                self.rect.y = self.rect.y - 1;
                assert(*self == *old(self));
                return false;
            }
            return true;
        }
        return false;
    }

    /// Moves the piece one row up if the result stays below the top edge and
    /// overlaps no filled cell; otherwise leaves it unchanged.
    pub fn move_up(&mut self, rect: &Rect, state: &Vec<Vec<Color>>, bg_color: &Color) -> (r: bool)
        requires
            block_wf(*old(self)),
            bounds_wf(*rect),
            in_bounds(*old(self), *rect),
        ensures
            block_wf(*final(self)),
            in_bounds(*final(self), *rect),
            same_tables(*old(self), *final(self)),
            final(self).cur_pos == old(self).cur_pos,
            final(self).rect.x == old(self).rect.x,
            final(self).rect.width == old(self).rect.width,
            final(self).rect.height == old(self).rect.height,
            r == can_move_up(*old(self), grid(*state), *bg_color),
            r ==> final(self).rect.y == old(self).rect.y - 1,
            !r ==> *final(self) == *old(self),
    {
        if self.rect.y >= 1 {
            self.rect.y = self.rect.y - 1;
            let pos = self.position();
            let hit = does_intersect(&pos, rect, state, bg_color);
            proof {
                assert(*self == shifted_up(*old(self)));
                lemma_pos_hits_iff_block_hits(*self, pos@, grid(*state), *bg_color);
            }
            if hit {
                self.rect.y = self.rect.y + 1;
                assert(*self == *old(self));
                return false;
            }
            return true;
        }
        return false;
    }
}

/// The rotation state that follows the current one, wrapping around.
pub open spec fn next_index(b: Block) -> int {
    ((b.cur_pos as int) + 1) % (b.positions@.len() as int)
}

/// The piece's next rotation state, carried on the old footprint at anchor
/// `(x, y)`: the shape the corrective nudges move and test for collisions.
pub open spec fn probe(b: Block, x: int, y: int) -> Block {
    Block {
        cur_pos: next_index(b) as usize,
        rect: Rect { x: x as u16, y: y as u16, ..b.rect },
        ..b
    }
}

/// The anchor column after the left-edge nudges: moved right just far
/// enough that the next state's bounding box no longer crosses the left
/// edge.
pub open spec fn nudged_left_x(b: Block) -> int {
    let pr = b.pos_rects@[next_index(b)];
    if b.rect.x + pr.x < 0 {
        0 - pr.x
    } else {
        b.rect.x as int
    }
}

/// The anchor column after the left- and then the right-edge nudges.
pub open spec fn nudged_x(b: Block, bounds: Rect) -> int {
    let pr = b.pos_rects@[next_index(b)];
    let xl = nudged_left_x(b);
    if xl + pr.x + pr.width > bounds.width {
        bounds.width - pr.width - pr.x
    } else {
        xl
    }
}

/// The anchor row after the bottom-edge nudges.
pub open spec fn nudged_y(b: Block, bounds: Rect) -> int {
    let pr = b.pos_rects@[next_index(b)];
    if b.rect.y + pr.y + pr.height > bounds.height {
        bounds.height - pr.height - pr.y
    } else {
        b.rect.y as int
    }
}

/// The piece as a committed rotation leaves it: the next rotation state,
/// anchored at the nudged anchor plus that state's bounding-box offset, and
/// carrying that state's footprint. The nudges resolve the left edge first,
/// then the right edge, then the bottom edge.
pub open spec fn kicked_commit(b: Block, bounds: Rect) -> Block {
    let pr = b.pos_rects@[next_index(b)];
    Block {
        cur_pos: next_index(b) as usize,
        rect: Rect {
            x: (nudged_x(b, bounds) + pr.x) as u16,
            y: (nudged_y(b, bounds) + pr.y) as u16,
            width: pr.width,
            height: pr.height,
        },
        ..b
    }
}

/// Every corrective nudge the rotation needs is legal: each rightward nudge
/// keeps the old footprint left of the right edge and hits nothing, each
/// leftward and upward nudge stays on the board and hits nothing, and the
/// committed anchor does not leave the board at the top. Under this
/// condition a rotation cannot abort in its nudge phase.
pub open spec fn nudge_path_clear(b: Block, g: Seq<Seq<Color>>, bg: Color, bounds: Rect) -> bool {
    let pr = b.pos_rects@[next_index(b)];
    let xl = nudged_left_x(b);
    let xr = nudged_x(b, bounds);
    let yf = nudged_y(b, bounds);
    &&& forall|x: int|
        b.rect.x < x <= xl ==> x + b.rect.width <= bounds.width && !block_hits(
            #[trigger] probe(b, x, b.rect.y as int),
            g,
            bg,
        )
    &&& forall|x: int|
        xr <= x < xl ==> !block_hits(#[trigger] probe(b, x, b.rect.y as int), g, bg)
    &&& xr >= 0
    &&& forall|y: int| yf <= y < b.rect.y ==> !block_hits(#[trigger] probe(b, xr, y), g, bg)
    &&& yf >= 0
    &&& yf + pr.y >= 0
}

/// Everything `rotate` guarantees about its result: the piece stays
/// well-formed, on the board, and free of overlaps; it is either left
/// exactly as it was or is exactly the committed rotation `kicked_commit`;
/// and whenever every needed nudge is legal and the committed placement is
/// collision-free, the rotation does commit.
pub open spec fn rotate_rel(
    pre: Block,
    g: Seq<Seq<Color>>,
    bg: Color,
    bounds: Rect,
    post: Block,
) -> bool {
    &&& block_wf(post)
    &&& footprint_ok(post)
    &&& in_bounds(post, bounds)
    &&& same_tables(pre, post)
    &&& !block_hits(post, g, bg)
    &&& (post == pre || post == kicked_commit(pre, bounds))
    &&& (nudge_path_clear(pre, g, bg, bounds) && !block_hits(kicked_commit(pre, bounds), g, bg)
        ==> post == kicked_commit(pre, bounds))
}

impl Block {
    /// Advances the piece to its next rotation state, nudging it right, left
    /// or up as far as needed to keep the new bounding box on the board. If a
    /// nudge is blocked, the committed anchor would leave the board at the
    /// top, or the rotated piece would overlap a filled cell, the piece is
    /// left exactly as it was.
    #[verifier::loop_isolation(false)]
    pub fn rotate(&mut self, rect: &Rect, state: &Vec<Vec<Color>>, bg_color: &Color)
        requires
            block_wf(*old(self)),
            footprint_ok(*old(self)),
            bounds_wf(*rect),
            in_bounds(*old(self), *rect),
            !block_hits(*old(self), grid(*state), *bg_color),
        ensures
            rotate_rel(*old(self), grid(*state), *bg_color, *rect, *final(self)),
    {
        let ghost orig: Block = *self;
        let ghost g = grid(*state);
        let ghost bg = *bg_color;
        let ghost bnds = *rect;
        let old_pos = self.cur_pos;
        let before = self.rect;
        // Change to next position
        let n_states = self.positions.len();
        assert(self.cur_pos < n_states);
        self.cur_pos = (self.cur_pos + 1) % n_states;
        let cur_pos_rect = self.pos_rects[self.cur_pos];
        assert(cur_pos_rect == orig.pos_rects@[next_index(orig)]);
        let ghost xl = nudged_left_x(orig);
        let ghost xr = nudged_x(orig, bnds);
        let ghost yf = nudged_y(orig, bnds);

        // If the block is in the left corner, move it right enough to rotate
        while (self.rect.x as i16) + cur_pos_rect.x < 0
            invariant
                block_wf(*self),
                in_bounds(*self, *rect),
                same_tables(orig, *self),
                self.cur_pos as int == next_index(orig),
                self.rect.y == orig.rect.y,
                self.rect.width == orig.rect.width,
                self.rect.height == orig.rect.height,
                orig.rect.x <= self.rect.x <= xl,
            decreases (0 - (cur_pos_rect.x as int)) - (self.rect.x as int),
        {
            assert(self.rect.x < xl);
            if !self.move_right(rect, state, bg_color) {
                proof {
                    if nudge_path_clear(orig, g, bg, bnds) {
                        assert(probe(orig, self.rect.x + 1, orig.rect.y as int) == shifted_right(
                            *self,
                        ));
                        assert(false);
                    }
                }
                self.cur_pos = old_pos;
                self.rect = before;
                assert(*self == orig);
                return ;
            }
        }
        assert(self.rect.x as int == xl);
        // If the block is in the right corner, move it left enough to rotate
        while (self.rect.x as i16) + (cur_pos_rect.width as i16) + cur_pos_rect.x
            > rect.width as i16
            invariant
                block_wf(*self),
                in_bounds(*self, *rect),
                same_tables(orig, *self),
                self.cur_pos as int == next_index(orig),
                self.rect.y == orig.rect.y,
                self.rect.width == orig.rect.width,
                self.rect.height == orig.rect.height,
                xr <= self.rect.x as int <= xl,
            decreases self.rect.x as int,
        {
            assert(self.rect.x as int > xr);
            if !self.move_left(rect, state, bg_color) {
                proof {
                    if nudge_path_clear(orig, g, bg, bnds) {
                        assert(probe(orig, self.rect.x - 1, orig.rect.y as int) == shifted_left(
                            *self,
                        ));
                        assert(false);
                    }
                }
                self.cur_pos = old_pos;
                self.rect = before;
                assert(*self == orig);
                return ;
            }
        }
        assert(self.rect.x as int == xr);
        assert(self.rect.x + cur_pos_rect.x >= 0);
        // If the block is in the bottom, move it up enough to rotate
        while (self.rect.y as i16) + (cur_pos_rect.height as i16) + cur_pos_rect.y
            > rect.height as i16
            invariant
                block_wf(*self),
                in_bounds(*self, *rect),
                same_tables(orig, *self),
                self.cur_pos as int == next_index(orig),
                self.rect.x as int == xr,
                self.rect.width == orig.rect.width,
                self.rect.height == orig.rect.height,
                yf <= self.rect.y as int <= orig.rect.y,
            decreases self.rect.y as int,
        {
            assert(self.rect.y as int > yf);
            if !self.move_up(rect, state, bg_color) {
                proof {
                    if nudge_path_clear(orig, g, bg, bnds) {
                        assert(probe(orig, xr, self.rect.y - 1) == shifted_up(*self));
                        assert(false);
                    }
                }
                self.cur_pos = old_pos;
                self.rect = before;
                assert(*self == orig);
                return ;
            }
        }
        assert(self.rect.y as int == yf);

        // A descriptor may re-anchor one row upward; from the top row that
        // would leave the board, so the rotation aborts instead.
        if (self.rect.y as i16) + cur_pos_rect.y < 0 {
            self.cur_pos = old_pos;
            self.rect = before;
            assert(*self == orig);
            return ;
        }

        self.rect.x = ((self.rect.x as i16) + cur_pos_rect.x) as u16;
        self.rect.y = ((self.rect.y as i16) + cur_pos_rect.y) as u16;
        self.rect.width = cur_pos_rect.width;
        self.rect.height = cur_pos_rect.height;
        assert(*self == kicked_commit(orig, bnds));

        let pos = self.position();
        let hit = does_intersect(&pos, rect, state, bg_color);
        proof {
            lemma_pos_hits_iff_block_hits(*self, pos@, grid(*state), *bg_color);
        }
        if hit {
            self.cur_pos = old_pos;
            self.rect = before;
            assert(*self == orig);
            return ;
        }
    }
}

/// The overlap predicate over a piece's absolute cells agrees with the
/// predicate over its computed position, whenever the position lists exactly
/// the piece's absolute cells.
pub proof fn lemma_pos_hits_iff_block_hits(b: Block, pos: Seq<Cell>, g: Seq<Seq<Color>>, bg: Color)
    requires
        pos.len() == 4,
        forall|j: int|
            0 <= j < 4 ==> (#[trigger] pos[j]).x == abs_x(b, j) && pos[j].y == abs_y(b, j),
    ensures
        pos_hits(pos, g, bg) == block_hits(b, g, bg),
{
    if pos_hits(pos, g, bg) {
        let j = choose|j: int|
            0 <= j < pos.len() && cell_hits(g, pos[j].x as int, pos[j].y as int, bg);
        assert(cell_hits(g, abs_x(b, j), abs_y(b, j), bg));
    }
    if block_hits(b, g, bg) {
        let j = choose|j: int| 0 <= j < 4 && cell_hits(g, abs_x(b, j), abs_y(b, j), bg);
        assert(cell_hits(g, pos[j].x as int, pos[j].y as int, bg));
    }
}

} // verus!
