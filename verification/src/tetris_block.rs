use vstd::prelude::*;

use crate::block::{block_wf, footprint_ok, Block, Cell, Rect, Recti16};
use crate::color::Color;

verus! {

/// The rotation states of a piece as plain sequences of cell offsets.
pub open spec fn block_states(b: Block) -> Seq<Seq<Cell>> {
    b.positions@.map_values(|p: Vec<Cell>| p@)
}

/// The I piece alternates between a horizontal bar and a vertical bar.
pub open spec fn cyan_states() -> Seq<Seq<Cell>> {
    seq![
        seq![
            Cell { x: 0, y: 0 },
            Cell { x: 1, y: 0 },
            Cell { x: 2, y: 0 },
            Cell { x: 3, y: 0 },
        ],
        seq![
            Cell { x: 0, y: 0 },
            Cell { x: 0, y: 1 },
            Cell { x: 0, y: 2 },
            Cell { x: 0, y: 3 },
        ],
        seq![
            Cell { x: 0, y: 0 },
            Cell { x: 1, y: 0 },
            Cell { x: 2, y: 0 },
            Cell { x: 3, y: 0 },
        ],
        seq![
            Cell { x: 0, y: 0 },
            Cell { x: 0, y: 1 },
            Cell { x: 0, y: 2 },
            Cell { x: 0, y: 3 },
        ],
    ]
}

/// The bounding boxes of the I piece's rotation states.
pub open spec fn cyan_rects() -> Seq<Recti16> {
    seq![
        Recti16 { x: -1i16, y: 0, width: 4, height: 1 },
        Recti16 { x: 2, y: 0, width: 1, height: 4 },
        Recti16 { x: -2i16, y: 0, width: 4, height: 1 },
        Recti16 { x: 1, y: 0, width: 1, height: 4 },
    ]
}

/// The spawn anchor of the I piece.
pub open spec fn cyan_spawn_rect() -> Rect {
    Rect { x: 3, y: 0, width: 4, height: 1 }
}

/// The J piece (blue), in its four rotation states.
pub open spec fn blue_states() -> Seq<Seq<Cell>> {
    seq![
        seq![
            Cell { x: 0, y: 0 },
            Cell { x: 0, y: 1 },
            Cell { x: 1, y: 1 },
            Cell { x: 2, y: 1 },
        ],
        seq![
            Cell { x: 0, y: 0 },
            Cell { x: 0, y: 1 },
            Cell { x: 0, y: 2 },
            Cell { x: 1, y: 0 },
        ],
        seq![
            Cell { x: 0, y: 0 },
            Cell { x: 1, y: 0 },
            Cell { x: 2, y: 0 },
            Cell { x: 2, y: 1 },
        ],
        seq![
            Cell { x: 0, y: 2 },
            Cell { x: 1, y: 0 },
            Cell { x: 1, y: 1 },
            Cell { x: 1, y: 2 },
        ],
    ]
}

/// The L piece (orange), in its four rotation states.
pub open spec fn orange_states() -> Seq<Seq<Cell>> {
    seq![
        seq![
            Cell { x: 0, y: 1 },
            Cell { x: 1, y: 1 },
            Cell { x: 2, y: 0 },
            Cell { x: 2, y: 1 },
        ],
        seq![
            Cell { x: 0, y: 0 },
            Cell { x: 0, y: 1 },
            Cell { x: 0, y: 2 },
            Cell { x: 1, y: 2 },
        ],
        seq![
            Cell { x: 0, y: 0 },
            Cell { x: 0, y: 1 },
            Cell { x: 1, y: 0 },
            Cell { x: 2, y: 0 },
        ],
        seq![
            Cell { x: 0, y: 0 },
            Cell { x: 1, y: 0 },
            Cell { x: 1, y: 1 },
            Cell { x: 1, y: 2 },
        ],
    ]
}

/// The S piece (green) alternates between a horizontal and a vertical state.
pub open spec fn green_states() -> Seq<Seq<Cell>> {
    seq![
        seq![
            Cell { x: 0, y: 1 },
            Cell { x: 1, y: 0 },
            Cell { x: 1, y: 1 },
            Cell { x: 2, y: 0 },
        ],
        seq![
            Cell { x: 0, y: 0 },
            Cell { x: 0, y: 1 },
            Cell { x: 1, y: 1 },
            Cell { x: 1, y: 2 },
        ],
        seq![
            Cell { x: 0, y: 1 },
            Cell { x: 1, y: 0 },
            Cell { x: 1, y: 1 },
            Cell { x: 2, y: 0 },
        ],
        seq![
            Cell { x: 0, y: 0 },
            Cell { x: 0, y: 1 },
            Cell { x: 1, y: 1 },
            Cell { x: 1, y: 2 },
        ],
    ]
}

/// The Z piece (red) alternates between a horizontal and a vertical state.
pub open spec fn red_states() -> Seq<Seq<Cell>> {
    seq![
        seq![
            Cell { x: 0, y: 0 },
            Cell { x: 1, y: 0 },
            Cell { x: 1, y: 1 },
            Cell { x: 2, y: 1 },
        ],
        seq![
            Cell { x: 0, y: 1 },
            Cell { x: 0, y: 2 },
            Cell { x: 1, y: 0 },
            Cell { x: 1, y: 1 },
        ],
        seq![
            Cell { x: 0, y: 0 },
            Cell { x: 1, y: 0 },
            Cell { x: 1, y: 1 },
            Cell { x: 2, y: 1 },
        ],
        seq![
            Cell { x: 0, y: 1 },
            Cell { x: 0, y: 2 },
            Cell { x: 1, y: 0 },
            Cell { x: 1, y: 1 },
        ],
    ]
}

/// The T piece (purple), in its four rotation states.
pub open spec fn purple_states() -> Seq<Seq<Cell>> {
    seq![
        seq![
            Cell { x: 0, y: 1 },
            Cell { x: 1, y: 0 },
            Cell { x: 1, y: 1 },
            Cell { x: 2, y: 1 },
        ],
        seq![
            Cell { x: 0, y: 0 },
            Cell { x: 0, y: 1 },
            Cell { x: 0, y: 2 },
            Cell { x: 1, y: 1 },
        ],
        seq![
            Cell { x: 0, y: 0 },
            Cell { x: 1, y: 0 },
            Cell { x: 1, y: 1 },
            Cell { x: 2, y: 0 },
        ],
        seq![
            Cell { x: 0, y: 1 },
            Cell { x: 1, y: 0 },
            Cell { x: 1, y: 1 },
            Cell { x: 1, y: 2 },
        ],
    ]
}

/// The O piece (yellow) has a single rotation state.
pub open spec fn yellow_states() -> Seq<Seq<Cell>> {
    seq![
        seq![
            Cell { x: 0, y: 0 },
            Cell { x: 0, y: 1 },
            Cell { x: 1, y: 0 },
            Cell { x: 1, y: 1 },
        ],
    ]
}

/// The bounding boxes shared by the J, L, S, Z and T pieces' rotation
/// states.
pub open spec fn bogrp_rects() -> Seq<Recti16> {
    seq![
        Recti16 { x: 0, y: 0, width: 3, height: 2 },
        Recti16 { x: 1, y: 0, width: 2, height: 3 },
        Recti16 { x: -1i16, y: 1, width: 3, height: 2 },
        Recti16 { x: 0, y: -1i16, width: 2, height: 3 },
    ]
}

/// The bounding box of the O piece's single state.
pub open spec fn yellow_rects() -> Seq<Recti16> {
    seq![Recti16 { x: 0, y: 0, width: 2, height: 2 }]
}

/// The spawn anchor shared by the J, L, S, Z and T pieces.
pub open spec fn bogrp_spawn_rect() -> Rect {
    Rect { x: 3, y: 0, width: 3, height: 2 }
}

/// The spawn anchor of the O piece.
pub open spec fn yellow_spawn_rect() -> Rect {
    Rect { x: 4, y: 0, width: 2, height: 2 }
}

/// The catalog entry at index `i`, in the order cyan, blue, orange, green,
/// red, purple, yellow.
pub open spec fn catalog_desc(i: int, b: Block) -> bool {
    if i == 0 {
        block_matches(b, Color::Cyan, cyan_states(), cyan_rects(), cyan_spawn_rect())
    } else if i == 1 {
        block_matches(b, Color::Blue, blue_states(), bogrp_rects(), bogrp_spawn_rect())
    } else if i == 2 {
        block_matches(b, Color::Orange, orange_states(), bogrp_rects(), bogrp_spawn_rect())
    } else if i == 3 {
        block_matches(b, Color::Green, green_states(), bogrp_rects(), bogrp_spawn_rect())
    } else if i == 4 {
        block_matches(b, Color::Red, red_states(), bogrp_rects(), bogrp_spawn_rect())
    } else if i == 5 {
        block_matches(b, Color::Purple, purple_states(), bogrp_rects(), bogrp_spawn_rect())
    } else {
        block_matches(b, Color::Yellow, yellow_states(), yellow_rects(), yellow_spawn_rect())
    }
}

/// A freshly spawned piece: some catalog entry at its spawn anchor.
pub open spec fn fresh_spawn(b: Block) -> bool {
    exists|i: int| 0 <= i < 7 && catalog_desc(i, b)
}

/// Bounds common to every spawn: rotation state zero, an anchor in the top
/// rows near the middle of a board at least 7 cells wide, and a piece color
/// distinct from the background and garbage colors.
pub open spec fn spawn_anchored(b: Block) -> bool {
    &&& b.rect.x + b.rect.width <= 7
    &&& b.rect.y == 0
    &&& b.rect.height <= 2
    &&& b.cur_pos == 0
    &&& b.color != Color::Black
    &&& b.color != Color::Gray
}

/// The bounding boxes shared by the J, L, S, Z and T piece factories.
fn bogrp_pos_rects() -> (r: Vec<Recti16>)
    ensures
        r@ == bogrp_rects(),
{
    let r = vec![
        Recti16 { x: 0, y: 0, width: 3, height: 2 },
        Recti16 { x: 1, y: 0, width: 2, height: 3 },
        Recti16 { x: -1, y: 1, width: 3, height: 2 },
        Recti16 { x: 0, y: -1, width: 2, height: 3 },
    ];
    proof {
        assert(r@ =~= bogrp_rects());
    }
    r
}

/// A piece value matches a catalog entry: the given color, the first rotation
/// state, the given state and bounding-box tables, and the given spawn
/// anchor.
pub open spec fn block_matches(
    b: Block,
    color: Color,
    states: Seq<Seq<Cell>>,
    rects: Seq<Recti16>,
    rect: Rect,
) -> bool {
    &&& b.color == color
    &&& b.cur_pos == 0
    &&& block_states(b) == states
    &&& b.pos_rects@ == rects
    &&& b.rect == rect
}

impl Block {
    /// A fresh I piece (cyan) at its spawn anchor.
    pub fn new_cyan() -> (r: Block)
        ensures
            block_matches(r, Color::Cyan, cyan_states(), cyan_rects(), cyan_spawn_rect()),
            block_wf(r),
            footprint_ok(r),
    {
        let color = Color::Cyan;
        let positions = vec![
            vec![
                Cell { x: 0, y: 0 },
                Cell { x: 1, y: 0 },
                Cell { x: 2, y: 0 },
                Cell { x: 3, y: 0 },
            ],
            vec![
                Cell { x: 0, y: 0 },
                Cell { x: 0, y: 1 },
                Cell { x: 0, y: 2 },
                Cell { x: 0, y: 3 },
            ],
            vec![
                Cell { x: 0, y: 0 },
                Cell { x: 1, y: 0 },
                Cell { x: 2, y: 0 },
                Cell { x: 3, y: 0 },
            ],
            vec![
                Cell { x: 0, y: 0 },
                Cell { x: 0, y: 1 },
                Cell { x: 0, y: 2 },
                Cell { x: 0, y: 3 },
            ],
        ];
        let cur_pos: usize = 0;
        let pos_rects = vec![
            Recti16 { x: -1, y: 0, width: 4, height: 1 },
            Recti16 { x: 2, y: 0, width: 1, height: 4 },
            Recti16 { x: -2, y: 0, width: 4, height: 1 },
            Recti16 { x: 1, y: 0, width: 1, height: 4 },
        ];
        let rect = Rect { x: 3, y: 0, width: 4, height: 1 };
        let b = Block { color, positions, cur_pos, pos_rects, rect };
        proof {
            assert(block_states(b) =~= cyan_states()) by {
                assert(b.positions@[0]@ =~= cyan_states()[0]);
                assert(b.positions@[1]@ =~= cyan_states()[1]);
                assert(b.positions@[2]@ =~= cyan_states()[2]);
                assert(b.positions@[3]@ =~= cyan_states()[3]);
            }
            assert(b.pos_rects@ =~= cyan_rects());
        }
        b
    }

    /// A fresh J piece (blue) at its spawn anchor.
    pub fn new_blue() -> (r: Block)
        ensures
            block_matches(r, Color::Blue, blue_states(), bogrp_rects(), bogrp_spawn_rect()),
            block_wf(r),
            footprint_ok(r),
    {
        let color = Color::Blue;
        let positions = vec![
            vec![
                Cell { x: 0, y: 0 },
                Cell { x: 0, y: 1 },
                Cell { x: 1, y: 1 },
                Cell { x: 2, y: 1 },
            ],
            vec![
                Cell { x: 0, y: 0 },
                Cell { x: 0, y: 1 },
                Cell { x: 0, y: 2 },
                Cell { x: 1, y: 0 },
            ],
            vec![
                Cell { x: 0, y: 0 },
                Cell { x: 1, y: 0 },
                Cell { x: 2, y: 0 },
                Cell { x: 2, y: 1 },
            ],
            vec![
                Cell { x: 0, y: 2 },
                Cell { x: 1, y: 0 },
                Cell { x: 1, y: 1 },
                Cell { x: 1, y: 2 },
            ],
        ];
        let cur_pos: usize = 0;
        let pos_rects = bogrp_pos_rects();
        let rect = Rect { x: 3, y: 0, width: 3, height: 2 };
        let b = Block { color, positions, cur_pos, pos_rects, rect };
        proof {
            assert(block_states(b) =~= blue_states()) by {
                assert(b.positions@[0]@ =~= blue_states()[0]);
                assert(b.positions@[1]@ =~= blue_states()[1]);
                assert(b.positions@[2]@ =~= blue_states()[2]);
                assert(b.positions@[3]@ =~= blue_states()[3]);
            }
        }
        b
    }

    /// A fresh L piece (orange) at its spawn anchor.
    pub fn new_orange() -> (r: Block)
        ensures
            block_matches(r, Color::Orange, orange_states(), bogrp_rects(), bogrp_spawn_rect()),
            block_wf(r),
            footprint_ok(r),
    {
        let color = Color::Orange;
        let positions = vec![
            vec![
                Cell { x: 0, y: 1 },
                Cell { x: 1, y: 1 },
                Cell { x: 2, y: 0 },
                Cell { x: 2, y: 1 },
            ],
            vec![
                Cell { x: 0, y: 0 },
                Cell { x: 0, y: 1 },
                Cell { x: 0, y: 2 },
                Cell { x: 1, y: 2 },
            ],
            vec![
                Cell { x: 0, y: 0 },
                Cell { x: 0, y: 1 },
                Cell { x: 1, y: 0 },
                Cell { x: 2, y: 0 },
            ],
            vec![
                Cell { x: 0, y: 0 },
                Cell { x: 1, y: 0 },
                Cell { x: 1, y: 1 },
                Cell { x: 1, y: 2 },
            ],
        ];
        let cur_pos: usize = 0;
        let pos_rects = bogrp_pos_rects();
        let rect = Rect { x: 3, y: 0, width: 3, height: 2 };
        let b = Block { color, positions, cur_pos, pos_rects, rect };
        proof {
            assert(block_states(b) =~= orange_states()) by {
                assert(b.positions@[0]@ =~= orange_states()[0]);
                assert(b.positions@[1]@ =~= orange_states()[1]);
                assert(b.positions@[2]@ =~= orange_states()[2]);
                assert(b.positions@[3]@ =~= orange_states()[3]);
            }
        }
        b
    }

    /// A fresh S piece (green) at its spawn anchor.
    pub fn new_green() -> (r: Block)
        ensures
            block_matches(r, Color::Green, green_states(), bogrp_rects(), bogrp_spawn_rect()),
            block_wf(r),
            footprint_ok(r),
    {
        let color = Color::Green;
        let positions = vec![
            vec![
                Cell { x: 0, y: 1 },
                Cell { x: 1, y: 0 },
                Cell { x: 1, y: 1 },
                Cell { x: 2, y: 0 },
            ],
            vec![
                Cell { x: 0, y: 0 },
                Cell { x: 0, y: 1 },
                Cell { x: 1, y: 1 },
                Cell { x: 1, y: 2 },
            ],
            vec![
                Cell { x: 0, y: 1 },
                Cell { x: 1, y: 0 },
                Cell { x: 1, y: 1 },
                Cell { x: 2, y: 0 },
            ],
            vec![
                Cell { x: 0, y: 0 },
                Cell { x: 0, y: 1 },
                Cell { x: 1, y: 1 },
                Cell { x: 1, y: 2 },
            ],
        ];
        let cur_pos: usize = 0;
        let pos_rects = bogrp_pos_rects();
        let rect = Rect { x: 3, y: 0, width: 3, height: 2 };
        let b = Block { color, positions, cur_pos, pos_rects, rect };
        proof {
            assert(block_states(b) =~= green_states()) by {
                assert(b.positions@[0]@ =~= green_states()[0]);
                assert(b.positions@[1]@ =~= green_states()[1]);
                assert(b.positions@[2]@ =~= green_states()[2]);
                assert(b.positions@[3]@ =~= green_states()[3]);
            }
        }
        b
    }

    /// A fresh Z piece (red) at its spawn anchor.
    pub fn new_red() -> (r: Block)
        ensures
            block_matches(r, Color::Red, red_states(), bogrp_rects(), bogrp_spawn_rect()),
            block_wf(r),
            footprint_ok(r),
    {
        let color = Color::Red;
        let positions = vec![
            vec![
                Cell { x: 0, y: 0 },
                Cell { x: 1, y: 0 },
                Cell { x: 1, y: 1 },
                Cell { x: 2, y: 1 },
            ],
            vec![
                Cell { x: 0, y: 1 },
                Cell { x: 0, y: 2 },
                Cell { x: 1, y: 0 },
                Cell { x: 1, y: 1 },
            ],
            vec![
                Cell { x: 0, y: 0 },
                Cell { x: 1, y: 0 },
                Cell { x: 1, y: 1 },
                Cell { x: 2, y: 1 },
            ],
            vec![
                Cell { x: 0, y: 1 },
                Cell { x: 0, y: 2 },
                Cell { x: 1, y: 0 },
                Cell { x: 1, y: 1 },
            ],
        ];
        let cur_pos: usize = 0;
        let pos_rects = bogrp_pos_rects();
        let rect = Rect { x: 3, y: 0, width: 3, height: 2 };
        let b = Block { color, positions, cur_pos, pos_rects, rect };
        proof {
            assert(block_states(b) =~= red_states()) by {
                assert(b.positions@[0]@ =~= red_states()[0]);
                assert(b.positions@[1]@ =~= red_states()[1]);
                assert(b.positions@[2]@ =~= red_states()[2]);
                assert(b.positions@[3]@ =~= red_states()[3]);
            }
        }
        b
    }

    /// A fresh T piece (purple) at its spawn anchor.
    pub fn new_purple() -> (r: Block)
        ensures
            block_matches(r, Color::Purple, purple_states(), bogrp_rects(), bogrp_spawn_rect()),
            block_wf(r),
            footprint_ok(r),
    {
        let color = Color::Purple;
        let positions = vec![
            vec![
                Cell { x: 0, y: 1 },
                Cell { x: 1, y: 0 },
                Cell { x: 1, y: 1 },
                Cell { x: 2, y: 1 },
            ],
            vec![
                Cell { x: 0, y: 0 },
                Cell { x: 0, y: 1 },
                Cell { x: 0, y: 2 },
                Cell { x: 1, y: 1 },
            ],
            vec![
                Cell { x: 0, y: 0 },
                Cell { x: 1, y: 0 },
                Cell { x: 1, y: 1 },
                Cell { x: 2, y: 0 },
            ],
            vec![
                Cell { x: 0, y: 1 },
                Cell { x: 1, y: 0 },
                Cell { x: 1, y: 1 },
                Cell { x: 1, y: 2 },
            ],
        ];
        let cur_pos: usize = 0;
        let pos_rects = bogrp_pos_rects();
        let rect = Rect { x: 3, y: 0, width: 3, height: 2 };
        let b = Block { color, positions, cur_pos, pos_rects, rect };
        proof {
            assert(block_states(b) =~= purple_states()) by {
                assert(b.positions@[0]@ =~= purple_states()[0]);
                assert(b.positions@[1]@ =~= purple_states()[1]);
                assert(b.positions@[2]@ =~= purple_states()[2]);
                assert(b.positions@[3]@ =~= purple_states()[3]);
            }
        }
        b
    }

    /// A fresh O piece (yellow) at its spawn anchor.
    pub fn new_yellow() -> (r: Block)
        ensures
            block_matches(r, Color::Yellow, yellow_states(), yellow_rects(), yellow_spawn_rect()),
            block_wf(r),
            footprint_ok(r),
    {
        let color = Color::Yellow;
        let positions = vec![
            vec![
                Cell { x: 0, y: 0 },
                Cell { x: 0, y: 1 },
                Cell { x: 1, y: 0 },
                Cell { x: 1, y: 1 },
            ],
        ];
        let cur_pos: usize = 0;
        let pos_rects = vec![Recti16 { x: 0, y: 0, width: 2, height: 2 }];
        let rect = Rect { x: 4, y: 0, width: 2, height: 2 };
        let b = Block { color, positions, cur_pos, pos_rects, rect };
        proof {
            assert(block_states(b) =~= yellow_states()) by {
                assert(b.positions@[0]@ =~= yellow_states()[0]);
            }
            assert(b.pos_rects@ =~= yellow_rects());
        }
        b
    }
}

/// The catalog entry at the given index, in the order cyan, blue, orange,
/// green, red, purple, yellow.
pub fn catalog_block(index: usize) -> (r: Block)
    requires
        index < 7,
    ensures
        catalog_desc(index as int, r),
        fresh_spawn(r),
        block_wf(r),
        footprint_ok(r),
        spawn_anchored(r),
{
    let r = if index == 0 {
        Block::new_cyan()
    } else if index == 1 {
        Block::new_blue()
    } else if index == 2 {
        Block::new_orange()
    } else if index == 3 {
        Block::new_green()
    } else if index == 4 {
        Block::new_red()
    } else if index == 5 {
        Block::new_purple()
    } else {
        Block::new_yellow()
    };
    proof {
        assert(catalog_desc(index as int, r));
        assert(fresh_spawn(r));
    }
    r
}

} // verus!
