//! What holds of the generations of every board, and of a few well-known patterns.

use vstd::prelude::*;
use crate::board::Board;

verus! {

/// The next generation is a function of the current one, so two runs from
/// the same starting board agree after every number of generations.
pub proof fn lemma_deterministic(a: Board, b: Board, n: nat)
    requires
        a == b,
    ensures
        a.step() == b.step(),
        a.generations(n) == b.generations(n),
{
}

/// Each cell's next state depends only on the current generation, so the next
/// generation may be put together cell by cell in any order and by any number
/// of workers: whatever sequence holds the next state of every cell is the
/// next generation.
pub proof fn lemma_step_cell_by_cell(board: Board, next: Seq<bool>)
    requires
        next.len() == board.cells.len(),
        forall|i: int| 0 <= i < next.len() ==> next[i] == board.next_cell(i),
    ensures
        board.step() == (Board { cells: next, ..board }),
{
    assert(board.step().cells =~= next);
}

/// A cell's next state is decided by the cell and the eight positions around
/// it: two boards of equal width that agree there give the cell the same next
/// state.
pub proof fn lemma_next_cell_is_local(a: Board, b: Board, i: int)
    requires
        a.width == b.width,
        a.cells[i] == b.cells[i],
        forall|x: int, y: int|
            a.column_of(i) - 1 <= x <= a.column_of(i) + 1 && a.row_of(i) - 1 <= y <= a.row_of(i)
                + 1 ==> #[trigger] a.alive(x, y) == b.alive(x, y),
    ensures
        a.next_cell(i) == b.next_cell(i),
{
}

/// The weight that the neighbourhood of the Game of Life gives to the cell
/// `dx` columns and `dy` rows away: 1 on the ring of eight around the centre,
/// 0 at the centre and beyond the ring.
pub open spec fn ring_weight(dx: int, dy: int) -> nat {
    if -1 <= dx <= 1 && -1 <= dy <= 1 && !(dx == 0 && dy == 0) {
        1
    } else {
        0
    }
}

/// The count of live neighbours is the direct convolution of the board with
/// the ring: the sum over the three by three footprint of weight times cell,
/// where a position off the board adds nothing.
pub proof fn lemma_neighbours_is_convolution(board: Board, x: int, y: int)
    ensures
        board.neighbours(x, y) == ring_weight(-1, -1) * board.live(x - 1, y - 1)
            + ring_weight(0, -1) * board.live(x, y - 1)
            + ring_weight(1, -1) * board.live(x + 1, y - 1)
            + ring_weight(-1, 0) * board.live(x - 1, y)
            + ring_weight(0, 0) * board.live(x, y)
            + ring_weight(1, 0) * board.live(x + 1, y)
            + ring_weight(-1, 1) * board.live(x - 1, y + 1)
            + ring_weight(0, 1) * board.live(x, y + 1)
            + ring_weight(1, 1) * board.live(x + 1, y + 1),
{
}

/// In every generation a cell counts as 0 or 1, and no cell has more than
/// eight live neighbours.
pub proof fn lemma_bounded(board: Board, n: nat, x: int, y: int)
    ensures
        board.generations(n).live(x, y) == 0 || board.generations(n).live(x, y) == 1,
        board.generations(n).neighbours(x, y) <= 8,
{
}

/// The extents of a board never change: after any number of generations the
/// board is well formed and as wide and as high as it was.
pub proof fn lemma_generations_keep_extents(board: Board, n: nat)
    requires
        board.wf(),
    ensures
        board.generations(n).wf(),
        board.generations(n).width == board.width,
        board.generations(n).height == board.height,
    decreases n,
{
    if n > 0 {
        lemma_generations_keep_extents(board.step(), (n - 1) as nat);
    }
}

/// Generations add up: `m` generations and then `n` more are `m + n`
/// generations.
pub proof fn lemma_generations_add(board: Board, m: nat, n: nat)
    ensures
        board.generations(m).generations(n) == board.generations(m + n),
    decreases m,
{
    if m > 0 {
        lemma_generations_add(board.step(), (m - 1) as nat, n);
    }
}

/// A board that its own step leaves unchanged stays as it is forever.
pub proof fn lemma_still_life_forever(board: Board, n: nat)
    requires
        board.step() == board,
    ensures
        board.generations(n) == board,
    decreases n,
{
    if n > 0 {
        lemma_still_life_forever(board, (n - 1) as nat);
    }
}

/// Nothing is alive on an empty board, on it or off it.
pub proof fn lemma_empty_has_no_life(width: nat, height: nat, x: int, y: int)
    ensures
        !Board::empty(width, height).alive(x, y),
        Board::empty(width, height).neighbours(x, y) == 0,
{
    let empty = Board::empty(width, height);
    assert forall|u: int, v: int| !empty.alive(u, v) by {
        if empty.contains(u, v) {
            empty.lemma_index_of(u, v);
        }
    }
}

/// An empty board stays empty for all future generations.
pub proof fn lemma_empty_stays_empty(width: nat, height: nat, n: nat)
    ensures
        Board::empty(width, height).generations(n) == Board::empty(width, height),
{
    let empty = Board::empty(width, height);
    assert forall|i: int| 0 <= i < empty.cells.len() implies !empty.next_cell(i) by {
        lemma_empty_has_no_life(width, height, empty.column_of(i), empty.row_of(i));
    }
    assert(empty.step().cells =~= empty.cells);
    lemma_still_life_forever(empty, n);
}

/// On a seeded board a cell is alive exactly where a listed position lies on
/// the board.
pub proof fn lemma_seeded_alive(width: nat, height: nat, points: Seq<(int, int)>, x: int, y: int)
    ensures
        Board::seeded(width, height, points).alive(x, y) == (0 <= x < width && 0 <= y < height
            && Board::listed(points, x, y)),
{
    let board = Board::seeded(width, height, points);
    if board.contains(x, y) {
        board.lemma_index_of(x, y);
    }
}

/// The four positions of a two by two block whose first corner is `(x, y)`.
pub open spec fn block(x: int, y: int) -> Seq<(int, int)> {
    seq![(x, y), (x + 1, y), (x, y + 1), (x + 1, y + 1)]
}

/// Three positions in a row around `(x, y)`.
pub open spec fn blinker_flat(x: int, y: int) -> Seq<(int, int)> {
    seq![(x - 1, y), (x, y), (x + 1, y)]
}

/// Three positions in a column around `(x, y)`.
pub open spec fn blinker_upright(x: int, y: int) -> Seq<(int, int)> {
    seq![(x, y - 1), (x, y), (x, y + 1)]
}

proof fn lemma_block_listed(x: int, y: int, u: int, v: int)
    ensures
        Board::listed(block(x, y), u, v) == ((u == x || u == x + 1) && (v == y || v == y + 1)),
{
    let b = block(x, y);
    assert(b.len() == 4);
    assert(b[0] == (x, y) && b[1] == (x + 1, y) && b[2] == (x, y + 1) && b[3] == (x + 1, y + 1));
}

proof fn lemma_blinker_listed(x: int, y: int, u: int, v: int)
    ensures
        Board::listed(blinker_flat(x, y), u, v) == (x - 1 <= u <= x + 1 && v == y),
        Board::listed(blinker_upright(x, y), u, v) == (u == x && y - 1 <= v <= y + 1),
{
    let f = blinker_flat(x, y);
    assert(f.len() == 3);
    assert(f[0] == (x - 1, y) && f[1] == (x, y) && f[2] == (x + 1, y));
    let s = blinker_upright(x, y);
    assert(s.len() == 3);
    assert(s[0] == (x, y - 1) && s[1] == (x, y) && s[2] == (x, y + 1));
}

/// A two by two block that lies on the board, alone on it, is a still life:
/// it is the same after every number of generations.
pub proof fn lemma_block_is_still(width: nat, height: nat, x: int, y: int, n: nat)
    requires
        0 <= x,
        x + 1 < width,
        0 <= y,
        y + 1 < height,
    ensures
        Board::seeded(width, height, block(x, y)).generations(n) == Board::seeded(
            width,
            height,
            block(x, y),
        ),
{
    let board = Board::seeded(width, height, block(x, y));
    assert forall|i: int| 0 <= i < board.cells.len() implies board.next_cell(i)
        == board.cells[i] by {
        let cx = board.column_of(i);
        let cy = board.row_of(i);
        board.lemma_coords_of(i);
        assert forall|u: int, v: int|
            board.alive(u, v) == (0 <= u < width && 0 <= v < height && (u == x || u == x + 1) && (
            v == y || v == y + 1)) by {
            lemma_seeded_alive(width, height, block(x, y), u, v);
            lemma_block_listed(x, y, u, v);
        }
        assert(board.cells[i] == board.alive(cx, cy));
    }
    assert(board.step().cells =~= board.cells);
    lemma_still_life_forever(board, n);
}

/// A blinker with room around it, alone on the board, turns from a row into
/// a column and back: it oscillates with period two.
pub proof fn lemma_blinker_oscillates(width: nat, height: nat, x: int, y: int)
    requires
        1 <= x,
        x + 1 < width,
        1 <= y,
        y + 1 < height,
    ensures
        Board::seeded(width, height, blinker_flat(x, y)).step() == Board::seeded(
            width,
            height,
            blinker_upright(x, y),
        ),
        Board::seeded(width, height, blinker_upright(x, y)).step() == Board::seeded(
            width,
            height,
            blinker_flat(x, y),
        ),
        Board::seeded(width, height, blinker_flat(x, y)).generations(2) == Board::seeded(
            width,
            height,
            blinker_flat(x, y),
        ),
{
    let flat = Board::seeded(width, height, blinker_flat(x, y));
    let upright = Board::seeded(width, height, blinker_upright(x, y));
    assert forall|u: int, v: int|
        flat.alive(u, v) == (0 <= u < width && 0 <= v < height && x - 1 <= u <= x + 1 && v == y)
        && upright.alive(u, v) == (0 <= u < width && 0 <= v < height && u == x && y - 1 <= v <= y
            + 1) by {
        lemma_seeded_alive(width, height, blinker_flat(x, y), u, v);
        lemma_seeded_alive(width, height, blinker_upright(x, y), u, v);
        lemma_blinker_listed(x, y, u, v);
    }
    assert forall|i: int| 0 <= i < flat.cells.len() implies flat.next_cell(i)
        == upright.cells[i] by {
        flat.lemma_coords_of(i);
        assert(flat.cells[i] == flat.alive(flat.column_of(i), flat.row_of(i)));
        assert(upright.cells[i] == upright.alive(flat.column_of(i), flat.row_of(i)));
    }
    assert forall|i: int| 0 <= i < upright.cells.len() implies upright.next_cell(i)
        == flat.cells[i] by {
        upright.lemma_coords_of(i);
        assert(flat.cells[i] == flat.alive(flat.column_of(i), flat.row_of(i)));
        assert(upright.cells[i] == upright.alive(flat.column_of(i), flat.row_of(i)));
    }
    assert(flat.step().cells =~= upright.cells);
    assert(upright.step().cells =~= flat.cells);
    assert(flat.generations(2) == flat.step().generations(1));
    assert(upright.generations(1) == upright.step().generations(0));
}

/// The five positions of a glider that heads towards growing columns and
/// rows, in the given phase of its cycle of four, placed in the square whose
/// first corner is `(x, y)`.
pub open spec fn glider(x: int, y: int, phase: nat) -> Seq<(int, int)> {
    if phase == 0 {
        seq![(x + 1, y), (x + 2, y + 1), (x, y + 2), (x + 1, y + 2), (x + 2, y + 2)]
    } else if phase == 1 {
        seq![(x, y + 1), (x + 2, y + 1), (x + 1, y + 2), (x + 2, y + 2), (x + 1, y + 3)]
    } else if phase == 2 {
        seq![(x + 2, y + 1), (x, y + 2), (x + 2, y + 2), (x + 1, y + 3), (x + 2, y + 3)]
    } else {
        seq![(x + 1, y + 1), (x + 2, y + 2), (x + 3, y + 2), (x + 1, y + 3), (x + 2, y + 3)]
    }
}

proof fn lemma_glider_listed(x: int, y: int, phase: nat, u: int, v: int)
    ensures
        Board::listed(glider(x, y, phase), u, v) == ({
            let g = glider(x, y, phase);
            (u, v) == g[0] || (u, v) == g[1] || (u, v) == g[2] || (u, v) == g[3] || (u, v) == g[4]
        }),
        glider(x, y, phase).len() == 5,
{
    let g = glider(x, y, phase);
    assert(g.len() == 5);
    if Board::listed(g, u, v) {
        let k = choose|k: int| 0 <= k < 5 && k < g.len() && #[trigger] g[k] == (u, v);
        assert(k == 0 || k == 1 || k == 2 || k == 3 || k == 4);
    }
}

/// One generation takes a glider with room around it from one phase to the
/// next, and from the last phase to the first, one column and one row on.
pub proof fn lemma_glider_step(width: nat, height: nat, x: int, y: int, phase: nat)
    requires
        0 <= x,
        x + 3 < width,
        0 <= y,
        y + 3 < height,
        phase <= 3,
    ensures
        Board::seeded(width, height, glider(x, y, phase)).step() == Board::seeded(
            width,
            height,
            if phase == 3 {
                glider(x + 1, y + 1, 0)
            } else {
                glider(x, y, phase + 1)
            },
        ),
{
    let from = glider(x, y, phase);
    let to = if phase == 3 {
        glider(x + 1, y + 1, 0)
    } else {
        glider(x, y, phase + 1)
    };
    let a = Board::seeded(width, height, from);
    let b = Board::seeded(width, height, to);
    assert forall|u: int, v: int|
        a.alive(u, v) == (0 <= u < width && 0 <= v < height && ((u, v) == from[0] || (u, v)
            == from[1] || (u, v) == from[2] || (u, v) == from[3] || (u, v) == from[4]))
            && b.alive(u, v) == (0 <= u < width && 0 <= v < height && ((u, v) == to[0] || (u, v)
            == to[1] || (u, v) == to[2] || (u, v) == to[3] || (u, v) == to[4])) by {
        lemma_seeded_alive(width, height, from, u, v);
        lemma_seeded_alive(width, height, to, u, v);
        lemma_glider_listed(x, y, phase, u, v);
        if phase == 3 {
            lemma_glider_listed(x + 1, y + 1, 0, u, v);
        } else {
            lemma_glider_listed(x, y, phase + 1, u, v);
        }
    }
    assert forall|i: int| 0 <= i < a.cells.len() implies a.next_cell(i) == b.cells[i] by {
        a.lemma_coords_of(i);
        assert(a.cells[i] == a.alive(a.column_of(i), a.row_of(i)));
        assert(b.cells[i] == b.alive(a.column_of(i), a.row_of(i)));
    }
    assert(a.step().cells =~= b.cells);
}

/// A glider with room around it, alone on the board, is after four
/// generations the same glider one column and one row on.
pub proof fn lemma_glider_travels(width: nat, height: nat, x: int, y: int)
    requires
        0 <= x,
        x + 3 < width,
        0 <= y,
        y + 3 < height,
    ensures
        Board::seeded(width, height, glider(x, y, 0)).generations(4) == Board::seeded(
            width,
            height,
            glider(x + 1, y + 1, 0),
        ),
{
    lemma_glider_step(width, height, x, y, 0);
    lemma_glider_step(width, height, x, y, 1);
    lemma_glider_step(width, height, x, y, 2);
    lemma_glider_step(width, height, x, y, 3);
    reveal_with_fuel(Board::generations, 5);
}

} // verus!
