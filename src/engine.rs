//! The two-branch chaos game. Each decision computes both branches from the
//! same point, plots both results, and keeps only the one that the decision
//! picks as the next point; the other is a ghost, plotted and dropped.
//!
//! The point type and its arithmetic belong to the caller: `step(p, rotate)`
//! maps a point through the rotation branch (`true`) or the polar branch
//! (`false`), and `locate(p, height, width)` gives the cell `(row, col)` that
//! a point falls on.
use crate::canvas::{
    canvas_bytes, canvas_height, canvas_width, canvas_wf, plot_all, plot_bytes, Canvas,
};
use crate::decisions::{bit_of, decision, decision_bit, draw_decision_words};
use vstd::prelude::*;

verus! {

/// One step from point `p` under decision `bit`: the ghost point comes from
/// branch `!bit`, the next point from branch `bit`, both computed from `p`,
/// and each falls on its cell.
pub open spec fn chaos_step<P, S: Fn(P, bool) -> P, L: Fn(P, u32, u32) -> (i64, i64)>(
    step: S,
    locate: L,
    height: u32,
    width: u32,
    p: P,
    bit: bool,
    ghost_pt: P,
    next: P,
    ghost_cell: (i64, i64),
    next_cell: (i64, i64),
) -> bool {
    &&& call_ensures(step, (p, !bit), ghost_pt)
    &&& call_ensures(locate, (ghost_pt, height, width), ghost_cell)
    &&& call_ensures(step, (p, bit), next)
    &&& call_ensures(locate, (next, height, width), next_cell)
}

/// The first `n` steps of a run from `start` under the decisions of `words`:
/// `orbit` holds the points kept (starting with `start`), `ghosts` the points
/// dropped, and `cells` the cells plotted, the ghost's before the kept point's.
pub open spec fn chaos_prefix<P, S: Fn(P, bool) -> P, L: Fn(P, u32, u32) -> (i64, i64)>(
    step: S,
    locate: L,
    start: P,
    words: Seq<u64>,
    height: u32,
    width: u32,
    n: int,
    orbit: Seq<P>,
    ghosts: Seq<P>,
    cells: Seq<(i64, i64)>,
) -> bool {
    &&& orbit.len() == n + 1
    &&& ghosts.len() == n
    &&& cells.len() == 2 * n
    &&& orbit[0] == start
    &&& forall|j: int|
        0 <= j < n ==> #[trigger] chaos_step(
            step,
            locate,
            height,
            width,
            orbit[j],
            decision(words, j),
            ghosts[j],
            orbit[j + 1],
            cells[2 * j],
            cells[2 * j + 1],
        )
}

/// A whole run: one step for each of the 64 bits of each word.
pub open spec fn is_chaos_run<P, S: Fn(P, bool) -> P, L: Fn(P, u32, u32) -> (i64, i64)>(
    step: S,
    locate: L,
    start: P,
    words: Seq<u64>,
    height: u32,
    width: u32,
    orbit: Seq<P>,
    ghosts: Seq<P>,
    cells: Seq<(i64, i64)>,
) -> bool {
    chaos_prefix(step, locate, start, words, height, width, 64 * words.len() as int, orbit, ghosts, cells)
}

/// Whether a transform gives at most one point for each point and branch.
pub open spec fn step_is_function<P, S: Fn(P, bool) -> P>(step: S) -> bool {
    forall|p: P, rotate: bool, r1: P, r2: P|
        call_ensures(step, (p, rotate), r1) && call_ensures(step, (p, rotate), r2) ==> r1 == r2
}

/// Whether a cell mapping gives at most one cell for each point and size.
pub open spec fn locate_is_function<P, L: Fn(P, u32, u32) -> (i64, i64)>(locate: L) -> bool {
    forall|p: P, height: u32, width: u32, c1: (i64, i64), c2: (i64, i64)|
        call_ensures(locate, (p, height, width), c1) && call_ensures(locate, (p, height, width), c2)
            ==> c1 == c2
}

/// A run over an iteration budget that is a multiple of 64 draws `budget / 64`
/// words, takes `budget` steps and plots `2 * budget` points.
pub proof fn lemma_plot_count<P, S: Fn(P, bool) -> P, L: Fn(P, u32, u32) -> (i64, i64)>(
    step: S,
    locate: L,
    start: P,
    budget: u32,
    words: Seq<u64>,
    height: u32,
    width: u32,
    orbit: Seq<P>,
    ghosts: Seq<P>,
    cells: Seq<(i64, i64)>,
)
    requires
        budget % 64 == 0,
        words.len() == budget / 64,
        is_chaos_run(step, locate, start, words, height, width, orbit, ghosts, cells),
    ensures
        64 * words.len() == budget,
        orbit.len() == budget + 1,
        cells.len() == 2 * budget,
{
}

/// Two runs from the same start under the same decisions, with a transform
/// and a cell mapping that are functions, keep the same points, plot the same
/// cells in the same order, and so leave the same samples on the same canvas.
pub proof fn lemma_run_deterministic<P, S: Fn(P, bool) -> P, L: Fn(P, u32, u32) -> (i64, i64)>(
    step: S,
    locate: L,
    start: P,
    words: Seq<u64>,
    height: u32,
    width: u32,
    bytes: Seq<u8>,
    orbit1: Seq<P>,
    ghosts1: Seq<P>,
    cells1: Seq<(i64, i64)>,
    orbit2: Seq<P>,
    ghosts2: Seq<P>,
    cells2: Seq<(i64, i64)>,
)
    requires
        step_is_function(step),
        locate_is_function(locate),
        is_chaos_run(step, locate, start, words, height, width, orbit1, ghosts1, cells1),
        is_chaos_run(step, locate, start, words, height, width, orbit2, ghosts2, cells2),
    ensures
        orbit1 == orbit2,
        ghosts1 == ghosts2,
        cells1 == cells2,
        plot_all(bytes, width as int, height as int, cells1) == plot_all(
            bytes,
            width as int,
            height as int,
            cells2,
        ),
{
    let n = 64 * words.len();
    assert forall|j: int| 0 <= j <= n implies orbit1[j] == orbit2[j] by {
        lemma_orbits_agree(step, locate, start, words, height, width, orbit1, ghosts1, cells1, orbit2, ghosts2, cells2, j);
    }
    assert forall|j: int| 0 <= j < n implies ghosts1[j] == ghosts2[j] && cells1[2 * j] == cells2[2 * j] && cells1[2 * j + 1] == cells2[2 * j + 1] by {
        lemma_orbits_agree(step, locate, start, words, height, width, orbit1, ghosts1, cells1, orbit2, ghosts2, cells2, j);
        assert(chaos_step(step, locate, height, width, orbit1[j], decision(words, j), ghosts1[j], orbit1[j + 1], cells1[2 * j], cells1[2 * j + 1]));
        assert(chaos_step(step, locate, height, width, orbit2[j], decision(words, j), ghosts2[j], orbit2[j + 1], cells2[2 * j], cells2[2 * j + 1]));
    }
    assert forall|t: int| 0 <= t < 2 * n implies cells1[t] == cells2[t] by {
        let j = t / 2;
        assert(t == 2 * j || t == 2 * j + 1);
        assert(0 <= j < n);
        assert(ghosts1[j] == ghosts2[j] && cells1[2 * j] == cells2[2 * j] && cells1[2 * j + 1] == cells2[2 * j + 1]);
    }
    assert(orbit1 =~= orbit2);
    assert(ghosts1 =~= ghosts2);
    assert(cells1 =~= cells2);
}

proof fn lemma_orbits_agree<P, S: Fn(P, bool) -> P, L: Fn(P, u32, u32) -> (i64, i64)>(
    step: S,
    locate: L,
    start: P,
    words: Seq<u64>,
    height: u32,
    width: u32,
    orbit1: Seq<P>,
    ghosts1: Seq<P>,
    cells1: Seq<(i64, i64)>,
    orbit2: Seq<P>,
    ghosts2: Seq<P>,
    cells2: Seq<(i64, i64)>,
    j: int,
)
    requires
        step_is_function(step),
        is_chaos_run(step, locate, start, words, height, width, orbit1, ghosts1, cells1),
        is_chaos_run(step, locate, start, words, height, width, orbit2, ghosts2, cells2),
        0 <= j <= 64 * words.len(),
    ensures
        orbit1[j] == orbit2[j],
    decreases j,
{
    if j > 0 {
        lemma_orbits_agree(step, locate, start, words, height, width, orbit1, ghosts1, cells1, orbit2, ghosts2, cells2, j - 1);
        let i = j - 1;
        assert(chaos_step(step, locate, height, width, orbit1[i], decision(words, i), ghosts1[i], orbit1[i + 1], cells1[2 * i], cells1[2 * i + 1]));
        assert(chaos_step(step, locate, height, width, orbit2[i], decision(words, i), ghosts2[i], orbit2[i + 1], cells2[2 * i], cells2[2 * i + 1]));
    }
}

/// `after` is what a run over `budget / 64` words of some decisions leaves of
/// the samples `before`, and `last` is the last point that it kept.
pub open spec fn is_budget_render<P, S: Fn(P, bool) -> P, L: Fn(P, u32, u32) -> (i64, i64)>(
    step: S,
    locate: L,
    start: P,
    budget: u32,
    height: u32,
    width: u32,
    before: Seq<u8>,
    after: Seq<u8>,
    last: P,
) -> bool {
    exists|words: Seq<u64>, orbit: Seq<P>, ghosts: Seq<P>, cells: Seq<(i64, i64)>|
        {
            &&& words.len() == budget / 64
            &&& #[trigger] is_chaos_run(step, locate, start, words, height, width, orbit, ghosts, cells)
            &&& last == orbit.last()
            &&& after == plot_all(before, width as int, height as int, cells)
        }
}

proof fn lemma_decision_index(words: Seq<u64>, k: int, i: int)
    requires
        0 <= i < 64,
        0 <= k,
    ensures
        decision(words, 64 * k + i) == bit_of(words[k], i as u64),
{
    assert((64 * k + i) / 64 == k) by (nonlinear_arith)
        requires
            0 <= i < 64,
            0 <= k,
    ;
    assert((64 * k + i) % 64 == i) by (nonlinear_arith)
        requires
            0 <= i < 64,
            0 <= k,
    ;
}

/// Runs the chaos game from `start` on `canvas`, one step per bit of `words`
/// (least significant bit of each word first), and returns the last point kept.
pub fn render_words<P: Copy, S: Fn(P, bool) -> P, L: Fn(P, u32, u32) -> (i64, i64)>(
    canvas: &mut Canvas,
    start: P,
    words: &Vec<u64>,
    step: S,
    locate: L,
) -> (last: P)
    requires
        canvas_wf(*old(canvas)),
        forall|p: P, rotate: bool| call_requires(step, (p, rotate)),
        forall|p: P, height: u32, width: u32| call_requires(locate, (p, height, width)),
    ensures
        canvas_wf(*final(canvas)),
        canvas_width(*final(canvas)) == canvas_width(*old(canvas)),
        canvas_height(*final(canvas)) == canvas_height(*old(canvas)),
        exists|orbit: Seq<P>, ghosts: Seq<P>, cells: Seq<(i64, i64)>|
            {
                &&& #[trigger] is_chaos_run(
                    step,
                    locate,
                    start,
                    words@,
                    canvas_height(*old(canvas)),
                    canvas_width(*old(canvas)),
                    orbit,
                    ghosts,
                    cells,
                )
                &&& last == orbit.last()
                &&& canvas_bytes(*final(canvas)) == plot_all(
                    canvas_bytes(*old(canvas)),
                    canvas_width(*old(canvas)) as int,
                    canvas_height(*old(canvas)) as int,
                    cells,
                )
            },
{
    let height = canvas.height();
    let width = canvas.width();
    let ghost bytes0 = canvas_bytes(*canvas);
    let ghost mut orbit: Seq<P> = seq![start];
    let ghost mut ghosts: Seq<P> = Seq::empty();
    let ghost mut cells: Seq<(i64, i64)> = Seq::empty();
    let mut x = start;
    let mut k: usize = 0;
    while k < words.len()
        invariant
            k <= words.len(),
            canvas_wf(*canvas),
            canvas_width(*canvas) == width,
            canvas_height(*canvas) == height,
            forall|p: P, rotate: bool| call_requires(step, (p, rotate)),
            forall|p: P, h: u32, w: u32| call_requires(locate, (p, h, w)),
            chaos_prefix(step, locate, start, words@, height, width, 64 * k as int, orbit, ghosts, cells),
            x == orbit.last(),
            canvas_bytes(*canvas) == plot_all(bytes0, width as int, height as int, cells),
        decreases words.len() - k,
    {
        let word = words[k];
        let mut i: u64 = 0;
        while i < 64
            invariant
                k < words.len(),
                word == words@[k as int],
                i <= 64,
                canvas_wf(*canvas),
                canvas_width(*canvas) == width,
                canvas_height(*canvas) == height,
                forall|p: P, rotate: bool| call_requires(step, (p, rotate)),
                forall|p: P, h: u32, w: u32| call_requires(locate, (p, h, w)),
                chaos_prefix(
                    step,
                    locate,
                    start,
                    words@,
                    height,
                    width,
                    64 * k as int + i as int,
                    orbit,
                    ghosts,
                    cells,
                ),
                x == orbit.last(),
                canvas_bytes(*canvas) == plot_all(bytes0, width as int, height as int, cells),
            decreases 64 - i,
        {
            let bit = decision_bit(word, i);
            let ghost_pt = step(x, !bit);
            let (ghost_row, ghost_col) = locate(ghost_pt, height, width);
            canvas.plot(ghost_row, ghost_col);
            let next = step(x, bit);
            let (next_row, next_col) = locate(next, height, width);
            canvas.plot(next_row, next_col);
            proof {
                let j = 64 * k + i;
                lemma_decision_index(words@, k as int, i as int);
                let cells1 = cells.push((ghost_row, ghost_col));
                let cells2 = cells1.push((next_row, next_col));
                assert(cells1.drop_last() =~= cells);
                assert(cells2.drop_last() =~= cells1);
                assert(plot_all(bytes0, width as int, height as int, cells1) == plot_bytes(
                    plot_all(bytes0, width as int, height as int, cells),
                    width as int,
                    height as int,
                    ghost_row as int,
                    ghost_col as int,
                ));
                assert(plot_all(bytes0, width as int, height as int, cells2) == plot_bytes(
                    plot_all(bytes0, width as int, height as int, cells1),
                    width as int,
                    height as int,
                    next_row as int,
                    next_col as int,
                ));
                assert(chaos_step(
                    step,
                    locate,
                    height,
                    width,
                    orbit[j],
                    decision(words@, j),
                    ghost_pt,
                    next,
                    cells2[2 * j],
                    cells2[2 * j + 1],
                ));
                let old_orbit = orbit;
                let old_ghosts = ghosts;
                let old_cells = cells;
                orbit = orbit.push(next);
                ghosts = ghosts.push(ghost_pt);
                cells = cells2;
                assert forall|t: int| 0 <= t < j + 1 implies #[trigger] chaos_step(
                    step,
                    locate,
                    height,
                    width,
                    orbit[t],
                    decision(words@, t),
                    ghosts[t],
                    orbit[t + 1],
                    cells[2 * t],
                    cells[2 * t + 1],
                ) by {
                    if t < j {
                        assert(orbit[t] == old_orbit[t]);
                        assert(orbit[t + 1] == old_orbit[t + 1]);
                        assert(ghosts[t] == old_ghosts[t]);
                        assert(cells[2 * t] == old_cells[2 * t]);
                        assert(cells[2 * t + 1] == old_cells[2 * t + 1]);
                    }
                }
            }
            x = next;
            i = i + 1;
        }
        k = k + 1;
    }
    assert(is_chaos_run(step, locate, start, words@, height, width, orbit, ghosts, cells));
    x
}

/// Runs the chaos game for an iteration budget: draws `budget / 64` fresh
/// random words and takes one step for each of their bits.
pub fn fractalize<P: Copy, S: Fn(P, bool) -> P, L: Fn(P, u32, u32) -> (i64, i64)>(
    canvas: &mut Canvas,
    start: P,
    budget: u32,
    step: S,
    locate: L,
) -> (last: P)
    requires
        canvas_wf(*old(canvas)),
        forall|p: P, rotate: bool| call_requires(step, (p, rotate)),
        forall|p: P, height: u32, width: u32| call_requires(locate, (p, height, width)),
    ensures
        canvas_wf(*final(canvas)),
        canvas_width(*final(canvas)) == canvas_width(*old(canvas)),
        canvas_height(*final(canvas)) == canvas_height(*old(canvas)),
        is_budget_render(
            step,
            locate,
            start,
            budget,
            canvas_height(*old(canvas)),
            canvas_width(*old(canvas)),
            canvas_bytes(*old(canvas)),
            canvas_bytes(*final(canvas)),
            last,
        ),
{
    let words = draw_decision_words(budget);
    render_words(canvas, start, &words, step, locate)
}

} // verus!
