//! Character grids: reading a text block into lines, writing lines back out,
//! blank canvases, and overlaying one block onto a canvas.
//!
//! A grid is a sequence of rows, each a sequence of characters. The space is
//! the blank character: overlaying leaves the canvas untouched wherever the
//! block is blank, and drops every cell of the block that falls outside the
//! canvas.

use vstd::prelude::*;

verus! {

/// The blank character of a canvas.
pub const BLANK: char = ' ';

/// The line separator of a text block.
pub const LINE_FEED: char = '\n';

/// The rows of a grid held as vectors.
pub open spec fn rows(g: Seq<Vec<char>>) -> Seq<Seq<char>> {
    Seq::new(g.len(), |i: int| g[i]@)
}

/// The lines of `s`: the pieces between line feeds. There is always at least
/// one, and one more than there are line feeds.
pub open spec fn split_lines(s: Seq<char>) -> Seq<Seq<char>>
    decreases s.len(),
{
    if s.len() == 0 {
        seq![Seq::empty()]
    } else {
        let p = split_lines(s.drop_last());
        if s.last() == LINE_FEED {
            p.push(Seq::empty())
        } else {
            p.update(p.len() - 1, p.last().push(s.last()))
        }
    }
}

/// The lines of `g` with a line feed between each two of them.
pub open spec fn join_lines(g: Seq<Seq<char>>) -> Seq<char>
    decreases g.len(),
{
    if g.len() == 0 {
        Seq::empty()
    } else if g.len() == 1 {
        g[0]
    } else {
        join_lines(g.drop_last()) + seq![LINE_FEED] + g.last()
    }
}

/// A canvas of `height` rows of `width` blanks.
pub open spec fn blank_spec(width: nat, height: nat) -> Seq<Seq<char>> {
    Seq::new(height, |r: int| Seq::new(width, |c: int| BLANK))
}

/// Whether every row of `g` holds exactly `width` cells.
pub open spec fn is_rectangle(g: Seq<Seq<char>>, width: nat) -> bool {
    forall|r: int| 0 <= r < g.len() ==> (#[trigger] g[r]).len() == width
}

/// The character that `block` puts at its row `r` and column `c`, where it
/// has a cell there that is not blank.
pub open spec fn block_cell(block: Seq<Seq<char>>, r: int, c: int) -> Option<char> {
    if 0 <= r < block.len() && 0 <= c < block[r].len() && block[r][c] != BLANK {
        Some(block[r][c])
    } else {
        None
    }
}

/// The cell at row `r` and column `c` after `block` is laid on `canvas` with
/// its top left corner at column `x` and row `y`.
pub open spec fn overlay_cell(
    canvas: Seq<Seq<char>>,
    block: Seq<Seq<char>>,
    x: int,
    y: int,
    r: int,
    c: int,
) -> char {
    match block_cell(block, r - y, c - x) {
        Some(ch) => ch,
        None => canvas[r][c],
    }
}

/// `canvas` with `block` laid on it at column `x` and row `y`. The result has
/// the canvas's shape.
pub open spec fn overlay_spec(canvas: Seq<Seq<char>>, block: Seq<Seq<char>>, x: int, y: int) -> Seq<
    Seq<char>,
> {
    Seq::new(
        canvas.len(),
        |r: int| Seq::new(canvas[r].len(), |c: int| overlay_cell(canvas, block, x, y, r, c)),
    )
}

/// `canvas` with each of `blocks` laid on it in turn, all at column `x` and
/// row `y`: later blocks lie on top.
pub open spec fn overlay_all(canvas: Seq<Seq<char>>, blocks: Seq<Seq<Seq<char>>>, x: int, y: int) -> Seq<
    Seq<char>,
>
    decreases blocks.len(),
{
    if blocks.len() == 0 {
        canvas
    } else {
        overlay_spec(overlay_all(canvas, blocks.drop_last(), x, y), blocks.last(), x, y)
    }
}

/// Relies on `String::push`: the character is appended at the end.
#[verifier::external_body]
fn push_char(s: &mut String, c: char)
    ensures
        final(s)@ == old(s)@.push(c),
{
    s.push(c)
}

proof fn lemma_split_lines_nonempty(s: Seq<char>)
    ensures
        split_lines(s).len() >= 1,
    decreases s.len(),
{
    if s.len() > 0 {
        lemma_split_lines_nonempty(s.drop_last());
    }
}

/// Reads a text block into its lines.
pub fn lines_of(s: &str) -> (g: Vec<Vec<char>>)
    ensures
        rows(g@) == split_lines(s@),
{
    let mut lines: Vec<Vec<char>> = Vec::new();
    let mut cur: Vec<char> = Vec::new();
    let ghost whole = s@;
    for c in it: s.chars()
        invariant
            it.seq() == whole,
            rows(lines@).push(cur@) == split_lines(whole.take(it.index() as int)),
    {
        let ghost before = whole.take(it.index() as int);
        proof {
            assert(whole.take(it.index() as int + 1).drop_last() == before);
            lemma_split_lines_nonempty(before);
        }
        let ghost prev_lines = lines@;
        let ghost prev_cur = cur@;
        if c == LINE_FEED {
            lines.push(cur);
            cur = Vec::new();
            proof {
                assert(rows(lines@) == rows(prev_lines).push(prev_cur));
            }
        } else {
            cur.push(c);
            proof {
                assert(rows(lines@).push(cur@) == rows(prev_lines).push(prev_cur).update(
                    rows(prev_lines).len() as int,
                    prev_cur.push(c),
                ));
            }
        }
    }
    proof {
        assert(whole.take(whole.len() as int) == whole);
    }
    lines.push(cur);
    proof {
        assert(rows(lines@) == rows(lines@.drop_last()).push(cur@));
    }
    lines
}

/// Writes the lines of `g` out as one text, a line feed between each two.
pub fn text_of(g: &Vec<Vec<char>>) -> (s: String)
    ensures
        s@ == join_lines(rows(g@)),
{
    let mut out = String::new();
    let mut i: usize = 0;
    while i < g.len()
        invariant
            i <= g.len(),
            out@ == join_lines(rows(g@).take(i as int)),
        decreases g.len() - i,
    {
        let ghost done = rows(g@).take(i as int);
        if i > 0 {
            push_char(&mut out, LINE_FEED);
        }
        let ghost head = out@;
        let row = &g[i];
        let mut j: usize = 0;
        while j < row.len()
            invariant
                j <= row.len(),
                row == g[i as int],
                out@ == head + row@.take(j as int),
            decreases row.len() - j,
        {
            proof {
                assert(row@.take(j as int + 1) == row@.take(j as int).push(row@[j as int]));
            }
            push_char(&mut out, row[j]);
            j = j + 1;
        }
        proof {
            let next = rows(g@).take(i as int + 1);
            assert(next.drop_last() == done);
            assert(next.last() == row@);
            assert(row@.take(row@.len() as int) == row@);
            if i == 0 {
                assert(next.len() == 1);
            }
        }
        i = i + 1;
    }
    proof {
        assert(rows(g@).take(g.len() as int) == rows(g@));
    }
    out
}

/// A canvas of `height` rows of `width` blanks.
pub fn blank(width: usize, height: usize) -> (g: Vec<Vec<char>>)
    ensures
        rows(g@) == blank_spec(width as nat, height as nat),
{
    let mut g: Vec<Vec<char>> = Vec::new();
    let mut r: usize = 0;
    while r < height
        invariant
            r <= height,
            rows(g@) == blank_spec(width as nat, r as nat),
        decreases height - r,
    {
        let mut row: Vec<char> = Vec::new();
        let mut c: usize = 0;
        while c < width
            invariant
                c <= width,
                row@ == Seq::new(c as nat, |k: int| BLANK),
            decreases width - c,
        {
            row.push(BLANK);
            c = c + 1;
        }
        let ghost prev = g@;
        g.push(row);
        proof {
            let want = blank_spec(width as nat, r as nat + 1);
            assert(prev.len() == rows(prev).len());
            assert(g@ == prev.push(row));
            assert(row@ =~= want[r as int]);
            assert forall|k: int| 0 <= k < r + 1 implies rows(g@)[k] == want[k] by {
                if k < r {
                    assert(g@[k] == prev[k]);
                    assert(rows(prev)[k] == want[k]);
                }
            }
            assert(rows(g@) =~= want);
        }
        r = r + 1;
    }
    g
}

/// The character that `block` puts at row `r` and column `c` of its own,
/// where it has a cell there that is not blank.
fn block_cell_at(block: &Vec<Vec<char>>, r: i128, c: i128) -> (o: Option<char>)
    ensures
        o == block_cell(rows(block@), r as int, c as int),
{
    if 0 <= r && r < block.len() as i128 {
        let row = &block[r as usize];
        if 0 <= c && c < row.len() as i128 {
            let ch = row[c as usize];
            if ch != BLANK {
                return Some(ch);
            }
        }
    }
    None
}

/// `canvas` with `block` laid on it at column `x` and row `y`: each cell of
/// the block that is not blank and falls on the canvas replaces the cell
/// under it; the rest of the canvas is kept, and the rest of the block
/// dropped.
pub fn overlay(canvas: &Vec<Vec<char>>, block: &Vec<Vec<char>>, x: i64, y: i64) -> (out: Vec<
    Vec<char>,
>)
    ensures
        rows(out@) == overlay_spec(rows(canvas@), rows(block@), x as int, y as int),
{
    let ghost cv = rows(canvas@);
    let ghost bv = rows(block@);
    let ghost want = overlay_spec(cv, bv, x as int, y as int);
    let mut out: Vec<Vec<char>> = Vec::new();
    let mut r: usize = 0;
    while r < canvas.len()
        invariant
            r <= canvas.len(),
            cv == rows(canvas@),
            bv == rows(block@),
            want == overlay_spec(cv, bv, x as int, y as int),
            rows(out@) == want.take(r as int),
        decreases canvas.len() - r,
    {
        let under = &canvas[r];
        let mut row: Vec<char> = Vec::new();
        let mut c: usize = 0;
        while c < under.len()
            invariant
                r < canvas.len(),
                c <= under.len(),
                under == canvas[r as int],
                cv == rows(canvas@),
                bv == rows(block@),
                want == overlay_spec(cv, bv, x as int, y as int),
                row@ == want[r as int].take(c as int),
            decreases under.len() - c,
        {
            let ch = match block_cell_at(block, r as i128 - y as i128, c as i128 - x as i128) {
                Some(b) => b,
                None => under[c],
            };
            proof {
                assert(want[r as int][c as int] == ch);
                assert(want[r as int].take(c as int + 1) == want[r as int].take(c as int).push(ch));
            }
            row.push(ch);
            c = c + 1;
        }
        proof {
            assert(want[r as int].take(c as int) == want[r as int]);
            assert(want.take(r as int + 1) == want.take(r as int).push(row@));
        }
        out.push(row);
        proof {
            assert(rows(out@) == rows(out@.drop_last()).push(row@));
        }
        r = r + 1;
    }
    proof {
        assert(want.take(r as int) == want);
    }
    out
}

/// Overlaying keeps the canvas's shape: as many rows, each as long as before.
pub proof fn lemma_overlay_keeps_shape(canvas: Seq<Seq<char>>, block: Seq<Seq<char>>, x: int, y: int)
    ensures
        overlay_spec(canvas, block, x, y).len() == canvas.len(),
        forall|r: int|
            0 <= r < canvas.len() ==> (#[trigger] overlay_spec(canvas, block, x, y)[r]).len()
                == canvas[r].len(),
{
}

/// Overlaying any number of blocks keeps a rectangular canvas rectangular, of
/// the same size.
pub proof fn lemma_overlay_all_keeps_shape(
    canvas: Seq<Seq<char>>,
    blocks: Seq<Seq<Seq<char>>>,
    x: int,
    y: int,
    width: nat,
)
    requires
        is_rectangle(canvas, width),
    ensures
        overlay_all(canvas, blocks, x, y).len() == canvas.len(),
        is_rectangle(overlay_all(canvas, blocks, x, y), width),
    decreases blocks.len(),
{
    if blocks.len() > 0 {
        lemma_overlay_all_keeps_shape(canvas, blocks.drop_last(), x, y, width);
        lemma_overlay_keeps_shape(
            overlay_all(canvas, blocks.drop_last(), x, y),
            blocks.last(),
            x,
            y,
        );
    }
}

/// Laying block `a` and then block `b` on a canvas leaves in each cell the
/// character of `b` where `b` is not blank there, else that of `a` where `a`
/// is not blank there, else the canvas's own.
pub proof fn lemma_overlay_stacking(
    canvas: Seq<Seq<char>>,
    a: Seq<Seq<char>>,
    xa: int,
    ya: int,
    b: Seq<Seq<char>>,
    xb: int,
    yb: int,
    r: int,
    c: int,
)
    requires
        0 <= r < canvas.len(),
        0 <= c < canvas[r].len(),
    ensures
        overlay_spec(overlay_spec(canvas, a, xa, ya), b, xb, yb)[r][c] == match block_cell(
            b,
            r - yb,
            c - xb,
        ) {
            Some(ch) => ch,
            None => match block_cell(a, r - ya, c - xa) {
                Some(ch) => ch,
                None => canvas[r][c],
            },
        },
{
}

/// The order in which two blocks are laid on a canvas matters only where
/// both are not blank on the same cell: without such a cell either order
/// gives the same canvas.
pub proof fn lemma_overlay_order_matters_only_on_clash(
    canvas: Seq<Seq<char>>,
    a: Seq<Seq<char>>,
    xa: int,
    ya: int,
    b: Seq<Seq<char>>,
    xb: int,
    yb: int,
)
    requires
        forall|r: int, c: int|
            !(#[trigger] block_cell(a, r - ya, c - xa) is Some && #[trigger] block_cell(
                b,
                r - yb,
                c - xb,
            ) is Some),
    ensures
        overlay_spec(overlay_spec(canvas, a, xa, ya), b, xb, yb) == overlay_spec(
            overlay_spec(canvas, b, xb, yb),
            a,
            xa,
            ya,
        ),
{
    let ab = overlay_spec(overlay_spec(canvas, a, xa, ya), b, xb, yb);
    let ba = overlay_spec(overlay_spec(canvas, b, xb, yb), a, xa, ya);
    assert forall|r: int| 0 <= r < canvas.len() implies ab[r] == ba[r] by {
        assert forall|c: int| 0 <= c < canvas[r].len() implies ab[r][c] == ba[r][c] by {
            lemma_overlay_stacking(canvas, a, xa, ya, b, xb, yb, r, c);
            lemma_overlay_stacking(canvas, b, xb, yb, a, xa, ya, r, c);
        }
        assert(ab[r] =~= ba[r]);
    }
    assert(ab =~= ba);
}

} // verus!
