use vstd::arithmetic::div_mod::{lemma_fundamental_div_mod, lemma_mod_bound};
use vstd::prelude::*;
use vstd::string::StringExecFns;

use crate::location::{COORD_LIMIT, Dimension, LocationRecord};

verus! {

/// The character of a decimal digit.
pub open spec fn digit_char(d: int) -> char {
    ((d + 48) as u8) as char
}

/// The decimal digits of `n`, without leading zeros.
pub open spec fn decimal(n: nat) -> Seq<char>
    decreases n,
{
    if n < 10 {
        seq![digit_char(n as int)]
    } else {
        decimal(n / 10).push(digit_char((n % 10) as int))
    }
}

/// The number made of the two leading decimal digits of `q` (all of `q`
/// below 100).
pub open spec fn leading_two(q: nat) -> nat
    decreases q,
{
    if q < 100 {
        q
    } else {
        leading_two(q / 10)
    }
}

/// An axis label of five characters or fewer: ` 500`, `2.2k`, `2k`, ` 22k`.
/// Thousands are shown with three characters of the quotient's decimal
/// form, from ten thousand on with two.
pub open spec fn label(n: nat) -> Seq<char> {
    if n < 1000 {
        seq![' '] + decimal(n)
    } else if n < 10000 {
        if n % 1000 == 0 {
            decimal(n / 1000).push('k')
        } else {
            seq![digit_char((n / 1000) as int), '.', digit_char(((n / 100) % 10) as int), 'k']
        }
    } else {
        (seq![' '] + decimal(leading_two(n / 1000))).push('k')
    }
}

/// Relies on `String::push`: the character is appended at the end.
#[verifier::external_body]
fn push_char(s: &mut String, c: char)
    ensures
        final(s)@ == old(s)@.push(c),
{
    s.push(c);
}

fn digit(d: u64) -> (c: char)
    requires
        d < 10,
    ensures
        c == digit_char(d as int),
{
    ((d as u8) + 48u8) as char
}

fn push_decimal(s: &mut String, n: u64)
    ensures
        final(s)@ == old(s)@ + decimal(n as nat),
    decreases n,
{
    if n < 10 {
        push_char(s, digit(n));
        assert(final(s)@ =~= old(s)@ + decimal(n as nat));
    } else {
        push_decimal(s, n / 10);
        push_char(s, digit(n % 10));
        assert(final(s)@ =~= old(s)@ + decimal(n as nat));
    }
}

fn leading_two_of(q: u64) -> (r: u64)
    ensures
        r == leading_two(q as nat),
    decreases q,
{
    if q < 100 {
        q
    } else {
        leading_two_of(q / 10)
    }
}

/// Formats an axis label.
pub fn format_num(num: u64) -> (r: String)
    ensures
        r@ == label(num as nat),
{
    let mut s = String::new();
    if num < 1000 {
        push_char(&mut s, ' ');
        push_decimal(&mut s, num);
    } else if num < 10000 {
        if num % 1000 == 0 {
            push_decimal(&mut s, num / 1000);
            push_char(&mut s, 'k');
        } else {
            push_char(&mut s, digit(num / 1000));
            push_char(&mut s, '.');
            push_char(&mut s, digit((num / 100) % 10));
            push_char(&mut s, 'k');
        }
    } else {
        push_char(&mut s, ' ');
        push_decimal(&mut s, leading_two_of(num / 1000));
        push_char(&mut s, 'k');
    }
    assert(s@ =~= label(num as nat));
    s
}

/// Half the side, in thousandths of a block, of the box around a cell's
/// world coordinate within which a position marks the cell.
pub const REACH: i64 = 512_000;

pub open spec fn abs(v: int) -> int {
    if v < 0 {
        -v
    } else {
        v
    }
}

pub open spec fn max(a: int, b: int) -> int {
    if a < b {
        b
    } else {
        a
    }
}

/// Every record of the history has coordinates within range.
pub open spec fn history_wf(h: Seq<LocationRecord>) -> bool {
    forall|i: int| 0 <= i < h.len() ==> (#[trigger] h[i]).wf()
}

/// The largest absolute x over all records, whatever their dimension; 0 when
/// there are none.
pub open spec fn max_abs_x(h: Seq<LocationRecord>) -> int
    decreases h.len(),
{
    if h.len() == 0 {
        0
    } else {
        max(max_abs_x(h.drop_last()), abs(h.last().location.x as int))
    }
}

/// The largest absolute z over all records, whatever their dimension; 0 when
/// there are none.
pub open spec fn max_abs_z(h: Seq<LocationRecord>) -> int
    decreases h.len(),
{
    if h.len() == 0 {
        0
    } else {
        max(max_abs_z(h.drop_last()), abs(h.last().location.z as int))
    }
}

/// The world distance, in thousandths, from the centre of the map to its edges.
pub open spec fn scale_milli(h: Seq<LocationRecord>) -> int {
    max(max_abs_x(h), max_abs_z(h)) + REACH
}

/// Column of the map's centre.
pub open spec fn center_col(w: int) -> int {
    w / 2
}

/// Row of the map's centre.
pub open spec fn center_row(w: int) -> int {
    (w / 2) / 2
}

/// `p` lies within `REACH` of the world coordinate `(c - ctr) * scale / ctr`
/// of grid index `c`; both sides are multiplied by `ctr`.
pub open spec fn within_reach(p: int, c: int, ctr: int, scale: int) -> bool {
    abs(p * ctr - (c - ctr) * scale) < REACH * ctr
}

/// Grid index `c` is one nearest to the world coordinate `p`: its world
/// coordinate lies within half a cell of `p`.
pub open spec fn nearest_index(p: int, c: int, ctr: int, scale: int) -> bool {
    2 * abs(p * ctr - (c - ctr) * scale) <= scale
}

/// Record `r` marks the cell at column `col`, row `row` of a map of width `w`.
pub open spec fn marks(r: LocationRecord, scale: int, w: int, col: int, row: int) -> bool {
    &&& r.location.dimension == Dimension::Overworld
    &&& within_reach(r.location.x as int, col, center_col(w), scale)
    &&& within_reach(r.location.z as int, row, center_row(w), scale)
}

/// Some overworld record of the history lies near the cell's world coordinate.
pub open spec fn cell_visited(h: Seq<LocationRecord>, w: int, col: int, row: int) -> bool {
    exists|i: int| 0 <= i < h.len() && marks(#[trigger] h[i], scale_milli(h), w, col, row)
}

proof fn lemma_max_abs_bound(h: Seq<LocationRecord>)
    requires
        history_wf(h),
    ensures
        0 <= max_abs_x(h) < COORD_LIMIT,
        0 <= max_abs_z(h) < COORD_LIMIT,
    decreases h.len(),
{
    if h.len() > 0 {
        assert(h.last() == h[h.len() - 1]);
        assert(h.last().wf());
        let p = h.drop_last();
        assert(history_wf(p)) by {
            assert forall|i: int| 0 <= i < p.len() implies (#[trigger] p[i]).wf() by {
                assert(p[i] == h[i]);
            }
        }
        lemma_max_abs_bound(p);
    }
}

fn abs_i64(v: i64) -> (r: i64)
    requires
        -COORD_LIMIT < v < COORD_LIMIT,
    ensures
        r == abs(v as int),
{
    if v < 0 {
        -v
    } else {
        v
    }
}

/// The map's scale for a history.
pub fn compute_scale(h: &Vec<LocationRecord>) -> (r: i64)
    requires
        history_wf(h@),
    ensures
        r == scale_milli(h@),
        REACH <= r < COORD_LIMIT + REACH,
{
    let mut mx: i64 = 0;
    let mut mz: i64 = 0;
    let mut i: usize = 0;
    while i < h.len()
        invariant
            i <= h@.len(),
            history_wf(h@),
            mx == max_abs_x(h@.take(i as int)),
            mz == max_abs_z(h@.take(i as int)),
            0 <= mx < COORD_LIMIT,
            0 <= mz < COORD_LIMIT,
        decreases h.len() - i,
    {
        let ghost next = h@.take(i + 1);
        assert(next.drop_last() == h@.take(i as int));
        assert(next.last() == h@[i as int]);
        assert(h@[i as int].wf());
        let ax = abs_i64(h[i].location.x);
        let az = abs_i64(h[i].location.z);
        if ax > mx {
            mx = ax;
        }
        if az > mz {
            mz = az;
        }
        i = i + 1;
    }
    assert(h@.take(h@.len() as int) == h@);
    let m = if mx < mz {
        mz
    } else {
        mx
    };
    m + REACH
}

/// Tells whether `p` lies within `REACH` of grid index `c`'s world coordinate.
fn within(p: i64, c: usize, ctr: usize, scale: i64) -> (r: bool)
    requires
        -COORD_LIMIT < p < COORD_LIMIT,
        0 < scale < COORD_LIMIT + REACH,
        0 < ctr,
    ensures
        r == within_reach(p as int, c as int, ctr as int, scale as int),
{
    let pi = p as i128;
    let ci = c as i128;
    let ti = ctr as i128;
    let si = scale as i128;
    assert(-0x8_0000_0000_0000_0000_0000_0000_0000 < pi * ti < 0x8_0000_0000_0000_0000_0000_0000_0000)
        by (nonlinear_arith)
        requires
            -0x4_0000_0000_0000 < pi < 0x4_0000_0000_0000,
            0 < ti < 0x1_0000_0000_0000_0000,
    ;
    assert(-0x8_0000_0000_0000_0000_0000_0000_0000 < (ci - ti) * si < 0x8_0000_0000_0000_0000_0000_0000_0000)
        by (nonlinear_arith)
        requires
            -0x1_0000_0000_0000_0000 < ci - ti < 0x1_0000_0000_0000_0000,
            0 < si < 0x8_0000_0000_0000,
    ;
    let d = pi * ti - (ci - ti) * si;
    let a = if d < 0 {
        -d
    } else {
        d
    };
    // REACH, widened
    a < 512_000i128 * ti
}

/// Tells whether some overworld record marks the cell.
fn is_visited(h: &Vec<LocationRecord>, scale: i64, w: usize, col: usize, row: usize) -> (r: bool)
    requires
        history_wf(h@),
        scale == scale_milli(h@),
        0 < scale < COORD_LIMIT + REACH,
        w >= 20,
    ensures
        r == cell_visited(h@, w as int, col as int, row as int),
{
    let cx = w / 2;
    let cy = (w / 2) / 2;
    let mut i: usize = 0;
    while i < h.len()
        invariant
            i <= h@.len(),
            history_wf(h@),
            scale == scale_milli(h@),
            0 < scale < COORD_LIMIT + REACH,
            w >= 20,
            cx == center_col(w as int),
            cy == center_row(w as int),
            forall|j: int| 0 <= j < i ==> !marks(#[trigger] h@[j], scale as int, w as int, col as int, row as int),
        decreases h.len() - i,
    {
        let r = h[i];
        assert(h@[i as int].wf());
        if r.location.dimension == Dimension::Overworld && within(r.location.x, col, cx, scale)
            && within(r.location.z, row, cy, scale) {
            assert(marks(h@[i as int], scale as int, w as int, col as int, row as int));
            return true;
        }
        i = i + 1;
    }
    false
}

pub open spec fn repeat(c: char, n: int) -> Seq<char> {
    Seq::new(n as nat, |_i: int| c)
}

/// The label of the map's edges, in blocks.
pub open spec fn max_label(h: Seq<LocationRecord>) -> Seq<char> {
    label((scale_milli(h) / 1000) as nat)
}

/// The label halfway between the centre and the edges, in blocks.
pub open spec fn half_label(h: Seq<LocationRecord>) -> Seq<char> {
    label((scale_milli(h) / 2000) as nat)
}

/// The row of labels above the map.
pub open spec fn top_line(h: Seq<LocationRecord>, w: int) -> Seq<char> {
    let sp = w / 4 - 2;
    "     -"@ + max_label(h) + repeat(' ', sp - 1) + "-"@ + half_label(h) + repeat(' ', sp - 1)
        + "0"@ + repeat(' ', sp) + half_label(h) + repeat(' ', sp) + max_label(h) + "\n"@
}

/// The x axis marker line, with the marker `m` (`-X-` above, `+X+` below).
pub open spec fn axis_line(w: int, m: Seq<char>) -> Seq<char> {
    repeat(' ', center_col(w) + 8) + m + "\n"@
}

/// The label at the left of a grid row.
pub open spec fn left_label(h: Seq<LocationRecord>, w: int, row: int) -> Seq<char> {
    let rows = w / 2;
    if row == 0 {
        "-"@ + max_label(h)
    } else if row == rows / 4 {
        "-"@ + half_label(h)
    } else if row == 3 * rows / 4 {
        " "@ + half_label(h)
    } else if row == rows - 1 {
        " "@ + max_label(h)
    } else {
        repeat(' ', 5)
    }
}

pub open spec fn cell_char(h: Seq<LocationRecord>, w: int, col: int, row: int) -> char {
    if cell_visited(h, w, col, row) {
        'X'
    } else {
        ' '
    }
}

/// The cells of `row` from column `from` up to `to`.
pub open spec fn cells(h: Seq<LocationRecord>, w: int, row: int, from: int, to: int) -> Seq<
    char,
> {
    Seq::new((to - from) as nat, |j: int| cell_char(h, w, from + j, row))
}

/// One grid row: the centre row is the horizontal axis; the others hold a
/// label, the cells and a vertical divider at the centre column.
pub open spec fn grid_line(h: Seq<LocationRecord>, w: int, row: int) -> Seq<char> {
    let cx = center_col(w);
    if row == center_row(w) {
        "0    -Z- "@ + repeat('-', cx) + "+"@ + repeat('-', cx) + " +Z+\n"@
    } else {
        left_label(h, w, row) + "    "@ + cells(h, w, row, 0, cx) + "|"@ + cells(h, w, row, cx, w)
            + "\n"@
    }
}

/// The first `n` grid rows.
pub open spec fn grid_lines(h: Seq<LocationRecord>, w: int, n: nat) -> Seq<char>
    decreases n,
{
    if n == 0 {
        seq![]
    } else {
        grid_lines(h, w, (n - 1) as nat) + grid_line(h, w, n - 1)
    }
}

/// The whole map of a history at width `w`, one line per `\n`.
pub open spec fn map_text(h: Seq<LocationRecord>, w: int) -> Seq<char> {
    top_line(h, w) + axis_line(w, "-X-"@) + grid_lines(h, w, (w / 2) as nat) + axis_line(
        w,
        "+X+"@,
    )
}

fn push_repeat(s: &mut String, c: char, n: usize)
    ensures
        final(s)@ == old(s)@ + repeat(c, n as int),
{
    let ghost s0 = s@;
    let mut i: usize = 0;
    while i < n
        invariant
            i <= n,
            s@ == s0 + repeat(c, i as int),
        decreases n - i,
    {
        push_char(s, c);
        i = i + 1;
        assert(s@ =~= s0 + repeat(c, i as int));
    }
}

fn push_cells(
    s: &mut String,
    h: &Vec<LocationRecord>,
    scale: i64,
    w: usize,
    row: usize,
    from: usize,
    to: usize,
)
    requires
        history_wf(h@),
        scale == scale_milli(h@),
        0 < scale < COORD_LIMIT + REACH,
        w >= 20,
        from <= to,
    ensures
        final(s)@ == old(s)@ + cells(h@, w as int, row as int, from as int, to as int),
{
    let ghost s0 = s@;
    let mut j: usize = from;
    while j < to
        invariant
            from <= j <= to,
            history_wf(h@),
            scale == scale_milli(h@),
            0 < scale < COORD_LIMIT + REACH,
            w >= 20,
            s@ == s0 + cells(h@, w as int, row as int, from as int, j as int),
        decreases to - j,
    {
        let c = if is_visited(h, scale, w, j, row) {
            'X'
        } else {
            ' '
        };
        push_char(s, c);
        j = j + 1;
        assert(s@ =~= s0 + cells(h@, w as int, row as int, from as int, j as int));
    }
}

/// Draws the history as a top-down map `w` columns wide: overworld positions
/// show as `X`, the axes cross at the origin, and the labels give the world
/// distance, in blocks, of the edges and of the halfway marks.
pub fn render(h: &Vec<LocationRecord>, w: usize) -> (r: String)
    requires
        history_wf(h@),
        w >= 20,
    ensures
        r@ == map_text(h@, w as int),
{
    let scale = compute_scale(h);
    let max_str = format_num((scale / 1000) as u64);
    let half_str = format_num((scale / 2000) as u64);
    let sp = w / 4 - 2;
    let cx = w / 2;
    let rows = w / 2;
    let cy = rows / 2;

    let mut out = String::new();
    out.append("     -");
    out.append(max_str.as_str());
    push_repeat(&mut out, ' ', sp - 1);
    out.append("-");
    out.append(half_str.as_str());
    push_repeat(&mut out, ' ', sp - 1);
    out.append("0");
    push_repeat(&mut out, ' ', sp);
    out.append(half_str.as_str());
    push_repeat(&mut out, ' ', sp);
    out.append(max_str.as_str());
    out.append("\n");
    assert(out@ =~= top_line(h@, w as int));
    push_repeat(&mut out, ' ', cx + 8);
    out.append("-X-");
    out.append("\n");
    assert(out@ =~= top_line(h@, w as int) + axis_line(w as int, "-X-"@));
    let ghost head = out@;

    let mut i: usize = 0;
    while i < rows
        invariant
            i <= rows,
            rows == w / 2,
            cx == center_col(w as int),
            cy == center_row(w as int),
            history_wf(h@),
            scale == scale_milli(h@),
            0 < scale < COORD_LIMIT + REACH,
            w >= 20,
            max_str@ == max_label(h@),
            half_str@ == half_label(h@),
            out@ == head + grid_lines(h@, w as int, i as nat),
        decreases rows - i,
    {
        let ghost before = out@;
        if i == cy {
            out.append("0    -Z- ");
            push_repeat(&mut out, '-', cx);
            out.append("+");
            push_repeat(&mut out, '-', cx);
            out.append(" +Z+\n");
        } else {
            if i == 0 {
                out.append("-");
                out.append(max_str.as_str());
            } else if i == rows / 4 {
                out.append("-");
                out.append(half_str.as_str());
            } else if i as u128 == 3 * (rows as u128) / 4 {
                out.append(" ");
                out.append(half_str.as_str());
            } else if i == rows - 1 {
                out.append(" ");
                out.append(max_str.as_str());
            } else {
                push_repeat(&mut out, ' ', 5);
            }
            assert(out@ =~= before + left_label(h@, w as int, i as int));
            out.append("    ");
            push_cells(&mut out, h, scale, w, i, 0, cx);
            out.append("|");
            push_cells(&mut out, h, scale, w, i, cx, w);
            out.append("\n");
        }
        assert(out@ =~= before + grid_line(h@, w as int, i as int));
        i = i + 1;
        assert(out@ =~= head + grid_lines(h@, w as int, i as nat));
    }
    push_repeat(&mut out, ' ', cx + 8);
    out.append("+X+");
    out.append("\n");
    assert(out@ =~= map_text(h@, w as int));
    out
}

/// The map depends on the history and the width alone: equal arguments give
/// the same text.
pub proof fn lemma_render_deterministic(
    h1: Seq<LocationRecord>,
    h2: Seq<LocationRecord>,
    w: int,
)
    requires
        h1 == h2,
    ensures
        map_text(h1, w) == map_text(h2, w),
{
}

/// With no records the scale is the bare margin and no cell is marked.
pub proof fn lemma_empty_history(w: int)
    ensures
        scale_milli(Seq::<LocationRecord>::empty()) == REACH,
        forall|col: int, row: int| !cell_visited(Seq::<LocationRecord>::empty(), w, col, row),
{
}

/// Every record widens the scale, whatever its dimension: the map reaches at
/// least `REACH` beyond each record's x and z.
pub proof fn lemma_scale_covers_all(h: Seq<LocationRecord>)
    ensures
        forall|i: int|
            0 <= i < h.len() ==> abs((#[trigger] h[i]).location.x as int) + REACH <= scale_milli(h)
                && abs(h[i].location.z as int) + REACH <= scale_milli(h),
    decreases h.len(),
{
    if h.len() > 0 {
        let p = h.drop_last();
        lemma_scale_covers_all(p);
        assert forall|i: int| 0 <= i < h.len() implies abs((#[trigger] h[i]).location.x as int)
            + REACH <= scale_milli(h) && abs(h[i].location.z as int) + REACH <= scale_milli(h) by {
            if i < p.len() {
                assert(p[i] == h[i]);
            }
        }
    }
}

/// Records of the nether or the end never mark a cell.
pub proof fn lemma_other_dimensions_unmarked(h: Seq<LocationRecord>, w: int)
    requires
        forall|i: int| 0 <= i < h.len() ==> (#[trigger] h[i]).location.dimension != Dimension::Overworld,
    ensures
        forall|col: int, row: int| !cell_visited(h, w, col, row),
{
}

/// A cell whose world coordinate is nearest an overworld record along both
/// axes (the record lies within half a cell of it) is marked, as long as half a
/// row's height in world units is under `REACH`, that is, the scale is below
/// `2 * REACH * center_row(w)`.
pub proof fn lemma_nearest_cell_marked(h: Seq<LocationRecord>, w: int, i: int, col: int, row: int)
    requires
        w >= 20,
        0 <= i < h.len(),
        h[i].location.dimension == Dimension::Overworld,
        scale_milli(h) < 2 * REACH * center_row(w),
        nearest_index(h[i].location.x as int, col, center_col(w), scale_milli(h)),
        nearest_index(h[i].location.z as int, row, center_row(w), scale_milli(h)),
    ensures
        cell_visited(h, w, col, row),
{
    let s = scale_milli(h);
    let cx = center_col(w);
    let cy = center_row(w);
    assert(cy <= cx);
    assert(REACH * cy <= REACH * cx) by (nonlinear_arith)
        requires
            cy <= cx,
    ;
    assert(2 * REACH * cy == 2 * (REACH * cy)) by (nonlinear_arith);
    let ax = h[i].location.x * cx - (col - cx) * s;
    let az = h[i].location.z * cy - (row - cy) * s;
    assert(abs(ax) < REACH * cx);
    assert(abs(az) < REACH * cy);
    assert(within_reach(h[i].location.x as int, col, cx, s));
    assert(within_reach(h[i].location.z as int, row, cy, s));
    assert(marks(h[i], s, w, col, row));
}

proof fn lemma_round_index(p: int, ctr: int, s: int) -> (k: int)
    requires
        0 < ctr,
        abs(p) + REACH <= s,
        s < 2 * REACH * ctr,
    ensures
        -ctr <= k < ctr,
        nearest_index(p, ctr + k, ctr, s),
{
    let d = 2 * s;
    let q = 2 * (p * ctr) + s;
    let k = q / d;
    lemma_fundamental_div_mod(q, d);
    lemma_mod_bound(q, d);
    let r = q % d;
    assert(q == d * k + r);
    assert(d * k == 2 * (k * s)) by (nonlinear_arith)
        requires
            d == 2 * s,
    ;
    assert(2 * (p * ctr - k * s) == r - s);
    assert(p * ctr <= (s - REACH) * ctr) by (nonlinear_arith)
        requires
            p <= s - REACH,
            0 < ctr,
    ;
    assert(p * ctr >= -(s - REACH) * ctr) by (nonlinear_arith)
        requires
            p >= -(s - REACH),
            0 < ctr,
    ;
    assert(q < d * ctr) by (nonlinear_arith)
        requires
            q == 2 * (p * ctr) + s,
            p * ctr <= (s - REACH) * ctr,
            s < 2 * REACH * ctr,
            d == 2 * s,
    ;
    assert(q > -d * ctr) by (nonlinear_arith)
        requires
            q == 2 * (p * ctr) + s,
            p * ctr >= -(s - REACH) * ctr,
            0 < s,
            0 < ctr,
            0 < REACH,
            d == 2 * s,
    ;
    assert(k < ctr) by (nonlinear_arith)
        requires
            q == d * k + r,
            0 <= r,
            q < d * ctr,
            0 < d,
    ;
    assert(k >= -ctr) by (nonlinear_arith)
        requires
            q == d * k + r,
            r < d,
            q > -d * ctr,
            0 < d,
    ;
    assert((ctr + k) - ctr == k);
    k
}

/// Every overworld record has a cell of the grid nearest to it along both
/// axes, and that cell is marked, as long as the scale is below
/// `2 * REACH * center_row(w)`.
pub proof fn lemma_record_has_marked_nearest_cell(h: Seq<LocationRecord>, w: int, i: int)
    requires
        w >= 20,
        0 <= i < h.len(),
        h[i].location.dimension == Dimension::Overworld,
        scale_milli(h) < 2 * REACH * center_row(w),
    ensures
        exists|col: int, row: int|
            0 <= col < w && 0 <= row < w / 2 && nearest_index(
                h[i].location.x as int,
                col,
                center_col(w),
                scale_milli(h),
            ) && nearest_index(h[i].location.z as int, row, center_row(w), scale_milli(h))
                && #[trigger] cell_visited(h, w, col, row),
{
    let s = scale_milli(h);
    let cx = center_col(w);
    let cy = center_row(w);
    lemma_scale_covers_all(h);
    assert(abs(h[i].location.x as int) + REACH <= s);
    assert(2 * REACH * cy <= 2 * REACH * cx) by (nonlinear_arith)
        requires
            cy <= cx,
    ;
    let kx = lemma_round_index(h[i].location.x as int, cx, s);
    let kz = lemma_round_index(h[i].location.z as int, cy, s);
    let col = cx + kx;
    let row = cy + kz;
    lemma_nearest_cell_marked(h, w, i, col, row);
    assert(0 <= col < w && 0 <= row < w / 2);
}

} // verus!
