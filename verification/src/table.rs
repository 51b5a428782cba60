//! Plain-text table and detail layout for terminal output.
//!
//! A table is laid out in columns whose width starts as the widest byte length
//! of the header and of every cell in that column.  When the table fits the
//! terminal the spare columns are handed out evenly (the leftmost columns take
//! the remainder); otherwise the last column is narrowed to the space that is
//! left.  Cells longer (in characters) than their column are cut and end in an
//! ellipsis; shorter ones are padded with spaces.  Columns are separated by two
//! spaces and every line ends in a newline.

use vstd::prelude::*;
use vstd::string::StringSliceAdditionalSpecFns;
use vstd::utf8::encode_utf8;

use crate::text::{lines_acc, lines_of, push_char, strings_view, strip_cr, text_lines};

verus! {

// ── Model ────────────────────────────────────────────────────────────────────

/// Length in bytes of the UTF-8 encoding of `s` (what `str::len` reports).
pub open spec fn byte_width(s: Seq<char>) -> nat {
    encode_utf8(s).len()
}

/// Sum of a sequence of widths.
pub open spec fn total(s: Seq<nat>) -> nat
    decreases s.len(),
{
    if s.len() == 0 {
        0
    } else {
        total(s.drop_last()) + s.last()
    }
}

/// The content width of column `c`: the widest byte length among the header
/// and the cells of that column (rows shorter than the header contribute
/// nothing to the columns they lack).
pub open spec fn column_base_width(
    headers: Seq<Seq<char>>,
    rows: Seq<Seq<Seq<char>>>,
    c: int,
) -> nat
    decreases rows.len(),
{
    if rows.len() == 0 {
        byte_width(headers[c])
    } else {
        let prev = column_base_width(headers, rows.drop_last(), c);
        let last = rows.last();
        if c < last.len() && byte_width(last[c]) > prev {
            byte_width(last[c])
        } else {
            prev
        }
    }
}

/// Content widths of all columns.
pub open spec fn base_widths(headers: Seq<Seq<char>>, rows: Seq<Seq<Seq<char>>>) -> Seq<nat> {
    Seq::new(headers.len(), |c: int| column_base_width(headers, rows, c))
}

/// Width taken by the two-space separators between `n` columns.
pub open spec fn separators(n: nat) -> nat {
    if n == 0 {
        0
    } else {
        2 * (n - 1) as nat
    }
}

/// Final column widths for a terminal `term_w` characters wide.
pub open spec fn fitted_widths(
    headers: Seq<Seq<char>>,
    rows: Seq<Seq<Seq<char>>>,
    term_w: nat,
) -> Seq<nat> {
    let base = base_widths(headers, rows);
    let n = headers.len();
    let full = total(base) + separators(n);
    if full <= term_w {
        let extra = (term_w - full) as nat;
        let per_col = extra / n;
        let leftover = extra % n;
        Seq::new(n, |i: int| base[i] + per_col + if i < leftover { 1nat } else { 0nat })
    } else {
        let fixed = total(base.take(n - 1)) + separators(n);
        let room = if term_w >= fixed { (term_w - fixed) as nat } else { 0nat };
        let head = byte_width(headers[n - 1]);
        base.update(n - 1, if room >= head { room } else { head })
    }
}

/// `n` spaces.
pub open spec fn spaces(n: nat) -> Seq<char> {
    Seq::new(n, |_i: int| ' ')
}

/// A cell fitted to a column `w` characters wide: padded with spaces when it
/// fits, otherwise cut to `w - 1` characters followed by an ellipsis.
pub open spec fn fit_cell(cell: Seq<char>, w: nat) -> Seq<char> {
    if cell.len() <= w {
        cell + spaces((w - cell.len()) as nat)
    } else {
        cell.take(if w >= 1 { w - 1 } else { 0 }).push('…')
    }
}

/// The first `k` cells of a line, separated by two spaces.
pub open spec fn render_cells(cells: Seq<Seq<char>>, widths: Seq<nat>, k: nat) -> Seq<char>
    decreases k,
{
    if k == 0 {
        Seq::empty()
    } else {
        let j = (k - 1) as nat;
        let sep = if j > 0 { seq![' ', ' '] } else { Seq::<char>::empty() };
        render_cells(cells, widths, j) + sep + fit_cell(cells[j as int], widths[j as int])
    }
}

/// One line of the table: as many cells as there are both cells and columns.
pub open spec fn render_line(cells: Seq<Seq<char>>, widths: Seq<nat>) -> Seq<char> {
    let k = if cells.len() <= widths.len() { cells.len() } else { widths.len() };
    render_cells(cells, widths, k).push('\n')
}

/// The lines of the first `k` rows.
pub open spec fn render_lines(rows: Seq<Seq<Seq<char>>>, widths: Seq<nat>, k: nat) -> Seq<char>
    decreases k,
{
    if k == 0 {
        Seq::empty()
    } else {
        render_lines(rows, widths, (k - 1) as nat) + render_line(rows[k - 1], widths)
    }
}

/// A horizontal rule `n` characters wide, ending the line.
pub open spec fn rule_line(n: nat) -> Seq<char> {
    Seq::new(n, |_i: int| '─').push('\n')
}

/// The whole table: nothing without columns, else the header line, a rule
/// as wide as the terminal, and then one line per row.
pub open spec fn table_text(
    headers: Seq<Seq<char>>,
    rows: Seq<Seq<Seq<char>>>,
    term_w: nat,
) -> Seq<char> {
    if headers.len() == 0 {
        Seq::empty()
    } else {
        let w = fitted_widths(headers, rows, term_w);
        render_line(headers, w) + rule_line(term_w) + render_lines(rows, w, rows.len())
    }
}

/// The texts of a slice of string slices.
pub open spec fn strs_view(s: Seq<&str>) -> Seq<Seq<char>> {
    s.map_values(|x: &str| x@)
}

/// The texts of a table body.
pub open spec fn rows_view(rows: Seq<Vec<String>>) -> Seq<Seq<Seq<char>>> {
    rows.map_values(|r: Vec<String>| r@.map_values(|c: String| c@))
}

// ── Lemmas ───────────────────────────────────────────────────────────────────

/// A column is at least as wide as its header and as each of its cells.
pub proof fn lemma_base_width_bounds(
    headers: Seq<Seq<char>>,
    rows: Seq<Seq<Seq<char>>>,
    c: int,
)
    ensures
        column_base_width(headers, rows, c) >= byte_width(headers[c]),
        forall|r: int|
            0 <= r < rows.len() && c < rows[r].len() ==> column_base_width(headers, rows, c)
                >= byte_width(#[trigger] rows[r][c]),
    decreases rows.len(),
{
    if rows.len() > 0 {
        lemma_base_width_bounds(headers, rows.drop_last(), c);
        assert forall|r: int|
            0 <= r < rows.len() && c < rows[r].len() implies column_base_width(headers, rows, c)
            >= byte_width(#[trigger] rows[r][c]) by {
            if r < rows.len() - 1 {
                assert(rows.drop_last()[r] == rows[r]);
            }
        }
    }
}

/// The width of a prefix of the rows never exceeds that of all the rows.
proof fn lemma_base_width_prefix(
    headers: Seq<Seq<char>>,
    rows: Seq<Seq<Seq<char>>>,
    k: int,
    c: int,
)
    requires
        0 <= k <= rows.len(),
    ensures
        column_base_width(headers, rows.take(k), c) <= column_base_width(headers, rows, c),
    decreases rows.len(),
{
    if k < rows.len() {
        assert(rows.drop_last().take(k) =~= rows.take(k));
        lemma_base_width_prefix(headers, rows.drop_last(), k, c);
    } else {
        assert(rows.take(k) =~= rows);
    }
}

/// A prefix of a sequence of widths sums to no more than the whole.
proof fn lemma_total_prefix(s: Seq<nat>, k: int)
    requires
        0 <= k <= s.len(),
    ensures
        total(s.take(k)) <= total(s),
    decreases s.len(),
{
    if k < s.len() {
        assert(s.drop_last().take(k) =~= s.take(k));
        lemma_total_prefix(s.drop_last(), k);
    } else {
        assert(s.take(k) =~= s);
    }
}

/// Every element is bounded by the sum.
proof fn lemma_total_bounds(s: Seq<nat>, i: int)
    requires
        0 <= i < s.len(),
    ensures
        s[i] <= total(s),
    decreases s.len(),
{
    if i < s.len() - 1 {
        lemma_total_bounds(s.drop_last(), i);
    }
}

/// Appending one element to a prefix.
proof fn lemma_total_take_step(s: Seq<nat>, k: int)
    requires
        0 <= k < s.len(),
    ensures
        total(s.take(k + 1)) == total(s.take(k)) + s[k],
{
    assert(s.take(k + 1).drop_last() =~= s.take(k));
}

proof fn lemma_share_bound(extra: nat, n: nat, i: nat)
    requires
        n > 0,
        i < extra % n,
    ensures
        extra / n + 1 <= extra,
{
    assert(extra == n * (extra / n) + extra % n) by (nonlinear_arith)
        requires n > 0;
    assert(n * (extra / n) >= extra / n) by (nonlinear_arith)
        requires n > 0, extra / n >= 0;
}

proof fn lemma_share_le(extra: nat, n: nat)
    requires
        n > 0,
    ensures
        extra / n <= extra,
{
    assert(extra / n <= extra) by (nonlinear_arith)
        requires n > 0;
}

// ── Executable layout ────────────────────────────────────────────────────────

fn max_usize(a: usize, b: usize) -> (m: usize)
    ensures
        m == if a >= b { a } else { b },
{
    if a >= b { a } else { b }
}

/// Appends `cell` fitted to a column `w` characters wide.
fn push_fitted(out: &mut String, cell: &str, w: usize)
    ensures
        final(out)@ == old(out)@ + fit_cell(cell@, w as nat),
{
    let char_count = cell.unicode_len();
    if char_count <= w {
        out.append(cell);
        let pad = w - char_count;
        let ghost base = out@;
        let mut i: usize = 0;
        while i < pad
            invariant
                i <= pad,
                out@ == base + spaces(i as nat),
            decreases pad - i,
        {
            push_char(out, ' ');
            i = i + 1;
            assert(out@ =~= base + spaces(i as nat));
        }
        assert(old(out)@ + fit_cell(cell@, w as nat) =~= base + spaces(pad as nat));
    } else {
        let keep = if w >= 1 { w - 1 } else { 0 };
        let head = cell.substring_char(0, keep);
        out.append(head);
        push_char(out, '…');
        assert(head@ =~= cell@.take(keep as int));
    }
}

/// Appends one line: the cells fitted to their columns, two spaces apart,
/// then a newline.
fn push_line(out: &mut String, cells: &[&str], widths: &Vec<usize>)
    ensures
        final(out)@ == old(out)@ + render_line(
            strs_view(cells@),
            widths@.map_values(|w: usize| w as nat),
        ),
{
    let ghost cv = strs_view(cells@);
    let ghost wv = widths@.map_values(|w: usize| w as nat);
    let k = if cells.len() <= widths.len() { cells.len() } else { widths.len() };
    let ghost base = out@;
    let mut i: usize = 0;
    while i < k
        invariant
            i <= k,
            k <= cells@.len(),
            k <= widths@.len(),
            cv == strs_view(cells@),
            wv == widths@.map_values(|w: usize| w as nat),
            out@ == base + render_cells(cv, wv, i as nat),
        decreases k - i,
    {
        let ghost before = out@;
        if i > 0 {
            push_char(out, ' ');
            push_char(out, ' ');
        }
        push_fitted(out, cells[i], widths[i]);
        proof {
            let sep = if i > 0 { seq![' ', ' '] } else { Seq::<char>::empty() };
            assert(cv[i as int] == cells@[i as int]@);
            assert(wv[i as int] == widths@[i as int] as nat);
            assert(out@ =~= before + sep + fit_cell(cv[i as int], wv[i as int]));
            assert(render_cells(cv, wv, (i + 1) as nat) == render_cells(cv, wv, i as nat) + sep
                + fit_cell(cv[i as int], wv[i as int]));
        }
        i = i + 1;
    }
    push_char(out, '\n');
}

/// Lays out `headers` and `rows` as a table for a terminal `term_w`
/// characters wide (see the module documentation).
pub fn format_table(headers: &[&str], rows: &[Vec<String>], term_w: usize) -> (out: String)
    requires
        total(base_widths(strs_view(headers@), rows_view(rows@))) + separators(headers@.len())
            <= usize::MAX,
    ensures
        out@ == table_text(strs_view(headers@), rows_view(rows@), term_w as nat),
{
    let ghost hv = strs_view(headers@);
    let ghost rv = rows_view(rows@);
    let ncols = headers.len();
    if ncols == 0 {
        return String::new();
    }
    let ghost base = base_widths(hv, rv);
    proof {
        assert forall|c: int| 0 <= c < ncols implies #[trigger] base[c] <= total(base) by {
            lemma_total_bounds(base, c);
        }
    }

    // Content widths: headers first, then every row.
    let mut widths: Vec<usize> = Vec::new();
    let mut c: usize = 0;
    while c < ncols
        invariant
            c <= ncols,
            ncols == headers@.len(),
            hv == strs_view(headers@),
            rv == rows_view(rows@),
            base == base_widths(hv, rv),
            total(base) + separators(ncols as nat) <= usize::MAX,
            forall|j: int| 0 <= j < ncols ==> #[trigger] base[j] <= total(base),
            widths@.len() == c,
            forall|j: int|
                0 <= j < c ==> widths@[j] as nat == column_base_width(hv, rv.take(0), j),
        decreases ncols - c,
    {
        proof {
            lemma_base_width_bounds(hv, rv, c as int);
            assert(hv[c as int] == headers@[c as int]@);
        }
        proof {
            assert(base[c as int] == column_base_width(hv, rv, c as int));
            assert(byte_width(hv[c as int]) <= usize::MAX);
            assert(headers@[c as int].spec_bytes() == encode_utf8(hv[c as int]));
        }
        let hw = headers[c].len();
        widths.push(hw);
        proof {
            assert(hw as nat == byte_width(hv[c as int]));
            assert(rv.take(0).len() == 0);
            assert(column_base_width(hv, rv.take(0), c as int) == byte_width(hv[c as int]));
        }
        c = c + 1;
    }

    let nrows = rows.len();
    let mut r: usize = 0;
    while r < nrows
        invariant
            r <= nrows,
            nrows == rows@.len(),
            ncols == headers@.len(),
            ncols > 0,
            hv == strs_view(headers@),
            rv == rows_view(rows@),
            base == base_widths(hv, rv),
            total(base) + separators(ncols as nat) <= usize::MAX,
            forall|q: int| 0 <= q < ncols ==> #[trigger] base[q] <= total(base),
            widths@.len() == ncols,
            forall|j: int|
                0 <= j < ncols ==> widths@[j] as nat == column_base_width(hv, rv.take(r as int), j),
        decreases nrows - r,
    {
        let row = &rows[r];
        let m = if row.len() <= ncols { row.len() } else { ncols };
        let ghost cur = rv.take(r as int);
        let ghost next = rv.take(r as int + 1);
        proof {
            assert(next.drop_last() =~= cur);
            assert(next.last() == rv[r as int]);
            assert(rv[r as int] == rows@[r as int]@.map_values(|x: String| x@));
        }
        let mut j: usize = 0;
        while j < m
            invariant
                j <= m,
                m <= ncols,
                m <= row@.len(),
                row == rows@[r as int],
                r < nrows,
                nrows == rows@.len(),
                ncols == headers@.len(),
                hv == strs_view(headers@),
                rv == rows_view(rows@),
                base == base_widths(hv, rv),
                total(base) + separators(ncols as nat) <= usize::MAX,
                forall|q: int| 0 <= q < ncols ==> #[trigger] base[q] <= total(base),
                cur == rv.take(r as int),
                next == rv.take(r as int + 1),
                next.drop_last() == cur,
                next.last() == rv[r as int],
                rv[r as int] == row@.map_values(|x: String| x@),
                widths@.len() == ncols,
                forall|q: int|
                    j <= q < ncols ==> widths@[q] as nat == column_base_width(hv, cur, q),
                forall|q: int|
                    0 <= q < j ==> widths@[q] as nat == column_base_width(hv, next, q),
            decreases m - j,
        {
            proof {
                lemma_base_width_bounds(hv, rv, j as int);
                lemma_base_width_prefix(hv, rv, r as int + 1, j as int);
                assert(rv[r as int][j as int] == row@[j as int]@);
            }
            let cell = row[j].as_str();
            proof {
                assert(cell@ == rv[r as int][j as int]);
                assert(column_base_width(hv, rv, j as int) == base[j as int]);
                assert(cell.spec_bytes() == encode_utf8(cell@));
            }
            let cell_w = cell.len();
            let w = max_usize(widths[j], cell_w);
            proof {
                assert(cell_w as nat == byte_width(next.last()[j as int]));
                assert(column_base_width(hv, next, j as int) == w as nat);
            }
            widths.set(j, w);
            j = j + 1;
        }
        proof {
            assert forall|q: int| 0 <= q < ncols implies widths@[q] as nat == column_base_width(
                hv,
                next,
                q,
            ) by {
                if q >= m {
                    assert(!(q < next.last().len()));
                }
            }
        }
        r = r + 1;
    }
    proof {
        assert(rv.take(nrows as int) =~= rv);
        assert forall|j: int| 0 <= j < ncols implies widths@[j] as nat == #[trigger] base[j] by {}
        assert(widths@.map_values(|w: usize| w as nat) =~= base);
    }

    // Total width of the content and the separators.
    let seps = (ncols - 1) * 2;
    let mut sum: usize = 0;
    let mut i: usize = 0;
    while i < ncols
        invariant
            i <= ncols,
            ncols == headers@.len(),
            ncols > 0,
            seps == separators(ncols as nat),
            base.len() == ncols,
            total(base) + separators(ncols as nat) <= usize::MAX,
            widths@.len() == ncols,
            forall|j: int| 0 <= j < ncols ==> widths@[j] as nat == #[trigger] base[j],
            sum == total(base.take(i as int)),
        decreases ncols - i,
    {
        proof {
            lemma_total_take_step(base, i as int);
            lemma_total_prefix(base, i as int + 1);
        }
        sum = sum + widths[i];
        i = i + 1;
    }
    proof {
        assert(base.take(ncols as int) =~= base);
    }
    let total_base = sum + seps;

    let ghost fitted = fitted_widths(hv, rv, term_w as nat);
    if total_base <= term_w {
        let extra = term_w - total_base;
        let per_col = extra / ncols;
        let leftover = extra % ncols;
        proof {
            lemma_share_le(extra as nat, ncols as nat);
        }
        let mut i: usize = 0;
        while i < ncols
            invariant
                i <= ncols,
                ncols == headers@.len(),
                ncols > 0,
                base.len() == ncols,
                total_base == total(base) + separators(ncols as nat),
                total_base <= term_w,
                extra == term_w - total_base,
                per_col == extra / ncols,
                leftover == extra % ncols,
                per_col <= extra,
                forall|j: int| 0 <= j < ncols ==> #[trigger] base[j] <= total(base),
                fitted == fitted_widths(hv, rv, term_w as nat),
                base == base_widths(hv, rv),
                widths@.len() == ncols,
                forall|j: int| i <= j < ncols ==> widths@[j] as nat == #[trigger] base[j],
                forall|j: int| 0 <= j < i ==> widths@[j] as nat == #[trigger] fitted[j],
            decreases ncols - i,
        {
            let bonus: usize = if i < leftover { 1 } else { 0 };
            proof {
                if i < leftover {
                    lemma_share_bound(extra as nat, ncols as nat, i as nat);
                }
                assert(base[i as int] <= total(base));
            }
            let w = widths[i] + per_col + bonus;
            widths.set(i, w);
            i = i + 1;
        }
    } else {
        let mut fixed: usize = 0;
        let mut i: usize = 0;
        while i < ncols - 1
            invariant
                i <= ncols - 1,
                ncols == headers@.len(),
                ncols > 0,
                base.len() == ncols,
                total(base) + separators(ncols as nat) <= usize::MAX,
                widths@.len() == ncols,
                forall|j: int| 0 <= j < ncols ==> widths@[j] as nat == #[trigger] base[j],
                fixed == total(base.take(i as int)),
            decreases ncols - 1 - i,
        {
            proof {
                lemma_total_take_step(base, i as int);
                lemma_total_prefix(base, i as int + 1);
            }
            fixed = fixed + widths[i];
            i = i + 1;
        }
        proof {
            lemma_total_prefix(base, ncols - 1);
        }
        let fixed = fixed + seps;
        let room = if term_w >= fixed { term_w - fixed } else { 0 };
        proof {
            assert(hv[ncols - 1] == headers@[ncols - 1]@);
        }
        let last = max_usize(room, headers[ncols - 1].len());
        proof {
            lemma_base_width_bounds(hv, rv, ncols - 1);
        }
        widths.set(ncols - 1, last);
    }
    proof {
        assert(widths@.map_values(|w: usize| w as nat) =~= fitted);
    }

    // Header line, a rule across the terminal, then one line per row.
    let mut out = String::new();
    push_line(&mut out, headers, &widths);
    let ghost head = out@;
    let mut k: usize = 0;
    while k < term_w
        invariant
            k <= term_w,
            out@ == head + Seq::new(k as nat, |_i: int| '─'),
        decreases term_w - k,
    {
        push_char(&mut out, '─');
        proof {
            assert(head + Seq::new(k as nat + 1, |_i: int| '─') =~= head + Seq::new(
                k as nat,
                |_i: int| '─',
            ).push('─'));
        }
        k = k + 1;
    }
    push_char(&mut out, '\n');
    proof {
        assert(out@ =~= render_line(hv, fitted) + rule_line(term_w as nat) + render_lines(rv, fitted, 0));
    }
    let mut r: usize = 0;
    while r < nrows
        invariant
            r <= nrows,
            nrows == rows@.len(),
            ncols == headers@.len(),
            ncols > 0,
            hv == strs_view(headers@),
            rv == rows_view(rows@),
            fitted == fitted_widths(hv, rv, term_w as nat),
            widths@.map_values(|w: usize| w as nat) == fitted,
            out@ == render_line(hv, fitted) + rule_line(term_w as nat) + render_lines(
                rv,
                fitted,
                r as nat,
            ),
        decreases nrows - r,
    {
        let row = &rows[r];
        let mut cells: Vec<&str> = Vec::new();
        let mut j: usize = 0;
        while j < row.len()
            invariant
                j <= row@.len(),
                cells@.len() == j,
                forall|q: int| 0 <= q < j ==> (#[trigger] cells@[q])@ == row@[q]@,
            decreases row@.len() - j,
        {
            cells.push(row[j].as_str());
            j = j + 1;
        }
        proof {
            assert(strs_view(cells@) =~= rv[r as int]);
        }
        push_line(&mut out, cells.as_slice(), &widths);
        r = r + 1;
    }
    out
}

// ── Laws ─────────────────────────────────────────────────────────────────────

proof fn lemma_utf8_at_least_chars(s: Seq<char>)
    ensures
        byte_width(s) >= s.len(),
    decreases s.len(),
{
    if s.len() > 0 {
        lemma_utf8_at_least_chars(s.drop_first());
    }
}

proof fn lemma_spread_total(base: Seq<nat>, per: nat, left: nat, k: int)
    requires
        0 <= k <= base.len(),
        left <= base.len(),
    ensures
        total(
            Seq::new(base.len(), |i: int| base[i] + per + if i < left { 1nat } else { 0nat }).take(k),
        ) == total(base.take(k)) + k * per + if k < left { k } else { left as int },
    decreases k,
{
    let w = Seq::new(base.len(), |i: int| base[i] + per + if i < left { 1nat } else { 0nat });
    if k > 0 {
        lemma_spread_total(base, per, left, k - 1);
        lemma_total_take_step(w, k - 1);
        lemma_total_take_step(base, k - 1);
        assert(w[k - 1] == base[k - 1] + per + if k - 1 < left { 1nat } else { 0nat });
        assert(k * per == (k - 1) * per + per) by (nonlinear_arith);
    } else {
        assert(w.take(0) =~= Seq::<nat>::empty());
        assert(base.take(0) =~= Seq::<nat>::empty());
    }
}

/// When the content fits the terminal, the spare width is spread over the
/// columns: no column is narrower than its content, and the widths with
/// their separators add up to the terminal's width.
pub proof fn law_fitting_table_fills_terminal(
    headers: Seq<Seq<char>>,
    rows: Seq<Seq<Seq<char>>>,
    term_w: nat,
)
    requires
        headers.len() > 0,
        total(base_widths(headers, rows)) + separators(headers.len()) <= term_w,
    ensures
        total(fitted_widths(headers, rows, term_w)) + separators(headers.len()) == term_w,
        forall|c: int|
            0 <= c < headers.len() ==> #[trigger] fitted_widths(headers, rows, term_w)[c]
                >= base_widths(headers, rows)[c],
{
    let base = base_widths(headers, rows);
    let n = headers.len();
    let extra = (term_w - (total(base) + separators(n))) as nat;
    let per = extra / n;
    let left = extra % n;
    let w = fitted_widths(headers, rows, term_w);
    assert(extra == n * per + left) by (nonlinear_arith)
        requires n > 0, per == extra / n, left == extra % n;
    lemma_spread_total(base, per, left, n as int);
    assert(w.take(n as int) =~= w);
    assert(base.take(n as int) =~= base);
    assert(n * per == (n as int) * per);
}

/// When the content fits the terminal, no cell is cut short: each is padded
/// to its column's width.
pub proof fn law_fitting_table_cuts_nothing(
    headers: Seq<Seq<char>>,
    rows: Seq<Seq<Seq<char>>>,
    term_w: nat,
    r: int,
    c: int,
)
    requires
        total(base_widths(headers, rows)) + separators(headers.len()) <= term_w,
        0 <= r < rows.len(),
        0 <= c < rows[r].len(),
        c < headers.len(),
    ensures
        fit_cell(rows[r][c], fitted_widths(headers, rows, term_w)[c]) == rows[r][c] + spaces(
            (fitted_widths(headers, rows, term_w)[c] - rows[r][c].len()) as nat,
        ),
{
    lemma_base_width_bounds(headers, rows, c);
    lemma_utf8_at_least_chars(rows[r][c]);
    law_fitting_table_fills_terminal(headers, rows, term_w);
}

proof fn lemma_render_cells_len(cells: Seq<Seq<char>>, widths: Seq<nat>, k: nat)
    requires
        k <= cells.len(),
        k <= widths.len(),
        forall|i: int| 0 <= i < k ==> (#[trigger] cells[i]).len() <= widths[i],
    ensures
        render_cells(cells, widths, k).len() == total(widths.take(k as int)) + separators(k),
    decreases k,
{
    if k == 0 {
        assert(widths.take(0) =~= Seq::<nat>::empty());
    } else {
        let j = (k - 1) as nat;
        lemma_render_cells_len(cells, widths, j);
        lemma_total_take_step(widths, j as int);
        assert(cells[j as int].len() <= widths[j as int]);
    }
}

/// When the content fits the terminal, the header line and every row with a
/// cell for each column are exactly as wide as the terminal.
pub proof fn law_fitting_lines_span_terminal(
    headers: Seq<Seq<char>>,
    rows: Seq<Seq<Seq<char>>>,
    term_w: nat,
    r: int,
)
    requires
        headers.len() > 0,
        total(base_widths(headers, rows)) + separators(headers.len()) <= term_w,
        0 <= r < rows.len(),
        rows[r].len() >= headers.len(),
    ensures
        render_line(headers, fitted_widths(headers, rows, term_w)).len() == term_w + 1,
        render_line(rows[r], fitted_widths(headers, rows, term_w)).len() == term_w + 1,
{
    let w = fitted_widths(headers, rows, term_w);
    let n = headers.len();
    law_fitting_table_fills_terminal(headers, rows, term_w);
    assert(w.take(n as int) =~= w);
    assert forall|c: int| 0 <= c < n implies (#[trigger] headers[c]).len() <= w[c] by {
        lemma_base_width_bounds(headers, rows, c);
        lemma_utf8_at_least_chars(headers[c]);
        assert(w[c] >= base_widths(headers, rows)[c]);
    }
    lemma_render_cells_len(headers, w, n);
    assert forall|c: int| 0 <= c < n implies (#[trigger] rows[r][c]).len() <= w[c] by {
        lemma_base_width_bounds(headers, rows, c);
        lemma_utf8_at_least_chars(rows[r][c]);
        assert(w[c] >= base_widths(headers, rows)[c]);
    }
    lemma_render_cells_len(rows[r], w, n);
}

/// When the content is wider than the terminal, only the last column gives
/// way: the others keep their content width, and the last never becomes
/// narrower than its header.
pub proof fn law_wide_table_squeezes_last_column(
    headers: Seq<Seq<char>>,
    rows: Seq<Seq<Seq<char>>>,
    term_w: nat,
)
    requires
        headers.len() > 0,
        total(base_widths(headers, rows)) + separators(headers.len()) > term_w,
    ensures
        forall|c: int|
            0 <= c < headers.len() - 1 ==> #[trigger] fitted_widths(headers, rows, term_w)[c]
                == base_widths(headers, rows)[c],
        fitted_widths(headers, rows, term_w)[headers.len() - 1] >= byte_width(
            headers[headers.len() - 1],
        ),
{
}

// ── Line layout ─────────────────────────────────────────────────────────────

/// Where column `j` starts on a line: the widths of the columns before it,
/// and two spaces after each of them.
pub open spec fn col_offset(widths: Seq<nat>, j: int) -> int {
    total(widths.take(j)) + 2 * j
}

/// A line without its newline: one fitted cell per column, as far as there
/// are cells.
pub open spec fn line_cells(cells: Seq<Seq<char>>, widths: Seq<nat>) -> Seq<char> {
    let k = if cells.len() <= widths.len() { cells.len() } else { widths.len() };
    render_cells(cells, widths, k)
}

/// The cells of a line sit in their columns: cell `j`, fitted to
/// `widths[j]`, starts at `col_offset(widths, j)`, with two spaces before it
/// when it is not the first.
pub open spec fn columns_aligned(body: Seq<char>, cells: Seq<Seq<char>>, widths: Seq<nat>) -> bool {
    &&& forall|j: int|
        #![trigger col_offset(widths, j)]
        0 <= j < widths.len() ==> body.subrange(col_offset(widths, j), col_offset(widths, j)
            + widths[j]) == fit_cell(cells[j], widths[j])
    &&& forall|j: int|
        #![trigger col_offset(widths, j)]
        0 < j < widths.len() ==> body.subrange(col_offset(widths, j) - 2, col_offset(widths, j))
            == seq![' ', ' ']
}

/// `s` ends in a carriage return.
pub open spec fn ends_in_cr(s: Seq<char>) -> bool {
    s.len() > 0 && s.last() == '\r'
}

/// `s` holds no `ch`.
pub open spec fn lacks(s: Seq<char>, ch: char) -> bool {
    forall|i: int| 0 <= i < s.len() ==> s[i] != ch
}

proof fn lemma_fit_cell_len(cell: Seq<char>, w: nat)
    requires
        cell.len() <= w || w >= 1,
    ensures
        fit_cell(cell, w).len() == w,
{
}

proof fn lemma_lacks_add(a: Seq<char>, b: Seq<char>, ch: char)
    requires
        lacks(a, ch),
        lacks(b, ch),
    ensures
        lacks(a + b, ch),
{
    assert forall|i: int| 0 <= i < (a + b).len() implies (a + b)[i] != ch by {
        if i < a.len() {
            assert((a + b)[i] == a[i]);
        } else {
            assert((a + b)[i] == b[i - a.len()]);
        }
    }
}

proof fn lemma_fit_cell_lacks(cell: Seq<char>, w: nat, ch: char)
    requires
        lacks(cell, ch),
        ch != ' ',
        ch != '…' || cell.len() <= w,
    ensures
        lacks(fit_cell(cell, w), ch),
{
    if cell.len() <= w {
        lemma_lacks_add(cell, spaces((w - cell.len()) as nat), ch);
    } else {
        let t = cell.take(if w >= 1 { w - 1 } else { 0 });
        assert(fit_cell(cell, w) == t.push('…'));
        assert forall|i: int| 0 <= i < t.push('…').len() implies t.push('…')[i] != ch by {
            if i < t.len() {
                assert(t.push('…')[i] == cell[i]);
            }
        }
    }
}

proof fn lemma_render_cells_lacks(cells: Seq<Seq<char>>, widths: Seq<nat>, k: nat, ch: char)
    requires
        k <= cells.len(),
        k <= widths.len(),
        ch != ' ',
        forall|i: int| 0 <= i < k ==> lacks(fit_cell(#[trigger] cells[i], widths[i]), ch),
    ensures
        lacks(render_cells(cells, widths, k), ch),
    decreases k,
{
    if k > 0 {
        let j = (k - 1) as nat;
        lemma_render_cells_lacks(cells, widths, j, ch);
        let sep = if j > 0 { seq![' ', ' '] } else { Seq::<char>::empty() };
        assert(lacks(fit_cell(cells[j as int], widths[j as int]), ch));
        lemma_lacks_add(render_cells(cells, widths, j), sep, ch);
        lemma_lacks_add(render_cells(cells, widths, j) + sep, fit_cell(cells[j as int], widths[j as int]), ch);
    }
}

/// Each cell of a rendered line sits at its column's offset.
proof fn lemma_render_layout(cells: Seq<Seq<char>>, widths: Seq<nat>, k: nat)
    requires
        k <= cells.len(),
        k <= widths.len(),
        forall|i: int| 0 <= i < k ==> (#[trigger] cells[i]).len() <= widths[i] || widths[i] >= 1,
    ensures
        render_cells(cells, widths, k).len() == total(widths.take(k as int)) + separators(k),
        forall|j: int|
            #![trigger col_offset(widths, j)]
            0 <= j < k ==> render_cells(cells, widths, k).subrange(col_offset(widths, j),
                col_offset(widths, j) + widths[j]) == fit_cell(cells[j], widths[j]),
        forall|j: int|
            #![trigger col_offset(widths, j)]
            0 < j < k ==> render_cells(cells, widths, k).subrange(col_offset(widths, j) - 2,
                col_offset(widths, j)) == seq![' ', ' '],
    decreases k,
{
    if k == 0 {
        assert(widths.take(0) =~= Seq::<nat>::empty());
    } else {
        let m = (k - 1) as nat;
        lemma_render_layout(cells, widths, m);
        let r = render_cells(cells, widths, m);
        let sep = if m > 0 { seq![' ', ' '] } else { Seq::<char>::empty() };
        let f = fit_cell(cells[m as int], widths[m as int]);
        let all = render_cells(cells, widths, k);
        assert(all == r + sep + f);
        assert(cells[m as int].len() <= widths[m as int] || widths[m as int] >= 1);
        lemma_fit_cell_len(cells[m as int], widths[m as int]);
        lemma_total_take_step(widths, m as int);
        assert(col_offset(widths, m as int) == r.len() + sep.len());
        assert forall|j: int|
            #![trigger col_offset(widths, j)]
            0 <= j < k implies all.subrange(col_offset(widths, j), col_offset(widths, j)
                + widths[j]) == fit_cell(cells[j], widths[j]) by {
            if j < m {
                assert(widths.take(m as int).take(j + 1) =~= widths.take(j + 1));
                lemma_total_prefix(widths.take(m as int), j + 1);
                lemma_total_take_step(widths, j);
                assert(col_offset(widths, j) + widths[j] <= r.len());
                assert(all.subrange(col_offset(widths, j), col_offset(widths, j) + widths[j])
                    =~= r.subrange(col_offset(widths, j), col_offset(widths, j) + widths[j]));
            } else {
                assert(all.subrange(col_offset(widths, j), col_offset(widths, j) + widths[j])
                    =~= f);
            }
        }
        assert forall|j: int|
            #![trigger col_offset(widths, j)]
            0 < j < k implies all.subrange(col_offset(widths, j) - 2, col_offset(widths, j))
                == seq![' ', ' '] by {
            if j < m {
                assert(widths.take(m as int).take(j + 1) =~= widths.take(j + 1));
                lemma_total_prefix(widths.take(m as int), j + 1);
                lemma_total_take_step(widths, j);
                assert(all.subrange(col_offset(widths, j) - 2, col_offset(widths, j))
                    =~= r.subrange(col_offset(widths, j) - 2, col_offset(widths, j)));
            } else {
                assert(all.subrange(col_offset(widths, j) - 2, col_offset(widths, j)) =~= sep);
            }
        }
    }
}

/// The layout of what `format_table` returns when the content fits the
/// terminal (content widths `w` plus separators add up to `B <= term_w`), with `E = term_w - B` spare characters: column
/// `j` is `w[j] + E / n` wide, plus one for the first `E % n` columns; the
/// header line and every row with a cell for each column are `term_w`
/// characters long, each cell left-aligned and padded with spaces in its
/// column at `col_offset`, nothing cut; and no `…` appears unless a cell
/// holds one.
pub proof fn law_fitting_table_layout(
    headers: Seq<Seq<char>>,
    rows: Seq<Seq<Seq<char>>>,
    term_w: nat,
)
    requires
        headers.len() > 0,
        total(base_widths(headers, rows)) + separators(headers.len()) <= term_w,
    ensures
        ({
            let n = headers.len();
            let base = base_widths(headers, rows);
            let spare = (term_w - (total(base) + separators(n))) as nat;
            forall|j: int|
                0 <= j < n ==> #[trigger] fitted_widths(headers, rows, term_w)[j] == base[j]
                    + spare / n + if j < spare % n { 1nat } else { 0nat }
        }),
        line_cells(headers, fitted_widths(headers, rows, term_w)).len() == term_w,
        columns_aligned(
            line_cells(headers, fitted_widths(headers, rows, term_w)),
            headers,
            fitted_widths(headers, rows, term_w),
        ),
        forall|j: int|
            0 <= j < headers.len() ==> fit_cell(
                #[trigger] headers[j],
                fitted_widths(headers, rows, term_w)[j],
            ) == headers[j] + spaces((fitted_widths(headers, rows, term_w)[j] - headers[j].len()) as nat),
        (forall|j: int| 0 <= j < headers.len() ==> lacks(#[trigger] headers[j], '…')) ==> lacks(
            line_cells(headers, fitted_widths(headers, rows, term_w)),
            '…',
        ),
        forall|r: int|
            0 <= r < rows.len() && rows[r].len() >= headers.len() ==> {
                &&& (#[trigger] line_cells(rows[r], fitted_widths(headers, rows, term_w))).len()
                    == term_w
                &&& columns_aligned(
                    line_cells(rows[r], fitted_widths(headers, rows, term_w)),
                    rows[r],
                    fitted_widths(headers, rows, term_w),
                )
                &&& forall|j: int|
                    0 <= j < headers.len() ==> fit_cell(
                        #[trigger] rows[r][j],
                        fitted_widths(headers, rows, term_w)[j],
                    ) == rows[r][j] + spaces(
                        (fitted_widths(headers, rows, term_w)[j] - rows[r][j].len()) as nat,
                    )
                &&& (forall|j: int| 0 <= j < headers.len() ==> lacks(#[trigger] rows[r][j], '…'))
                    ==> lacks(line_cells(rows[r], fitted_widths(headers, rows, term_w)), '…')
            },
{
    let n = headers.len();
    let w = fitted_widths(headers, rows, term_w);
    law_fitting_table_fills_terminal(headers, rows, term_w);
    assert(w.take(n as int) =~= w);
    assert forall|c: int| 0 <= c < n implies (#[trigger] headers[c]).len() <= w[c] by {
        lemma_base_width_bounds(headers, rows, c);
        lemma_utf8_at_least_chars(headers[c]);
        assert(w[c] >= base_widths(headers, rows)[c]);
    }
    lemma_render_layout(headers, w, n);
    if forall|j: int| 0 <= j < n ==> lacks(#[trigger] headers[j], '…') {
        assert forall|i: int| 0 <= i < n implies lacks(fit_cell(#[trigger] headers[i], w[i]), '…') by {
            lemma_fit_cell_lacks(headers[i], w[i], '…');
        }
        lemma_render_cells_lacks(headers, w, n, '…');
    }
    assert forall|r: int|
        0 <= r < rows.len() && rows[r].len() >= headers.len() implies {
            &&& (#[trigger] line_cells(rows[r], w)).len() == term_w
            &&& columns_aligned(line_cells(rows[r], w), rows[r], w)
            &&& forall|j: int|
                0 <= j < headers.len() ==> fit_cell(#[trigger] rows[r][j], w[j]) == rows[r][j]
                    + spaces((w[j] - rows[r][j].len()) as nat)
            &&& (forall|j: int| 0 <= j < headers.len() ==> lacks(#[trigger] rows[r][j], '…'))
                ==> lacks(line_cells(rows[r], w), '…')
        } by {
        assert forall|c: int| 0 <= c < n implies (#[trigger] rows[r][c]).len() <= w[c] by {
            lemma_base_width_bounds(headers, rows, c);
            lemma_utf8_at_least_chars(rows[r][c]);
            assert(w[c] >= base_widths(headers, rows)[c]);
        }
        lemma_render_layout(rows[r], w, n);
        assert(line_cells(rows[r], w) == render_cells(rows[r], w, n));
        assert(line_cells(rows[r], w).len() == term_w);
        assert(columns_aligned(line_cells(rows[r], w), rows[r], w));
        assert forall|j: int| 0 <= j < headers.len() implies fit_cell(#[trigger] rows[r][j], w[j])
            == rows[r][j] + spaces((w[j] - rows[r][j].len()) as nat) by {
            assert(rows[r][j].len() <= w[j]);
        }
        if forall|j: int| 0 <= j < n ==> lacks(#[trigger] rows[r][j], '…') {
            assert forall|i: int| 0 <= i < n implies lacks(fit_cell(#[trigger] rows[r][i], w[i]), '…') by {
                lemma_fit_cell_lacks(rows[r][i], w[i], '…');
            }
            lemma_render_cells_lacks(rows[r], w, n, '…');
        }
    }
}

/// The layout of what `format_table` returns when the content is wider than
/// the terminal, with `F` the width of all columns but the last plus the
/// separators: those columns keep their
/// content width and no cell in them is cut; the last column is
/// `max(term_w - F, header width)` wide (with `term_w - F` taken as zero
/// when negative), a cell in it padded when it fits and otherwise cut to one
/// character less followed by `…`; so, when the last header is not empty,
/// the header line and every row with a cell for each column are exactly
/// `F` plus that width long, each cell at its column's offset.
pub proof fn law_wide_table_layout(
    headers: Seq<Seq<char>>,
    rows: Seq<Seq<Seq<char>>>,
    term_w: nat,
)
    requires
        headers.len() > 0,
        total(base_widths(headers, rows)) + separators(headers.len()) > term_w,
    ensures
        ({
            let n = headers.len();
            let base = base_widths(headers, rows);
            let fixed = total(base.take(n - 1)) + separators(n);
            let room = if term_w >= fixed { (term_w - fixed) as nat } else { 0nat };
            let head = byte_width(headers[n - 1]);
            &&& forall|j: int|
                0 <= j < n - 1 ==> #[trigger] fitted_widths(headers, rows, term_w)[j] == base[j]
            &&& fitted_widths(headers, rows, term_w)[n - 1] == if room >= head {
                room
            } else {
                head
            }
            &&& forall|j: int|
                0 <= j < n - 1 ==> fit_cell(#[trigger] headers[j], base[j]) == headers[j]
                    + spaces((base[j] - headers[j].len()) as nat)
            &&& forall|r: int, j: int|
                0 <= r < rows.len() && 0 <= j < n - 1 && j < rows[r].len() ==> fit_cell(
                    #[trigger] rows[r][j],
                    base[j],
                ) == rows[r][j] + spaces((base[j] - rows[r][j].len()) as nat)
            &&& headers[n - 1].len() > 0 ==> {
                &&& line_cells(headers, fitted_widths(headers, rows, term_w)).len() == fixed
                    + fitted_widths(headers, rows, term_w)[n - 1]
                &&& columns_aligned(
                    line_cells(headers, fitted_widths(headers, rows, term_w)),
                    headers,
                    fitted_widths(headers, rows, term_w),
                )
                &&& forall|r: int|
                    0 <= r < rows.len() && rows[r].len() >= n ==> {
                        &&& (#[trigger] line_cells(rows[r], fitted_widths(headers, rows, term_w))).len()
                            == fixed + fitted_widths(headers, rows, term_w)[n - 1]
                        &&& columns_aligned(
                            line_cells(rows[r], fitted_widths(headers, rows, term_w)),
                            rows[r],
                            fitted_widths(headers, rows, term_w),
                        )
                    }
            }
        }),
{
    let n = headers.len();
    let base = base_widths(headers, rows);
    let w = fitted_widths(headers, rows, term_w);
    let fixed = total(base.take(n - 1)) + separators(n);
    assert forall|j: int| 0 <= j < n - 1 implies fit_cell(#[trigger] headers[j], base[j])
        == headers[j] + spaces((base[j] - headers[j].len()) as nat) by {
        lemma_base_width_bounds(headers, rows, j);
        lemma_utf8_at_least_chars(headers[j]);
    }
    assert forall|r: int, j: int|
        0 <= r < rows.len() && 0 <= j < n - 1 && j < rows[r].len() implies fit_cell(
            #[trigger] rows[r][j],
            base[j],
        ) == rows[r][j] + spaces((base[j] - rows[r][j].len()) as nat) by {
        lemma_base_width_bounds(headers, rows, j);
        lemma_utf8_at_least_chars(rows[r][j]);
    }
    if headers[n - 1].len() > 0 {
        lemma_utf8_at_least_chars(headers[n - 1]);
        assert(w[n - 1] >= 1);
        assert(w.take(n - 1) =~= base.take(n - 1));
        lemma_total_take_step(w, n - 1);
        assert(w.take(n as int) =~= w);
        assert forall|c: int| 0 <= c < n implies (#[trigger] headers[c]).len() <= w[c] || w[c] >= 1 by {
            if c < n - 1 {
                lemma_base_width_bounds(headers, rows, c);
                lemma_utf8_at_least_chars(headers[c]);
            }
        }
        lemma_render_layout(headers, w, n);
        assert forall|r: int| 0 <= r < rows.len() && rows[r].len() >= n implies {
            &&& (#[trigger] line_cells(rows[r], w)).len() == fixed + w[n - 1]
            &&& columns_aligned(line_cells(rows[r], w), rows[r], w)
        } by {
            assert forall|c: int| 0 <= c < n implies (#[trigger] rows[r][c]).len() <= w[c] || w[c] >= 1 by {
                if c < n - 1 {
                    lemma_base_width_bounds(headers, rows, c);
                    lemma_utf8_at_least_chars(rows[r][c]);
                }
            }
            lemma_render_layout(rows[r], w, n);
        }
    }
}

proof fn lemma_lines_acc_extend(pre: Seq<char>, x: Seq<char>)
    requires
        lacks(x, '\n'),
    ensures
        lines_acc(pre + x) == (lines_acc(pre).0, lines_acc(pre).1 + x),
    decreases x.len(),
{
    if x.len() == 0 {
        assert(pre + x =~= pre);
        assert(lines_acc(pre).1 + x =~= lines_acc(pre).1);
    } else {
        let y = x.drop_last();
        assert(lacks(y, '\n'));
        lemma_lines_acc_extend(pre, y);
        assert((pre + x).drop_last() =~= pre + y);
        assert((pre + x).last() == x.last());
        assert((lines_acc(pre).1 + y).push(x.last()) =~= lines_acc(pre).1 + x);
    }
}

proof fn lemma_lines_acc_line(pre: Seq<char>, x: Seq<char>)
    requires
        lacks(x, '\n'),
        lines_acc(pre).1.len() == 0,
    ensures
        lines_acc(pre + x.push('\n')) == (lines_acc(pre).0.push(strip_cr(x)), Seq::<char>::empty()),
{
    lemma_lines_acc_extend(pre, x);
    assert((pre + x.push('\n')).drop_last() =~= pre + x);
    assert((pre + x.push('\n')).last() == '\n');
    assert(lines_acc(pre).1 + x =~= x);
}

proof fn lemma_line_cells_lacks(cells: Seq<Seq<char>>, widths: Seq<nat>, ch: char)
    requires
        ch != ' ',
        ch != '…',
        forall|i: int| 0 <= i < cells.len() ==> lacks(#[trigger] cells[i], ch),
    ensures
        lacks(line_cells(cells, widths), ch),
{
    let k = if cells.len() <= widths.len() { cells.len() } else { widths.len() };
    assert forall|i: int| 0 <= i < k implies lacks(fit_cell(#[trigger] cells[i], widths[i]), ch) by {
        lemma_fit_cell_lacks(cells[i], widths[i], ch);
    }
    lemma_render_cells_lacks(cells, widths, k, ch);
}

proof fn lemma_lines_of_rows(pre: Seq<char>, rows: Seq<Seq<Seq<char>>>, widths: Seq<nat>, k: nat)
    requires
        k <= rows.len(),
        lines_acc(pre).1.len() == 0,
        forall|i: int| 0 <= i < k ==> lacks(line_cells(#[trigger] rows[i], widths), '\n'),
    ensures
        lines_acc(pre + render_lines(rows, widths, k)) == (
            lines_acc(pre).0 + Seq::new(k, |i: int| strip_cr(line_cells(rows[i], widths))),
            Seq::<char>::empty(),
        ),
    decreases k,
{
    if k == 0 {
        assert(pre + render_lines(rows, widths, k) =~= pre);
        assert(lines_acc(pre).0 + Seq::new(k, |i: int| strip_cr(line_cells(rows[i], widths)))
            =~= lines_acc(pre).0);
        assert(lines_acc(pre).1 =~= Seq::<char>::empty());
    } else {
        let m = (k - 1) as nat;
        lemma_lines_of_rows(pre, rows, widths, m);
        let p2 = pre + render_lines(rows, widths, m);
        let body = line_cells(rows[m as int], widths);
        assert(render_line(rows[m as int], widths) == body.push('\n'));
        assert(lacks(body, '\n'));
        lemma_lines_acc_line(p2, body);
        assert(pre + render_lines(rows, widths, k) =~= p2 + body.push('\n'));
        assert((lines_acc(pre).0 + Seq::new(m, |i: int| strip_cr(line_cells(rows[i], widths))))
            .push(strip_cr(body)) =~= lines_acc(pre).0 + Seq::new(
            k,
            |i: int| strip_cr(line_cells(rows[i], widths)),
        ));
    }
}

/// The line structure of what `format_table` returns (`table_text`): when no
/// header or cell holds a line feed, the text ends in a newline and its lines
/// are the header line, a rule of `term_w` `─`, and then one line per row in
/// order, each line its cells fitted to the shared column widths and joined
/// by two spaces (as `str::lines` reads them, a line that ends in a carriage
/// return loses it; every other line is exactly as rendered).
pub proof fn law_table_lines(headers: Seq<Seq<char>>, rows: Seq<Seq<Seq<char>>>, term_w: nat)
    requires
        headers.len() > 0,
        forall|j: int| 0 <= j < headers.len() ==> lacks(#[trigger] headers[j], '\n'),
        forall|r: int, j: int|
            0 <= r < rows.len() && 0 <= j < rows[r].len() ==> lacks(#[trigger] rows[r][j], '\n'),
    ensures
        table_text(headers, rows, term_w).len() > 0,
        table_text(headers, rows, term_w).last() == '\n',
        text_lines(table_text(headers, rows, term_w)).len() == rows.len() + 2,
        text_lines(table_text(headers, rows, term_w))[0] == strip_cr(
            line_cells(headers, fitted_widths(headers, rows, term_w)),
        ),
        text_lines(table_text(headers, rows, term_w))[1] == Seq::new(term_w, |_i: int| '─'),
        forall|k: int|
            0 <= k < rows.len() ==> text_lines(table_text(headers, rows, term_w))[k + 2]
                == strip_cr(line_cells(#[trigger] rows[k], fitted_widths(headers, rows, term_w))),
        ends_in_cr(line_cells(headers, fitted_widths(headers, rows, term_w))) || text_lines(
            table_text(headers, rows, term_w),
        )[0] == line_cells(headers, fitted_widths(headers, rows, term_w)),
        forall|k: int|
            0 <= k < rows.len() && !ends_in_cr(
                line_cells(#[trigger] rows[k], fitted_widths(headers, rows, term_w)),
            ) ==> text_lines(table_text(headers, rows, term_w))[k + 2] == line_cells(
                rows[k],
                fitted_widths(headers, rows, term_w),
            ),
{
    let w = fitted_widths(headers, rows, term_w);
    let t = table_text(headers, rows, term_w);
    let hb = line_cells(headers, w);
    let rule = Seq::new(term_w, |_i: int| '─');
    lemma_line_cells_lacks(headers, w, '\n');
    assert forall|i: int| 0 <= i < rows.len() implies lacks(line_cells(#[trigger] rows[i], w), '\n') by {
        assert forall|j: int| 0 <= j < rows[i].len() implies lacks(#[trigger] rows[i][j], '\n') by {}
        lemma_line_cells_lacks(rows[i], w, '\n');
    }
    assert(lines_acc(Seq::<char>::empty()) == (Seq::<Seq<char>>::empty(), Seq::<char>::empty()));
    assert(render_line(headers, w) == hb.push('\n'));
    lemma_lines_acc_line(Seq::<char>::empty(), hb);
    assert(Seq::<char>::empty() + hb.push('\n') =~= hb.push('\n'));
    assert(rule_line(term_w) == rule.push('\n'));
    assert(lacks(rule, '\n'));
    lemma_lines_acc_line(hb.push('\n'), rule);
    if rule.len() > 0 {
        assert(rule.last() == '─');
    }
    assert(strip_cr(rule) == rule);
    let pre = hb.push('\n') + rule.push('\n');
    lemma_lines_of_rows(pre, rows, w, rows.len());
    assert(t =~= pre + render_lines(rows, w, rows.len()));
    let done = seq![strip_cr(hb), rule] + Seq::new(
        rows.len(),
        |i: int| strip_cr(line_cells(rows[i], w)),
    );
    assert(Seq::<Seq<char>>::empty().push(strip_cr(hb)).push(rule) =~= seq![strip_cr(hb), rule]);
    assert(lines_acc(t) == (done, Seq::<char>::empty()));
    assert(text_lines(t) == done);
    assert(t.last() == '\n') by {
        if rows.len() == 0 {
            assert(t =~= pre + Seq::<char>::empty());
        } else {
            let m = (rows.len() - 1) as nat;
            assert(render_lines(rows, w, rows.len()) == render_lines(rows, w, m) + render_line(
                rows[m as int],
                w,
            ));
        }
    }
}

// ── Boxes and section headers ───────────────────────────────────────────────

/// `n` copies of `c`.
pub open spec fn run_of(c: char, n: nat) -> Seq<char> {
    Seq::new(n, |_i: int| c)
}

fn push_run(out: &mut String, c: char, n: usize)
    ensures
        final(out)@ == old(out)@ + run_of(c, n as nat),
{
    let ghost base = out@;
    let mut i: usize = 0;
    while i < n
        invariant
            i <= n,
            out@ == base + run_of(c, i as nat),
        decreases n - i,
    {
        push_char(out, c);
        i = i + 1;
        assert(out@ =~= base + run_of(c, i as nat));
    }
}

/// The body lines of a boxed text: each line between `│ ` and ` │`, fitted
/// to the inner width.
pub open spec fn boxed_rows(lines: Seq<Seq<char>>, inner: nat, k: nat) -> Seq<char>
    decreases k,
{
    if k == 0 {
        Seq::empty()
    } else {
        boxed_rows(lines, inner, (k - 1) as nat) + "│ "@ + fit_cell(lines[k - 1], inner) + " │\n"@
    }
}

/// A text drawn in a box as wide as the terminal: its lines fitted to the
/// width inside the borders (cut with an ellipsis when too long).
pub open spec fn boxed_text(text: Seq<char>, term_w: nat) -> Seq<char> {
    let bar = run_of('─', (term_w - 2) as nat);
    let inner = if term_w >= 4 { (term_w - 4) as nat } else { 0nat };
    let lines = text_lines(text);
    "┌"@ + bar + "┐\n"@ + boxed_rows(lines, inner, lines.len()) + "└"@ + bar + "┘\n"@
}

/// Draws `text` in a box (see `boxed_text`); the terminal is at least two
/// characters wide.
pub fn boxed(text: &str, term_w: usize) -> (out: String)
    requires
        term_w >= 2,
    ensures
        out@ == boxed_text(text@, term_w as nat),
{
    let inner = if term_w >= 4 { term_w - 4 } else { 0 };
    let lines = lines_of(text);
    let ghost lv = strings_view(lines@);
    let mut out = String::from_str("┌");
    push_run(&mut out, '─', term_w - 2);
    out.append("┐\n");
    let ghost head = out@;
    let mut i: usize = 0;
    while i < lines.len()
        invariant
            i <= lines@.len(),
            lv == strings_view(lines@),
            out@ == head + boxed_rows(lv, inner as nat, i as nat),
        decreases lines@.len() - i,
    {
        let ghost before = out@;
        out.append("│ ");
        push_fitted(&mut out, lines[i].as_str(), inner);
        out.append(" │\n");
        proof {
            assert(lv[i as int] == lines@[i as int]@);
            assert(out@ =~= head + boxed_rows(lv, inner as nat, (i + 1) as nat));
        }
        i = i + 1;
    }
    let ghost body = out@;
    out.append("└");
    push_run(&mut out, '─', term_w - 2);
    out.append("┘\n");
    proof {
        assert(out@ =~= "┌"@ + run_of('─', (term_w - 2) as nat) + "┐\n"@ + boxed_rows(
            lv,
            inner as nat,
            lv.len(),
        ) + "└"@ + run_of('─', (term_w - 2) as nat) + "┘\n"@);
    }
    out
}

/// The header of a section: an empty line, then `── title ` followed by
/// dashes up to the terminal's width (none when the title is wider).
pub open spec fn section_header_text(title: Seq<char>, term_w: nat) -> Seq<char> {
    let prefix = "── "@ + title + " "@;
    let dashes = if term_w >= prefix.len() { (term_w - prefix.len()) as nat } else { 0nat };
    "\n"@ + prefix + run_of('─', dashes) + "\n"@
}

/// The header of a section (see `section_header_text`).
pub fn section_header(title: &str, term_w: usize) -> (out: String)
    ensures
        out@ == section_header_text(title@, term_w as nat),
{
    let mut prefix = String::from_str("── ");
    prefix.append(title);
    prefix.append(" ");
    let width = prefix.unicode_len();
    let dashes = if term_w >= width { term_w - width } else { 0 };
    let mut out = String::from_str("\n");
    out.append(prefix.as_str());
    push_run(&mut out, '─', dashes);
    out.append("\n");
    out
}

// ── Detail listings ─────────────────────────────────────────────────────────

/// One entry of a key/value detail listing.
pub enum DetailItem<'a> {
    /// A `key: value` line.
    Field(&'a str, String),
    /// A section header.
    Section(&'a str),
}

/// The widest key (in bytes) among the fields of a listing, 0 when there is
/// none.
pub open spec fn key_width(items: Seq<DetailItem>) -> nat
    decreases items.len(),
{
    if items.len() == 0 {
        0
    } else {
        let prev = key_width(items.drop_last());
        match items.last() {
            DetailItem::Field(k, _) => if byte_width(k@) > prev { byte_width(k@) } else { prev },
            DetailItem::Section(_) => prev,
        }
    }
}

proof fn lemma_key_width_prefix(items: Seq<DetailItem>, k: int)
    requires
        0 <= k <= items.len(),
    ensures
        key_width(items.take(k)) <= key_width(items),
    decreases items.len(),
{
    if k < items.len() {
        assert(items.drop_last().take(k) =~= items.take(k));
        lemma_key_width_prefix(items.drop_last(), k);
    } else {
        assert(items.take(k) =~= items);
    }
}

/// The width that keys of a detail listing are right-aligned to: the widest
/// field key, sections ignored.
pub fn detail_key_width(items: &[DetailItem]) -> (w: usize)
    requires
        key_width(items@) <= usize::MAX,
    ensures
        w as nat == key_width(items@),
{
    let mut w: usize = 0;
    let mut i: usize = 0;
    while i < items.len()
        invariant
            i <= items@.len(),
            key_width(items@) <= usize::MAX,
            w as nat == key_width(items@.take(i as int)),
        decreases items@.len() - i,
    {
        proof {
            assert(items@.take(i as int + 1).drop_last() =~= items@.take(i as int));
            lemma_key_width_prefix(items@, i as int + 1);
        }
        match &items[i] {
            DetailItem::Field(k, _) => {
                proof {
                    assert(items@.take(i as int + 1).last() == items@[i as int]);
                    assert(k.spec_bytes() == encode_utf8(k@));
                }
                let kw = k.len();
                w = max_usize(w, kw);
            },
            DetailItem::Section(_) => {},
        }
        i = i + 1;
    }
    proof {
        assert(items@.take(items@.len() as int) =~= items@);
    }
    w
}

/// One entry of a detail listing: a field with its key right-aligned to
/// `key_w` characters, or a section header.
pub open spec fn detail_line(item: DetailItem, key_w: nat, term_w: nat) -> Seq<char> {
    match item {
        DetailItem::Field(k, v) => {
            let pad = if key_w >= k@.len() { (key_w - k@.len()) as nat } else { 0nat };
            run_of(' ', pad) + k@ + ": "@ + v@ + "\n"@
        },
        DetailItem::Section(t) => section_header_text(t@, term_w),
    }
}

/// The first `k` entries of a detail listing.
pub open spec fn detail_lines(items: Seq<DetailItem>, key_w: nat, term_w: nat, k: nat) -> Seq<char>
    decreases k,
{
    if k == 0 {
        Seq::empty()
    } else {
        detail_lines(items, key_w, term_w, (k - 1) as nat) + detail_line(items[k - 1], key_w, term_w)
    }
}

/// A detail listing: every entry, keys aligned to the widest key.
pub open spec fn detail_text(items: Seq<DetailItem>, term_w: nat) -> Seq<char> {
    detail_lines(items, key_width(items), term_w, items.len())
}

/// A detail listing (see `detail_text`).
pub fn detail_listing(items: &[DetailItem], term_w: usize) -> (out: String)
    requires
        key_width(items@) <= usize::MAX,
    ensures
        out@ == detail_text(items@, term_w as nat),
{
    let key_w = detail_key_width(items);
    let mut out = String::new();
    let mut i: usize = 0;
    while i < items.len()
        invariant
            i <= items@.len(),
            key_w as nat == key_width(items@),
            out@ == detail_lines(items@, key_w as nat, term_w as nat, i as nat),
        decreases items@.len() - i,
    {
        let ghost before = out@;
        match &items[i] {
            DetailItem::Field(k, v) => {
                let m = k.unicode_len();
                let pad = if key_w >= m { key_w - m } else { 0 };
                push_run(&mut out, ' ', pad);
                out.append(k);
                out.append(": ");
                out.append(v.as_str());
                out.append("\n");
            },
            DetailItem::Section(t) => {
                let h = section_header(t, term_w);
                out.append(h.as_str());
            },
        }
        proof {
            assert(out@ =~= before + detail_line(items@[i as int], key_w as nat, term_w as nat));
        }
        i = i + 1;
    }
    out
}

/// What an action reports: its line, then the details when there are any.
pub fn result_listing(action: &str, items: &[DetailItem], term_w: usize) -> (out: String)
    requires
        key_width(items@) <= usize::MAX,
    ensures
        out@ == action@ + "\n"@ + if items@.len() > 0 {
            detail_text(items@, term_w as nat)
        } else {
            Seq::<char>::empty()
        },
{
    let mut out = String::from_str(action);
    out.append("\n");
    if items.len() > 0 {
        let d = detail_listing(items, term_w);
        out.append(d.as_str());
    }
    proof {
        assert(out@ =~= action@ + "\n"@ + if items@.len() > 0 {
            detail_text(items@, term_w as nat)
        } else {
            Seq::<char>::empty()
        });
    }
    out
}

} // verus!
