//! The text layout of a matrix: one line per row, each entry right-aligned to
//! the width of the widest entry. The entries' texts are given as bytes.
use vstd::prelude::*;

verus! {

/// The length of the longest of the first `k` texts (0 when `k` is 0).
pub open spec fn max_width(texts: Seq<Seq<u8>>, k: int) -> nat
    decreases k,
{
    if k <= 0 {
        0
    } else {
        let w = max_width(texts, k - 1);
        if w > texts[k - 1].len() {
            w
        } else {
            texts[k - 1].len()
        }
    }
}

/// One entry: a space, then as many spaces as `text` is shorter than `width`,
/// then `text`.
pub open spec fn padded(text: Seq<u8>, width: nat) -> Seq<u8> {
    Seq::new((width - text.len() + 1) as nat, |i: int| 32u8) + text
}

/// A `'|'`, then the first `k` entries of row `row` of a matrix with `cols`
/// columns whose entries' texts are `texts`, row by row.
pub open spec fn row_text(texts: Seq<Seq<u8>>, cols: nat, row: int, k: int, width: nat) -> Seq<u8>
    decreases k,
{
    if k <= 0 {
        seq![124u8]
    } else {
        row_text(texts, cols, row, k - 1, width) + padded(texts[row * cols + k - 1], width)
    }
}

/// A newline, then the first `k` rows, each ended by `" |"` and a newline.
pub open spec fn rows_text(texts: Seq<Seq<u8>>, cols: nat, k: int, width: nat) -> Seq<u8>
    decreases k,
{
    if k <= 0 {
        seq![10u8]
    } else {
        rows_text(texts, cols, k - 1, width) + row_text(texts, cols, k - 1, cols as int, width) + seq![32u8, 124u8, 10u8]
    }
}

/// The layout of a matrix with `no_rows` rows whose entries' texts are
/// `texts`, row by row: every entry is padded to the widest text.
pub open spec fn layout_spec(no_rows: nat, texts: Seq<Seq<u8>>) -> Seq<u8> {
    let cols = if no_rows == 0 { 0 } else { texts.len() / no_rows };
    rows_text(texts, cols, no_rows as int, max_width(texts, texts.len() as int))
}

/// The texts held by `texts`, as sequences of bytes.
pub open spec fn texts_view(texts: Seq<Vec<u8>>) -> Seq<Seq<u8>> {
    texts.map_values(|t: Vec<u8>| t@)
}

/// No text among the first `k` is longer than `max_width(texts, k)`.
proof fn lemma_max_width_bound(texts: Seq<Seq<u8>>, k: int)
    ensures
        forall|i: int| 0 <= i < k ==> (#[trigger] texts[i]).len() <= max_width(texts, k),
    decreases k,
{
    if k > 0 {
        lemma_max_width_bound(texts, k - 1);
    }
}

/// Lays out a matrix with `no_rows` rows whose entries' texts are `texts`,
/// row by row: a newline, then for each row a `'|'`, each entry right-aligned
/// after one space to the width of the widest text, and `" |"` with a newline.
pub fn layout(no_rows: usize, texts: &Vec<Vec<u8>>) -> (out: Vec<u8>)
    requires
        no_rows > 0 ==> texts@.len() % (no_rows as nat) == 0,
    ensures
        out@ == layout_spec(no_rows as nat, texts_view(texts@)),
{
    let ghost ts = texts_view(texts@);
    let n = texts.len();
    let cols: usize = if no_rows == 0 { 0 } else { n / no_rows };
    proof {
        if no_rows > 0 {
            vstd::arithmetic::div_mod::lemma_fundamental_div_mod(n as int, no_rows as int);
            assert(n == no_rows * cols) by (nonlinear_arith)
                requires
                    n == no_rows * (n / no_rows) + n % no_rows,
                    n % no_rows == 0,
                    cols == n / no_rows,
            ;
        }
    }
    let mut width: usize = 0;
    let mut k: usize = 0;
    while k < n
        invariant
            n == texts@.len(),
            ts == texts_view(texts@),
            k <= n,
            width == max_width(ts, k as int),
        decreases n - k,
    {
        let l = texts[k].len();
        assert(ts[k as int] == texts@[k as int]@);
        if width > l {
        } else {
            width = l;
        }
        k = k + 1;
    }
    proof {
        lemma_max_width_bound(ts, n as int);
    }
    let mut out: Vec<u8> = Vec::new();
    out.push(10u8);
    let mut row: usize = 0;
    while row < no_rows
        invariant
            n == texts@.len(),
            ts == texts_view(texts@),
            no_rows > 0 ==> n == no_rows * cols,
            no_rows == 0 ==> cols == 0,
            width == max_width(ts, n as int),
            forall|i: int| 0 <= i < n ==> (#[trigger] ts[i]).len() <= width,
            row <= no_rows,
            out@ == rows_text(ts, cols as nat, row as int, width as nat),
        decreases no_rows - row,
    {
        let ghost base = out@;
        out.push(124u8);
        let mut col: usize = 0;
        while col < cols
            invariant
                n == texts@.len(),
                ts == texts_view(texts@),
                n == no_rows * cols,
                row < no_rows,
                forall|i: int| 0 <= i < n ==> (#[trigger] ts[i]).len() <= width,
                col <= cols,
                base == rows_text(ts, cols as nat, row as int, width as nat),
                out@ == base + row_text(ts, cols as nat, row as int, col as int, width as nat),
            decreases cols - col,
        {
            proof {
                assert(row * cols + col < no_rows * cols) by (nonlinear_arith)
                    requires
                        row < no_rows,
                        col < cols,
                ;
            }
            let idx = row * cols + col;
            let t = &texts[idx];
            assert(ts[idx as int] == t@);
            let pad = width - t.len();
            let ghost prefix = out@;
            out.push(32u8);
            let mut j: usize = 0;
            while j < pad
                invariant
                    j <= pad,
                    out@ == prefix + Seq::new((j + 1) as nat, |i: int| 32u8),
                decreases pad - j,
            {
                out.push(32u8);
                assert(out@ =~= prefix + Seq::new((j + 2) as nat, |i: int| 32u8));
                j = j + 1;
            }
            let ghost spaces = out@;
            let tl = t.len();
            let mut b: usize = 0;
            while b < tl
                invariant
                    tl == t@.len(),
                    b <= tl,
                    out@ == spaces + t@.take(b as int),
                decreases tl - b,
            {
                out.push(t[b]);
                assert(out@ =~= spaces + t@.take(b + 1));
                b = b + 1;
            }
            proof {
                assert(t@.take(tl as int) =~= t@);
                assert(out@ =~= base + row_text(ts, cols as nat, row as int, col + 1, width as nat));
            }
            col = col + 1;
        }
        out.push(32u8);
        out.push(124u8);
        out.push(10u8);
        assert(out@ =~= rows_text(ts, cols as nat, row + 1, width as nat));
        row = row + 1;
    }
    proof {
        if no_rows > 0 {
            vstd::arithmetic::div_mod::lemma_div_by_multiple(cols as int, no_rows as int);
            assert(n as int / no_rows as int == cols) by (nonlinear_arith)
                requires
                    n == no_rows * cols,
                    (cols * no_rows) / (no_rows as int) == cols,
            ;
        }
    }
    out
}

} // verus!
