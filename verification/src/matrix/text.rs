//! The text rendering of a matrix: one line per row, every entry with three
//! decimals and padded on the left to the width of the widest entry.
use super::model::{lemma_offset, MatrixView};
use super::Matrix;
use crate::scalar::Real;
use vstd::prelude::*;
use vstd::string::*;

verus! {

/// `n` spaces.
pub open spec fn spaces(n: nat) -> Seq<char> {
    Seq::new(n, |i: int| ' ')
}

/// `cell` with spaces in front of it up to `width` characters.
pub open spec fn padded(cell: Seq<char>, width: nat) -> Seq<char> {
    spaces((width - cell.len()) as nat) + cell
}

impl<T: Real> MatrixView<T> {
    /// The text of entry `k` of the buffer.
    pub open spec fn cell(self, k: int) -> Seq<char> {
        self.entries[k].decimal3_spec()
    }

    /// The length of the longest text among the first `k` entries.
    pub open spec fn width(self, k: nat) -> nat
        decreases k,
    {
        if k == 0 {
            0
        } else {
            let before = self.width((k - 1) as nat);
            if self.cell(k - 1).len() > before {
                self.cell(k - 1).len()
            } else {
                before
            }
        }
    }

    /// The opening `| ` and the first `k` padded entries of row `r`, two
    /// spaces between neighbours.
    pub open spec fn row_prefix(self, width: nat, r: int, k: nat) -> Seq<char>
        decreases k,
    {
        if k == 0 {
            seq!['|', ' ']
        } else {
            self.row_prefix(width, r, (k - 1) as nat) + (if k == 1 {
                Seq::<char>::empty()
            } else {
                seq![' ', ' ']
            }) + padded(self.cell(r * self.cols + (k - 1)), width)
        }
    }

    /// Row `r` between its pipes.
    pub open spec fn row_text(self, width: nat, r: int) -> Seq<char> {
        self.row_prefix(width, r, self.cols) + seq![' ', '|']
    }

    /// The first `k` rows, a newline between neighbours.
    pub open spec fn rows_prefix(self, width: nat, k: nat) -> Seq<char>
        decreases k,
    {
        if k == 0 {
            Seq::<char>::empty()
        } else {
            self.rows_prefix(width, (k - 1) as nat) + (if k == 1 {
                Seq::<char>::empty()
            } else {
                seq!['\n']
            }) + self.row_text(width, k - 1)
        }
    }

    /// The whole rendering.
    pub open spec fn text(self) -> Seq<char> {
        self.rows_prefix(self.width(self.entries.len()), self.rows)
    }

    /// No entry among the first `k` is longer than `width(k)`.
    pub proof fn lemma_width_bounds(self, k: nat, i: int)
        requires
            0 <= i < k,
        ensures
            self.cell(i).len() <= self.width(k),
        decreases k,
    {
        if i < k - 1 {
            self.lemma_width_bounds((k - 1) as nat, i);
        }
    }
}

impl<T: Real> Matrix<T> {
    /// Renders the matrix: rows separated by newlines, each as
    /// `| e0  e1  ...  en-1 |`, every entry with three decimals and
    /// right-aligned to the width of the widest entry of the matrix.
    pub fn to_string(&self) -> (r: String)
        ensures
            r@ == self@.text(),
    {
        proof {
            use_type_invariant(self);
        }
        let total = self.data.len();
        let mut cells: Vec<String> = Vec::with_capacity(total);
        let mut width: usize = 0;
        let mut k: usize = 0;
        while k < total
            invariant
                k <= total,
                total == self.data.len(),
                cells.len() == k,
                forall|i: int| 0 <= i < k ==> (#[trigger] cells@[i])@ == self@.cell(i),
                forall|i: int| 0 <= i < k ==> self@.cell(i).len() <= usize::MAX,
                width == self@.width(k as nat),
            decreases total - k,
        {
            let cell = self.data[k].decimal3();
            let cell_len = cell.as_str().unicode_len();
            if cell_len > width {
                width = cell_len;
            }
            cells.push(cell);
            k = k + 1;
        }
        let mut out = String::new();
        let mut row: usize = 0;
        while row < self.m
            invariant
                row <= self.m,
                total == self.data.len(),
                total == self.m * self.n,
                cells.len() == total,
                forall|i: int| 0 <= i < total ==> (#[trigger] cells@[i])@ == self@.cell(i),
                width == self@.width(total as nat),
                out@ == self@.rows_prefix(width as nat, row as nat),
            decreases self.m - row,
        {
            let ghost before = out@;
            if row > 0 {
                out.append("\n");
                proof {
                    reveal_strlit("\n");
                    assert("\n"@ =~= seq!['\n']);
                }
            }
            let ghost base = out@;
            out.append("| ");
            proof {
                reveal_strlit("| ");
                assert("| "@ =~= seq!['|', ' ']);
            }
            let mut col: usize = 0;
            while col < self.n
                invariant
                    row < self.m,
                    col <= self.n,
                    total == self.data.len(),
                    total == self.m * self.n,
                    cells.len() == total,
                    forall|i: int| 0 <= i < total ==> (#[trigger] cells@[i])@ == self@.cell(i),
                    width == self@.width(total as nat),
                    out@ == base + self@.row_prefix(width as nat, row as int, col as nat),
                decreases self.n - col,
            {
                let ghost start = out@;
                if col > 0 {
                    out.append("  ");
                    proof {
                        reveal_strlit("  ");
                        assert("  "@ =~= seq![' ', ' ']);
                    }
                }
                let ghost joined = out@;
                proof {
                    lemma_offset(self.m as nat, self.n as nat, row as int, col as int);
                    self@.lemma_width_bounds(total as nat, row * self.n + col);
                }
                let cell = &cells[row * self.n + col];
                let missing = width - cell.as_str().unicode_len();
                let mut pad: usize = 0;
                while pad < missing
                    invariant
                        pad <= missing,
                        out@ == joined + spaces(pad as nat),
                    decreases missing - pad,
                {
                    out.append(" ");
                    proof {
                        reveal_strlit(" ");
                        assert(" "@ =~= seq![' ']);
                        assert(spaces(pad as nat) + seq![' '] =~= spaces((pad + 1) as nat));
                        assert(joined + spaces(pad as nat) + seq![' '] =~= joined + spaces(
                            (pad + 1) as nat,
                        ));
                    }
                    pad = pad + 1;
                }
                out.append(cell.as_str());
                proof {
                    let piece = padded(self@.cell(row * self.n + col), width as nat);
                    let sep = if col == 0 {
                        Seq::<char>::empty()
                    } else {
                        seq![' ', ' ']
                    };
                    assert(joined == start + sep);
                    assert(out@ == joined + spaces(missing as nat) + cell@);
                    assert(out@ =~= start + sep + piece);
                    assert(out@ =~= base + (self@.row_prefix(width as nat, row as int, col as nat)
                        + sep + piece));
                }
                col = col + 1;
            }
            out.append(" |");
            proof {
                reveal_strlit(" |");
                assert(" |"@ =~= seq![' ', '|']);
                let sep = if row == 0 {
                    Seq::<char>::empty()
                } else {
                    seq!['\n']
                };
                assert(base == before + sep);
                assert(out@ =~= before + sep + self@.row_text(width as nat, row as int));
            }
            row = row + 1;
        }
        out
    }
}

} // verus!
