//! The transition matrix, in fixed point: every entry is a probability in
//! billionths, and every row sums to exactly `SCALE`.
use vstd::prelude::*;

verus! {

/// One whole unit of probability, in billionths.
pub const SCALE: u64 = 1_000_000_000;

/// Sum of a row of fixed-point entries.
pub open spec fn row_sum(s: Seq<u64>) -> int
    decreases s.len(),
{
    if s.len() == 0 {
        0
    } else {
        row_sum(s.drop_last()) + s.last()
    }
}

/// A row with `delta` extra weight put on column `c`, then scaled back to a
/// total of `SCALE`: every other entry `e` becomes `floor(e * SCALE / (SCALE + delta))`
/// and column `c` takes whatever remains of `SCALE`.
pub open spec fn scaled_others(row: Seq<u64>, c: int, delta: nat) -> Seq<u64> {
    Seq::new(
        row.len(),
        |j: int|
            if j == c {
                0u64
            } else {
                (row[j] * SCALE / (SCALE + delta)) as u64
            },
    )
}

pub open spec fn renormalized(row: Seq<u64>, c: int, delta: nat) -> Seq<u64> {
    let others = scaled_others(row, c, delta);
    others.update(c, (SCALE - row_sum(others)) as u64)
}

/// A row is stochastic when it sums to exactly `SCALE`.
pub open spec fn is_stochastic(row: Seq<u64>) -> bool {
    row_sum(row) == SCALE as int
}

pub proof fn lemma_row_sum_push(s: Seq<u64>, x: u64)
    ensures
        row_sum(s.push(x)) == row_sum(s) + x,
{
    assert(s.push(x).drop_last() =~= s);
}

pub proof fn lemma_row_sum_update(s: Seq<u64>, i: int, v: u64)
    requires
        0 <= i < s.len(),
    ensures
        row_sum(s.update(i, v)) == row_sum(s) - s[i] + v,
    decreases s.len(),
{
    if i == s.len() - 1 {
        assert(s.update(i, v).drop_last() =~= s.drop_last());
    } else {
        lemma_row_sum_update(s.drop_last(), i, v);
        assert(s.update(i, v).drop_last() =~= s.drop_last().update(i, v));
    }
}

/// Every entry of a row is bounded by the row's sum.
pub proof fn lemma_entry_le_row_sum(s: Seq<u64>, i: int)
    requires
        0 <= i < s.len(),
    ensures
        s[i] <= row_sum(s),
    decreases s.len(),
{
    if i < s.len() - 1 {
        lemma_entry_le_row_sum(s.drop_last(), i);
    }
    lemma_row_sum_nonneg(s.drop_last());
}

pub proof fn lemma_row_sum_nonneg(s: Seq<u64>)
    ensures
        row_sum(s) >= 0,
    decreases s.len(),
{
    if s.len() > 0 {
        lemma_row_sum_nonneg(s.drop_last());
    }
}

/// Scaling every entry but one down never raises the sum of a prefix.
proof fn lemma_scaled_prefix_le(row: Seq<u64>, c: int, delta: nat, k: int)
    requires
        0 <= k <= row.len(),
    ensures
        row_sum(scaled_others(row, c, delta).take(k)) <= row_sum(row.take(k)),
    decreases k,
{
    if k > 0 {
        lemma_scaled_prefix_le(row, c, delta, k - 1);
        let o = scaled_others(row, c, delta);
        assert(o.take(k).drop_last() =~= o.take(k - 1));
        assert(row.take(k).drop_last() =~= row.take(k - 1));
        let e = row[k - 1] as int;
        let t = SCALE + delta;
        assert(e * SCALE <= e * t) by (nonlinear_arith)
            requires
                e >= 0,
                t >= SCALE,
        ;
        assert((e * SCALE) / t <= e) by (nonlinear_arith)
            requires
                e * SCALE <= e * t,
                t > 0,
                e >= 0,
        ;
    }
}

/// Renormalising a stochastic row after a weighted observation gives a
/// stochastic row again, with every entry within `[0, SCALE]`.
pub proof fn lemma_renormalized_is_stochastic(row: Seq<u64>, c: int, delta: nat)
    requires
        is_stochastic(row),
        0 <= c < row.len(),
    ensures
        is_stochastic(renormalized(row, c, delta)),
        renormalized(row, c, delta).len() == row.len(),
        forall|j: int| 0 <= j < row.len() ==> renormalized(row, c, delta)[j] <= SCALE,
{
    let o = scaled_others(row, c, delta);
    lemma_scaled_prefix_le(row, c, delta, row.len() as int);
    assert(o.take(row.len() as int) =~= o);
    assert(row.take(row.len() as int) =~= row);
    lemma_row_sum_nonneg(o);
    lemma_row_sum_update(o, c, (SCALE - row_sum(o)) as u64);
    assert(o[c] == 0);
    let n = renormalized(row, c, delta);
    assert forall|j: int| 0 <= j < row.len() implies n[j] <= SCALE by {
        lemma_entry_le_row_sum(n, j);
        lemma_row_sum_nonneg(n);
    }
}


/// Why a matrix configuration was refused.
#[derive(Debug, Clone, Copy, PartialEq, Eq, Structural)]
pub enum ConfigError {
    /// There are no rows, or the first row has no columns.
    Empty,
    /// A row's length differs from the first row's.
    Ragged,
    /// A row does not sum to exactly `SCALE`.
    NotStochastic,
    /// `rows * cols` does not fit in a `usize`.
    TooLarge,
    /// The channel capacity is zero or above `MAX_CHANNEL_CAPACITY`.
    ChannelCapacity,
    /// The output buffer capacity is zero.
    BufferCapacity,
}

/// The entries of a sequence of rows.
pub open spec fn rows_view(rows: Seq<Vec<u64>>) -> Seq<Seq<u64>> {
    rows.map_values(|r: Vec<u64>| r@)
}

/// Row `i` has `cols` entries and is stochastic.
pub open spec fn row_ok(rows: Seq<Seq<u64>>, cols: nat, i: int) -> bool {
    rows[i].len() == cols && is_stochastic(rows[i])
}

/// Row `i` is the first row that is not `row_ok`.
pub open spec fn first_bad(rows: Seq<Seq<u64>>, cols: nat, i: int) -> bool {
    &&& 0 <= i < rows.len()
    &&& !row_ok(rows, cols, i)
    &&& forall|k: int| 0 <= k < i ==> row_ok(rows, cols, k)
}

/// Length of the first row, zero where there is none.
pub open spec fn first_len(rows: Seq<Seq<u64>>) -> nat {
    if rows.len() == 0 {
        0
    } else {
        rows[0].len()
    }
}

/// The three-state chain `[[0.2, 0.3, 0.5], [0.6, 0.2, 0.2], [0.1, 0.4, 0.5]]`.
pub open spec fn standard_rows() -> Seq<Seq<u64>> {
    seq![
        seq![200_000_000u64, 300_000_000u64, 500_000_000u64],
        seq![600_000_000u64, 200_000_000u64, 200_000_000u64],
        seq![100_000_000u64, 400_000_000u64, 500_000_000u64],
    ]
}

/// A `rows x cols` row-stochastic matrix of fixed-point probabilities.
pub struct TransitionMatrix {
    rows: Vec<Vec<u64>>,
    cols: usize,
}

/// The rows of a candidate configuration are all `cols` long and stochastic.
pub open spec fn rows_valid(rows: Seq<Seq<u64>>, cols: nat) -> bool {
    &&& rows.len() >= 1
    &&& cols >= 1
    &&& rows.len() * cols <= usize::MAX
    &&& forall|i: int| 0 <= i < rows.len() ==> (#[trigger] rows[i]).len() == cols
    &&& forall|i: int| 0 <= i < rows.len() ==> is_stochastic(#[trigger] rows[i])
}

impl TransitionMatrix {
    /// The matrix as a sequence of rows.
    pub closed spec fn view(&self) -> Seq<Seq<u64>> {
        rows_view(self.rows@)
    }

    pub closed spec fn spec_cols(&self) -> nat {
        self.cols as nat
    }

    pub open spec fn spec_rows(&self) -> nat {
        self@.len()
    }

    /// Every row is `cols` long and sums to `SCALE`.
    pub open spec fn wf(&self) -> bool {
        rows_valid(self@, self.spec_cols())
    }

    /// The three-state chain the engine starts from.
    pub fn standard() -> (m: TransitionMatrix)
        ensures
            m.wf(),
            m@ == standard_rows(),
            m.spec_cols() == 3,
    {
        let rows = vec![
            vec![200_000_000u64, 300_000_000u64, 500_000_000u64],
            vec![600_000_000u64, 200_000_000u64, 200_000_000u64],
            vec![100_000_000u64, 400_000_000u64, 500_000_000u64],
        ];
        let m = TransitionMatrix { rows, cols: 3 };
        proof {
            assert(m@ =~= standard_rows());
            assert forall|i: int| 0 <= i < m@.len() implies is_stochastic(#[trigger] m@[i]) by {
                reveal_with_fuel(row_sum, 4);
            }
        }
        m
    }

    /// Sum of a row, computed; `None` when it exceeds `u64`.
    fn checked_row_sum(row: &Vec<u64>) -> (r: Option<u64>)
        ensures
            r matches Some(v) ==> v == row_sum(row@),
            r is None ==> row_sum(row@) > u64::MAX,
    {
        let mut total: u64 = 0;
        let mut j: usize = 0;
        while j < row.len()
            invariant
                j <= row@.len(),
                total == row_sum(row@.take(j as int)),
            decreases row@.len() - j,
        {
            proof {
                assert(row@.take(j + 1).drop_last() =~= row@.take(j as int));
            }
            if total > u64::MAX - row[j] {
                proof {
                    let rest = row@.subrange(j + 1, row@.len() as int);
                    lemma_row_sum_append_ge(row@.take(j + 1), rest);
                    assert(row@.take(j + 1) + rest =~= row@);
                }
                return None;
            }
            total = total + row[j];
            j = j + 1;
        }
        proof {
            assert(row@.take(row@.len() as int) =~= row@);
        }
        Some(total)
    }

    /// Builds a matrix from its rows; each row must have the same, positive,
    /// number of entries and sum to exactly `SCALE`.
    pub fn from_rows(rows: Vec<Vec<u64>>) -> (r: Result<TransitionMatrix, ConfigError>)
        ensures
            r matches Ok(m) ==> m.wf() && m@ == rows_view(rows@),
            r is Ok <==> rows_valid(rows_view(rows@), first_len(rows_view(rows@))),
            r == Err::<TransitionMatrix, ConfigError>(ConfigError::Empty) <==> first_len(rows_view(rows@)) == 0,
            r == Err::<TransitionMatrix, ConfigError>(ConfigError::TooLarge) <==> (first_len(rows_view(rows@)) > 0
                && rows@.len() * first_len(rows_view(rows@)) > usize::MAX),
            r == Err::<TransitionMatrix, ConfigError>(ConfigError::Ragged) <==> (first_len(rows_view(rows@)) > 0
                && rows@.len() * first_len(rows_view(rows@)) <= usize::MAX
                && exists|i: int| first_bad(rows_view(rows@), first_len(rows_view(rows@)), i)
                    && rows_view(rows@)[i].len() != first_len(rows_view(rows@))),
            r == Err::<TransitionMatrix, ConfigError>(ConfigError::NotStochastic) <==> (first_len(rows_view(rows@)) > 0
                && rows@.len() * first_len(rows_view(rows@)) <= usize::MAX
                && exists|i: int| first_bad(rows_view(rows@), first_len(rows_view(rows@)), i)
                    && rows_view(rows@)[i].len() == first_len(rows_view(rows@))),
            r is Err ==> !(r == Err::<TransitionMatrix, ConfigError>(ConfigError::ChannelCapacity))
                && !(r == Err::<TransitionMatrix, ConfigError>(ConfigError::BufferCapacity)),
    {
        let ghost view = rows_view(rows@);
        if rows.len() == 0 {
            return Err(ConfigError::Empty);
        }
        let cols = rows[0].len();
        if cols == 0 {
            return Err(ConfigError::Empty);
        }
        if rows.len() > usize::MAX / cols {
            proof {
                let (a, b) = (rows@.len() as int, cols as int);
                assert(a * b > usize::MAX) by (nonlinear_arith)
                    requires a > (usize::MAX as int) / b, b > 0;
            }
            return Err(ConfigError::TooLarge);
        }
        proof {
            assert(view[0] == rows@[0]@);
            let (a, b) = (rows@.len() as int, cols as int);
            assert(a * b <= usize::MAX) by (nonlinear_arith)
                requires a <= (usize::MAX as int) / b, b > 0;
        }
        let mut i: usize = 0;
        while i < rows.len()
            invariant
                i <= rows@.len(),
                view == rows_view(rows@),
                view.len() == rows@.len(),
                rows@.len() >= 1,
                cols >= 1,
                cols == rows@[0]@.len(),
                rows@.len() * cols <= usize::MAX,
                forall|k: int| 0 <= k < i ==> (#[trigger] view[k]).len() == cols,
                forall|k: int| 0 <= k < i ==> is_stochastic(#[trigger] view[k]),
                forall|k: int| 0 <= k < i ==> row_ok(view, cols as nat, k),
                first_len(view) == cols,
            decreases rows@.len() - i,
        {
            proof {
                assert(view[i as int] == rows@[i as int]@);
                assert(view[0] == rows@[0]@);
            }
            if rows[i].len() != cols {
                proof {
                    assert(view[i as int].len() != cols);
                    assert(!rows_valid(view, cols as nat));
                    assert(first_bad(view, cols as nat, i as int));
                    assert forall|k: int| first_bad(view, cols as nat, k) implies k == i by {
                        if k < i {
                            assert(row_ok(view, cols as nat, k));
                        } else if k > i {
                            assert(!row_ok(view, cols as nat, i as int));
                        }
                    }
                }
                return Err(ConfigError::Ragged);
            }
            match Self::checked_row_sum(&rows[i]) {
                Some(t) => {
                    if t != SCALE {
                        proof {
                            assert(!row_ok(view, cols as nat, i as int));
                            assert(first_bad(view, cols as nat, i as int));
                            lemma_first_bad_unique(view, cols as nat, i as int);
                        }
                        return Err(ConfigError::NotStochastic);
                    }
                },
                None => {
                    proof {
                        assert(!row_ok(view, cols as nat, i as int));
                        assert(first_bad(view, cols as nat, i as int));
                        lemma_first_bad_unique(view, cols as nat, i as int);
                    }
                    return Err(ConfigError::NotStochastic);
                },
            }
            i = i + 1;
        }
        let m = TransitionMatrix { rows, cols };
        proof {
            assert(m@ =~= view);
        }
        Ok(m)
    }

    /// Number of rows.
    pub fn rows(&self) -> (r: usize)
        requires
            self.wf(),
        ensures
            r == self.spec_rows(),
    {
        self.rows.len()
    }

    /// Number of columns.
    pub fn cols(&self) -> (r: usize)
        requires
            self.wf(),
        ensures
            r == self.spec_cols(),
    {
        self.cols
    }

    /// The number of discrete states: `rows * cols`.
    pub fn state_count(&self) -> (r: usize)
        requires
            self.wf(),
        ensures
            r == self.spec_rows() * self.spec_cols(),
    {
        self.rows.len() * self.cols
    }

    /// The probability at `(r, c)`, in billionths.
    pub fn get(&self, r: usize, c: usize) -> (p: u64)
        requires
            self.wf(),
            r < self.spec_rows(),
            c < self.spec_cols(),
        ensures
            p == self@[r as int][c as int],
    {
        proof {
            assert(self@[r as int] == self.rows@[r as int]@);
        }
        self.rows[r][c]
    }

    /// Puts `delta` extra weight on cell `(r, c)` and scales row `r` back to a
    /// total of `SCALE`; every other row is left as it was.
    pub fn reweight(&mut self, r: usize, c: usize, delta: u128) -> (p: u64)
        requires
            old(self).wf(),
            r < old(self).spec_rows(),
            c < old(self).spec_cols(),
            delta <= u128::MAX - SCALE as u128,
        ensures
            final(self).wf(),
            final(self).spec_cols() == old(self).spec_cols(),
            final(self)@ == old(self)@.update(r as int, renormalized(old(self)@[r as int], c as int, delta as nat)),
            p == final(self)@[r as int][c as int],
    {
        let ghost old_row = self@[r as int];
        let ghost others = scaled_others(old_row, c as int, delta as nat);
        proof {
            assert(self@[r as int] == self.rows@[r as int]@);
            assert(is_stochastic(old_row));
            lemma_scaled_prefix_le(old_row, c as int, delta as nat, old_row.len() as int);
            assert(old_row.take(old_row.len() as int) =~= old_row);
            assert(others.take(others.len() as int) =~= others);
        }
        let total_weight: u128 = SCALE as u128 + delta;
        let mut out: Vec<u64> = Vec::new();
        let mut kept: u64 = 0;
        let mut j: usize = 0;
        while j < self.cols
            invariant
                self.wf(),
                r < self@.len(),
                old_row == self@[r as int],
                others == scaled_others(old_row, c as int, delta as nat),
                old_row.len() == self.cols,
                total_weight == SCALE + delta,
                j <= self.cols,
                out@ =~= others.take(j as int),
                kept == row_sum(others.take(j as int)),
                row_sum(others) <= SCALE,
                self@[r as int] == self.rows@[r as int]@,
            decreases self.cols - j,
        {
            proof {
                assert(others.take(j + 1).drop_last() =~= others.take(j as int));
                lemma_scaled_prefix_le(old_row, c as int, delta as nat, j + 1);
                lemma_entry_le_row_sum(old_row, j as int);
                lemma_row_sum_nonneg(others.take(j as int));
            }
            let v: u64 = if j == c {
                0
            } else {
                let e: u64 = self.rows[r][j];
                proof {
                    let (ei, t) = (e as int, total_weight as int);
                    assert(ei * SCALE <= ei * t) by (nonlinear_arith)
                        requires ei >= 0, t >= SCALE;
                    assert((ei * SCALE) / t <= ei) by (nonlinear_arith)
                        requires ei * SCALE <= ei * t, t > 0, ei >= 0;
                    assert(ei * SCALE <= u64::MAX * SCALE) by (nonlinear_arith)
                        requires ei <= u64::MAX;
                }
                ((e as u128 * SCALE as u128) / total_weight) as u64
            };
            proof {
                lemma_row_sum_push(others.take(j as int), v);
                assert(others.take(j + 1) =~= others.take(j as int).push(v));
                lemma_row_sum_nonneg(others.take(j + 1));
                lemma_row_sum_append_ge(others.take(j + 1), others.subrange(j + 1, others.len() as int));
                assert(others.take(j + 1) + others.subrange(j + 1, others.len() as int) =~= others);
            }
            out.push(v);
            kept = kept + v;
            j = j + 1;
        }
        proof {
            assert(others.take(self.cols as int) =~= others);
        }
        let p: u64 = SCALE - kept;
        out.set(c, p);
        proof {
            lemma_renormalized_is_stochastic(old_row, c as int, delta as nat);
            assert(out@ =~= renormalized(old_row, c as int, delta as nat));
        }
        self.rows.set(r, out);
        proof {
            assert(self@ =~= old(self)@.update(r as int, renormalized(old_row, c as int, delta as nat)));
        }
        p
    }
}

proof fn lemma_first_bad_unique(rows: Seq<Seq<u64>>, cols: nat, i: int)
    requires
        first_bad(rows, cols, i),
    ensures
        forall|k: int| first_bad(rows, cols, k) ==> k == i,
{
    assert forall|k: int| first_bad(rows, cols, k) implies k == i by {
        if k < i {
            assert(row_ok(rows, cols, k));
        } else if k > i {
            assert(row_ok(rows, cols, i));
        }
    }
}

proof fn lemma_row_sum_append_ge(a: Seq<u64>, b: Seq<u64>)
    ensures
        row_sum(a + b) >= row_sum(a),
    decreases b.len(),
{
    if b.len() == 0 {
        assert(a + b =~= a);
    } else {
        lemma_row_sum_append_ge(a, b.drop_last());
        assert((a + b).drop_last() =~= a + b.drop_last());
    }
}

} // verus!
