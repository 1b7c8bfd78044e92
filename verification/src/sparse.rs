//! Sparse connectivity store: COO and CSR forms of the weighted
//! adjacency matrix, with verified conversions between them.
//!
//! The CSR form is canonical for multiplication; the COO form is
//! canonical for structural edits.  Values are opaque 32-bit words that
//! both conversions move verbatim.

use vstd::prelude::*;

use crate::errors::EngineError;

verus! {

/// One nonzero entry: row, column, and the 32-bit value word.
pub type Entry = (usize, usize, u32);

/// Coordinate form: one `(row, column, value)` triple per nonzero, in no
/// particular order.
#[derive(Clone, Debug, PartialEq, Eq)]
pub struct CooMatrix {
    pub row_idx: Vec<usize>,
    pub col_idx: Vec<usize>,
    pub values: Vec<u32>,
}

/// Compressed-sparse-row form: `row_ptr[r] .. row_ptr[r + 1]` delimits
/// the entries of row `r` inside `col_idx` and `values`.
#[derive(Clone, Debug, PartialEq, Eq)]
pub struct CsrMatrix {
    pub row_ptr: Vec<usize>,
    pub col_idx: Vec<usize>,
    pub values: Vec<u32>,
}

/// The predicate "this entry belongs to row `r`", shared by every spec
/// that filters entries by row.
pub open spec fn in_row(r: int) -> spec_fn(Entry) -> bool {
    |t: Entry| t.0 == r
}

impl CooMatrix {
    /// The three parallel arrays agree in length.
    pub open spec fn wf(self) -> bool {
        self.row_idx@.len() == self.col_idx@.len() && self.row_idx@.len() == self.values@.len()
    }

    /// The triples, in storage order.
    pub open spec fn entries(self) -> Seq<Entry> {
        Seq::new(self.row_idx@.len(), |k: int| (self.row_idx@[k], self.col_idx@[k], self.values@[k]))
    }

    /// The triples of row `r`, in storage order.
    pub open spec fn row_entries(self, r: int) -> Seq<Entry> {
        self.entries().filter(in_row(r))
    }

    /// Every row coordinate lies below `num_rows`.
    pub open spec fn rows_in_range(self, num_rows: int) -> bool {
        forall|k: int| 0 <= k < self.row_idx@.len() ==> (#[trigger] self.row_idx@[k]) < num_rows
    }

    /// No duplicate edge: no two triples share both row and column.
    pub open spec fn has_unique_edges(self) -> bool {
        forall|k1: int, k2: int|
            #![trigger self.row_idx@[k1], self.row_idx@[k2]]
            0 <= k1 < k2 < self.row_idx@.len() ==> !(self.row_idx@[k1] == self.row_idx@[k2]
                && self.col_idx@[k1] == self.col_idx@[k2])
    }
}

impl CsrMatrix {
    /// Number of stored nonzeros.
    pub open spec fn nnz(self) -> nat {
        self.values@.len()
    }

    /// Number of rows.
    pub open spec fn num_rows(self) -> int {
        self.row_ptr@.len() - 1
    }

    /// Row pointers start at zero, never decrease, and end at the common
    /// length of `col_idx` and `values`.
    pub open spec fn wf(self) -> bool {
        &&& self.row_ptr@.len() >= 1
        &&& self.row_ptr@[0] == 0
        &&& forall|i: int, j: int|
            0 <= i <= j < self.row_ptr@.len() ==> #[trigger] self.row_ptr@[i] <= #[trigger] self.row_ptr@[j]
        &&& self.row_ptr@[self.row_ptr@.len() - 1] == self.values@.len()
        &&& self.col_idx@.len() == self.values@.len()
    }

    /// The triples of row `r`, in storage order, with the row coordinate
    /// made explicit.
    pub open spec fn row_entries(self, r: int) -> Seq<Entry> {
        Seq::new(
            (self.row_ptr@[r + 1] - self.row_ptr@[r]) as nat,
            |j: int| (r as usize, self.col_idx@[self.row_ptr@[r] + j], self.values@[self.row_ptr@[r] + j]),
        )
    }

    /// Every stored column coordinate lies below `num_cols`.
    pub open spec fn cols_in_range(self, num_cols: int) -> bool {
        forall|p: int| 0 <= p < self.col_idx@.len() ==> (#[trigger] self.col_idx@[p]) < num_cols
    }

    /// No duplicate edge: within each row every stored column appears
    /// once.
    pub open spec fn rows_have_unique_cols(self) -> bool {
        forall|r: int, p1: int, p2: int|
            #![trigger self.row_ptr@[r], self.col_idx@[p1], self.col_idx@[p2]]
            0 <= r < self.num_rows() && self.row_ptr@[r] <= p1 < p2 < self.row_ptr@[r + 1]
                ==> self.col_idx@[p1] != self.col_idx@[p2]
    }
}

/// `csr` is the row-grouped form of `coo`: same number of entries, and
/// row by row the same triples in the same order.
pub open spec fn csr_groups_coo(csr: CsrMatrix, coo: CooMatrix, num_rows: int) -> bool {
    &&& csr.wf()
    &&& csr.num_rows() == num_rows
    &&& csr.nnz() == coo.entries().len()
    &&& forall|r: int| 0 <= r < num_rows ==> #[trigger] csr.row_entries(r) == coo.row_entries(r)
}

/// `coo` is the expansion of `csr`: the column and value arrays are kept
/// verbatim, and each entry of row `r` carries the explicit row
/// coordinate `r`.
pub open spec fn coo_expands_csr(coo: CooMatrix, csr: CsrMatrix) -> bool {
    &&& coo.wf()
    &&& coo.col_idx@ == csr.col_idx@
    &&& coo.values@ == csr.values@
    &&& coo.row_idx@.len() == csr.nnz()
    &&& coo.rows_in_range(csr.num_rows())
    &&& forall|r: int, p: int|
        #![trigger csr.row_ptr@[r], coo.row_idx@[p]]
        0 <= r < csr.num_rows() && csr.row_ptr@[r] <= p < csr.row_ptr@[r + 1] ==> coo.row_idx@[p] == r
}

/// Number of entries of `s` whose row lies below `m`: the sum of the
/// per-row entry counts over rows `0 .. m`.
pub open spec fn count_below(s: Seq<Entry>, m: int) -> int
    decreases m,
{
    if m <= 0 {
        0
    } else {
        count_below(s, m - 1) + s.filter(in_row(m - 1)).len()
    }
}

proof fn lemma_count_below_empty(m: int)
    ensures
        count_below(Seq::<Entry>::empty(), m) == 0,
    decreases m,
{
    if m > 0 {
        lemma_count_below_empty(m - 1);
        Seq::<Entry>::empty().lemma_filter_len(in_row(m - 1));
    }
}

proof fn lemma_count_below_push(s: Seq<Entry>, t: Entry, m: int)
    ensures
        count_below(s.push(t), m) == count_below(s, m) + if t.0 < m {
            1int
        } else {
            0int
        },
    decreases m,
{
    if m > 0 {
        lemma_count_below_push(s, t, m - 1);
        s.lemma_filter_len_push(in_row(m - 1), t);
    }
}

proof fn lemma_count_below_mono(s: Seq<Entry>, m1: int, m2: int)
    requires
        0 <= m1 <= m2,
    ensures
        count_below(s, m1) <= count_below(s, m2),
    decreases m2,
{
    if m1 < m2 {
        lemma_count_below_mono(s, m1, m2 - 1);
    }
}

proof fn lemma_count_below_total(s: Seq<Entry>, m: int)
    requires
        0 <= m,
        forall|k: int| 0 <= k < s.len() ==> (#[trigger] s[k]).0 < m,
    ensures
        count_below(s, m) == s.len(),
    decreases s.len(),
{
    if s.len() == 0 {
        assert(s =~= Seq::<Entry>::empty());
        lemma_count_below_empty(m);
    } else {
        let s0 = s.drop_last();
        lemma_count_below_total(s0, m);
        lemma_count_below_push(s0, s.last(), m);
        assert(s =~= s0.push(s.last()));
    }
}

/// A vector of `n` zero coordinates.
fn zeros_usize(n: usize) -> (v: Vec<usize>)
    ensures
        v@.len() == n,
        forall|i: int| 0 <= i < n ==> v@[i] == 0,
{
    let mut v: Vec<usize> = Vec::new();
    while v.len() < n
        invariant
            v@.len() <= n,
            forall|i: int| 0 <= i < v@.len() ==> v@[i] == 0,
        decreases n - v@.len(),
    {
        v.push(0);
    }
    v
}

/// A vector of `n` zero value words.
fn zeros_u32(n: usize) -> (v: Vec<u32>)
    ensures
        v@.len() == n,
        forall|i: int| 0 <= i < n ==> v@[i] == 0,
{
    let mut v: Vec<u32> = Vec::new();
    while v.len() < n
        invariant
            v@.len() <= n,
            forall|i: int| 0 <= i < v@.len() ==> v@[i] == 0,
        decreases n - v@.len(),
    {
        v.push(0);
    }
    v
}


/// Groups the COO triples by row into the CSR form, via a stable
/// counting sort: within each row the triples keep their COO order.
/// Fails with `InvalidIndex` exactly when some row coordinate lies
/// outside `0 .. num_rows`.
#[verifier::rlimit(50)]
pub fn coo_to_csr(coo: &CooMatrix, num_rows: usize) -> (result: Result<CsrMatrix, EngineError>)
    requires
        coo.wf(),
    ensures
        match result {
            Ok(csr) => coo.rows_in_range(num_rows as int) && csr_groups_coo(csr, *coo, num_rows as int),
            Err(e) => e == EngineError::InvalidIndex && !coo.rows_in_range(num_rows as int),
        },
{
    let ghost s = coo.entries();
    let nnz = coo.row_idx.len();

    // Reject any triple whose row coordinate is out of range.
    for k in 0..nnz
        invariant
            coo.wf(),
            nnz == coo.row_idx@.len(),
            forall|j: int| 0 <= j < k ==> (#[trigger] coo.row_idx@[j]) < num_rows,
    {
        if coo.row_idx[k] >= num_rows {
            assert(coo.row_idx@[k as int] >= num_rows);
            return Err(EngineError::InvalidIndex);
        }
    }
    proof {
        assert forall|k: int| 0 <= k < s.len() implies (#[trigger] s[k]).0 < num_rows by {
            assert(coo.row_idx@[k] < num_rows);
        }
    }

    // Count the entries of each row.
    let mut counts = zeros_usize(num_rows);
    for k in 0..nnz
        invariant
            coo.wf(),
            nnz == coo.row_idx@.len(),
            s == coo.entries(),
            coo.rows_in_range(num_rows as int),
            counts@.len() == num_rows,
            forall|r: int| 0 <= r < num_rows ==> counts@[r] == s.take(k as int).filter(in_row(r)).len(),
    {
        let r0 = coo.row_idx[k];
        proof {
            assert(s.take(k + 1) =~= s.take(k as int).push(s[k as int]));
            assert forall|r: int| 0 <= r < num_rows implies s.take(k + 1).filter(in_row(r)).len()
                == s.take(k as int).filter(in_row(r)).len() + if r == r0 {
                1int
            } else {
                0int
            } by {
                s.take(k as int).lemma_filter_len_push(in_row(r), s[k as int]);
            }
            s.take(k as int).lemma_filter_len(in_row(r0 as int));
        }
        let c = counts[r0];
        counts[r0] = c + 1;
    }
    proof {
        assert(s.take(nnz as int) =~= s);
    }

    // Exclusive prefix sum of the counts.
    let mut row_ptr: Vec<usize> = Vec::new();
    row_ptr.push(0);
    for r in 0..num_rows
        invariant
            coo.wf(),
            nnz == coo.row_idx@.len(),
            s == coo.entries(),
            coo.rows_in_range(num_rows as int),
            counts@.len() == num_rows,
            forall|rr: int| 0 <= rr < num_rows ==> counts@[rr] == s.filter(in_row(rr)).len(),
            row_ptr@.len() == r + 1,
            forall|i: int| 0 <= i <= r ==> row_ptr@[i] == count_below(s, i),
    {
        proof {
            lemma_count_below_mono(s, r + 1, num_rows as int);
            lemma_count_below_total(s, num_rows as int);
            assert(count_below(s, r + 1) == count_below(s, r as int) + s.filter(
                in_row(r as int),
            ).len());
        }
        let next = row_ptr[r] + counts[r];
        row_ptr.push(next);
    }
    proof {
        lemma_count_below_total(s, num_rows as int);
        assert forall|i: int, j: int| 0 <= i <= j < row_ptr@.len() implies row_ptr@[i]
            <= row_ptr@[j] by {
            lemma_count_below_mono(s, i, j);
        }
        assert forall|r: int| 0 <= r < num_rows implies row_ptr@[r] + s.filter(in_row(r)).len()
            == row_ptr@[r + 1] by {
            assert(count_below(s, r + 1) == count_below(s, r) + s.filter(in_row(r)).len());
        }
        assert(row_ptr@[0] == count_below(s, 0));
        assert(row_ptr@[num_rows as int] == count_below(s, num_rows as int));
        assert(row_ptr@[num_rows as int] == nnz);
    }

    // Scatter each triple into its row's slot range, advancing a
    // per-row write cursor.
    let mut cursor: Vec<usize> = Vec::new();
    for r in 0..num_rows
        invariant
            row_ptr@.len() == num_rows + 1,
            cursor@.len() == r,
            forall|i: int| 0 <= i < r ==> cursor@[i] == row_ptr@[i],
    {
        cursor.push(row_ptr[r]);
    }

    let mut col_out = zeros_usize(nnz);
    let mut val_out = zeros_u32(nnz);

    for k in 0..nnz
        invariant
            coo.wf(),
            nnz == coo.row_idx@.len(),
            s == coo.entries(),
            coo.rows_in_range(num_rows as int),
            row_ptr@.len() == num_rows + 1,
            row_ptr@[0] == 0,
            row_ptr@[num_rows as int] == nnz,
            forall|i: int, j: int|
                0 <= i <= j < row_ptr@.len() ==> #[trigger] row_ptr@[i] <= #[trigger] row_ptr@[j],
            forall|r: int|
                0 <= r < num_rows ==> row_ptr@[r] + s.filter(in_row(r)).len()
                    == #[trigger] row_ptr@[r + 1],
            cursor@.len() == num_rows,
            col_out@.len() == nnz,
            val_out@.len() == nnz,
            forall|r: int|
                0 <= r < num_rows ==> #[trigger] cursor@[r] == row_ptr@[r] + s.take(
                    k as int,
                ).filter(in_row(r)).len(),
            forall|r: int| 0 <= r < num_rows ==> #[trigger] cursor@[r] <= row_ptr@[r + 1],
            forall|r: int, j: int|
                #![trigger row_ptr@[r], col_out@[j]]
                0 <= r < num_rows && row_ptr@[r] <= j < cursor@[r] ==> (
                r as usize,
                col_out@[j],
                val_out@[j],
            ) == s.take(k as int).filter(in_row(r))[j - row_ptr@[r]],
    {
        let r0 = coo.row_idx[k];
        let p = cursor[r0];
        proof {
            let taken = s.take(k as int).filter(in_row(r0 as int));
            assert(s.take(k + 1) =~= s.take(k as int).push(s[k as int]));
            assert forall|r: int| 0 <= r < num_rows implies s.take(k + 1).filter(in_row(r))
                == if r == r0 {
                s.take(k as int).filter(in_row(r)).push(s[k as int])
            } else {
                s.take(k as int).filter(in_row(r))
            } by {
                s.take(k as int).lemma_filter_push(s[k as int], in_row(r));
            }
            // The slot stays inside the row's range: the row has more
            // entries than have been scattered so far.
            assert(s =~= s.take(k + 1) + s.skip(k + 1));
            Seq::filter_distributes_over_add(s.take(k + 1), s.skip(k + 1), in_row(r0 as int));
            assert(s.filter(in_row(r0 as int)).len() >= taken.len() + 1);
            assert(p < row_ptr@[r0 + 1]);
            assert(p < nnz);
        }
        col_out[p] = coo.col_idx[k];
        val_out[p] = coo.values[k];
        cursor[r0] = p + 1;
        proof {
            assert forall|r: int, j: int|
                #![trigger row_ptr@[r], col_out@[j]]
                0 <= r < num_rows && row_ptr@[r] <= j < cursor@[r] implies (
            r as usize,
            col_out@[j],
            val_out@[j],
            ) == s.take(k + 1).filter(in_row(r))[j - row_ptr@[r]] by {
                if r != r0 {
                    // The write landed in row r0's range, which is
                    // disjoint from row r's.
                    if r < r0 {
                        assert(row_ptr@[r + 1] <= row_ptr@[r0 as int]);
                    } else {
                        assert(row_ptr@[r0 + 1] <= row_ptr@[r]);
                    }
                    assert(j != p);
                } else {
                    if j < p {
                        assert((r as usize, col_out@[j], val_out@[j]) == s.take(k as int).filter(
                            in_row(r),
                        )[j - row_ptr@[r]]);
                    } else {
                        assert(j == p);
                        assert(s[k as int] == (
                            coo.row_idx@[k as int],
                            coo.col_idx@[k as int],
                            coo.values@[k as int],
                        ));
                    }
                }
            }
        }
    }

    proof {
        assert(s.take(nnz as int) =~= s);
    }
    let csr = CsrMatrix { row_ptr, col_idx: col_out, values: val_out };
    proof {
        assert forall|r: int| 0 <= r < num_rows implies csr.row_entries(r) == coo.row_entries(
            r,
        ) by {
            assert forall|j: int| 0 <= j < csr.row_entries(r).len() implies csr.row_entries(r)[j]
                == s.filter(in_row(r))[j] by {
                assert((r as usize, csr.col_idx@[csr.row_ptr@[r] + j], csr.values@[csr.row_ptr@[r]
                    + j]) == s.filter(in_row(r))[j]);
            }
            assert(csr.row_entries(r) =~= s.filter(in_row(r)));
        }
    }
    Ok(csr)
}

proof fn lemma_adjacent_sorted(s: Seq<usize>, i: int, j: int)
    requires
        forall|k: int| 0 <= k < s.len() - 1 ==> (#[trigger] s[k]) <= s[k + 1],
        0 <= i <= j < s.len(),
    ensures
        s[i] <= s[j],
    decreases j - i,
{
    if i < j {
        lemma_adjacent_sorted(s, i, j - 1);
        assert(s[j - 1] <= s[j]);
    }
}

/// Reports whether the three arrays form a well-formed CSR matrix:
/// row pointers that start at zero, never decrease, and end at the
/// common length of the column and value arrays.
pub fn check_csr_wf(csr: &CsrMatrix) -> (ok: bool)
    ensures
        ok == csr.wf(),
{
    let rows_plus_one = csr.row_ptr.len();
    if rows_plus_one < 1 {
        return false;
    }
    if csr.row_ptr[0] != 0 {
        return false;
    }
    if csr.col_idx.len() != csr.values.len() {
        return false;
    }
    if csr.row_ptr[rows_plus_one - 1] != csr.values.len() {
        return false;
    }
    let upper = rows_plus_one - 1;
    for i in 0..upper
        invariant
            rows_plus_one == csr.row_ptr@.len(),
            upper == rows_plus_one - 1,
            forall|k: int| 0 <= k < i ==> (#[trigger] csr.row_ptr@[k]) <= csr.row_ptr@[k + 1],
    {
        if csr.row_ptr[i] > csr.row_ptr[i + 1] {
            assert(csr.row_ptr@[i as int] > csr.row_ptr@[i + 1]);
            return false;
        }
    }
    proof {
        assert forall|i: int, j: int| 0 <= i <= j < csr.row_ptr@.len() implies csr.row_ptr@[i]
            <= csr.row_ptr@[j] by {
            lemma_adjacent_sorted(csr.row_ptr@, i, j);
        }
    }
    true
}

/// Reports whether every stored column coordinate of the matrix lies
/// below `num_cols`.
pub fn check_cols_in_range(csr: &CsrMatrix, num_cols: usize) -> (ok: bool)
    ensures
        ok == csr.cols_in_range(num_cols as int),
{
    for p in 0..csr.col_idx.len()
        invariant
            forall|j: int| 0 <= j < p ==> (#[trigger] csr.col_idx@[j]) < num_cols,
    {
        if csr.col_idx[p] >= num_cols {
            assert(csr.col_idx@[p as int] >= num_cols);
            return false;
        }
    }
    true
}

/// An element-for-element copy of a coordinate vector.
fn copy_usize(v: &Vec<usize>) -> (r: Vec<usize>)
    ensures
        r@ == v@,
{
    let mut r: Vec<usize> = Vec::new();
    for i in 0..v.len()
        invariant
            r@.len() == i,
            forall|j: int| 0 <= j < i ==> r@[j] == v@[j],
    {
        r.push(v[i]);
    }
    proof {
        assert(r@ =~= v@);
    }
    r
}

/// An element-for-element copy of a value vector.
fn copy_u32(v: &Vec<u32>) -> (r: Vec<u32>)
    ensures
        r@ == v@,
{
    let mut r: Vec<u32> = Vec::new();
    for i in 0..v.len()
        invariant
            r@.len() == i,
            forall|j: int| 0 <= j < i ==> r@[j] == v@[j],
    {
        r.push(v[i]);
    }
    proof {
        assert(r@ =~= v@);
    }
    r
}

/// Expands the row pointers into an explicit row coordinate per
/// nonzero; the column and value arrays are kept verbatim.  A pure
/// expansion: on a well-formed CSR it always succeeds.
#[verifier::rlimit(100)]
pub fn csr_to_coo(csr: &CsrMatrix) -> (coo: CooMatrix)
    requires
        csr.wf(),
    ensures
        coo_expands_csr(coo, *csr),
{
    let num_rows = csr.row_ptr.len() - 1;
    let mut row_idx: Vec<usize> = Vec::new();
    for r in 0..num_rows
        invariant
            csr.wf(),
            num_rows == csr.row_ptr@.len() - 1,
            row_idx@.len() == csr.row_ptr@[r as int],
            forall|rr: int, p: int|
                #![trigger csr.row_ptr@[rr], row_idx@[p]]
                0 <= rr < r && csr.row_ptr@[rr] <= p < csr.row_ptr@[rr + 1] ==> row_idx@[p] == rr,
            forall|p: int| 0 <= p < row_idx@.len() ==> (#[trigger] row_idx@[p]) < num_rows,
    {
        let start = csr.row_ptr[r];
        let end = csr.row_ptr[r + 1];
        for p in start..end
            invariant
                csr.wf(),
                num_rows == csr.row_ptr@.len() - 1,
                r < num_rows,
                start == csr.row_ptr@[r as int],
                end == csr.row_ptr@[r + 1],
                start <= p <= end,
                row_idx@.len() == p,
                forall|rr: int, pp: int|
                    #![trigger csr.row_ptr@[rr], row_idx@[pp]]
                    0 <= rr < r && csr.row_ptr@[rr] <= pp < csr.row_ptr@[rr + 1] ==> row_idx@[pp]
                        == rr,
                forall|pp: int| start <= pp < p ==> #[trigger] row_idx@[pp] == r,
                forall|pp: int| 0 <= pp < row_idx@.len() ==> (#[trigger] row_idx@[pp]) < num_rows,
        {
            row_idx.push(r);
        }
    }
    let coo = CooMatrix { row_idx, col_idx: copy_usize(&csr.col_idx), values: copy_u32(&csr.values) };
    coo
}

/// When exactly the indices `lo .. hi` of `s` satisfy "belongs to row
/// `r`", filtering by that row yields exactly the segment `lo .. hi`.
proof fn lemma_grouped_filter(s: Seq<Entry>, r: int, lo: int, hi: int)
    requires
        0 <= lo <= hi <= s.len(),
        forall|k: int| 0 <= k < s.len() ==> ((lo <= k < hi) <==> (#[trigger] s[k]).0 == r),
    ensures
        s.filter(in_row(r)) == s.subrange(lo, hi),
    decreases s.len(),
{
    reveal(Seq::filter);
    if s.len() == 0 {
        s.lemma_filter_len(in_row(r));
        assert(s.filter(in_row(r)) =~= s.subrange(lo, hi));
    } else {
        let t = s.last();
        let s0 = s.drop_last();
        assert(s0 =~= s.subrange(0, s.len() - 1));
        if t.0 == r {
            assert(lo <= s.len() - 1 < hi);
            assert(hi == s.len());
            assert forall|k: int| 0 <= k < s0.len() implies ((lo <= k < hi - 1) <==> (
            #[trigger] s0[k]).0 == r) by {
                assert(s0[k] == s[k]);
            }
            lemma_grouped_filter(s0, r, lo, hi - 1);
            assert(s.filter(in_row(r)) == s0.filter(in_row(r)).push(t));
            assert(s.filter(in_row(r)) =~= s.subrange(lo, hi));
        } else {
            assert(!(lo <= s.len() - 1 < hi));
            if hi == s.len() {
                assert(lo == hi);
                assert forall|k: int| 0 <= k < s0.len() implies ((s0.len() <= k < s0.len()) <==> (
                #[trigger] s0[k]).0 == r) by {
                    assert(s0[k] == s[k]);
                }
                lemma_grouped_filter(s0, r, s0.len() as int, s0.len() as int);
                assert(s.filter(in_row(r)) == s0.filter(in_row(r)));
                assert(s.filter(in_row(r)) =~= s.subrange(lo, hi));
            } else {
                assert forall|k: int| 0 <= k < s0.len() implies ((lo <= k < hi) <==> (
                #[trigger] s0[k]).0 == r) by {
                    assert(s0[k] == s[k]);
                }
                lemma_grouped_filter(s0, r, lo, hi);
                assert(s.filter(in_row(r)) == s0.filter(in_row(r)));
                assert(s.filter(in_row(r)) =~= s.subrange(lo, hi));
            }
        }
    }
}

/// Every position below the final row pointer falls in the slot range
/// of exactly one row; this returns that row.
proof fn lemma_row_of_index(row_ptr: Seq<usize>, p: int) -> (r: int)
    requires
        row_ptr.len() >= 1,
        row_ptr[0] == 0,
        forall|i: int, j: int|
            0 <= i <= j < row_ptr.len() ==> #[trigger] row_ptr[i] <= #[trigger] row_ptr[j],
        0 <= p < row_ptr[row_ptr.len() - 1],
    ensures
        0 <= r < row_ptr.len() - 1,
        row_ptr[r] <= p < row_ptr[r + 1],
    decreases row_ptr.len(),
{
    let n = row_ptr.len() - 1;
    assert(n >= 1) by {
        assert(row_ptr[0] <= row_ptr[n]);
    }
    if row_ptr[n - 1] <= p {
        n - 1
    } else {
        let pre = row_ptr.subrange(0, n);
        lemma_row_of_index(pre, p)
    }
}

/// The entries of an expanded COO matrix, filtered by row `r`, are
/// exactly the CSR segment of row `r`.
proof fn lemma_expansion_row_entries(coo: CooMatrix, csr: CsrMatrix, r: int)
    requires
        csr.wf(),
        coo_expands_csr(coo, csr),
        0 <= r < csr.num_rows(),
    ensures
        coo.row_entries(r) == csr.row_entries(r),
{
    let s = coo.entries();
    let n = csr.num_rows();
    let lo = csr.row_ptr@[r] as int;
    let hi = csr.row_ptr@[r + 1] as int;
    assert(hi <= csr.row_ptr@[n]);
    assert forall|k: int| 0 <= k < s.len() implies ((lo <= k < hi) <==> (#[trigger] s[k]).0
        == r) by {
        if s[k].0 == r {
            let r2 = lemma_row_of_index(csr.row_ptr@, k);
            assert(coo.row_idx@[k] == r2);
            if r2 < r {
                assert(csr.row_ptr@[r2 + 1] <= csr.row_ptr@[r]);
            }
            if r2 > r {
                assert(csr.row_ptr@[r + 1] <= csr.row_ptr@[r2]);
            }
            assert(r2 == r);
        }
    }
    lemma_grouped_filter(s, r, lo, hi);
    assert forall|j: int| 0 <= j < hi - lo implies s.subrange(lo, hi)[j]
        == csr.row_entries(r)[j] by {
        assert(coo.row_idx@[lo + j] == r);
    }
    assert(s.subrange(lo, hi) =~= csr.row_entries(r));
}

/// A position in the filtered sequence comes from some position of the
/// original; this returns one such source.
proof fn lemma_filter_source(s: Seq<Entry>, pred: spec_fn(Entry) -> bool, j: int) -> (k: int)
    requires
        0 <= j < s.filter(pred).len(),
    ensures
        0 <= k < s.len(),
        s[k] == s.filter(pred)[j],
    decreases s.len(),
{
    reveal(Seq::filter);
    if s.len() == 0 {
        0
    } else {
        let s0 = s.drop_last();
        if pred(s.last()) && j == s.filter(pred).len() - 1 {
            s.len() - 1
        } else {
            lemma_filter_source(s0, pred, j)
        }
    }
}

/// Two ordered positions in the filtered sequence come from two
/// positions of the original in the same order.
proof fn lemma_filter_sources(s: Seq<Entry>, pred: spec_fn(Entry) -> bool, j1: int, j2: int) -> (ks:
    (int, int))
    requires
        0 <= j1 < j2 < s.filter(pred).len(),
    ensures
        0 <= ks.0 < ks.1 < s.len(),
        s[ks.0] == s.filter(pred)[j1],
        s[ks.1] == s.filter(pred)[j2],
    decreases s.len(),
{
    reveal(Seq::filter);
    if s.len() == 0 {
        (0, 0)
    } else {
        let s0 = s.drop_last();
        if pred(s.last()) && j2 == s.filter(pred).len() - 1 {
            let k1 = lemma_filter_source(s0, pred, j1);
            (k1, s.len() - 1)
        } else {
            lemma_filter_sources(s0, pred, j1, j2)
        }
    }
}

/// The grouping step invents no entry: every CSR slot holds one of the
/// COO triples, so in-range COO columns give in-range CSR columns.
pub proof fn lemma_grouping_preserves_col_range(
    csr: CsrMatrix,
    coo: CooMatrix,
    num_rows: int,
    num_cols: int,
)
    requires
        coo.wf(),
        csr_groups_coo(csr, coo, num_rows),
        forall|k: int| 0 <= k < coo.col_idx@.len() ==> (#[trigger] coo.col_idx@[k]) < num_cols,
    ensures
        csr.cols_in_range(num_cols),
{
    assert forall|p: int| 0 <= p < csr.col_idx@.len() implies (#[trigger] csr.col_idx@[p])
        < num_cols by {
        let r = lemma_row_of_index(csr.row_ptr@, p);
        let j = p - csr.row_ptr@[r];
        assert(csr.row_entries(r)[j] == (r as usize, csr.col_idx@[p], csr.values@[p]));
        let k = lemma_filter_source(coo.entries(), in_row(r), j);
        assert(coo.col_idx@[k] < num_cols);
    }
}

/// The grouping step keeps distinct edges distinct: a COO input with
/// no duplicate `(row, column)` pair yields a CSR whose rows never
/// repeat a column — the adjacency invariant survives the rebuild.
pub proof fn lemma_grouping_preserves_unique_edges(csr: CsrMatrix, coo: CooMatrix, num_rows: int)
    requires
        coo.wf(),
        csr_groups_coo(csr, coo, num_rows),
        coo.has_unique_edges(),
    ensures
        csr.rows_have_unique_cols(),
{
    assert forall|r: int, p1: int, p2: int|
        #![trigger csr.row_ptr@[r], csr.col_idx@[p1], csr.col_idx@[p2]]
        0 <= r < csr.num_rows() && csr.row_ptr@[r] <= p1 < p2 < csr.row_ptr@[r + 1]
        implies csr.col_idx@[p1] != csr.col_idx@[p2] by {
        let j1 = p1 - csr.row_ptr@[r];
        let j2 = p2 - csr.row_ptr@[r];
        assert(csr.row_entries(r)[j1] == (r as usize, csr.col_idx@[p1], csr.values@[p1]));
        assert(csr.row_entries(r)[j2] == (r as usize, csr.col_idx@[p2], csr.values@[p2]));
        let ks = lemma_filter_sources(coo.entries(), in_row(r), j1, j2);
        assert(coo.row_idx@[ks.0] == r as usize);
        assert(coo.row_idx@[ks.1] == r as usize);
        if csr.col_idx@[p1] == csr.col_idx@[p2] {
            assert(coo.col_idx@[ks.0] == coo.col_idx@[ks.1]);
            assert(false);
        }
    }
}

/// The expansion step keeps distinct edges distinct: a CSR whose rows
/// never repeat a column expands to a COO with no duplicate edge.
pub proof fn lemma_expansion_preserves_unique_edges(coo: CooMatrix, csr: CsrMatrix)
    requires
        csr.wf(),
        coo_expands_csr(coo, csr),
        csr.rows_have_unique_cols(),
    ensures
        coo.has_unique_edges(),
{
    assert forall|k1: int, k2: int|
        #![trigger coo.row_idx@[k1], coo.row_idx@[k2]]
        0 <= k1 < k2 < coo.row_idx@.len() implies !(coo.row_idx@[k1] == coo.row_idx@[k2]
        && coo.col_idx@[k1] == coo.col_idx@[k2]) by {
        let r1 = lemma_row_of_index(csr.row_ptr@, k1);
        let r2 = lemma_row_of_index(csr.row_ptr@, k2);
        assert(coo.row_idx@[k1] == r1);
        assert(coo.row_idx@[k2] == r2);
        if coo.row_idx@[k1] == coo.row_idx@[k2] {
            assert(r1 == r2);
            assert(csr.col_idx@[k1] != csr.col_idx@[k2]);
        }
    }
}

/// Round-trip law: converting a COO matrix to CSR and expanding it back
/// yields, row by row, exactly the original triples of that row in
/// their original order — in particular the same multiset of triples
/// per row.
pub proof fn lemma_coo_csr_coo_round_trip(
    coo: CooMatrix,
    csr: CsrMatrix,
    back: CooMatrix,
    num_rows: int,
)
    requires
        coo.wf(),
        csr_groups_coo(csr, coo, num_rows),
        coo_expands_csr(back, csr),
    ensures
        forall|r: int| 0 <= r < num_rows ==> #[trigger] back.row_entries(r) == coo.row_entries(r),
        forall|r: int|
            0 <= r < num_rows ==> #[trigger] back.row_entries(r).to_multiset()
                == coo.row_entries(r).to_multiset(),
        back.entries().len() == coo.entries().len(),
{
    assert forall|r: int| 0 <= r < num_rows implies #[trigger] back.row_entries(r)
        == coo.row_entries(r) by {
        lemma_expansion_row_entries(back, csr, r);
    }
}

/// Step of the induction for `lemma_csr_coo_csr_round_trip`: equal
/// per-row entry counts force equal row pointers.
proof fn lemma_row_ptr_agree(csr: CsrMatrix, back: CsrMatrix, r: int)
    requires
        csr.wf(),
        back.wf(),
        back.num_rows() == csr.num_rows(),
        forall|rr: int|
            0 <= rr < csr.num_rows() ==> #[trigger] back.row_entries(rr).len()
                == csr.row_entries(rr).len(),
        0 <= r <= csr.num_rows(),
    ensures
        back.row_ptr@[r] == csr.row_ptr@[r],
    decreases r,
{
    if r > 0 {
        lemma_row_ptr_agree(csr, back, r - 1);
        assert(back.row_entries(r - 1).len() == csr.row_entries(r - 1).len());
    }
}

/// Round-trip law: expanding a well-formed CSR into COO form and
/// grouping it back reproduces the identical CSR — row pointers, column
/// order within each row, and values all preserved.
pub proof fn lemma_csr_coo_csr_round_trip(csr: CsrMatrix, coo: CooMatrix, back: CsrMatrix)
    requires
        csr.wf(),
        coo_expands_csr(coo, csr),
        csr_groups_coo(back, coo, csr.num_rows()),
    ensures
        back.row_ptr@ == csr.row_ptr@,
        back.col_idx@ == csr.col_idx@,
        back.values@ == csr.values@,
{
    let n = csr.num_rows();
    assert forall|r: int| 0 <= r < n implies #[trigger] back.row_entries(r) == csr.row_entries(
        r,
    ) by {
        lemma_expansion_row_entries(coo, csr, r);
    }
    assert forall|r: int| 0 <= r <= n implies #[trigger] back.row_ptr@[r] == csr.row_ptr@[r] by {
        lemma_row_ptr_agree(csr, back, r);
    }
    assert(back.row_ptr@ =~= csr.row_ptr@);
    assert forall|p: int| 0 <= p < csr.nnz() implies back.col_idx@[p] == csr.col_idx@[p]
        && back.values@[p] == csr.values@[p] by {
        let r = lemma_row_of_index(csr.row_ptr@, p);
        let j = p - csr.row_ptr@[r];
        assert(back.row_entries(r)[j] == csr.row_entries(r)[j]);
    }
    assert(back.col_idx@ =~= csr.col_idx@);
    assert(back.values@ =~= csr.values@);
}

} // verus!
