//! The traces of the id -> value tables: one packed row per group of 16
//! table entries that was looked up at least once, holding the 9-bit limbs
//! of the values, their ids and their multiplicities.
use crate::arith::{next_pow2, next_power_of_two};
use crate::column::{is_zero_row, packed_rows, row_is_zero, BaseColumn, LOG_N_LANES, N_LANES};
use vstd::arithmetic::power2::pow2;
use crate::felt::{
    felt_limb, lane_words, words_value, small_words, split_f252_simd, u128_to_4_limbs, N_M31_IN_FELT252,
    N_M31_IN_RELOCATABLE_FELT252, N_M31_IN_SMALL_FELT252,
};
use vstd::prelude::*;

verus! {

/// The rows among the first `n` whose multiplicities are not all zero, in order.
pub open spec fn kept_rows(mults: Seq<[u32; 16]>, n: nat) -> Seq<int>
    decreases n,
{
    if n == 0 {
        Seq::empty()
    } else {
        let prev = kept_rows(mults, (n - 1) as nat);
        if is_zero_row(mults[n - 1]) {
            prev
        } else {
            prev.push(n - 1)
        }
    }
}

/// The number of rows whose multiplicities are not all zero.
pub open spec fn nonzero_rows(mults: Seq<[u32; 16]>) -> nat {
    kept_rows(mults, mults.len()).len()
}

/// The eight words of table entry `e`; entries past the end read as zero.
pub open spec fn elem_words(words: Seq<[u32; 8]>, e: int) -> Seq<u32> {
    if 0 <= e < words.len() {
        words[e]@
    } else {
        seq![0u32, 0u32, 0u32, 0u32, 0u32, 0u32, 0u32, 0u32]
    }
}

/// The kept rows lie below `n`, have non-zero multiplicities, and increase.
pub proof fn lemma_kept_rows(mults: Seq<[u32; 16]>, n: nat)
    requires
        n <= mults.len(),
    ensures
        kept_rows(mults, n).len() <= n,
        forall|i: int|
            0 <= i < kept_rows(mults, n).len() ==> 0 <= #[trigger] kept_rows(mults, n)[i] < n
                && !is_zero_row(mults[kept_rows(mults, n)[i]]),
        forall|i: int, j: int|
            0 <= i < j < kept_rows(mults, n).len() ==> kept_rows(mults, n)[i] < kept_rows(
                mults,
                n,
            )[j],
    decreases n,
{
    if n > 0 {
        lemma_kept_rows(mults, (n - 1) as nat);
    }
}

/// Law: among the first `n` rows, a row is kept exactly when one of its 16
/// multiplicities is not zero.
pub proof fn lemma_kept_rows_exact(mults: Seq<[u32; 16]>, n: nat, r: int)
    requires
        n <= mults.len(),
        0 <= r < n,
    ensures
        kept_rows(mults, n).contains(r) <==> exists|l: int| 0 <= l < 16 && #[trigger] mults[r][l] != 0,
    decreases n,
{
    let prev = kept_rows(mults, (n - 1) as nat);
    lemma_kept_rows(mults, (n - 1) as nat);
    if r < n - 1 {
        lemma_kept_rows_exact(mults, (n - 1) as nat, r);
        if !is_zero_row(mults[n - 1]) {
            let k = prev.push(n - 1);
            assert(k.contains(r) ==> prev.contains(r)) by {
                if k.contains(r) {
                    let i = choose|i: int| 0 <= i < k.len() && k[i] == r;
                    assert(i < prev.len());
                    assert(prev[i] == r);
                }
            }
            assert(prev.contains(r) ==> k.contains(r)) by {
                if prev.contains(r) {
                    let i = choose|i: int| 0 <= i < prev.len() && prev[i] == r;
                    assert(k[i] == r);
                }
            }
        }
    } else {
        assert(!prev.contains(r)) by {
            if prev.contains(r) {
                let i = choose|i: int| 0 <= i < prev.len() && prev[i] == r;
                assert(prev[i] < n - 1);
            }
        }
        if is_zero_row(mults[r]) {
            assert(!exists|l: int| 0 <= l < 16 && #[trigger] mults[r][l] != 0);
        } else {
            let l = choose|l: int| 0 <= l < 16 && mults[r][l] != 0;
            assert(mults[r][l] != 0);
            let k = prev.push(r);
            assert(k[prev.len() as int] == r);
        }
    }
}

/// Law: a table trace is complete. Every entry of the rows it reads whose
/// multiplicity is not zero has a row `i` of the trace that holds, in its
/// lane, the entry's id, its multiplicity and its limbs.
pub proof fn lemma_table_trace_complete(
    cols: Seq<BaseColumn>,
    words_of: spec_fn(int) -> Seq<u32>,
    mults: Seq<[u32; 16]>,
    n_rows: nat,
    n_limbs: nat,
    column_length: nat,
    value_length: nat,
    r: int,
    y: int,
) -> (i: int)
    requires
        is_table_trace(cols, words_of, mults, n_rows, n_limbs, column_length, value_length),
        n_rows <= mults.len(),
        column_length == trace_column_length(mults),
        kept_rows(mults, n_rows).len() <= packed_rows(value_length),
        0 <= r < n_rows,
        0 <= y < 16,
        mults[r][y] != 0,
    ensures
        0 <= i < column_length,
        cols[n_limbs as int].data@[i][y] == (16 * r + y) as u32,
        cols[n_limbs + 1int].data@[i][y] == mults[r][y],
        forall|j: int|
            0 <= j < n_limbs ==> #[trigger] cols[j].data@[i][y] == felt_limb(
                words_of(16 * r + y),
                j as nat,
            ) as u32,
{
    let kept = kept_rows(mults, n_rows);
    lemma_kept_rows_exact(mults, n_rows, r);
    assert(mults[r][y] != 0);
    assert(kept.contains(r));
    let i = choose|i: int| 0 <= i < kept.len() && kept[i] == r;
    lemma_kept_rows_mono(mults, n_rows, mults.len());
    lemma_next_pow2_at_least(nonzero_rows(mults));
    assert(i < column_length);
    assert forall|j: int| 0 <= j < n_limbs implies #[trigger] cols[j].data@[i][y] == felt_limb(
        words_of(16 * r + y),
        j as nat,
    ) as u32 by {
        assert(i < packed_rows(value_length));
    }
    i
}

/// Fewer rows keep no more rows.
pub proof fn lemma_kept_rows_mono(mults: Seq<[u32; 16]>, n: nat, m: nat)
    requires
        n <= m <= mults.len(),
    ensures
        kept_rows(mults, n).len() <= kept_rows(mults, m).len(),
    decreases m,
{
    if n < m {
        lemma_kept_rows_mono(mults, n, (m - 1) as nat);
    }
}

/// Splits a list of triples into three lists by `itertools::multiunzip`.
/// Trusted: the contract claims that `multiunzip` moves the triples, in
/// order, into three vectors, the first components into the first vector,
/// the second into the second and the third into the third, so that each
/// vector is as long as the input.
#[verifier::external_body]
fn multiunzip3<A, B, C>(rows: Vec<(A, B, C)>) -> (r: (Vec<A>, Vec<B>, Vec<C>))
    ensures
        r.0@.len() == rows@.len(),
        r.1@.len() == rows@.len(),
        r.2@.len() == rows@.len(),
        forall|i: int| 0 <= i < rows@.len() ==> #[trigger] r.0@[i] == rows@[i].0,
        forall|i: int| 0 <= i < rows@.len() ==> #[trigger] r.1@[i] == rows@[i].1,
        forall|i: int| 0 <= i < rows@.len() ==> #[trigger] r.2@[i] == rows@[i].2,
{
    itertools::multiunzip(rows)
}

/// The words of the 16 entries of row `r`, transposed: word `x` of lane `y`.
fn row_words(words: &[[u32; 8]], r: usize) -> (t: [[u32; 16]; 8])
    requires
        16 * r + 16 <= usize::MAX,
    ensures
        forall|y: int| 0 <= y < 16 ==> #[trigger] lane_words(t, y) == elem_words(words@, 16 * r + y),
{
    let mut t = [[0u32; 16]; 8];
    let mut x: usize = 0;
    while x < 8
        invariant
            x <= 8,
            16 * r + 16 <= usize::MAX,
            forall|a: int, y: int|
                0 <= a < x && 0 <= y < 16 ==> #[trigger] t[a][y] == elem_words(words@, 16 * r + y)[a],
        decreases 8 - x,
    {
        let mut lane = [0u32; 16];
        let mut y: usize = 0;
        while y < 16
            invariant
                y <= 16,
                x < 8,
                16 * r + 16 <= usize::MAX,
                forall|b: int| 0 <= b < y ==> #[trigger] lane[b] == elem_words(words@, 16 * r + b)[x as int],
            decreases 16 - y,
        {
            let e = 16 * r + y;
            if e < words.len() {
                lane[y] = words[e][x];
            } else {
                lane[y] = 0;
            }
            y = y + 1;
        }
        t[x] = lane;
        x = x + 1;
    }
    proof {
        assert forall|y: int| 0 <= y < 16 implies #[trigger] lane_words(t, y) == elem_words(
            words@,
            16 * r + y,
        ) by {
            assert(lane_words(t, y) =~= elem_words(words@, 16 * r + y));
        }
    }
    t
}

/// The ids of the entries of row `r`: `16 r .. 16 r + 16`.
fn row_ids(r: usize) -> (ids: [u32; 16])
    requires
        16 * r + 16 <= u32::MAX,
    ensures
        forall|y: int| 0 <= y < 16 ==> #[trigger] ids[y] == 16 * r + y,
{
    let mut ids = [0u32; 16];
    let base = (16 * r) as u32;
    let mut y: usize = 0;
    while y < 16
        invariant
            y <= 16,
            base == 16 * r,
            16 * r + 16 <= u32::MAX,
            forall|b: int| 0 <= b < y ==> #[trigger] ids[b] == 16 * r + b,
        decreases 16 - y,
    {
        ids[y] = base + y as u32;
        y = y + 1;
    }
    ids
}

/// The rows among the first `n_rows` whose multiplicities are not all zero,
/// each with its transposed words, its ids and its multiplicities.
fn collect_kept_rows(words: &[[u32; 8]], mults: &[[u32; 16]], n_rows: usize) -> (rows: Vec<
    ([[u32; 16]; 8], [u32; 16], [u32; 16]),
>)
    requires
        n_rows <= mults@.len(),
        16 * n_rows <= u32::MAX,
    ensures
        rows@.len() == kept_rows(mults@, n_rows as nat).len(),
        forall|i: int|
            #![trigger rows@[i]]
            0 <= i < rows@.len() ==> {
                let r = kept_rows(mults@, n_rows as nat)[i];
                &&& forall|y: int|
                    0 <= y < 16 ==> #[trigger] lane_words(rows@[i].0, y) == elem_words(
                        words@,
                        16 * r + y,
                    )
                &&& forall|y: int| 0 <= y < 16 ==> #[trigger] rows@[i].1[y] == 16 * r + y
                &&& rows@[i].2 == mults@[r]
            },
{
    let mut rows: Vec<([[u32; 16]; 8], [u32; 16], [u32; 16])> = Vec::new();
    let mut r: usize = 0;
    while r < n_rows
        invariant
            r <= n_rows,
            n_rows <= mults@.len(),
            16 * n_rows <= u32::MAX,
            rows@.len() == kept_rows(mults@, r as nat).len(),
            forall|i: int|
                #![trigger rows@[i]]
                0 <= i < rows@.len() ==> {
                    let k = kept_rows(mults@, r as nat)[i];
                    &&& forall|y: int|
                        0 <= y < 16 ==> #[trigger] lane_words(rows@[i].0, y) == elem_words(
                            words@,
                            16 * k + y,
                        )
                    &&& forall|y: int| 0 <= y < 16 ==> #[trigger] rows@[i].1[y] == 16 * k + y
                    &&& rows@[i].2 == mults@[k]
                },
        decreases n_rows - r,
    {
        let m = mults[r];
        if !row_is_zero(&m) {
            let t = row_words(words, r);
            let ids = row_ids(r);
            rows.push((t, ids, m));
        }
        r = r + 1;
    }
    rows
}

/// `cols` is the trace of a table whose entry `e` has the words
/// `words_of(e)`, with multiplicities `mults` (one packed row per 16 entries),
/// of which the first `n_rows` rows are read:
/// - each kept row (see `kept_rows`) becomes one packed row, in order;
/// - columns `0 .. n_limbs` hold limb `j` of each entry's value; they have
///   `value_length` values, the rows after the kept ones being zero;
/// - column `n_limbs` holds the entries' ids and column `n_limbs + 1` their
///   multiplicities, each in `column_length` packed rows, zero after the kept ones.
pub open spec fn is_table_trace(
    cols: Seq<BaseColumn>,
    words_of: spec_fn(int) -> Seq<u32>,
    mults: Seq<[u32; 16]>,
    n_rows: nat,
    n_limbs: nat,
    column_length: nat,
    value_length: nat,
) -> bool {
    let kept = kept_rows(mults, n_rows);
    let k = kept.len();
    &&& cols.len() == n_limbs + 2
    &&& forall|j: int|
        0 <= j < n_limbs ==> #[trigger] cols[j].length == value_length && cols[j].data@.len()
            == packed_rows(value_length)
    &&& forall|j: int, i: int, y: int|
        0 <= j < n_limbs && 0 <= i < packed_rows(value_length) && 0 <= y < 16
            ==> #[trigger] cols[j].data@[i][y] == (if i < k {
            felt_limb(words_of(16 * kept[i] + y), j as nat) as u32
        } else {
            0u32
        })
    &&& cols[n_limbs as int].length == column_length * 16
    &&& cols[n_limbs as int].data@.len() == column_length
    &&& forall|i: int, y: int|
        0 <= i < column_length && 0 <= y < 16 ==> #[trigger] cols[n_limbs as int].data@[i][y] == (
        if i < k {
            (16 * kept[i] + y) as u32
        } else {
            0u32
        })
    &&& cols[n_limbs + 1int].length == column_length * 16
    &&& cols[n_limbs + 1int].data@.len() == column_length
    &&& forall|i: int, y: int|
        0 <= i < column_length && 0 <= y < 16 ==> #[trigger] cols[n_limbs + 1int].data@[i][y] == (
        if i < k {
            mults[kept[i]][y]
        } else {
            0u32
        })
}

/// The number of packed rows whose multiplicities are not all zero.
fn count_nonzero_rows(mults: &[[u32; 16]]) -> (n: usize)
    ensures
        n == nonzero_rows(mults@),
        n <= mults@.len(),
{
    let mut n: usize = 0;
    let mut r: usize = 0;
    while r < mults.len()
        invariant
            r <= mults@.len(),
            n == kept_rows(mults@, r as nat).len(),
            n <= r,
        decreases mults@.len() - r,
    {
        if !row_is_zero(&mults[r]) {
            n = n + 1;
        }
        r = r + 1;
    }
    n
}

/// Limb columns `0 .. n_limbs` of `value_length` values each; packed row `i`
/// holds the limbs of `packed[i]`, the later rows are zero.
fn value_columns(packed: &Vec<[[u32; 16]; 8]>, n_limbs: usize, value_length: usize) -> (cols: Vec<
    BaseColumn,
>)
    requires
        n_limbs <= 28,
        packed@.len() <= packed_rows(value_length as nat),
    ensures
        cols@.len() == n_limbs,
        forall|j: int|
            0 <= j < n_limbs ==> #[trigger] cols@[j].length == value_length && cols@[j].data@.len()
                == packed_rows(value_length as nat),
        forall|j: int, i: int, y: int|
            0 <= j < n_limbs && 0 <= i < packed_rows(value_length as nat) && 0 <= y < 16
                ==> #[trigger] cols@[j].data@[i][y] == (if i < packed@.len() {
                felt_limb(lane_words(packed@[i], y), j as nat) as u32
            } else {
                0u32
            }),
{
    let mut limbs: Vec<[[u32; 16]; 28]> = Vec::new();
    let mut i: usize = 0;
    while i < packed.len()
        invariant
            i <= packed@.len(),
            limbs@.len() == i,
            forall|a: int, j: int, y: int|
                0 <= a < i && 0 <= j < 28 && 0 <= y < 16 ==> #[trigger] limbs@[a][j][y] as nat
                    == felt_limb(lane_words(packed@[a], y), j as nat),
        decreases packed@.len() - i,
    {
        limbs.push(split_f252_simd(&packed[i]));
        i = i + 1;
    }
    let mut cols: Vec<BaseColumn> = Vec::new();
    let mut j: usize = 0;
    while j < n_limbs
        invariant
            j <= n_limbs <= 28,
            packed@.len() <= packed_rows(value_length as nat),
            limbs@.len() == packed@.len(),
            forall|a: int, jj: int, y: int|
                0 <= a < packed@.len() && 0 <= jj < 28 && 0 <= y < 16
                    ==> #[trigger] limbs@[a][jj][y] as nat == felt_limb(
                    lane_words(packed@[a], y),
                    jj as nat,
                ),
            cols@.len() == j,
            forall|c: int|
                0 <= c < j ==> #[trigger] cols@[c].length == value_length && cols@[c].data@.len()
                    == packed_rows(value_length as nat),
            forall|c: int, a: int, y: int|
                0 <= c < j && 0 <= a < packed_rows(value_length as nat) && 0 <= y < 16
                    ==> #[trigger] cols@[c].data@[a][y] == (if a < packed@.len() {
                    felt_limb(lane_words(packed@[a], y), c as nat) as u32
                } else {
                    0u32
                }),
        decreases n_limbs - j,
    {
        let zeros = BaseColumn::zeros(value_length);
        let mut data = zeros.data;
        let mut a: usize = 0;
        while a < limbs.len()
            invariant
                j < n_limbs <= 28,
                a <= limbs@.len(),
                limbs@.len() == packed@.len(),
                packed@.len() <= packed_rows(value_length as nat),
                data@.len() == packed_rows(value_length as nat),
                forall|b: int, jj: int, y: int|
                    0 <= b < packed@.len() && 0 <= jj < 28 && 0 <= y < 16
                        ==> #[trigger] limbs@[b][jj][y] as nat == felt_limb(
                        lane_words(packed@[b], y),
                        jj as nat,
                    ),
                forall|b: int| a <= b < data@.len() ==> is_zero_row(#[trigger] data@[b]),
                forall|b: int, y: int|
                    0 <= b < a && 0 <= y < 16 ==> #[trigger] data@[b][y] as nat == felt_limb(
                        lane_words(packed@[b], y),
                        j as nat,
                    ),
            decreases limbs@.len() - a,
        {
            let row = limbs[a][j];
            data.set(a, row);
            a = a + 1;
        }
        let col = BaseColumn { data, length: value_length };
        cols.push(col);
        j = j + 1;
    }
    cols
}

/// Extends a list of packed rows with zero rows up to `len` rows.
fn pad_zero_rows(v: Vec<[u32; 16]>, len: usize) -> (r: Vec<[u32; 16]>)
    requires
        v@.len() <= len,
    ensures
        r@.len() == len,
        forall|i: int, y: int|
            0 <= i < len && 0 <= y < 16 ==> #[trigger] r@[i][y] == (if i < v@.len() {
                v@[i][y]
            } else {
                0u32
            }),
{
    let mut r = v;
    while r.len() < len
        invariant
            v@.len() <= r@.len() <= len,
            forall|i: int, y: int|
                0 <= i < r@.len() && 0 <= y < 16 ==> #[trigger] r@[i][y] == (if i < v@.len() {
                    v@[i][y]
                } else {
                    0u32
                }),
        decreases len - r@.len(),
    {
        r.push([0u32; 16]);
    }
    r
}

/// The trace of a table from the words of its entries: the kept rows among
/// the first `n_rows`, their limbs, ids and multiplicities.
fn table_trace(
    words: &[[u32; 8]],
    mults: &[[u32; 16]],
    n_rows: usize,
    n_limbs: usize,
    column_length: usize,
    value_length: usize,
    Ghost(words_of): Ghost<spec_fn(int) -> Seq<u32>>,
) -> (cols: Vec<BaseColumn>)
    requires
        n_rows <= mults@.len(),
        16 * n_rows <= u32::MAX,
        n_limbs <= 28,
        kept_rows(mults@, n_rows as nat).len() <= packed_rows(value_length as nat),
        kept_rows(mults@, n_rows as nat).len() <= column_length,
        column_length * 16 <= usize::MAX,
        forall|e: int| 0 <= e < 16 * n_rows ==> #[trigger] elem_words(words@, e) == words_of(e),
    ensures
        is_table_trace(
            cols@,
            words_of,
            mults@,
            n_rows as nat,
            n_limbs as nat,
            column_length as nat,
            value_length as nat,
        ),
{
    let rows = collect_kept_rows(words, mults, n_rows);
    let ghost kept = kept_rows(mults@, n_rows as nat);
    proof {
        lemma_kept_rows(mults@, n_rows as nat);
    }
    let ghost rows_view = rows@;
    let (packed, ids0, ms0) = multiunzip3(rows);
    let mut cols = value_columns(&packed, n_limbs, value_length);
    let ids = pad_zero_rows(ids0, column_length);
    let ms = pad_zero_rows(ms0, column_length);
    let ghost ids_view = ids@;
    let ghost ms_view = ms@;
    let id_col = BaseColumn::from_simd(ids);
    let mult_col = BaseColumn::from_simd(ms);
    let ghost value_cols = cols@;
    cols.push(id_col);
    cols.push(mult_col);
    proof {
        assert forall|j: int, i: int, y: int|
            0 <= j < n_limbs && 0 <= i < packed_rows(value_length as nat) && 0 <= y < 16
                implies #[trigger] cols@[j].data@[i][y] == (if i < kept.len() {
            felt_limb(words_of(16 * kept[i] + y), j as nat) as u32
        } else {
            0u32
        }) by {
            assert(cols@[j] == value_cols[j]);
            if i < kept.len() {
                assert(lane_words(packed@[i], y) == elem_words(words@, 16 * kept[i] + y));
            }
        }
        assert forall|j: int| 0 <= j < n_limbs implies #[trigger] cols@[j].length == value_length
            && cols@[j].data@.len() == packed_rows(value_length as nat) by {
            assert(cols@[j] == value_cols[j]);
        }
        assert forall|i: int, y: int|
            0 <= i < column_length && 0 <= y < 16 implies #[trigger] cols@[n_limbs as int].data@[i][y]
            == (if i < kept.len() {
            (16 * kept[i] + y) as u32
        } else {
            0u32
        }) by {
            if i < kept.len() {
                assert(ids_view[i][y] == ids0@[i][y]);
                assert(ids0@[i] == rows_view[i].1);
                assert(rows_view[i].1[y] == 16 * kept[i] + y);
            }
        }
        assert forall|i: int, y: int|
            0 <= i < column_length && 0 <= y < 16 implies #[trigger] cols@[n_limbs + 1int].data@[i][y]
            == (if i < kept.len() {
            mults@[kept[i]][y]
        } else {
            0u32
        }) by {
            if i < kept.len() {
                assert(ms_view[i][y] == ms0@[i][y]);
                assert(ms0@[i] == rows_view[i].2);
            }
        }
    }
    cols
}

/// The number of packed rows of each column of a table trace: the number of
/// rows with a non-zero multiplicity, rounded up to a power of two.
pub open spec fn trace_column_length(mults: Seq<[u32; 16]>) -> nat {
    next_pow2(nonzero_rows(mults))
}

/// The rows of a large-value table that its trace reads: no more than the
/// column length, the multiplicity rows, and the rows that the `u32` id range
/// `0 .. column_length * 16` (taken modulo `2^32`) covers.
pub open spec fn big_trace_rows(mults: Seq<[u32; 16]>) -> nat {
    let cl = trace_column_length(mults);
    let by_ids = ((cl * 16) % 0x1_0000_0000) / 16;
    let a = if cl < mults.len() {
        cl
    } else {
        mults.len()
    };
    if a < by_ids {
        a
    } else {
        by_ids
    }
}

/// The rows of a small or relocatable table that its trace reads: the full
/// groups of 16 values (also when counted by `len as u32`), and no more
/// than the multiplicity rows.
pub open spec fn short_trace_rows(n_values: nat, mults: Seq<[u32; 16]>) -> nat {
    let a = n_values / 16;
    let b = (n_values % 0x1_0000_0000) / 16;
    let m = if a < b {
        a
    } else {
        b
    };
    if m < mults.len() {
        m
    } else {
        mults.len()
    }
}

/// The words of a relocatable value: its second word first.
pub open spec fn relocatable_words(v: [u32; 2]) -> Seq<u32> {
    seq![v[1], v[0], 0u32, 0u32, 0u32, 0u32, 0u32, 0u32]
}

/// Law: a relocatable value `v` stands for the number `v[1] + 2^32 * v[0]`;
/// its limbs (in `deduce_output` and in the relocatable trace) are the 9-bit
/// limbs of that number.
pub proof fn lemma_relocatable_words_value(v: [u32; 2], k: nat)
    ensures
        words_value(relocatable_words(v)) == v[1] as nat + pow2(32) * v[0] as nat,
        felt_limb(relocatable_words(v), k) == ((v[1] as nat + pow2(32) * v[0] as nat) / pow2(
            9 * k,
        )) % 512,
{
    let w = relocatable_words(v);
    let z = seq![0u32, 0u32, 0u32, 0u32, 0u32, 0u32];
    lemma_words_value_zeros(z);
    assert(w.drop_first() =~= seq![v[0]] + z);
    assert((seq![v[0]] + z).drop_first() =~= z);
    assert(words_value(w.drop_first()) == v[0] as nat + pow2(32) * words_value(z));
}

/// Zero words stand for zero.
proof fn lemma_words_value_zeros(w: Seq<u32>)
    requires
        forall|i: int| 0 <= i < w.len() ==> #[trigger] w[i] == 0,
    ensures
        words_value(w) == 0,
    decreases w.len(),
{
    if w.len() > 0 {
        lemma_words_value_zeros(w.drop_first());
        assert(w[0] == 0);
        assert(pow2(32) * words_value(w.drop_first()) == 0);
    }
}

/// A power of two rounding up `n` is at most `max(1, 2n - 1)`.
proof fn lemma_next_pow2_bound(n: nat)
    ensures
        1 <= next_pow2(n),
        next_pow2(n) <= 1 || next_pow2(n) < 2 * n,
        n <= next_pow2(n),
    decreases n,
{
    if n > 1 {
        lemma_next_pow2_bound(((n + 1) / 2) as nat);
    }
}

/// A power of two rounding up `n` is at least `n`.
pub proof fn lemma_next_pow2_at_least(n: nat)
    ensures
        n <= next_pow2(n),
{
    lemma_next_pow2_bound(n);
}

/// A chunk that is counted starts inside the sequence.
pub proof fn lemma_chunk_start(n: nat, d: nat, c: nat)
    requires
        d > 0,
        c < ceil_div(n, d),
    ensures
        c * d < n,
{
    lemma_ceil_div(n, d, c);
}

/// A chunk of multiplicity rows covers no more values than the matching
/// chunk of values, when there are 16 values per row.
pub proof fn lemma_chunk_lens(values: Seq<[u32; 8]>, rows: Seq<[u32; 16]>, c: nat, max: nat)
    requires
        values.len() == 16 * rows.len(),
        max >= 16,
        max % 16 == 0,
        c * (max / 16) < rows.len(),
    ensures
        chunk_of(rows, c, max / 16).len() * 16 <= chunk_of(values, c, max).len(),
{
    let d = max / 16;
    assert(c * max == 16 * (c * d)) by (nonlinear_arith)
        requires
            max == 16 * d,
    ;
    assert(c * max < values.len());
}

/// A trace column length is at least one.
pub proof fn lemma_next_pow2_positive(mults: Seq<[u32; 16]>)
    ensures
        trace_column_length(mults) >= 1,
{
    lemma_next_pow2_bound(nonzero_rows(mults));
}

/// The column length of a table trace and its size bounds.
fn column_length_of(mults: &[[u32; 16]]) -> (cl: usize)
    requires
        mults@.len() <= usize::MAX / 32,
    ensures
        cl == trace_column_length(mults@),
        cl * 16 <= usize::MAX,
        nonzero_rows(mults@) <= cl,
{
    let n = count_nonzero_rows(mults);
    proof {
        lemma_next_pow2_bound(n as nat);
    }
    next_power_of_two(n)
}

/// Generates the trace of one large-value table: for each packed row of
/// multiplicities that is not all zero, the 28 limbs of its 16 values, their
/// ids (positions in `values`) and their multiplicities.
///
/// The limb columns are made with `column_length` values, i.e.
/// `ceil(column_length / 16)` packed rows, while the id and multiplicity
/// columns have `column_length` packed rows; a table with more kept rows than
/// the limb columns hold is refused by `requires` (the kept rows are written
/// into the limb columns by index).
pub fn gen_single_big_memory_trace(values: &[[u32; 8]], mults: &[[u32; 16]]) -> (cols: Vec<
    BaseColumn,
>)
    requires
        mults@.len() <= usize::MAX / 32,
        kept_rows(mults@, big_trace_rows(mults@)).len() <= packed_rows(
            trace_column_length(mults@),
        ),
    ensures
        is_table_trace(
            cols@,
            |e: int| elem_words(values@, e),
            mults@,
            big_trace_rows(mults@),
            N_M31_IN_FELT252 as nat,
            trace_column_length(mults@),
            trace_column_length(mults@),
        ),
{
    let cl = column_length_of(mults);
    let t = cl * 16;
    let id_bound = #[verifier::truncate] (t as u32);
    proof {
        assert(#[verifier::truncate] (t as u32) as u64 == (t as u64) % 0x1_0000_0000) by (bit_vector);
    }
    let by_ids = (id_bound / 16) as usize;
    let a = if cl < mults.len() {
        cl
    } else {
        mults.len()
    };
    let n_rows = if a < by_ids {
        a
    } else {
        by_ids
    };
    proof {
        assert(n_rows == big_trace_rows(mults@));
        lemma_kept_rows_mono(mults@, n_rows as nat, mults@.len());
    }
    table_trace(
        values,
        mults,
        n_rows,
        N_M31_IN_FELT252,
        cl,
        cl,
        Ghost(|e: int| elem_words(values@, e)),
    )
}

/// Generates the trace of the small-value table: for each packed row of
/// multiplicities that is not all zero, the 8 limbs of its 16 values, their
/// ids and their multiplicities.
pub fn gen_small_memory_trace(values: Vec<u128>, mults: Vec<[u32; 16]>) -> (cols: Vec<BaseColumn>)
    requires
        mults@.len() <= usize::MAX / 32,
    ensures
        is_table_trace(
            cols@,
            |e: int| small_words(values@[e]),
            mults@,
            short_trace_rows(values@.len(), mults@),
            N_M31_IN_SMALL_FELT252 as nat,
            trace_column_length(mults@),
            trace_column_length(mults@) * 16,
        ),
{
    let cl = column_length_of(mults.as_slice());
    let n_values = values.len();
    let values_len = #[verifier::truncate] (n_values as u32);
    proof {
        assert(#[verifier::truncate] (n_values as u32) as u64 == (n_values as u64) % 0x1_0000_0000)
            by (bit_vector);
    }
    let mut words: Vec<[u32; 8]> = Vec::new();
    let mut e: usize = 0;
    while e < values.len()
        invariant
            e <= values@.len(),
            words@.len() == e,
            forall|f: int| 0 <= f < e ==> #[trigger] words@[f]@ == small_words(values@[f]),
        decreases values@.len() - e,
    {
        let l = u128_to_4_limbs(values[e]);
        let w = [l[0], l[1], l[2], l[3], 0, 0, 0, 0];
        assert(w@ =~= small_words(values@[e as int]));
        words.push(w);
        e = e + 1;
    }
    let a = values.len() / 16;
    let b = (values_len / 16) as usize;
    let m = if a < b {
        a
    } else {
        b
    };
    let n_rows = if m < mults.len() {
        m
    } else {
        mults.len()
    };
    proof {
        assert(n_rows == short_trace_rows(values@.len(), mults@));
        lemma_kept_rows_mono(mults@, n_rows as nat, mults@.len());
        assert(packed_rows((cl * 16) as nat) == cl);
    }
    table_trace(
        words.as_slice(),
        mults.as_slice(),
        n_rows,
        N_M31_IN_SMALL_FELT252,
        cl,
        cl * 16,
        Ghost(|e: int| small_words(values@[e])),
    )
}

/// Generates the trace of the relocatable-value table: for each packed row of
/// multiplicities that is not all zero, the limbs of its 16 values, their ids
/// and their multiplicities.
pub fn gen_relocatable_memory_trace(values: &Vec<[u32; 2]>, mults: &Vec<[u32; 16]>) -> (cols: Vec<
    BaseColumn,
>)
    requires
        mults@.len() <= usize::MAX / 32,
    ensures
        is_table_trace(
            cols@,
            |e: int| relocatable_words(values@[e]),
            mults@,
            short_trace_rows(values@.len(), mults@),
            N_M31_IN_RELOCATABLE_FELT252 as nat,
            trace_column_length(mults@),
            trace_column_length(mults@) * 16,
        ),
{
    let cl = column_length_of(mults.as_slice());
    let n_values = values.len();
    let values_len = #[verifier::truncate] (n_values as u32);
    proof {
        assert(#[verifier::truncate] (n_values as u32) as u64 == (n_values as u64) % 0x1_0000_0000)
            by (bit_vector);
    }
    let mut words: Vec<[u32; 8]> = Vec::new();
    let mut e: usize = 0;
    while e < values.len()
        invariant
            e <= values@.len(),
            words@.len() == e,
            forall|f: int| 0 <= f < e ==> #[trigger] words@[f]@ == relocatable_words(values@[f]),
        decreases values@.len() - e,
    {
        let v = values[e];
        let w = [v[1], v[0], 0, 0, 0, 0, 0, 0];
        assert(w@ =~= relocatable_words(values@[e as int]));
        words.push(w);
        e = e + 1;
    }
    let a = values.len() / 16;
    let b = (values_len / 16) as usize;
    let m = if a < b {
        a
    } else {
        b
    };
    let n_rows = if m < mults.len() {
        m
    } else {
        mults.len()
    };
    proof {
        assert(n_rows == short_trace_rows(values@.len(), mults@));
        lemma_kept_rows_mono(mults@, n_rows as nat, mults@.len());
        assert(packed_rows((cl * 16) as nat) == cl);
    }
    table_trace(
        words.as_slice(),
        mults.as_slice(),
        n_rows,
        N_M31_IN_RELOCATABLE_FELT252,
        cl,
        cl * 16,
        Ghost(|e: int| relocatable_words(values@[e])),
    )
}

/// Chunk `c` of `s` when cut into pieces of `size` (the last may be shorter).
pub open spec fn chunk_of<T>(s: Seq<T>, c: nat, size: nat) -> Seq<T> {
    let start = c * size;
    let end = if start + size < s.len() {
        start + size
    } else {
        s.len()
    };
    s.subrange(start as int, end as int)
}

/// `ceil(n / d)`.
pub open spec fn ceil_div(n: nat, d: nat) -> nat {
    ((n + d - 1) as nat) / d
}

/// The number of large-value tables: chunks of `max` values, paired with
/// chunks of `max / 16` multiplicity rows, as long as both last.
pub open spec fn big_chunk_count(values_len: nat, mults_len: nat, max: nat) -> nat {
    let a = ceil_div(values_len, max);
    let b = ceil_div(mults_len, max / 16);
    if a < b {
        a
    } else {
        b
    }
}

/// Every large-value table fits its limb columns (see `gen_single_big_memory_trace`).
pub open spec fn big_chunks_fit(values: Seq<[u32; 8]>, mults: Seq<[u32; 16]>, max: nat) -> bool {
    forall|c: nat|
        c < big_chunk_count(values.len(), mults.len(), max) ==> {
            let m = #[trigger] chunk_of(mults, c, max / 16);
            kept_rows(m, big_trace_rows(m)).len() <= packed_rows(trace_column_length(m))
        }
}

/// `c * d < n` exactly when `c < ceil(n / d)`.
proof fn lemma_ceil_div(n: nat, d: nat, c: nat)
    requires
        d > 0,
    ensures
        c * d < n <==> c < ceil_div(n, d),
{
    let t: int = n + d - 1;
    let di: int = d as int;
    let q: int = t / di;
    let r: int = t % di;
    assert(q == ceil_div(n, d));
    vstd::arithmetic::div_mod::lemma_fundamental_div_mod(t, di);
    vstd::arithmetic::div_mod::lemma_mod_bound(t, di);
    let ci: int = c as int;
    if ci < q {
        assert(ci * di < n) by (nonlinear_arith)
            requires
                ci < q,
                t == di * q + r,
                0 <= r < di,
                t == n + di - 1,
                di > 0,
                ci >= 0,
        {
            assert(ci * di <= (q - 1) * di);
        }
    } else {
        assert(ci * di >= n) by (nonlinear_arith)
            requires
                ci >= q,
                t == di * q + r,
                0 <= r < di,
                t == n + di - 1,
                di > 0,
        {
            assert(ci * di >= q * di);
        }
    }
}

/// `traces` are the traces of the large-value tables cut from `values` and
/// `mults` in chunks of `max` values (see `gen_single_big_memory_trace`).
pub open spec fn are_big_table_traces(
    traces: Seq<Vec<BaseColumn>>,
    values: Seq<[u32; 8]>,
    mults: Seq<[u32; 16]>,
    max: nat,
) -> bool {
    &&& traces.len() == big_chunk_count(values.len(), mults.len(), max)
    &&& forall|c: int|
        0 <= c < traces.len() ==> {
            let m = chunk_of(mults, c as nat, max / 16);
            is_table_trace(
                #[trigger] traces[c]@,
                |e: int| elem_words(chunk_of(values, c as nat, max), e),
                m,
                big_trace_rows(m),
                N_M31_IN_FELT252 as nat,
                trace_column_length(m),
                trace_column_length(m),
            )
        }
}

/// Generates the traces of the large-value tables: the values are cut into
/// tables of `2^log_max_big_size` values each (with the matching multiplicity
/// rows), and each table gets its own trace.
pub fn gen_big_memory_traces(values: Vec<[u32; 8]>, mults: Vec<[u32; 16]>, log_max_big_size: u32) -> (traces: Vec<
    Vec<BaseColumn>,
>)
    requires
        LOG_N_LANES <= log_max_big_size < usize::BITS,
        values@.len() / 16 == mults@.len(),
        mults@.len() <= usize::MAX / 32,
        big_chunks_fit(values@, mults@, pow2(log_max_big_size as nat)),
    ensures
        are_big_table_traces(traces@, values@, mults@, pow2(log_max_big_size as nat)),
{
    proof {
        vstd::bits::lemma_usize_pow2_no_overflow(log_max_big_size as nat);
        vstd::bits::lemma_usize_shl_is_mul(1, log_max_big_size as usize);
        vstd::arithmetic::power2::lemma2_to64();
        if log_max_big_size > 4 {
            vstd::arithmetic::power2::lemma_pow2_strictly_increases(4, log_max_big_size as nat);
        }
    }
    let max_big_size: usize = 1usize << (log_max_big_size as usize);
    let rows_per_table = max_big_size / N_LANES;
    let ghost max = pow2(log_max_big_size as nat);
    let mut traces: Vec<Vec<BaseColumn>> = Vec::new();
    let mut start_v: usize = 0;
    let mut start_m: usize = 0;
    let ghost mut c: nat = 0;
    while start_v < values.len() && start_m < mults.len()
        invariant
            max == max_big_size,
            max_big_size >= 16,
            rows_per_table == max_big_size / 16,
            mults@.len() <= usize::MAX / 32,
            big_chunks_fit(values@, mults@, max),
            start_v == (if c * max_big_size < values@.len() {
                c * max_big_size
            } else {
                values@.len() as int
            }),
            start_m == (if c * rows_per_table < mults@.len() {
                c * rows_per_table
            } else {
                mults@.len() as int
            }),
            start_v <= values@.len(),
            start_m <= mults@.len(),
            c <= big_chunk_count(values@.len(), mults@.len(), max),
            traces@.len() == c,
            forall|d: int|
                0 <= d < traces@.len() ==> {
                    let m = chunk_of(mults@, d as nat, max / 16);
                    is_table_trace(
                        #[trigger] traces@[d]@,
                        |e: int| elem_words(chunk_of(values@, d as nat, max), e),
                        m,
                        big_trace_rows(m),
                        N_M31_IN_FELT252 as nat,
                        trace_column_length(m),
                        trace_column_length(m),
                    )
                },
        decreases values@.len() - start_v,
    {
        proof {
            lemma_ceil_div(values@.len(), max, c);
            lemma_ceil_div(mults@.len(), max / 16, c);
        }
        let end_v = if values.len() - start_v < max_big_size {
            values.len()
        } else {
            start_v + max_big_size
        };
        let end_m = if mults.len() - start_m < rows_per_table {
            mults.len()
        } else {
            start_m + rows_per_table
        };
        let vs = &values.as_slice()[start_v..end_v];
        let ms = &mults.as_slice()[start_m..end_m];
        proof {
            assert(vs@ == chunk_of(values@, c, max));
            assert(ms@ == chunk_of(mults@, c, max / 16));
            let m = chunk_of(mults@, c, max / 16);
            assert(kept_rows(m, big_trace_rows(m)).len() <= packed_rows(trace_column_length(m)));
        }
        let trace = gen_single_big_memory_trace(vs, ms);
        traces.push(trace);
        proof {
            assert((c + 1) * max_big_size == c * max_big_size + max_big_size) by (nonlinear_arith);
            assert((c + 1) * rows_per_table == c * rows_per_table + rows_per_table)
                by (nonlinear_arith);
            c = c + 1;
        }
        start_v = end_v;
        start_m = end_m;
    }
    proof {
        lemma_ceil_div(values@.len(), max, c);
        lemma_ceil_div(mults@.len(), max / 16, c);
    }
    traces
}

/// Packed row `r` of two columns, side by side, for every row both have.
pub open spec fn column_pairs(a: Seq<[u32; 16]>, b: Seq<[u32; 16]>) -> Seq<([u32; 16], [u32; 16])> {
    let n = if a.len() < b.len() {
        a.len()
    } else {
        b.len()
    };
    Seq::new(n, |r: int| (a[r], b[r]))
}

/// The range-check inputs that check `g` of `n_checks` gets from the limb
/// columns of one table: the limb columns are taken in pairs `(2p, 2p + 1)`,
/// pair `p` going to check `p % n_checks`, row by row.
pub open spec fn pair_inputs(cols: Seq<BaseColumn>, n_pairs: nat, n_checks: nat, g: nat) -> Seq<
    ([u32; 16], [u32; 16]),
>
    decreases n_pairs,
{
    if n_pairs == 0 {
        Seq::empty()
    } else {
        let p = (n_pairs - 1) as nat;
        pair_inputs(cols, p, n_checks, g) + if p % n_checks == g {
            column_pairs(cols[2 * p as int].data@, cols[2 * p + 1int].data@)
        } else {
            Seq::empty()
        }
    }
}

/// Pairs `n .. m`, none of which goes to check `g`, add nothing.
proof fn lemma_pair_inputs_skip(cols: Seq<BaseColumn>, n: nat, m: nat, k: nat, g: nat)
    requires
        n <= m,
        forall|p: nat| n <= p < m ==> #[trigger] (p % k) != g,
    ensures
        pair_inputs(cols, m, k, g) == pair_inputs(cols, n, k, g),
    decreases m,
{
    if n < m {
        lemma_pair_inputs_skip(cols, n, (m - 1) as nat, k, g);
        assert(((m - 1) as nat) % k != g);
        assert(pair_inputs(cols, m, k, g) =~= pair_inputs(cols, (m - 1) as nat, k, g));
    }
}

/// Law: the range-check inputs from the 28 limb columns of a large-value
/// trace (pair `p` to check `p % 8`): check `g` gets, row by row, the rows of
/// limb columns `2g` and `2g + 1`, and then, for `g < 6`, those of limb
/// columns `2g + 16` and `2g + 17`.
pub proof fn lemma_big_pair_inputs_columns(cols: Seq<BaseColumn>, g: nat)
    requires
        cols.len() >= 28,
        g < 8,
        forall|j: int| 0 <= j < 28 ==> #[trigger] cols[j].data@.len() == cols[0].data@.len(),
    ensures
        ({
            let len = cols[0].data@.len();
            let s = pair_inputs(cols, 14, 8, g);
            &&& s.len() == (if g < 6 {
                2 * len
            } else {
                len
            })
            &&& forall|r: int|
                0 <= r < len ==> #[trigger] s[r] == (
                    cols[2 * g as int].data@[r],
                    cols[2 * g + 1int].data@[r],
                )
            &&& g < 6 ==> forall|r: int|
                0 <= r < len ==> #[trigger] s[len + r] == (
                    cols[2 * g + 16int].data@[r],
                    cols[2 * g + 17int].data@[r],
                )
        }),
{
    let len = cols[0].data@.len();
    let first = column_pairs(cols[2 * g as int].data@, cols[2 * g + 1int].data@);
    assert(cols[2 * g as int].data@.len() == len);
    assert(cols[2 * g + 1int].data@.len() == len);
    assert forall|p: nat| 0 <= p < g implies #[trigger] (p % 8) != g by {}
    lemma_pair_inputs_skip(cols, 0, g, 8, g);
    assert(g % 8 == g);
    assert(pair_inputs(cols, g + 1, 8, g) =~= first);
    if g < 6 {
        let second = column_pairs(cols[2 * g + 16int].data@, cols[2 * g + 17int].data@);
        assert(cols[2 * g + 16int].data@.len() == len);
        assert(cols[2 * g + 17int].data@.len() == len);
        assert forall|p: nat| g + 1 <= p < g + 8 implies #[trigger] (p % 8) != g by {}
        lemma_pair_inputs_skip(cols, g + 1, g + 8, 8, g);
        assert((g + 8) % 8 == g);
        assert(2 * ((g + 8) as nat) == 2 * g + 16);
        assert(pair_inputs(cols, g + 9, 8, g) == first + second);
        assert forall|p: nat| g + 9 <= p < 14 implies #[trigger] (p % 8) != g by {}
        lemma_pair_inputs_skip(cols, g + 9, 14, 8, g);
    } else {
        assert forall|p: nat| g + 1 <= p < 14 implies #[trigger] (p % 8) != g by {}
        lemma_pair_inputs_skip(cols, g + 1, 14, 8, g);
    }
}

/// Law: the range-check inputs from the 8 limb columns of the small-value
/// trace (pair `p` to check `p`): check `g < 4` gets, row by row, the rows of
/// limb columns `2g` and `2g + 1`; checks `4 .. 8` get nothing from it.
pub proof fn lemma_small_pair_inputs_columns(cols: Seq<BaseColumn>, g: nat)
    requires
        cols.len() >= 8,
        forall|j: int| 0 <= j < 8 ==> #[trigger] cols[j].data@.len() == cols[0].data@.len(),
    ensures
        ({
            let len = cols[0].data@.len();
            let s = pair_inputs(cols, 4, 4, g);
            &&& s.len() == (if g < 4 {
                len
            } else {
                0
            })
            &&& g < 4 ==> forall|r: int|
                0 <= r < len ==> #[trigger] s[r] == (
                    cols[2 * g as int].data@[r],
                    cols[2 * g + 1int].data@[r],
                )
        }),
{
    if g < 4 {
        assert(cols[2 * g as int].data@.len() == cols[0].data@.len());
        assert(cols[2 * g + 1int].data@.len() == cols[0].data@.len());
        assert forall|p: nat| 0 <= p < g implies #[trigger] (p % 4) != g by {}
        lemma_pair_inputs_skip(cols, 0, g, 4, g);
        assert(g % 4 == g);
        assert forall|p: nat| g + 1 <= p < 4 implies #[trigger] (p % 4) != g by {}
        lemma_pair_inputs_skip(cols, g + 1, 4, 4, g);
    } else {
        assert forall|p: nat| 0 <= p < 4 implies #[trigger] (p % 4) != g by {}
        lemma_pair_inputs_skip(cols, 0, 4, 4, g);
    }
}

/// Law: the range-check inputs from the 8 limb columns of the
/// relocatable-value trace (every pair to the first check): check 0 gets, row
/// by row, the rows of limb columns 0 and 1, then 2 and 3, 4 and 5, 6 and 7;
/// the other checks get nothing from it.
pub proof fn lemma_relocatable_pair_inputs_columns(cols: Seq<BaseColumn>, g: nat)
    requires
        cols.len() >= 8,
        forall|j: int| 0 <= j < 8 ==> #[trigger] cols[j].data@.len() == cols[0].data@.len(),
    ensures
        ({
            let len = cols[0].data@.len();
            let s = pair_inputs(cols, 4, 1, g);
            &&& s.len() == (if g == 0 {
                4 * len
            } else {
                0
            })
            &&& g == 0 ==> forall|p: int, r: int|
                0 <= p < 4 && 0 <= r < len ==> #[trigger] s[p * len + r] == (
                    cols[2 * p].data@[r],
                    cols[2 * p + 1].data@[r],
                )
        }),
{
    let len = cols[0].data@.len();
    if g == 0 {
        let c0 = column_pairs(cols[0].data@, cols[1].data@);
        let c1 = column_pairs(cols[2].data@, cols[3].data@);
        let c2 = column_pairs(cols[4].data@, cols[5].data@);
        let c3 = column_pairs(cols[6].data@, cols[7].data@);
        assert(cols[1].data@.len() == len);
        assert(cols[2].data@.len() == len);
        assert(cols[3].data@.len() == len);
        assert(cols[4].data@.len() == len);
        assert(cols[5].data@.len() == len);
        assert(cols[6].data@.len() == len);
        assert(cols[7].data@.len() == len);
        reveal_with_fuel(pair_inputs, 5);
        let s = pair_inputs(cols, 4, 1, g);
        assert(s =~= c0 + c1 + c2 + c3);
        assert forall|p: int, r: int| 0 <= p < 4 && 0 <= r < len implies #[trigger] s[p * len + r]
            == (cols[2 * p].data@[r], cols[2 * p + 1].data@[r]) by {
            if p == 0 {
                assert(s[r] == c0[r]);
            } else if p == 1 {
                assert(s[len + r] == c1[r]);
            } else if p == 2 {
                assert(s[2 * len + r] == c2[r]);
            } else {
                assert(s[3 * len + r] == c3[r]);
            }
        }
    } else {
        assert forall|p: nat| 0 <= p < 4 implies #[trigger] (p % 1) != g by {}
        lemma_pair_inputs_skip(cols, 0, 4, 1, g);
    }
}

/// The range-check inputs that check `g` gets from the first `n` large-value
/// tables (14 limb pairs each, over 8 checks).
pub open spec fn big_pair_inputs(traces: Seq<Vec<BaseColumn>>, n: nat, g: nat) -> Seq<
    ([u32; 16], [u32; 16]),
>
    decreases n,
{
    if n == 0 {
        Seq::empty()
    } else {
        big_pair_inputs(traces, (n - 1) as nat, g) + pair_inputs(
            traces[n - 1]@,
            (N_M31_IN_FELT252 / 2) as nat,
            8,
            g,
        )
    }
}

/// Whether every lane of every limb column `0 .. n_limbs` is below `2^9`.
pub open spec fn limbs_are_9_bit(cols: Seq<BaseColumn>, n_limbs: nat) -> bool {
    forall|j: int, i: int, l: int|
        0 <= j < n_limbs && 0 <= i < cols[j].data@.len() && 0 <= l < 16
            ==> #[trigger] cols[j].data@[i][l] < 512
}

/// Whether every lane of every pair is below `2^9`.
pub open spec fn pairs_are_9_bit(s: Seq<([u32; 16], [u32; 16])>) -> bool {
    forall|q: int, l: int| 0 <= q < s.len() && 0 <= l < 16 ==> #[trigger] s[q].0[l] < 512 && s[q].1[l] < 512
}

/// The limb columns of a table trace hold 9-bit values.
pub proof fn lemma_table_trace_9_bit(
    cols: Seq<BaseColumn>,
    words_of: spec_fn(int) -> Seq<u32>,
    mults: Seq<[u32; 16]>,
    n_rows: nat,
    n_limbs: nat,
    column_length: nat,
    value_length: nat,
)
    requires
        is_table_trace(cols, words_of, mults, n_rows, n_limbs, column_length, value_length),
    ensures
        limbs_are_9_bit(cols, n_limbs),
{
    let kept = kept_rows(mults, n_rows);
    assert forall|j: int, i: int, l: int|
        0 <= j < n_limbs && 0 <= i < cols[j].data@.len() && 0 <= l < 16 implies #[trigger] cols[j].data@[i][l]
        < 512 by {
        assert(cols[j].length == value_length);
        assert(cols[j].data@.len() == packed_rows(value_length));
        if i < kept.len() {
            assert(felt_limb(words_of(16 * kept[i] + l), j as nat) < 512);
        }
    }
}

/// Pairs of 9-bit limb columns are 9-bit.
pub proof fn lemma_pair_inputs_9_bit(cols: Seq<BaseColumn>, n_pairs: nat, n_checks: nat, g: nat)
    requires
        limbs_are_9_bit(cols, 2 * n_pairs),
        cols.len() >= 2 * n_pairs,
    ensures
        pairs_are_9_bit(pair_inputs(cols, n_pairs, n_checks, g)),
    decreases n_pairs,
{
    if n_pairs > 0 {
        let p = (n_pairs - 1) as nat;
        lemma_pair_inputs_9_bit(cols, p, n_checks, g);
        let a = pair_inputs(cols, p, n_checks, g);
        let b = if p % n_checks == g {
            column_pairs(cols[2 * p as int].data@, cols[2 * p + 1int].data@)
        } else {
            Seq::empty()
        };
        assert forall|q: int, l: int| 0 <= q < (a + b).len() && 0 <= l < 16 implies #[trigger] (a
            + b)[q].0[l] < 512 && (a + b)[q].1[l] < 512 by {
            if q >= a.len() {
                let r = q - a.len();
                assert((a + b)[q] == b[r]);
                assert(cols[2 * p as int].data@[r][l] < 512);
                assert(cols[2 * p + 1int].data@[r][l] < 512);
            }
        }
    }
}

/// Appends the pairs of rows of columns `a` and `b` to `out`.
fn push_column_pairs(out: &mut Vec<([u32; 16], [u32; 16])>, a: &Vec<[u32; 16]>, b: &Vec<[u32; 16]>)
    ensures
        final(out)@ == old(out)@ + column_pairs(a@, b@),
{
    let n = if a.len() < b.len() {
        a.len()
    } else {
        b.len()
    };
    let ghost start = out@;
    let mut r: usize = 0;
    while r < n
        invariant
            n == column_pairs(a@, b@).len(),
            r <= n,
            out@ == start + column_pairs(a@, b@).take(r as int),
        decreases n - r,
    {
        out.push((a[r], b[r]));
        assert(column_pairs(a@, b@).take(r + 1) =~= column_pairs(a@, b@).take(r as int).push(
            (a@[r as int], b@[r as int]),
        ));
        r = r + 1;
    }
    assert(column_pairs(a@, b@).take(n as int) =~= column_pairs(a@, b@));
}

/// Appends the range-check inputs of check `g` from one table's limb columns.
pub(crate) fn push_pair_inputs(
    out: &mut Vec<([u32; 16], [u32; 16])>,
    cols: &Vec<BaseColumn>,
    n_pairs: usize,
    n_checks: usize,
    g: usize,
)
    requires
        cols@.len() >= 2 * n_pairs,
        n_pairs <= 14,
        n_checks > 0,
    ensures
        final(out)@ == old(out)@ + pair_inputs(cols@, n_pairs as nat, n_checks as nat, g as nat),
{
    let ghost start = out@;
    let mut p: usize = 0;
    while p < n_pairs
        invariant
            p <= n_pairs,
            cols@.len() >= 2 * n_pairs,
            n_pairs <= 14,
            n_checks > 0,
            out@ == start + pair_inputs(cols@, p as nat, n_checks as nat, g as nat),
        decreases n_pairs - p,
    {
        let ghost before = out@;
        if p % n_checks == g {
            push_column_pairs(out, &cols[2 * p].data, &cols[2 * p + 1].data);
        }
        proof {
            let rest = if p % n_checks == g {
                column_pairs(cols@[2 * p as int].data@, cols@[2 * p + 1].data@)
            } else {
                Seq::empty()
            };
            assert(out@ == before + rest);
            assert(pair_inputs(cols@, (p + 1) as nat, n_checks as nat, g as nat) == pair_inputs(
                cols@,
                p as nat,
                n_checks as nat,
                g as nat,
            ) + rest);
            assert(out@ =~= start + pair_inputs(cols@, (p + 1) as nat, n_checks as nat, g as nat));
        }
        p = p + 1;
    }
}

} // verus!
