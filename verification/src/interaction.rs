//! The lookups of the interaction trace: which tuples each table looks up
//! in which relation, and with which weight. The limbs are looked up in
//! pairs in the 9-bit range checks (weight one), and each table yields its
//! `(id, limbs)` tuples to the id -> value relation (weight minus the
//! multiplicity).
use crate::arith::{ilog2, lemma_pow2_floor, pow2_floor};
use crate::claim::InteractionClaimGenerator;
use crate::memory::{LARGE_MEMORY_VALUE_ID_BASE, P, RELOCATABLE_ID_BASE};
use vstd::arithmetic::power2::{lemma2_to64, lemma_pow2_adds, pow2};
use vstd::prelude::*;

verus! {

/// The relations that the memory tables take part in.
#[derive(Clone, Copy, Debug, PartialEq, Eq, Structural)]
pub enum Relation {
    MemoryIdToBig,
    RangeCheck99,
    RangeCheck99B,
    RangeCheck99C,
    RangeCheck99D,
    RangeCheck99E,
    RangeCheck99F,
    RangeCheck99G,
    RangeCheck99H,
}

/// The `k`-th of the eight 9-bit-pair range checks.
pub open spec fn range_check(k: int) -> Relation {
    if k == 0 {
        Relation::RangeCheck99
    } else if k == 1 {
        Relation::RangeCheck99B
    } else if k == 2 {
        Relation::RangeCheck99C
    } else if k == 3 {
        Relation::RangeCheck99D
    } else if k == 4 {
        Relation::RangeCheck99E
    } else if k == 5 {
        Relation::RangeCheck99F
    } else if k == 6 {
        Relation::RangeCheck99G
    } else {
        Relation::RangeCheck99H
    }
}

/// The `k`-th of the eight 9-bit-pair range checks.
fn range_check_relation(k: usize) -> (r: Relation)
    requires
        k < 8,
    ensures
        r == range_check(k as int),
{
    if k == 0 {
        Relation::RangeCheck99
    } else if k == 1 {
        Relation::RangeCheck99B
    } else if k == 2 {
        Relation::RangeCheck99C
    } else if k == 3 {
        Relation::RangeCheck99D
    } else if k == 4 {
        Relation::RangeCheck99E
    } else if k == 5 {
        Relation::RangeCheck99F
    } else if k == 6 {
        Relation::RangeCheck99G
    } else {
        Relation::RangeCheck99H
    }
}

/// Addition in M31.
pub open spec fn m31_add(a: u32, b: u32) -> u32 {
    ((a + b) % (P as int)) as u32
}

/// Negation in M31.
pub open spec fn m31_neg(a: u32) -> u32 {
    ((P - a) % (P as int)) as u32
}

/// Addition of two M31 values.
fn add_m31(a: u32, b: u32) -> (c: u32)
    requires
        a < P,
        b < P,
    ensures
        c == m31_add(a, b),
        c < P,
{
    let s = a + b;
    if s >= P {
        s - P
    } else {
        s
    }
}

/// Negation of an M31 value.
fn neg_m31(a: u32) -> (c: u32)
    requires
        a < P,
    ensures
        c == m31_neg(a),
        c < P,
{
    if a == 0 {
        0
    } else {
        P - a
    }
}

/// One lookup column: in packed row `r`, the tuple of `values[k][r]` is
/// looked up in `relation` with weight `numerators[r]`.
pub struct LookupColumn {
    pub relation: Relation,
    pub values: Vec<Vec<[u32; 16]>>,
    pub numerators: Vec<[u32; 16]>,
}

/// The lookups of one table, and the log size of its interaction trace.
pub struct TableLookups {
    pub log_size: u32,
    pub columns: Vec<LookupColumn>,
}

/// The lookups of all tables.
pub struct InteractionLookups {
    pub big: Vec<TableLookups>,
    pub small: TableLookups,
    pub relocatable: TableLookups,
}

/// `col` looks up, in each of `rows` packed rows, the pair of rows of `a`
/// and `b` in `relation`, with weight one.
pub open spec fn is_pair_lookup(
    col: LookupColumn,
    relation: Relation,
    a: Seq<[u32; 16]>,
    b: Seq<[u32; 16]>,
    rows: nat,
) -> bool {
    &&& col.relation == relation
    &&& col.values@.len() == 2
    &&& col.values@[0]@ == a.take(rows as int)
    &&& col.values@[1]@ == b.take(rows as int)
    &&& col.numerators@.len() == rows
    &&& forall|r: int, y: int| 0 <= r < rows && 0 <= y < 16 ==> #[trigger] col.numerators@[r][y] == 1
}

/// `col` yields, in each of `rows` packed rows, the tuple of the id
/// `id_of(ids[r])` and the `n_limbs` limbs of row `r`, to the id -> value
/// relation with weight minus the multiplicity.
pub open spec fn is_yield_lookup(
    col: LookupColumn,
    ids: Seq<[u32; 16]>,
    id_of: spec_fn(u32) -> u32,
    limbs: Seq<Vec<[u32; 16]>>,
    n_limbs: nat,
    mults: Seq<[u32; 16]>,
    rows: nat,
) -> bool {
    &&& col.relation == Relation::MemoryIdToBig
    &&& col.values@.len() == n_limbs + 1
    &&& col.values@[0]@.len() == rows
    &&& forall|r: int, y: int|
        0 <= r < rows && 0 <= y < 16 ==> #[trigger] col.values@[0]@[r][y] == id_of(ids[r][y])
    &&& forall|k: int| 0 <= k < n_limbs ==> #[trigger] col.values@[k + 1]@ == limbs[k]@.take(rows as int)
    &&& col.numerators@.len() == rows
    &&& forall|r: int, y: int|
        0 <= r < rows && 0 <= y < 16 ==> #[trigger] col.numerators@[r][y] == m31_neg(mults[r][y])
}

/// Whether every lane of the first `rows` packed rows is an M31 value.
pub open spec fn rows_are_m31(s: Seq<[u32; 16]>, rows: nat) -> bool {
    forall|r: int, y: int| 0 <= r < rows && 0 <= y < 16 ==> #[trigger] s[r][y] < P
}

/// The first `n` rows of `v`.
fn take_rows(v: &Vec<[u32; 16]>, n: usize) -> (r: Vec<[u32; 16]>)
    requires
        n <= v@.len(),
    ensures
        r@ == v@.take(n as int),
{
    let mut r: Vec<[u32; 16]> = Vec::new();
    let mut i: usize = 0;
    while i < n
        invariant
            i <= n <= v@.len(),
            r@ == v@.take(i as int),
        decreases n - i,
    {
        r.push(v[i]);
        assert(v@.take(i + 1) =~= v@.take(i as int).push(v@[i as int]));
        i = i + 1;
    }
    r
}

/// `rows` packed rows of ones.
fn ones(rows: usize) -> (r: Vec<[u32; 16]>)
    ensures
        r@.len() == rows,
        forall|i: int, y: int| 0 <= i < rows && 0 <= y < 16 ==> #[trigger] r@[i][y] == 1,
{
    let mut r: Vec<[u32; 16]> = Vec::new();
    let mut i: usize = 0;
    while i < rows
        invariant
            i <= rows,
            r@.len() == i,
            forall|a: int, y: int| 0 <= a < i && 0 <= y < 16 ==> #[trigger] r@[a][y] == 1,
        decreases rows - i,
    {
        r.push([1u32; 16]);
        i = i + 1;
    }
    r
}

/// The lookup of the pairs of rows of `a` and `b` in `relation`.
fn pair_lookup(relation: Relation, a: &Vec<[u32; 16]>, b: &Vec<[u32; 16]>, rows: usize) -> (col:
    LookupColumn)
    requires
        rows <= a@.len(),
        rows <= b@.len(),
    ensures
        is_pair_lookup(col, relation, a@, b@, rows as nat),
{
    let mut values: Vec<Vec<[u32; 16]>> = Vec::new();
    values.push(take_rows(a, rows));
    values.push(take_rows(b, rows));
    LookupColumn { relation, values, numerators: ones(rows) }
}

/// The yield column of a table: ids with `tag` and then `offset` added (in
/// M31), the limbs, and minus the multiplicities.
fn yield_lookup(
    ids: &Vec<[u32; 16]>,
    tag: u32,
    offset: u32,
    limbs: &Vec<Vec<[u32; 16]>>,
    n_limbs: usize,
    mults: &Vec<[u32; 16]>,
    rows: usize,
) -> (col: LookupColumn)
    requires
        tag < P,
        offset < P,
        n_limbs <= limbs@.len(),
        forall|k: int| 0 <= k < n_limbs ==> rows <= #[trigger] limbs@[k]@.len(),
        rows <= ids@.len(),
        rows <= mults@.len(),
        rows_are_m31(ids@, rows as nat),
        rows_are_m31(mults@, rows as nat),
    ensures
        is_yield_lookup(
            col,
            ids@,
            |x: u32| m31_add(m31_add(x, tag), offset),
            limbs@,
            n_limbs as nat,
            mults@,
            rows as nat,
        ),
{
    let mut id_col: Vec<[u32; 16]> = Vec::new();
    let mut nums: Vec<[u32; 16]> = Vec::new();
    let mut r: usize = 0;
    while r < rows
        invariant
            r <= rows <= ids@.len(),
            rows <= mults@.len(),
            tag < P,
            offset < P,
            rows_are_m31(ids@, rows as nat),
            rows_are_m31(mults@, rows as nat),
            id_col@.len() == r,
            nums@.len() == r,
            forall|a: int, y: int|
                0 <= a < r && 0 <= y < 16 ==> #[trigger] id_col@[a][y] == m31_add(
                    m31_add(ids@[a][y], tag),
                    offset,
                ),
            forall|a: int, y: int|
                0 <= a < r && 0 <= y < 16 ==> #[trigger] nums@[a][y] == m31_neg(mults@[a][y]),
        decreases rows - r,
    {
        let id_row = ids[r];
        let m_row = mults[r];
        let mut out_id = [0u32; 16];
        let mut out_m = [0u32; 16];
        let mut y: usize = 0;
        while y < 16
            invariant
                y <= 16,
                r < rows,
                tag < P,
                offset < P,
                id_row == ids@[r as int],
                m_row == mults@[r as int],
                rows_are_m31(ids@, rows as nat),
                rows_are_m31(mults@, rows as nat),
                forall|b: int|
                    0 <= b < y ==> #[trigger] out_id[b] == m31_add(m31_add(id_row[b], tag), offset),
                forall|b: int| 0 <= b < y ==> #[trigger] out_m[b] == m31_neg(m_row[b]),
            decreases 16 - y,
        {
            assert(ids@[r as int][y as int] < P);
            assert(mults@[r as int][y as int] < P);
            let t = add_m31(id_row[y], tag);
            out_id[y] = add_m31(t, offset);
            out_m[y] = neg_m31(m_row[y]);
            y = y + 1;
        }
        id_col.push(out_id);
        nums.push(out_m);
        r = r + 1;
    }
    let mut values: Vec<Vec<[u32; 16]>> = Vec::new();
    values.push(id_col);
    let mut k: usize = 0;
    while k < n_limbs
        invariant
            k <= n_limbs <= limbs@.len(),
            forall|j: int| 0 <= j < n_limbs ==> rows <= #[trigger] limbs@[j]@.len(),
            values@.len() == k + 1,
            values@[0]@.len() == rows,
            forall|a: int, y: int|
                0 <= a < rows && 0 <= y < 16 ==> #[trigger] values@[0]@[a][y] == m31_add(
                    m31_add(ids@[a][y], tag),
                    offset,
                ),
            forall|j: int| 0 <= j < k ==> #[trigger] values@[j + 1]@ == limbs@[j]@.take(rows as int),
        decreases n_limbs - k,
    {
        assert(rows <= limbs@[k as int]@.len());
        values.push(take_rows(&limbs[k], rows));
        k = k + 1;
    }
    LookupColumn { relation: Relation::MemoryIdToBig, values, numerators: nums }
}

/// The log size of a table's interaction trace: `log2` of its packed rows,
/// plus 4; the lookups cover `2^(log_size - 4)` packed rows.
fn lookup_rows(len: usize) -> (r: (u32, usize))
    requires
        len >= 1,
    ensures
        r.0 >= 4,
        pow2((r.0 - 4) as nat) <= len < pow2((r.0 - 3) as nat),
        r.1 == pow2((r.0 - 4) as nat),
        r.1 == pow2_floor(len as nat),
        r.1 <= len,
{
    let l = ilog2(len);
    proof {
        lemma_pow2_floor(len as nat, l as nat);
        vstd::bits::lemma_usize_pow2_no_overflow(l as nat);
        vstd::bits::lemma_usize_shl_is_mul(1, l as usize);
    }
    let rows = 1usize << (l as usize);
    (l + 4, rows)
}

/// Whether the columns of a large-value table can be looked up: 28 limb
/// columns as long as the multiplicities (at least one row), enough ids,
/// and ids and multiplicities that are M31 values.
pub open spec fn big_table_ready(
    limbs: Seq<Vec<[u32; 16]>>,
    ids: Seq<[u32; 16]>,
    mults: Seq<[u32; 16]>,
) -> bool {
    &&& limbs.len() == 28
    &&& mults.len() >= 1
    &&& forall|k: int| 0 <= k < 28 ==> #[trigger] limbs[k]@.len() == mults.len()
    &&& ids.len() >= pow2_floor(mults.len())
    &&& rows_are_m31(ids, pow2_floor(mults.len()))
    &&& rows_are_m31(mults, pow2_floor(mults.len()))
}

/// `t` holds the lookups of a large-value table with the given columns,
/// whose ids start at `offset` within the large-value table.
pub open spec fn is_big_table_lookups(
    t: TableLookups,
    limbs: Seq<Vec<[u32; 16]>>,
    ids: Seq<[u32; 16]>,
    mults: Seq<[u32; 16]>,
    offset: u32,
) -> bool {
    let rows = pow2_floor(limbs[0]@.len());
    &&& t.log_size >= 4
    &&& pow2((t.log_size - 4) as nat) == rows
    &&& t.columns@.len() == 15
    &&& forall|i: int|
        0 <= i < 7 ==> is_pair_lookup(
            #[trigger] t.columns@[2 * i],
            range_check(2 * (i % 4)),
            limbs[4 * i]@,
            limbs[4 * i + 1]@,
            rows,
        ) && is_pair_lookup(
            t.columns@[2 * i + 1],
            range_check(2 * (i % 4) + 1),
            limbs[4 * i + 2]@,
            limbs[4 * i + 3]@,
            rows,
        )
    &&& is_yield_lookup(
        t.columns@[14],
        ids,
        |x: u32| m31_add(m31_add(x, LARGE_MEMORY_VALUE_ID_BASE), offset),
        limbs,
        28,
        mults,
        rows,
    )
}

/// The lookups of a large-value table: its 28 limbs in pairs, limbs
/// `4i, 4i+1` and `4i+2, 4i+3` going to range checks `2(i % 4)` and
/// `2(i % 4) + 1`, and its `(id, limbs)` tuples yielded with ids tagged as
/// large values and shifted by `offset`.
pub fn gen_big_memory_interaction_lookups(
    limbs: &Vec<Vec<[u32; 16]>>,
    ids: &Vec<[u32; 16]>,
    mults: &Vec<[u32; 16]>,
    offset: u32,
) -> (t: TableLookups)
    requires
        big_table_ready(limbs@, ids@, mults@),
        offset < P,
    ensures
        is_big_table_lookups(t, limbs@, ids@, mults@, offset),
{
    let (log_size, rows) = lookup_rows(limbs[0].len());
    let mut columns: Vec<LookupColumn> = Vec::new();
    let mut i: usize = 0;
    while i < 7
        invariant
            i <= 7,
            big_table_ready(limbs@, ids@, mults@),
            rows == pow2_floor(limbs@[0]@.len()),
            rows <= limbs@[0]@.len(),
            columns@.len() == 2 * i,
            forall|a: int|
                0 <= a < i ==> is_pair_lookup(
                    #[trigger] columns@[2 * a],
                    range_check(2 * (a % 4)),
                    limbs@[4 * a]@,
                    limbs@[4 * a + 1]@,
                    rows as nat,
                ) && is_pair_lookup(
                    columns@[2 * a + 1],
                    range_check(2 * (a % 4) + 1),
                    limbs@[4 * a + 2]@,
                    limbs@[4 * a + 3]@,
                    rows as nat,
                ),
        decreases 7 - i,
    {
        assert(limbs@[4 * i as int]@.len() == mults@.len());
        assert(limbs@[4 * i + 1]@.len() == mults@.len());
        assert(limbs@[4 * i + 2]@.len() == mults@.len());
        assert(limbs@[4 * i + 3]@.len() == mults@.len());
        assert(limbs@[0]@.len() == mults@.len());
        let c0 = pair_lookup(
            range_check_relation(2 * (i % 4)),
            &limbs[4 * i],
            &limbs[4 * i + 1],
            rows,
        );
        let c1 = pair_lookup(
            range_check_relation(2 * (i % 4) + 1),
            &limbs[4 * i + 2],
            &limbs[4 * i + 3],
            rows,
        );
        columns.push(c0);
        columns.push(c1);
        proof {
            assert(columns@[2 * i as int] == c0);
            assert(columns@[2 * i + 1] == c1);
        }
        i = i + 1;
    }
    proof {
        assert(limbs@[0]@.len() == mults@.len());
        assert forall|k: int| 0 <= k < 28 implies rows <= #[trigger] limbs@[k]@.len() by {
            assert(limbs@[k]@.len() == mults@.len());
        }
    }
    let y = yield_lookup(ids, LARGE_MEMORY_VALUE_ID_BASE, offset, limbs, 28, mults, rows);
    let ghost before = columns@;
    columns.push(y);
    proof {
        assert forall|a: int| 0 <= a < 7 implies is_pair_lookup(
            #[trigger] columns@[2 * a],
            range_check(2 * (a % 4)),
            limbs@[4 * a]@,
            limbs@[4 * a + 1]@,
            rows as nat,
        ) && is_pair_lookup(
            columns@[2 * a + 1],
            range_check(2 * (a % 4) + 1),
            limbs@[4 * a + 2]@,
            limbs@[4 * a + 3]@,
            rows as nat,
        ) by {
            assert(columns@[2 * a] == before[2 * a]);
            assert(columns@[2 * a + 1] == before[2 * a + 1]);
        }
    }
    TableLookups { log_size, columns }
}

/// Whether the columns of a small or relocatable table can be looked up:
/// 8 limb columns, the first not empty, and every limb column, the ids and
/// the multiplicities covering the looked-up rows, with M31 ids and
/// multiplicities.
pub open spec fn short_table_ready(
    limbs: Seq<Vec<[u32; 16]>>,
    ids: Seq<[u32; 16]>,
    mults: Seq<[u32; 16]>,
) -> bool {
    let rows = pow2_floor(limbs[0]@.len());
    &&& limbs.len() == 8
    &&& limbs[0]@.len() >= 1
    &&& forall|k: int| 0 <= k < 8 ==> rows <= #[trigger] limbs[k]@.len()
    &&& ids.len() >= rows
    &&& mults.len() >= rows
    &&& rows_are_m31(ids, rows)
    &&& rows_are_m31(mults, rows)
}

/// `t` holds the lookups of a small or relocatable table: limb pairs
/// `2i, 2i+1` going to range check `check_of(i)`, and the `(id_of(id), limbs)`
/// tuples yielded.
pub open spec fn is_short_table_lookups(
    t: TableLookups,
    limbs: Seq<Vec<[u32; 16]>>,
    ids: Seq<[u32; 16]>,
    mults: Seq<[u32; 16]>,
    check_of: spec_fn(int) -> Relation,
    id_of: spec_fn(u32) -> u32,
) -> bool {
    let rows = pow2_floor(limbs[0]@.len());
    &&& t.log_size >= 4
    &&& pow2((t.log_size - 4) as nat) == rows
    &&& t.columns@.len() == 5
    &&& forall|i: int|
        0 <= i < 4 ==> is_pair_lookup(
            #[trigger] t.columns@[i],
            check_of(i),
            limbs[2 * i]@,
            limbs[2 * i + 1]@,
            rows,
        )
    &&& is_yield_lookup(t.columns@[4], ids, id_of, limbs, 8, mults, rows)
}

/// Law: the relations a large-value table looks up in. Columns `2i` and
/// `2i + 1` (limbs `4i, 4i + 1` and `4i + 2, 4i + 3`) go to range checks
/// `(2i) % 8` and `(2i + 1) % 8`, the checks that `write_trace` hands limb
/// pairs `2i` and `2i + 1` to: 99, 99B, ..., 99H, then 99 to 99F again;
/// the last column yields to the id -> value relation.
pub proof fn lemma_big_lookup_relations(
    t: TableLookups,
    limbs: Seq<Vec<[u32; 16]>>,
    ids: Seq<[u32; 16]>,
    mults: Seq<[u32; 16]>,
    offset: u32,
)
    requires
        is_big_table_lookups(t, limbs, ids, mults, offset),
    ensures
        t.columns@.len() == 15,
        t.columns@[0].relation == Relation::RangeCheck99,
        t.columns@[1].relation == Relation::RangeCheck99B,
        t.columns@[2].relation == Relation::RangeCheck99C,
        t.columns@[3].relation == Relation::RangeCheck99D,
        t.columns@[4].relation == Relation::RangeCheck99E,
        t.columns@[5].relation == Relation::RangeCheck99F,
        t.columns@[6].relation == Relation::RangeCheck99G,
        t.columns@[7].relation == Relation::RangeCheck99H,
        t.columns@[8].relation == Relation::RangeCheck99,
        t.columns@[9].relation == Relation::RangeCheck99B,
        t.columns@[10].relation == Relation::RangeCheck99C,
        t.columns@[11].relation == Relation::RangeCheck99D,
        t.columns@[12].relation == Relation::RangeCheck99E,
        t.columns@[13].relation == Relation::RangeCheck99F,
        t.columns@[14].relation == Relation::MemoryIdToBig,
{
    let c = t.columns@;
    assert(c[2 * 0int].relation == range_check(2 * (0int % 4)));
    assert(c[2 * 1int].relation == range_check(2 * (1int % 4)));
    assert(c[2 * 2int].relation == range_check(2 * (2int % 4)));
    assert(c[2 * 3int].relation == range_check(2 * (3int % 4)));
    assert(c[2 * 4int].relation == range_check(2 * (4int % 4)));
    assert(c[2 * 5int].relation == range_check(2 * (5int % 4)));
    assert(c[2 * 6int].relation == range_check(2 * (6int % 4)));
}

/// Law: the relations the small-value table looks up in: its limb pairs
/// `0 .. 4` go to range checks 99, 99B, 99C and 99D, and its last column
/// yields to the id -> value relation.
pub proof fn lemma_small_lookup_relations(
    t: TableLookups,
    limbs: Seq<Vec<[u32; 16]>>,
    ids: Seq<[u32; 16]>,
    mults: Seq<[u32; 16]>,
)
    requires
        is_short_table_lookups(t, limbs, ids, mults, |i: int| range_check(i), |x: u32| x),
    ensures
        t.columns@.len() == 5,
        t.columns@[0].relation == Relation::RangeCheck99,
        t.columns@[1].relation == Relation::RangeCheck99B,
        t.columns@[2].relation == Relation::RangeCheck99C,
        t.columns@[3].relation == Relation::RangeCheck99D,
        t.columns@[4].relation == Relation::MemoryIdToBig,
{
    let c = t.columns@;
    assert(c[0].relation == range_check(0));
    assert(c[1].relation == range_check(1));
    assert(c[2].relation == range_check(2));
    assert(c[3].relation == range_check(3));
}

/// Law: the relocatable-value table looks up all its limb pairs in range
/// check 99, and its last column yields to the id -> value relation.
pub proof fn lemma_relocatable_lookup_relations(
    t: TableLookups,
    limbs: Seq<Vec<[u32; 16]>>,
    ids: Seq<[u32; 16]>,
    mults: Seq<[u32; 16]>,
)
    requires
        is_short_table_lookups(
            t,
            limbs,
            ids,
            mults,
            |i: int| range_check(0),
            |x: u32| m31_add(x, RELOCATABLE_ID_BASE),
        ),
    ensures
        t.columns@.len() == 5,
        t.columns@[0].relation == Relation::RangeCheck99,
        t.columns@[1].relation == Relation::RangeCheck99,
        t.columns@[2].relation == Relation::RangeCheck99,
        t.columns@[3].relation == Relation::RangeCheck99,
        t.columns@[4].relation == Relation::MemoryIdToBig,
{
    let c = t.columns@;
    assert(c[0].relation == range_check(0));
    assert(c[1].relation == range_check(0));
    assert(c[2].relation == range_check(0));
    assert(c[3].relation == range_check(0));
}

/// The range check of limb pair `i`: the first one for all pairs, or check `i`.
pub open spec fn check_for(all_to_first: bool, i: int) -> Relation {
    if all_to_first {
        range_check(0)
    } else {
        range_check(i)
    }
}

/// The lookups of a small or relocatable table; the ids get `tag` added.
fn short_table_lookups(
    limbs: &Vec<Vec<[u32; 16]>>,
    ids: &Vec<[u32; 16]>,
    mults: &Vec<[u32; 16]>,
    tag: u32,
    all_to_first_check: bool,
) -> (t: TableLookups)
    requires
        short_table_ready(limbs@, ids@, mults@),
        tag < P,
    ensures
        is_short_table_lookups(
            t,
            limbs@,
            ids@,
            mults@,
            |i: int| check_for(all_to_first_check, i),
            |x: u32| m31_add(m31_add(x, tag), 0),
        ),
{
    let (log_size, rows) = lookup_rows(limbs[0].len());
    let mut columns: Vec<LookupColumn> = Vec::new();
    let mut i: usize = 0;
    while i < 4
        invariant
            i <= 4,
            short_table_ready(limbs@, ids@, mults@),
            rows == pow2_floor(limbs@[0]@.len()),
            columns@.len() == i,
            forall|a: int|
                0 <= a < i ==> is_pair_lookup(
                    #[trigger] columns@[a],
                    check_for(all_to_first_check, a),
                    limbs@[2 * a]@,
                    limbs@[2 * a + 1]@,
                    rows as nat,
                ),
        decreases 4 - i,
    {
        assert(rows <= limbs@[2 * i as int]@.len());
        assert(rows <= limbs@[2 * i + 1]@.len());
        let relation = if all_to_first_check {
            range_check_relation(0)
        } else {
            range_check_relation(i)
        };
        assert(relation == check_for(all_to_first_check, i as int));
        let c = pair_lookup(relation, &limbs[2 * i], &limbs[2 * i + 1], rows);
        let ghost prev = columns@;
        columns.push(c);
        proof {
            assert forall|a: int| 0 <= a < i + 1 implies is_pair_lookup(
                #[trigger] columns@[a],
                check_for(all_to_first_check, a),
                limbs@[2 * a]@,
                limbs@[2 * a + 1]@,
                rows as nat,
            ) by {
                if a < i {
                    assert(columns@[a] == prev[a]);
                }
            }
        }
        i = i + 1;
    }
    let y = yield_lookup(ids, tag, 0, limbs, 8, mults, rows);
    let ghost before = columns@;
    columns.push(y);
    proof {
        assert forall|a: int| 0 <= a < 4 implies is_pair_lookup(
            #[trigger] columns@[a],
            check_for(all_to_first_check, a),
            limbs@[2 * a]@,
            limbs@[2 * a + 1]@,
            rows as nat,
        ) by {
            assert(columns@[a] == before[a]);
        }
    }
    TableLookups { log_size, columns }
}

/// Adding zero keeps an M31 value.
proof fn lemma_m31_add_zero(x: u32)
    requires
        x < P,
    ensures
        m31_add(x, 0) == x,
{
}

/// The lookups of the small-value table: limb pairs `2i, 2i+1` go to range
/// check `i`, and the `(id, limbs)` tuples are yielded with the ids as they are.
pub fn gen_small_memory_interaction_lookups(
    limbs: &Vec<Vec<[u32; 16]>>,
    ids: &Vec<[u32; 16]>,
    mults: &Vec<[u32; 16]>,
) -> (t: TableLookups)
    requires
        short_table_ready(limbs@, ids@, mults@),
    ensures
        is_short_table_lookups(
            t,
            limbs@,
            ids@,
            mults@,
            |i: int| range_check(i),
            |x: u32| x,
        ),
{
    let t = short_table_lookups(limbs, ids, mults, 0, false);
    proof {
        let rows = pow2_floor(limbs@[0]@.len());
        let col = t.columns@[4];
        assert forall|r: int, y: int| 0 <= r < rows && 0 <= y < 16 implies #[trigger] col.values@[0]@[r][y]
            == ids@[r][y] by {
            assert(ids@[r][y] < P);
            lemma_m31_add_zero(ids@[r][y]);
        }
        assert forall|i: int| 0 <= i < 4 implies is_pair_lookup(
            #[trigger] t.columns@[i],
            range_check(i),
            limbs@[2 * i]@,
            limbs@[2 * i + 1]@,
            rows,
        ) by {
        }
    }
    t
}

/// The lookups of the relocatable-value table: all limb pairs go to the
/// first range check, and the `(id, limbs)` tuples are yielded with the ids
/// tagged as relocatable.
pub fn gen_relocatable_memory_interaction_lookups(
    limbs: &Vec<Vec<[u32; 16]>>,
    ids: &Vec<[u32; 16]>,
    mults: &Vec<[u32; 16]>,
) -> (t: TableLookups)
    requires
        short_table_ready(limbs@, ids@, mults@),
    ensures
        is_short_table_lookups(
            t,
            limbs@,
            ids@,
            mults@,
            |i: int| range_check(0),
            |x: u32| m31_add(x, RELOCATABLE_ID_BASE),
        ),
{
    let t = short_table_lookups(limbs, ids, mults, RELOCATABLE_ID_BASE, true);
    proof {
        let rows = pow2_floor(limbs@[0]@.len());
        let col = t.columns@[4];
        assert forall|r: int, y: int| 0 <= r < rows && 0 <= y < 16 implies #[trigger] col.values@[0]@[r][y]
            == m31_add(ids@[r][y], RELOCATABLE_ID_BASE) by {
            lemma_m31_add_zero(m31_add(ids@[r][y], RELOCATABLE_ID_BASE));
        }
        assert forall|i: int| 0 <= i < 4 implies is_pair_lookup(
            #[trigger] t.columns@[i],
            range_check(0),
            limbs@[2 * i]@,
            limbs@[2 * i + 1]@,
            rows,
        ) by {
        }
    }
    t
}

/// Where the ids of large-value table `t` start: the sizes of the earlier
/// tables, counted as 16 values per multiplicity row.
pub open spec fn big_offset(mults: Seq<Vec<[u32; 16]>>, t: nat) -> nat
    decreases t,
{
    if t == 0 {
        0
    } else {
        big_offset(mults, (t - 1) as nat) + mults[t - 1]@.len() * 16
    }
}

impl InteractionClaimGenerator {
    /// Whether the columns can be looked up (see `big_table_ready` and
    /// `short_table_ready`), with table offsets that fit in `u32` and are
    /// M31 values where they are used.
    pub open spec fn ready(&self) -> bool {
        let n = self.big_components_values@.len();
        &&& self.big_ids@.len() == n
        &&& self.big_multiplicities@.len() == n
        &&& forall|t: int|
            0 <= t < n ==> big_table_ready(
                #[trigger] self.big_components_values@[t]@,
                self.big_ids@[t]@,
                self.big_multiplicities@[t]@,
            )
        &&& big_offset(self.big_multiplicities@, n) <= u32::MAX
        &&& forall|t: nat| t < n ==> #[trigger] big_offset(self.big_multiplicities@, t) < P
        &&& short_table_ready(
            self.small_values@,
            self.small_ids@,
            self.small_multiplicities@,
        )
        &&& short_table_ready(
            self.relocatable_values@,
            self.relocatable_ids@,
            self.relocatable_multiplicities@,
        )
    }

    /// The lookups of the interaction trace of all tables. Large-value table
    /// `t` yields its ids shifted by `big_offset(t)`.
    pub fn interaction_lookups(&self) -> (r: InteractionLookups)
        requires
            self.ready(),
        ensures
            r.big@.len() == self.big_components_values@.len(),
            forall|t: int|
                0 <= t < r.big@.len() ==> is_big_table_lookups(
                    #[trigger] r.big@[t],
                    self.big_components_values@[t]@,
                    self.big_ids@[t]@,
                    self.big_multiplicities@[t]@,
                    big_offset(self.big_multiplicities@, t as nat) as u32,
                ),
            is_short_table_lookups(
                r.small,
                self.small_values@,
                self.small_ids@,
                self.small_multiplicities@,
                |i: int| range_check(i),
                |x: u32| x,
            ),
            is_short_table_lookups(
                r.relocatable,
                self.relocatable_values@,
                self.relocatable_ids@,
                self.relocatable_multiplicities@,
                |i: int| range_check(0),
                |x: u32| m31_add(x, RELOCATABLE_ID_BASE),
            ),
    {
        let n = self.big_components_values.len();
        let mut big: Vec<TableLookups> = Vec::new();
        let mut offset: u32 = 0;
        let mut t: usize = 0;
        proof {
            lemma_big_offset_mono(self.big_multiplicities@, 0, n as nat);
        }
        while t < n
            invariant
                t <= n == self.big_components_values@.len(),
                self.ready(),
                offset == big_offset(self.big_multiplicities@, t as nat),
                big@.len() == t,
                forall|u: int|
                    0 <= u < t ==> is_big_table_lookups(
                        #[trigger] big@[u],
                        self.big_components_values@[u]@,
                        self.big_ids@[u]@,
                        self.big_multiplicities@[u]@,
                        big_offset(self.big_multiplicities@, u as nat) as u32,
                    ),
            decreases n - t,
        {
            assert(big_offset(self.big_multiplicities@, t as nat) < P);
            assert(big_table_ready(
                self.big_components_values@[t as int]@,
                self.big_ids@[t as int]@,
                self.big_multiplicities@[t as int]@,
            ));
            let tl = gen_big_memory_interaction_lookups(
                &self.big_components_values[t],
                &self.big_ids[t],
                &self.big_multiplicities[t],
                offset,
            );
            big.push(tl);
            proof {
                lemma_big_offset_mono(self.big_multiplicities@, (t + 1) as nat, n as nat);
            }
            let len = self.big_multiplicities[t].len();
            offset = offset + (len as u32) * 16;
            t = t + 1;
        }
        let small = gen_small_memory_interaction_lookups(
            &self.small_values,
            &self.small_ids,
            &self.small_multiplicities,
        );
        let relocatable = gen_relocatable_memory_interaction_lookups(
            &self.relocatable_values,
            &self.relocatable_ids,
            &self.relocatable_multiplicities,
        );
        InteractionLookups { big, small, relocatable }
    }
}

/// Offsets grow with the table index.
proof fn lemma_big_offset_mono(mults: Seq<Vec<[u32; 16]>>, a: nat, b: nat)
    requires
        a <= b,
    ensures
        big_offset(mults, a) <= big_offset(mults, b),
    decreases b,
{
    if a < b {
        lemma_big_offset_mono(mults, a, (b - 1) as nat);
    }
}

} // verus!
