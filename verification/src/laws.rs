//! Laws that tie the tables' traces to the lookups they answer.
use crate::arith::{lemma_next_pow2_is_pow2, lemma_pow2_floor_of_pow2, lemma_pow2_packed, pow2_floor};
use crate::claim::{big_id, counted, hits, relocatable_id, small_id, ClaimGenerator};
use crate::interaction::{
    big_offset, is_big_table_lookups, is_short_table_lookups, m31_add, m31_neg, range_check,
    TableLookups,
};
use crate::memory::LARGE_MEMORY_VALUE_ID_BASE;
use crate::column::{count_at, count_rows, lemma_count_row, packed_rows, BaseColumn};
use crate::felt::{felt_limb, small_words};
use crate::memory::{decode_spec, encode_spec, MemoryValueId, RELOCATABLE_ID_BASE};
use crate::trace::{
    are_big_table_traces, big_chunks_fit, big_trace_rows, chunk_of, elem_words, is_table_trace, kept_rows,
    lemma_kept_rows, relocatable_words, short_trace_rows, trace_column_length,
};
use vstd::prelude::*;

verus! {

/// Law: every row of the small-value trace answers lookups as
/// `deduce_output` does. In kept row `i`, lane `y`, the id cell holds the id
/// of entry `16 kept[i] + y`, and each limb cell holds the limb of that
/// entry's value that `deduce_output` gives for this id.
pub proof fn lemma_small_trace_matches_lookup(
    g: &ClaimGenerator,
    cols: Seq<BaseColumn>,
    i: int,
    y: int,
    j: int,
)
    requires
        g.wf(),
        is_table_trace(
            cols,
            |e: int| small_words(g.small_table()[e]),
            count_rows(g.small_counts()),
            short_trace_rows(g.small_table().len(), count_rows(g.small_counts())),
            8,
            trace_column_length(count_rows(g.small_counts())),
            trace_column_length(count_rows(g.small_counts())) * 16,
        ),
        0 <= i < kept_rows(
            count_rows(g.small_counts()),
            short_trace_rows(g.small_table().len(), count_rows(g.small_counts())),
        ).len(),
        0 <= y < 16,
        0 <= j < 8,
    ensures
        ({
            let x = cols[8].data@[i][y];
            let e = 16 * kept_rows(
                count_rows(g.small_counts()),
                short_trace_rows(g.small_table().len(), count_rows(g.small_counts())),
            )[i] + y;
            &&& x == e
            &&& decode_spec(x) == MemoryValueId::Small(e as u32)
            &&& g.in_table(x)
            &&& cols[j].data@[i][y] as nat == felt_limb(g.value_words(decode_spec(x)), j as nat)
        }),
{
    let rows = count_rows(g.small_counts());
    let n = short_trace_rows(g.small_table().len(), rows);
    let kept = kept_rows(rows, n);
    let cl = trace_column_length(rows);
    lemma_kept_rows(rows, n);
    crate::trace::lemma_next_pow2_positive(rows);
    crate::trace::lemma_kept_rows_mono(rows, n, rows.len());
    assert(kept.len() <= cl) by {
        crate::trace::lemma_next_pow2_at_least(crate::trace::nonzero_rows(rows));
    }
    assert(i < packed_rows(cl * 16));
    assert(cols[j].length == cl * 16);
}

/// Law: every row of the relocatable-value trace answers lookups as
/// `deduce_output` does: its id cell holds the index of entry
/// `16 kept[i] + y`, which encodes (with the relocatable tag added) to an id
/// naming that entry, and each limb cell holds the limb `deduce_output`
/// gives for that id.
pub proof fn lemma_relocatable_trace_matches_lookup(
    g: &ClaimGenerator,
    cols: Seq<BaseColumn>,
    i: int,
    y: int,
    j: int,
)
    requires
        g.wf(),
        is_table_trace(
            cols,
            |e: int| relocatable_words(g.relocatable_table()[e]),
            count_rows(g.relocatable_counts()),
            short_trace_rows(g.relocatable_table().len(), count_rows(g.relocatable_counts())),
            8,
            trace_column_length(count_rows(g.relocatable_counts())),
            trace_column_length(count_rows(g.relocatable_counts())) * 16,
        ),
        0 <= i < kept_rows(
            count_rows(g.relocatable_counts()),
            short_trace_rows(g.relocatable_table().len(), count_rows(g.relocatable_counts())),
        ).len(),
        0 <= y < 16,
        0 <= j < 8,
    ensures
        ({
            let x = cols[8].data@[i][y];
            let e = 16 * kept_rows(
                count_rows(g.relocatable_counts()),
                short_trace_rows(g.relocatable_table().len(), count_rows(g.relocatable_counts())),
            )[i] + y;
            let id = encode_spec(MemoryValueId::MemoryRelocatable(x));
            &&& x == e
            &&& id == x + RELOCATABLE_ID_BASE
            &&& decode_spec(id) == MemoryValueId::MemoryRelocatable(e as u32)
            &&& g.in_table(id)
            &&& cols[j].data@[i][y] as nat == felt_limb(g.value_words(decode_spec(id)), j as nat)
        }),
{
    let rows = count_rows(g.relocatable_counts());
    let n = short_trace_rows(g.relocatable_table().len(), rows);
    let kept = kept_rows(rows, n);
    let cl = trace_column_length(rows);
    lemma_kept_rows(rows, n);
    crate::trace::lemma_next_pow2_positive(rows);
    crate::trace::lemma_kept_rows_mono(rows, n, rows.len());
    assert(kept.len() <= cl) by {
        crate::trace::lemma_next_pow2_at_least(crate::trace::nonzero_rows(rows));
    }
    assert(i < packed_rows(cl * 16));
    assert(cols[j].length == cl * 16);
}

/// Law: every row of a large-value trace answers lookups as
/// `deduce_output` does. Table `c` holds entries `c * max ..` of the
/// large-value table; in its kept row `i`, lane `y`, the id cell holds the
/// entry's index within the table, and each limb cell holds the limb that
/// `deduce_output` gives for the entry's id.
pub proof fn lemma_big_trace_matches_lookup(
    g: &ClaimGenerator,
    traces: Seq<Vec<BaseColumn>>,
    max: nat,
    c: int,
    i: int,
    y: int,
    j: int,
)
    requires
        g.wf(),
        max >= 16,
        max % 16 == 0,
        big_chunks_fit(g.big_table(), count_rows(g.big_counts()), max),
        are_big_table_traces(traces, g.big_table(), count_rows(g.big_counts()), max),
        0 <= c < traces.len(),
        0 <= i < kept_rows(
            chunk_of(count_rows(g.big_counts()), c as nat, max / 16),
            big_trace_rows(chunk_of(count_rows(g.big_counts()), c as nat, max / 16)),
        ).len(),
        0 <= y < 16,
        0 <= j < 28,
    ensures
        ({
            let m = chunk_of(count_rows(g.big_counts()), c as nat, max / 16);
            let cols = traces[c]@;
            let local = 16 * kept_rows(m, big_trace_rows(m))[i] + y;
            let e = c * max + local;
            &&& cols[28].data@[i][y] == local
            &&& e < g.big_table().len()
            &&& decode_spec(encode_spec(MemoryValueId::F252(e as u32))) == MemoryValueId::F252(
                e as u32,
            )
            &&& g.in_table(encode_spec(MemoryValueId::F252(e as u32)))
            &&& cols[j].data@[i][y] as nat == felt_limb(
                g.value_words(MemoryValueId::F252(e as u32)),
                j as nat,
            )
        }),
{
    let rows = count_rows(g.big_counts());
    let m = chunk_of(rows, c as nat, max / 16);
    let cols = traces[c]@;
    let n = big_trace_rows(m);
    let kept = kept_rows(m, n);
    let cl = trace_column_length(m);
    let vals = chunk_of(g.big_table(), c as nat, max);
    assert(is_table_trace(
        cols,
        |e: int| elem_words(chunk_of(g.big_table(), c as nat, max), e),
        m,
        n,
        28,
        cl,
        cl,
    ));
    lemma_kept_rows(m, n);
    crate::trace::lemma_kept_rows_mono(m, n, m.len());
    crate::trace::lemma_next_pow2_positive(m);
    assert(n <= m.len());
    let local = 16 * kept[i] + y;
    let len = g.big_table().len();
    assert(rows.len() == len / 16);
    crate::trace::lemma_chunk_start(rows.len(), max / 16, c as nat);
    assert(c * max < len) by {
        assert((c * (max / 16)) * 16 == c * max) by (nonlinear_arith)
            requires
                max % 16 == 0,
        ;
    }
    assert(m.len() * 16 <= vals.len()) by {
        crate::trace::lemma_chunk_lens(g.big_table(), rows, c as nat, max);
    }
    assert(local < vals.len());
    assert(cols[28].data@.len() == cl);
    assert(kept.len() <= cl) by {
        crate::trace::lemma_next_pow2_at_least(crate::trace::nonzero_rows(m));
    }
    assert(cols[j].length == cl);
    assert(kept.len() <= packed_rows(cl));
    assert(i < packed_rows(cl));
    assert(vals[local] == g.big_table()[c * max + local]);
}

/// Law: after counting `inputs` on a fresh generator, the multiplicity that
/// the small-value trace holds for an entry is the number of inputs naming
/// that entry (modulo `2^32`).
pub proof fn lemma_small_trace_counts_lookups(
    g0: &ClaimGenerator,
    g: &ClaimGenerator,
    inputs: Seq<u32>,
    cols: Seq<BaseColumn>,
    i: int,
    y: int,
)
    requires
        g0.wf(),
        forall|k: int| 0 <= k < g0.small_counts().len() ==> #[trigger] g0.small_counts()[k] == 0,
        g.counted_from(g0, inputs),
        g.wf(),
        is_table_trace(
            cols,
            |e: int| small_words(g.small_table()[e]),
            count_rows(g.small_counts()),
            short_trace_rows(g.small_table().len(), count_rows(g.small_counts())),
            8,
            trace_column_length(count_rows(g.small_counts())),
            trace_column_length(count_rows(g.small_counts())) * 16,
        ),
        0 <= i < kept_rows(
            count_rows(g.small_counts()),
            short_trace_rows(g.small_table().len(), count_rows(g.small_counts())),
        ).len(),
        0 <= y < 16,
    ensures
        ({
            let e = 16 * kept_rows(
                count_rows(g.small_counts()),
                short_trace_rows(g.small_table().len(), count_rows(g.small_counts())),
            )[i] + y;
            cols[9].data@[i][y] == hits(inputs, MemoryValueId::Small(e as u32)) % 0x1_0000_0000
        }),
{
    let rows = count_rows(g.small_counts());
    let n = short_trace_rows(g.small_table().len(), rows);
    let kept = kept_rows(rows, n);
    let cl = trace_column_length(rows);
    lemma_kept_rows(rows, n);
    crate::trace::lemma_next_pow2_positive(rows);
    crate::trace::lemma_kept_rows_mono(rows, n, rows.len());
    assert(kept.len() <= cl) by {
        crate::trace::lemma_next_pow2_at_least(crate::trace::nonzero_rows(rows));
    }
    let e = 16 * kept[i] + y;
    assert(e < g.small_table().len());
    lemma_count_row(g.small_counts(), kept[i], y);
    assert(cols[9].data@[i][y] == rows[kept[i]][y]);
    assert(rows[kept[i]][y] == count_at(g.small_counts(), e));
    assert(g.small_counts()[e] == counted(g0.small_counts(), inputs, |k: int| small_id(k))[e]);
}

/// Law: after counting `inputs` on a fresh generator, the multiplicity that
/// the relocatable-value trace holds for an entry is the number of inputs
/// naming that entry (modulo `2^32`).
pub proof fn lemma_relocatable_trace_counts_lookups(
    g0: &ClaimGenerator,
    g: &ClaimGenerator,
    inputs: Seq<u32>,
    cols: Seq<BaseColumn>,
    i: int,
    y: int,
)
    requires
        g0.wf(),
        forall|k: int|
            0 <= k < g0.relocatable_counts().len() ==> #[trigger] g0.relocatable_counts()[k] == 0,
        g.counted_from(g0, inputs),
        g.wf(),
        is_table_trace(
            cols,
            |e: int| relocatable_words(g.relocatable_table()[e]),
            count_rows(g.relocatable_counts()),
            short_trace_rows(g.relocatable_table().len(), count_rows(g.relocatable_counts())),
            8,
            trace_column_length(count_rows(g.relocatable_counts())),
            trace_column_length(count_rows(g.relocatable_counts())) * 16,
        ),
        0 <= i < kept_rows(
            count_rows(g.relocatable_counts()),
            short_trace_rows(g.relocatable_table().len(), count_rows(g.relocatable_counts())),
        ).len(),
        0 <= y < 16,
    ensures
        ({
            let e = 16 * kept_rows(
                count_rows(g.relocatable_counts()),
                short_trace_rows(g.relocatable_table().len(), count_rows(g.relocatable_counts())),
            )[i] + y;
            cols[9].data@[i][y] == hits(inputs, MemoryValueId::MemoryRelocatable(e as u32))
                % 0x1_0000_0000
        }),
{
    let rows = count_rows(g.relocatable_counts());
    let n = short_trace_rows(g.relocatable_table().len(), rows);
    let kept = kept_rows(rows, n);
    let cl = trace_column_length(rows);
    lemma_kept_rows(rows, n);
    crate::trace::lemma_next_pow2_positive(rows);
    crate::trace::lemma_kept_rows_mono(rows, n, rows.len());
    assert(kept.len() <= cl) by {
        crate::trace::lemma_next_pow2_at_least(crate::trace::nonzero_rows(rows));
    }
    let e = 16 * kept[i] + y;
    assert(e < g.relocatable_table().len());
    lemma_count_row(g.relocatable_counts(), kept[i], y);
    assert(cols[9].data@[i][y] == rows[kept[i]][y]);
    assert(rows[kept[i]][y] == count_at(g.relocatable_counts(), e));
    assert(g.relocatable_counts()[e] == counted(
        g0.relocatable_counts(),
        inputs,
        |k: int| relocatable_id(k),
    )[e]);
}

/// Law: after counting `inputs` on a fresh generator, the multiplicity that
/// a large-value trace holds for an entry is the number of inputs naming
/// that entry (modulo `2^32`). Table `c` holds entries `c * max ..` of the
/// large-value table.
pub proof fn lemma_big_trace_counts_lookups(
    g0: &ClaimGenerator,
    g: &ClaimGenerator,
    inputs: Seq<u32>,
    traces: Seq<Vec<BaseColumn>>,
    max: nat,
    c: int,
    i: int,
    y: int,
)
    requires
        g0.wf(),
        forall|k: int| 0 <= k < g0.big_counts().len() ==> #[trigger] g0.big_counts()[k] == 0,
        g.counted_from(g0, inputs),
        g.wf(),
        max >= 16,
        max % 16 == 0,
        big_chunks_fit(g.big_table(), count_rows(g.big_counts()), max),
        are_big_table_traces(traces, g.big_table(), count_rows(g.big_counts()), max),
        0 <= c < traces.len(),
        0 <= i < kept_rows(
            chunk_of(count_rows(g.big_counts()), c as nat, max / 16),
            big_trace_rows(chunk_of(count_rows(g.big_counts()), c as nat, max / 16)),
        ).len(),
        0 <= y < 16,
    ensures
        ({
            let m = chunk_of(count_rows(g.big_counts()), c as nat, max / 16);
            let e = c * max + 16 * kept_rows(m, big_trace_rows(m))[i] + y;
            traces[c]@[29].data@[i][y] == hits(inputs, MemoryValueId::F252(e as u32)) % 0x1_0000_0000
        }),
{
    let rows = count_rows(g.big_counts());
    let d = max / 16;
    let m = chunk_of(rows, c as nat, d);
    let n = big_trace_rows(m);
    let kept = kept_rows(m, n);
    let cl = trace_column_length(m);
    lemma_big_trace_matches_lookup(g, traces, max, c, i, y, 0);
    lemma_kept_rows(m, n);
    crate::trace::lemma_kept_rows_mono(m, n, m.len());
    crate::trace::lemma_next_pow2_positive(m);
    assert(kept.len() <= cl) by {
        crate::trace::lemma_next_pow2_at_least(crate::trace::nonzero_rows(m));
    }
    assert(is_table_trace(
        traces[c]@,
        |e: int| elem_words(chunk_of(g.big_table(), c as nat, max), e),
        m,
        n,
        28,
        cl,
        cl,
    ));
    let row = c * d + kept[i];
    crate::trace::lemma_chunk_start(rows.len(), d, c as nat);
    assert(n <= m.len());
    assert(m[kept[i]] == rows[row]);
    assert(traces[c]@[29].data@[i][y] == rows[row][y]);
    lemma_count_row(g.big_counts(), row, y);
    let e = c * max + 16 * kept[i] + y;
    assert(16 * row + y == e) by (nonlinear_arith)
        requires
            row == c * d + kept[i],
            max == 16 * d,
            e == c * max + 16 * kept[i] + y,
    ;
    assert(e < g.big_table().len());
    assert(rows[row][y] == count_at(g.big_counts(), e));
    assert(g.big_counts()[e] == counted(g0.big_counts(), inputs, |k: int| big_id(k))[e]);
}

/// Law: the small-value table yields, for every kept row, the id of each
/// entry together with the limbs that `deduce_output` gives for that id,
/// with weight minus the entry's multiplicity.
pub proof fn lemma_small_yields_match_lookup(
    g: &ClaimGenerator,
    cols: Seq<BaseColumn>,
    limbs: Seq<Vec<[u32; 16]>>,
    ids: Seq<[u32; 16]>,
    mults: Seq<[u32; 16]>,
    t: TableLookups,
    r: int,
    y: int,
    k: int,
)
    requires
        g.wf(),
        is_table_trace(
            cols,
            |e: int| small_words(g.small_table()[e]),
            count_rows(g.small_counts()),
            short_trace_rows(g.small_table().len(), count_rows(g.small_counts())),
            8,
            trace_column_length(count_rows(g.small_counts())),
            trace_column_length(count_rows(g.small_counts())) * 16,
        ),
        limbs.len() == 8,
        forall|j: int| 0 <= j < 8 ==> #[trigger] limbs[j]@ == cols[j].data@,
        ids == cols[8].data@,
        mults == cols[9].data@,
        is_short_table_lookups(t, limbs, ids, mults, |i: int| range_check(i), |x: u32| x),
        0 <= r < kept_rows(
            count_rows(g.small_counts()),
            short_trace_rows(g.small_table().len(), count_rows(g.small_counts())),
        ).len(),
        0 <= y < 16,
        0 <= k < 8,
    ensures
        ({
            let col = t.columns@[4];
            let x = col.values@[0]@[r][y];
            let e = 16 * kept_rows(
                count_rows(g.small_counts()),
                short_trace_rows(g.small_table().len(), count_rows(g.small_counts())),
            )[r] + y;
            &&& decode_spec(x) == MemoryValueId::Small(e as u32)
            &&& g.in_table(x)
            &&& col.values@[k + 1]@[r][y] as nat == felt_limb(g.value_words(decode_spec(x)), k as nat)
            &&& col.numerators@[r][y] == m31_neg(g.small_counts()[e])
        }),
{
    let rows_v = count_rows(g.small_counts());
    let cl = trace_column_length(rows_v);
    let kept = kept_rows(rows_v, short_trace_rows(g.small_table().len(), rows_v));
    lemma_small_trace_matches_lookup(g, cols, r, y, k);
    lemma_small_trace_matches_lookup(g, cols, r, y, 0);
    assert(cols[0].length == cl * 16);
    assert(limbs[0]@ == cols[0].data@);
    assert(cols[0].data@.len() == cl);
    lemma_next_pow2_is_pow2(crate::trace::nonzero_rows(rows_v));
    lemma_pow2_floor_of_pow2(cl);
    assert(limbs[k]@ == cols[k].data@);
    let e = 16 * kept[r] + y;
    lemma_kept_rows(rows_v, short_trace_rows(g.small_table().len(), rows_v));
    crate::trace::lemma_next_pow2_at_least(crate::trace::nonzero_rows(rows_v));
    crate::trace::lemma_kept_rows_mono(
        rows_v,
        short_trace_rows(g.small_table().len(), rows_v),
        rows_v.len(),
    );
    lemma_count_row(g.small_counts(), kept[r], y);
    assert(mults[r][y] == rows_v[kept[r]][y]);
    let rows = pow2_floor(limbs[0]@.len());
    assert(rows == cl);
    assert(r < rows);
    let col = t.columns@[4];
    assert(cols[k].length == cl * 16);
    assert(col.values@[k + 1]@ == limbs[k]@.take(rows as int));
}

/// Law: the relocatable-value table yields, for every kept row, the
/// relocatable id of each entry together with the limbs that
/// `deduce_output` gives for that id, with weight minus the multiplicity.
pub proof fn lemma_relocatable_yields_match_lookup(
    g: &ClaimGenerator,
    cols: Seq<BaseColumn>,
    limbs: Seq<Vec<[u32; 16]>>,
    ids: Seq<[u32; 16]>,
    mults: Seq<[u32; 16]>,
    t: TableLookups,
    r: int,
    y: int,
    k: int,
)
    requires
        g.wf(),
        is_table_trace(
            cols,
            |e: int| relocatable_words(g.relocatable_table()[e]),
            count_rows(g.relocatable_counts()),
            short_trace_rows(g.relocatable_table().len(), count_rows(g.relocatable_counts())),
            8,
            trace_column_length(count_rows(g.relocatable_counts())),
            trace_column_length(count_rows(g.relocatable_counts())) * 16,
        ),
        limbs.len() == 8,
        forall|j: int| 0 <= j < 8 ==> #[trigger] limbs[j]@ == cols[j].data@,
        ids == cols[8].data@,
        mults == cols[9].data@,
        is_short_table_lookups(
            t,
            limbs,
            ids,
            mults,
            |i: int| range_check(0),
            |x: u32| m31_add(x, RELOCATABLE_ID_BASE),
        ),
        0 <= r < kept_rows(
            count_rows(g.relocatable_counts()),
            short_trace_rows(g.relocatable_table().len(), count_rows(g.relocatable_counts())),
        ).len(),
        0 <= y < 16,
        0 <= k < 8,
    ensures
        ({
            let col = t.columns@[4];
            let x = col.values@[0]@[r][y];
            let e = 16 * kept_rows(
                count_rows(g.relocatable_counts()),
                short_trace_rows(g.relocatable_table().len(), count_rows(g.relocatable_counts())),
            )[r] + y;
            &&& decode_spec(x) == MemoryValueId::MemoryRelocatable(e as u32)
            &&& g.in_table(x)
            &&& col.values@[k + 1]@[r][y] as nat == felt_limb(g.value_words(decode_spec(x)), k as nat)
            &&& col.numerators@[r][y] == m31_neg(g.relocatable_counts()[e])
        }),
{
    let rows_v = count_rows(g.relocatable_counts());
    let cl = trace_column_length(rows_v);
    let kept = kept_rows(rows_v, short_trace_rows(g.relocatable_table().len(), rows_v));
    lemma_relocatable_trace_matches_lookup(g, cols, r, y, k);
    lemma_relocatable_trace_matches_lookup(g, cols, r, y, 0);
    assert(cols[0].length == cl * 16);
    assert(limbs[0]@ == cols[0].data@);
    assert(cols[0].data@.len() == cl);
    lemma_next_pow2_is_pow2(crate::trace::nonzero_rows(rows_v));
    lemma_pow2_floor_of_pow2(cl);
    assert(limbs[k]@ == cols[k].data@);
    lemma_kept_rows(rows_v, short_trace_rows(g.relocatable_table().len(), rows_v));
    crate::trace::lemma_next_pow2_at_least(crate::trace::nonzero_rows(rows_v));
    crate::trace::lemma_kept_rows_mono(
        rows_v,
        short_trace_rows(g.relocatable_table().len(), rows_v),
        rows_v.len(),
    );
    lemma_count_row(g.relocatable_counts(), kept[r], y);
    assert(mults[r][y] == rows_v[kept[r]][y]);
    let rows = pow2_floor(limbs[0]@.len());
    assert(rows == cl);
    assert(r < rows);
    let col = t.columns@[4];
    assert(cols[k].length == cl * 16);
    assert(col.values@[k + 1]@ == limbs[k]@.take(rows as int));
}

/// Law: a large-value table yields, for every kept row, the id of each
/// entry together with the limbs that `deduce_output` gives for that id,
/// with weight minus the multiplicity — when the offset its ids are shifted
/// by is where the table starts (`c * max`). The offset is the sum of the
/// earlier tables' sizes as their multiplicity columns count them, so this
/// holds when every earlier table fills its multiplicity column.
pub proof fn lemma_big_yields_match_lookup(
    g: &ClaimGenerator,
    traces: Seq<Vec<BaseColumn>>,
    max: nat,
    comps: Seq<Vec<Vec<[u32; 16]>>>,
    ids: Seq<Vec<[u32; 16]>>,
    mults: Seq<Vec<[u32; 16]>>,
    lookups: Seq<TableLookups>,
    c: int,
    r: int,
    y: int,
    k: int,
)
    requires
        g.wf(),
        max >= 16,
        max % 16 == 0,
        big_chunks_fit(g.big_table(), count_rows(g.big_counts()), max),
        are_big_table_traces(traces, g.big_table(), count_rows(g.big_counts()), max),
        0 <= c < traces.len(),
        comps.len() == traces.len(),
        ids.len() == traces.len(),
        mults.len() == traces.len(),
        lookups.len() == traces.len(),
        comps[c]@.len() == 28,
        forall|j: int| 0 <= j < 28 ==> #[trigger] comps[c]@[j]@ == traces[c]@[j].data@,
        ids[c]@ == traces[c]@[28].data@,
        mults[c]@ == traces[c]@[29].data@,
        is_big_table_lookups(
            lookups[c],
            comps[c]@,
            ids[c]@,
            mults[c]@,
            big_offset(mults, c as nat) as u32,
        ),
        big_offset(mults, c as nat) == c * max,
        0 <= r < kept_rows(
            chunk_of(count_rows(g.big_counts()), c as nat, max / 16),
            big_trace_rows(chunk_of(count_rows(g.big_counts()), c as nat, max / 16)),
        ).len(),
        0 <= y < 16,
        0 <= k < 28,
    ensures
        ({
            let m = chunk_of(count_rows(g.big_counts()), c as nat, max / 16);
            let col = lookups[c].columns@[14];
            let x = col.values@[0]@[r][y];
            let e = c * max + 16 * kept_rows(m, big_trace_rows(m))[r] + y;
            &&& decode_spec(x) == MemoryValueId::F252(e as u32)
            &&& g.in_table(x)
            &&& col.values@[k + 1]@[r][y] as nat == felt_limb(g.value_words(decode_spec(x)), k as nat)
        }),
{
    let rows_v = count_rows(g.big_counts());
    let m = chunk_of(rows_v, c as nat, max / 16);
    let cols = traces[c]@;
    let cl = trace_column_length(m);
    let kept = kept_rows(m, big_trace_rows(m));
    lemma_big_trace_matches_lookup(g, traces, max, c, r, y, k);
    lemma_big_trace_matches_lookup(g, traces, max, c, r, y, 0);
    assert(cols[0].length == cl);
    assert(comps[c]@[0]@ == cols[0].data@);
    assert(cols[0].data@.len() == packed_rows(cl));
    lemma_next_pow2_is_pow2(crate::trace::nonzero_rows(m));
    lemma_pow2_packed(cl);
    lemma_pow2_floor_of_pow2(packed_rows(cl));
    assert(comps[c]@[k]@ == cols[k].data@);
    assert(kept.len() <= packed_rows(cl));
    let local = 16 * kept[r] + y;
    assert(ids[c]@[r][y] == local);
    assert(local < 0x800_0000);
    assert(m31_add(local as u32, LARGE_MEMORY_VALUE_ID_BASE) == local + LARGE_MEMORY_VALUE_ID_BASE);
    let rows = pow2_floor(comps[c]@[0]@.len());
    assert(rows == packed_rows(cl));
    assert(r < rows);
    let col = lookups[c].columns@[14];
    assert(cols[k].length == cl);
    assert(col.values@[k + 1]@ == comps[c]@[k]@.take(rows as int));
}

} // verus!
