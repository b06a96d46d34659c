//! The id -> value memory tables: the values, padded to whole packed rows,
//! and how often each value is looked up.
use crate::arith::{
    ilog2, lemma_is_pow2_times_16, lemma_next_pow2_is_pow2, lemma_pow2_log, lemma_round_up,
    next_multiple_of, round_up,
};
use crate::column::{count_rows, packed_rows, BaseColumn, MultiplicityColumn, N_LANES};
use crate::felt::{felt_limb, lane_words, small_words, split_f252_simd, u128_to_4_limbs, words_value};
use crate::memory::{
    decode_spec, EncodedMemoryValueId, Memory, MemoryValueId,
    MEMORY_ADDRESS_BOUND,
};
use crate::trace::{
    are_big_table_traces, big_chunks_fit, big_pair_inputs, chunk_of, gen_big_memory_traces,
    gen_relocatable_memory_trace, gen_small_memory_trace, is_table_trace, lemma_pair_inputs_9_bit,
    lemma_table_trace_9_bit, pair_inputs, pairs_are_9_bit, push_pair_inputs, relocatable_words,
    short_trace_rows, trace_column_length,
};
use vstd::arithmetic::power2::pow2;
use vstd::prelude::*;

verus! {

/// How many of `inputs` decode to `id`.
pub open spec fn hits(inputs: Seq<u32>, id: MemoryValueId) -> nat
    decreases inputs.len(),
{
    if inputs.len() == 0 {
        0
    } else {
        hits(inputs.drop_last(), id) + if decode_spec(inputs.last()) == id {
            1nat
        } else {
            0nat
        }
    }
}

/// The counters `counts` of a table after counting `inputs`: counter `i`
/// grows by the number of inputs that decode to `table(i)`, modulo `2^32`.
pub open spec fn counted(
    counts: Seq<u32>,
    inputs: Seq<u32>,
    table: spec_fn(int) -> MemoryValueId,
) -> Seq<u32> {
    Seq::new(
        counts.len(),
        |i: int| ((counts[i] + hits(inputs, table(i))) % 0x1_0000_0000) as u32,
    )
}

/// The id of entry `i` of the large-value table.
pub open spec fn big_id(i: int) -> MemoryValueId {
    MemoryValueId::F252(i as u32)
}

/// The id of entry `i` of the small-value table.
pub open spec fn small_id(i: int) -> MemoryValueId {
    MemoryValueId::Small(i as u32)
}

/// The id of entry `i` of the relocatable-value table.
pub open spec fn relocatable_id(i: int) -> MemoryValueId {
    MemoryValueId::MemoryRelocatable(i as u32)
}

/// All lanes of packed rows, one row after the other.
pub open spec fn flatten_rows(rows: Seq<[u32; 16]>) -> Seq<u32>
    decreases rows.len(),
{
    if rows.len() == 0 {
        Seq::empty()
    } else {
        flatten_rows(rows.drop_last()) + rows.last()@
    }
}

/// Law: flattening packed rows lists every lane of every row exactly once,
/// in order: lane `l` of row `r` is at position `16 r + l`.
pub proof fn lemma_flatten_rows_lanes(rows: Seq<[u32; 16]>)
    ensures
        flatten_rows(rows).len() == 16 * rows.len(),
        forall|r: int, l: int|
            0 <= r < rows.len() && 0 <= l < 16 ==> flatten_rows(rows)[16 * r + l] == #[trigger] rows[r][l],
    decreases rows.len(),
{
    if rows.len() > 0 {
        let init = rows.drop_last();
        lemma_flatten_rows_lanes(init);
        let f = flatten_rows(rows);
        assert forall|r: int, l: int| 0 <= r < rows.len() && 0 <= l < 16 implies f[16 * r + l]
            == #[trigger] rows[r][l] by {
            if r < rows.len() - 1 {
                assert(init[r] == rows[r]);
                assert(init[r][l] == rows[r][l]);
                assert(f[16 * r + l] == flatten_rows(init)[16 * r + l]);
            } else {
                assert(f[16 * r + l] == rows.last()@[l]);
            }
        }
    }
}

/// Counting more inputs adds their hits.
proof fn lemma_hits_append(a: Seq<u32>, b: Seq<u32>, id: MemoryValueId)
    ensures
        hits(a + b, id) == hits(a, id) + hits(b, id),
    decreases b.len(),
{
    if b.len() > 0 {
        assert((a + b).drop_last() =~= a + b.drop_last());
        lemma_hits_append(a, b.drop_last(), id);
    }
}

/// Counting one more input.
proof fn lemma_hits_push(a: Seq<u32>, x: u32, id: MemoryValueId)
    ensures
        hits(a.push(x), id) == hits(a, id) + if decode_spec(x) == id {
            1nat
        } else {
            0nat
        },
{
    assert(a.push(x).drop_last() =~= a);
}

/// Counting `a` and then `b` is counting `a + b`.
proof fn lemma_counted_compose(
    c: Seq<u32>,
    a: Seq<u32>,
    b: Seq<u32>,
    table: spec_fn(int) -> MemoryValueId,
)
    ensures
        counted(counted(c, a, table), b, table) == counted(c, a + b, table),
{
    assert forall|i: int| 0 <= i < c.len() implies #[trigger] counted(
        counted(c, a, table),
        b,
        table,
    )[i] == counted(c, a + b, table)[i] by {
        lemma_hits_append(a, b, table(i));
        vstd::arithmetic::div_mod::lemma_add_mod_noop(
            c[i] + hits(a, table(i)),
            hits(b, table(i)) as int,
            0x1_0000_0000,
        );
        vstd::arithmetic::div_mod::lemma_mod_twice(hits(b, table(i)) as int, 0x1_0000_0000);
        vstd::arithmetic::div_mod::lemma_add_mod_noop(
            (counted(c, a, table)[i]) as int,
            hits(b, table(i)) as int,
            0x1_0000_0000,
        );
    }
    assert(counted(counted(c, a, table), b, table) =~= counted(c, a + b, table));
}

/// Law: `hits` counts inputs one by one: no input names nothing, one input
/// names the id it decodes to once, and the hits of two lists of inputs add up.
pub proof fn lemma_hits_counts(a: Seq<u32>, b: Seq<u32>, x: u32, id: MemoryValueId)
    ensures
        hits(Seq::empty(), id) == 0,
        hits(seq![x], id) == (if decode_spec(x) == id {
            1nat
        } else {
            0nat
        }),
        hits(a + b, id) == hits(a, id) + hits(b, id),
{
    lemma_hits_append(a, b, id);
    lemma_hits_push(Seq::empty(), x, id);
    assert(Seq::<u32>::empty().push(x) =~= seq![x]);
}

/// Law: the counters do not depend on the order in which lookups are
/// counted (the counting is done in parallel, in no fixed order).
pub proof fn lemma_counting_order_free(
    c: Seq<u32>,
    a: Seq<u32>,
    b: Seq<u32>,
    table: spec_fn(int) -> MemoryValueId,
)
    ensures
        counted(c, a + b, table) == counted(c, b + a, table),
{
    assert forall|i: int| 0 <= i < c.len() implies #[trigger] counted(c, a + b, table)[i]
        == counted(c, b + a, table)[i] by {
        lemma_hits_append(a, b, table(i));
        lemma_hits_append(b, a, table(i));
    }
    assert(counted(c, a + b, table) =~= counted(c, b + a, table));
}

/// Counting nothing changes nothing.
proof fn lemma_counted_empty(c: Seq<u32>, table: spec_fn(int) -> MemoryValueId)
    ensures
        counted(c, Seq::empty(), table) == c,
{
    assert(counted(c, Seq::empty(), table) =~= c);
}

/// Generates the trace and the claim for the id -> value memory tables.
/// Values are kept in three tables: full-size field elements (28 limbs),
/// small values (8 limbs, at most 72 bits) and relocatable values, so that
/// few trace cells are left unused.
pub struct ClaimGenerator {
    big_values: Vec<[u32; 8]>,
    big_mults: MultiplicityColumn,
    small_values: Vec<u128>,
    small_mults: MultiplicityColumn,
    relocatable_values: Vec<[u32; 2]>,
    relocatable_mults: MultiplicityColumn,
}

/// The limbs of 16 memory values, one packed row per limb.
pub struct PackedFelt252 {
    pub value: [[u32; 16]; 28],
}

impl ClaimGenerator {
    /// The large-value table.
    pub closed spec fn big_table(&self) -> Seq<[u32; 8]> {
        self.big_values@
    }

    /// The lookup counters of the large-value table.
    pub closed spec fn big_counts(&self) -> Seq<u32> {
        self.big_mults@
    }

    /// The small-value table.
    pub closed spec fn small_table(&self) -> Seq<u128> {
        self.small_values@
    }

    /// The lookup counters of the small-value table.
    pub closed spec fn small_counts(&self) -> Seq<u32> {
        self.small_mults@
    }

    /// The relocatable-value table.
    pub closed spec fn relocatable_table(&self) -> Seq<[u32; 2]> {
        self.relocatable_values@
    }

    /// The lookup counters of the relocatable-value table.
    pub closed spec fn relocatable_counts(&self) -> Seq<u32> {
        self.relocatable_mults@
    }

    /// Each table has one counter per value, its length is a multiple of 16,
    /// and together they hold at most `MEMORY_ADDRESS_BOUND` values.
    pub open spec fn wf(&self) -> bool {
        &&& self.big_table().len() == self.big_counts().len()
        &&& self.small_table().len() == self.small_counts().len()
        &&& self.relocatable_table().len() == self.relocatable_counts().len()
        &&& self.big_table().len() % 16 == 0
        &&& self.small_table().len() % 16 == 0
        &&& self.relocatable_table().len() % 16 == 0
        &&& self.big_table().len() + self.small_table().len() + self.relocatable_table().len()
            <= MEMORY_ADDRESS_BOUND
    }

    /// Whether the encoded id `x` names a value of one of the tables.
    pub open spec fn in_table(&self, x: u32) -> bool {
        match decode_spec(x) {
            MemoryValueId::F252(i) => i < self.big_table().len(),
            MemoryValueId::Small(i) => i < self.small_table().len(),
            MemoryValueId::MemoryRelocatable(i) => i < self.relocatable_table().len(),
            MemoryValueId::Empty => false,
        }
    }

    /// Whether every input names a value of the tables.
    pub open spec fn valid_inputs(&self, inputs: Seq<u32>) -> bool {
        forall|p: int| 0 <= p < inputs.len() ==> #[trigger] self.in_table(inputs[p])
    }

    /// `self` after counting `inputs`, from `old`: same tables, counters grown.
    pub open spec fn counted_from(&self, old: &ClaimGenerator, inputs: Seq<u32>) -> bool {
        &&& self.big_table() == old.big_table()
        &&& self.small_table() == old.small_table()
        &&& self.relocatable_table() == old.relocatable_table()
        &&& self.big_counts() == counted(old.big_counts(), inputs, |i: int| big_id(i))
        &&& self.small_counts() == counted(old.small_counts(), inputs, |i: int| small_id(i))
        &&& self.relocatable_counts() == counted(
            old.relocatable_counts(),
            inputs,
            |i: int| relocatable_id(i),
        )
    }

    /// The eight words of the value that `id` names.
    pub open spec fn value_words(&self, id: MemoryValueId) -> Seq<u32> {
        match id {
            MemoryValueId::F252(i) => self.big_table()[i as int]@,
            MemoryValueId::Small(i) => small_words(self.small_table()[i as int]),
            MemoryValueId::MemoryRelocatable(i) => relocatable_words(
                self.relocatable_table()[i as int],
            ),
            MemoryValueId::Empty => seq![0u32, 0u32, 0u32, 0u32, 0u32, 0u32, 0u32, 0u32],
        }
    }

    /// Law: the number that the words of a named value stand for: a large
    /// value's eight words, a small value itself, and `v[1] + 2^32 * v[0]`
    /// for a relocatable value `v`. The limbs that `deduce_output` gives are
    /// the 9-bit limbs of this number.
    pub proof fn lemma_value_words_value(&self, id: MemoryValueId, k: nat)
        ensures
            felt_limb(self.value_words(id), k) == (words_value(self.value_words(id)) / pow2(9 * k))
                % 512,
            id matches MemoryValueId::Small(i) ==> words_value(self.value_words(id))
                == self.small_table()[i as int],
            id matches MemoryValueId::MemoryRelocatable(i) ==> words_value(self.value_words(id))
                == self.relocatable_table()[i as int][1] as nat + pow2(32)
                * self.relocatable_table()[i as int][0] as nat,
            id matches MemoryValueId::F252(i) ==> self.value_words(id) == self.big_table()[i as int]@,
            id == MemoryValueId::Empty ==> words_value(self.value_words(id)) == 0,
    {
        match id {
            MemoryValueId::Small(i) => {
                crate::felt::lemma_small_words_value(self.small_table()[i as int]);
            },
            MemoryValueId::MemoryRelocatable(i) => {
                crate::trace::lemma_relocatable_words_value(self.relocatable_table()[i as int], k);
            },
            MemoryValueId::F252(i) => {},
            MemoryValueId::Empty => {
                let z = [0u32, 0u32];
                crate::trace::lemma_relocatable_words_value(z, k);
                assert(z[0] == 0 && z[1] == 0);
                assert(pow2(32) * 0nat == 0);
                assert(self.value_words(id) =~= relocatable_words(z));
            },
        }
    }

    /// Makes the tables from the memory: each table is padded with zero
    /// values to a multiple of 16, and all counters start at zero.
    pub fn new(mem: &Memory) -> (r: ClaimGenerator)
        requires
            round_up(mem.f252_values@.len(), 16) + round_up(mem.small_values@.len(), 16)
                + round_up(mem.relocatable_values@.len(), 16) <= MEMORY_ADDRESS_BOUND,
        ensures
            r.wf(),
            r.big_table().len() == round_up(mem.f252_values@.len(), 16),
            r.small_table().len() == round_up(mem.small_values@.len(), 16),
            r.relocatable_table().len() == round_up(mem.relocatable_values@.len(), 16),
            forall|e: int|
                0 <= e < r.big_table().len() ==> #[trigger] r.big_table()[e]@ == (if e
                    < mem.f252_values@.len() {
                    mem.f252_values@[e]@
                } else {
                    seq![0u32, 0u32, 0u32, 0u32, 0u32, 0u32, 0u32, 0u32]
                }),
            forall|e: int|
                0 <= e < r.small_table().len() ==> #[trigger] r.small_table()[e] == (if e
                    < mem.small_values@.len() {
                    mem.small_values@[e]
                } else {
                    0u128
                }),
            forall|e: int|
                0 <= e < r.relocatable_table().len() ==> #[trigger] r.relocatable_table()[e]@ == (
                if e < mem.relocatable_values@.len() {
                    mem.relocatable_values@[e]@
                } else {
                    seq![0u32, 0u32]
                }),
            forall|i: int| 0 <= i < r.big_counts().len() ==> #[trigger] r.big_counts()[i] == 0,
            forall|i: int| 0 <= i < r.small_counts().len() ==> #[trigger] r.small_counts()[i] == 0,
            forall|i: int|
                0 <= i < r.relocatable_counts().len() ==> #[trigger] r.relocatable_counts()[i] == 0,
    {
        proof {
            lemma_round_up(mem.f252_values@.len(), 16);
            lemma_round_up(mem.small_values@.len(), 16);
            lemma_round_up(mem.relocatable_values@.len(), 16);
        }
        let big_size = next_multiple_of(mem.f252_values.len(), N_LANES);
        let mut big_values: Vec<[u32; 8]> = Vec::new();
        let mut e: usize = 0;
        while e < big_size
            invariant
                big_size == round_up(mem.f252_values@.len(), 16),
                mem.f252_values@.len() <= big_size,
                e <= big_size,
                big_values@.len() == e,
                forall|f: int|
                    0 <= f < e ==> #[trigger] big_values@[f]@ == (if f < mem.f252_values@.len() {
                        mem.f252_values@[f]@
                    } else {
                        seq![0u32, 0u32, 0u32, 0u32, 0u32, 0u32, 0u32, 0u32]
                    }),
            decreases big_size - e,
        {
            if e < mem.f252_values.len() {
                big_values.push(mem.f252_values[e]);
            } else {
                let z = [0u32; 8];
                assert(z@ =~= seq![0u32, 0u32, 0u32, 0u32, 0u32, 0u32, 0u32, 0u32]);
                big_values.push(z);
            }
            e = e + 1;
        }
        let small_size = next_multiple_of(mem.small_values.len(), N_LANES);
        let mut small_values: Vec<u128> = Vec::new();
        let mut e: usize = 0;
        while e < small_size
            invariant
                small_size == round_up(mem.small_values@.len(), 16),
                mem.small_values@.len() <= small_size,
                e <= small_size,
                small_values@.len() == e,
                forall|f: int|
                    0 <= f < e ==> #[trigger] small_values@[f] == (if f < mem.small_values@.len() {
                        mem.small_values@[f]
                    } else {
                        0u128
                    }),
            decreases small_size - e,
        {
            if e < mem.small_values.len() {
                small_values.push(mem.small_values[e]);
            } else {
                small_values.push(0);
            }
            e = e + 1;
        }
        let relocatable_size = next_multiple_of(mem.relocatable_values.len(), N_LANES);
        let mut relocatable_values: Vec<[u32; 2]> = Vec::new();
        let mut e: usize = 0;
        while e < relocatable_size
            invariant
                relocatable_size == round_up(mem.relocatable_values@.len(), 16),
                mem.relocatable_values@.len() <= relocatable_size,
                e <= relocatable_size,
                relocatable_values@.len() == e,
                forall|f: int|
                    0 <= f < e ==> #[trigger] relocatable_values@[f]@ == (if f
                        < mem.relocatable_values@.len() {
                        mem.relocatable_values@[f]@
                    } else {
                        seq![0u32, 0u32]
                    }),
            decreases relocatable_size - e,
        {
            if e < mem.relocatable_values.len() {
                relocatable_values.push(mem.relocatable_values[e]);
            } else {
                let z = [0u32; 2];
                assert(z@ =~= seq![0u32, 0u32]);
                relocatable_values.push(z);
            }
            e = e + 1;
        }
        let big_mults = MultiplicityColumn::new(big_size);
        let small_mults = MultiplicityColumn::new(small_size);
        let relocatable_mults = MultiplicityColumn::new(relocatable_size);
        ClaimGenerator {
            big_values,
            big_mults,
            small_values,
            small_mults,
            relocatable_values,
            relocatable_mults,
        }
    }

    /// `counted_from` composes: counting `a` and then `b` is counting `a + b`.
    pub proof fn lemma_counted_from_compose(
        new: &ClaimGenerator,
        mid: &ClaimGenerator,
        start: &ClaimGenerator,
        a: Seq<u32>,
        b: Seq<u32>,
    )
        requires
            mid.counted_from(start, a),
            new.counted_from(mid, b),
        ensures
            new.counted_from(start, a + b),
    {
        lemma_counted_compose(start.big_counts(), a, b, |i: int| big_id(i));
        lemma_counted_compose(start.small_counts(), a, b, |i: int| small_id(i));
        lemma_counted_compose(start.relocatable_counts(), a, b, |i: int| relocatable_id(i));
    }

    /// Counting nothing leaves a generator as it is.
    pub proof fn lemma_counted_from_empty(g: &ClaimGenerator)
        ensures
            g.counted_from(g, Seq::empty()),
    {
        lemma_counted_empty(g.big_counts(), |i: int| big_id(i));
        lemma_counted_empty(g.small_counts(), |i: int| small_id(i));
        lemma_counted_empty(g.relocatable_counts(), |i: int| relocatable_id(i));
    }

    /// Counts one lookup of the value whose encoded id is `encoded_memory_id`.
    pub fn add_input(&mut self, encoded_memory_id: u32)
        requires
            old(self).wf(),
            old(self).in_table(encoded_memory_id),
        ensures
            final(self).wf(),
            final(self).counted_from(&*old(self), seq![encoded_memory_id]),
    {
        let ghost x = encoded_memory_id;
        match EncodedMemoryValueId(encoded_memory_id).decode() {
            MemoryValueId::F252(id) => {
                self.big_mults.increase_at(id);
            },
            MemoryValueId::Small(id) => {
                self.small_mults.increase_at(id);
            },
            MemoryValueId::MemoryRelocatable(id) => {
                self.relocatable_mults.increase_at(id);
            },
            MemoryValueId::Empty => {},
        }
        proof {
            let s = seq![x];
            assert(s.drop_last() =~= Seq::<u32>::empty());
            assert forall|id: MemoryValueId| #[trigger] hits(s, id) == (if decode_spec(x) == id {
                1nat
            } else {
                0nat
            }) by {
                lemma_hits_push(Seq::<u32>::empty(), x, id);
                assert(Seq::<u32>::empty().push(x) =~= s);
            }
            assert(self.big_counts() =~= counted(old(self).big_counts(), s, |i: int| big_id(i)));
            assert(self.small_counts() =~= counted(
                old(self).small_counts(),
                s,
                |i: int| small_id(i),
            ));
            assert(self.relocatable_counts() =~= counted(
                old(self).relocatable_counts(),
                s,
                |i: int| relocatable_id(i),
            ));
        }
    }
}

impl ClaimGenerator {
    /// Counts one lookup for each of the encoded ids `inputs`.
    pub fn add_inputs(&mut self, inputs: &[u32])
        requires
            old(self).wf(),
            old(self).valid_inputs(inputs@),
        ensures
            final(self).wf(),
            final(self).counted_from(&*old(self), inputs@),
    {
        let ghost start = *self;
        proof {
            ClaimGenerator::lemma_counted_from_empty(&start);
            assert(inputs@.take(0) =~= Seq::<u32>::empty());
        }
        let mut p: usize = 0;
        while p < inputs.len()
            invariant
                p <= inputs@.len(),
                start.wf(),
                start.valid_inputs(inputs@),
                self.wf(),
                self.counted_from(&start, inputs@.take(p as int)),
            decreases inputs@.len() - p,
        {
            let ghost mid = *self;
            let x = inputs[p];
            assert(start.in_table(inputs@[p as int]));
            self.add_input(x);
            proof {
                ClaimGenerator::lemma_counted_from_compose(
                    self,
                    &mid,
                    &start,
                    inputs@.take(p as int),
                    seq![x],
                );
                assert(inputs@.take(p as int) + seq![x] =~= inputs@.take(p + 1));
            }
            p = p + 1;
        }
        assert(inputs@.take(inputs@.len() as int) =~= inputs@);
    }

    /// Counts one lookup for each lane of a packed row of encoded ids.
    pub fn add_packed_m31(&mut self, inputs: &[u32; 16])
        requires
            old(self).wf(),
            old(self).valid_inputs(inputs@),
        ensures
            final(self).wf(),
            final(self).counted_from(&*old(self), inputs@),
    {
        let memory_ids = *inputs;
        self.add_inputs(memory_ids.as_slice());
    }

    /// Counts one lookup for each lane of each packed row of encoded ids.
    pub fn add_packed_inputs(&mut self, inputs: &[[u32; 16]])
        requires
            old(self).wf(),
            old(self).valid_inputs(flatten_rows(inputs@)),
        ensures
            final(self).wf(),
            final(self).counted_from(&*old(self), flatten_rows(inputs@)),
    {
        let ghost start = *self;
        proof {
            ClaimGenerator::lemma_counted_from_empty(&start);
            assert(inputs@.take(0) =~= Seq::<[u32; 16]>::empty());
            lemma_flatten_prefix(inputs@, 0);
        }
        let mut p: usize = 0;
        while p < inputs.len()
            invariant
                p <= inputs@.len(),
                start.wf(),
                start.valid_inputs(flatten_rows(inputs@)),
                self.wf(),
                self.counted_from(&start, flatten_rows(inputs@.take(p as int))),
            decreases inputs@.len() - p,
        {
            let ghost mid = *self;
            let row = inputs[p];
            proof {
                lemma_flatten_prefix(inputs@, p as nat);
                lemma_flatten_prefix(inputs@, (p + 1) as nat);
                assert(inputs@.take(p + 1).drop_last() =~= inputs@.take(p as int));
                assert(flatten_rows(inputs@.take(p + 1)) == flatten_rows(inputs@.take(p as int))
                    + row@);
                assert forall|q: int| 0 <= q < row@.len() implies start.in_table(#[trigger] row@[q]) by {
                    let f = flatten_rows(inputs@.take(p + 1));
                    let k = flatten_rows(inputs@.take(p as int)).len() + q;
                    assert(f[k] == row@[q]);
                    assert(flatten_rows(inputs@)[k] == f[k]);
                    assert(start.in_table(flatten_rows(inputs@)[k]));
                }
            }
            self.add_packed_m31(&row);
            proof {
                ClaimGenerator::lemma_counted_from_compose(
                    self,
                    &mid,
                    &start,
                    flatten_rows(inputs@.take(p as int)),
                    row@,
                );
            }
            p = p + 1;
        }
        assert(inputs@.take(inputs@.len() as int) =~= inputs@);
    }
}

impl ClaimGenerator {
    /// Word `j` of the value that the encoded id `x` names.
    fn value_word(&self, x: u32, j: usize) -> (w: u32)
        requires
            self.in_table(x),
            j < 8,
        ensures
            w == self.value_words(decode_spec(x))[j as int],
    {
        match EncodedMemoryValueId(x).decode() {
            MemoryValueId::F252(id) => self.big_values[id as usize][j],
            MemoryValueId::Small(id) => {
                if j >= 4 {
                    0
                } else {
                    let small = self.small_values[id as usize];
                    u128_to_4_limbs(small)[j]
                }
            },
            MemoryValueId::MemoryRelocatable(id) => {
                if j >= 2 {
                    0
                } else {
                    self.relocatable_values[id as usize][1 - j]
                }
            },
            MemoryValueId::Empty => 0,
        }
    }

    /// The limbs of the 16 values whose encoded ids are the lanes of `ids`.
    pub fn deduce_output(&self, ids: &[u32; 16]) -> (out: PackedFelt252)
        requires
            self.wf(),
            self.valid_inputs(ids@),
        ensures
            forall|k: int, y: int|
                0 <= k < 28 && 0 <= y < 16 ==> #[trigger] out.value[k][y] as nat == felt_limb(
                    self.value_words(decode_spec(ids[y])),
                    k as nat,
                ),
    {
        let mut words = [[0u32; 16]; 8];
        let mut j: usize = 0;
        while j < 8
            invariant
                j <= 8,
                self.valid_inputs(ids@),
                forall|a: int, y: int|
                    0 <= a < j && 0 <= y < 16 ==> #[trigger] words[a][y] == self.value_words(
                        decode_spec(ids[y]),
                    )[a],
            decreases 8 - j,
        {
            let mut row = [0u32; 16];
            let mut y: usize = 0;
            while y < 16
                invariant
                    y <= 16,
                    j < 8,
                    self.valid_inputs(ids@),
                    forall|b: int|
                        0 <= b < y ==> #[trigger] row[b] == self.value_words(decode_spec(ids[b]))[j as int],
                decreases 16 - y,
            {
                assert(self.in_table(ids@[y as int]));
                row[y] = self.value_word(ids[y], j);
                y = y + 1;
            }
            words[j] = row;
            j = j + 1;
        }
        proof {
            assert forall|y: int| 0 <= y < 16 implies #[trigger] lane_words(words, y)
                == self.value_words(decode_spec(ids[y])) by {
                assert(self.in_table(ids@[y]));
                assert(lane_words(words, y) =~= self.value_words(decode_spec(ids[y])));
            }
        }
        PackedFelt252 { value: split_f252_simd(&words) }
    }
}

/// The sizes of the tables' traces: `2^log` rows of M31 values each.
pub struct Claim {
    pub big_log_sizes: Vec<u32>,
    pub small_log_size: u32,
    pub relocatable_log_size: u32,
}

/// The trace columns that the interaction trace is computed from.
pub struct InteractionClaimGenerator {
    /// Per large-value table, its 28 limb columns.
    pub big_components_values: Vec<Vec<Vec<[u32; 16]>>>,
    pub big_ids: Vec<Vec<[u32; 16]>>,
    pub big_multiplicities: Vec<Vec<[u32; 16]>>,
    /// The 8 limb columns of the small-value table.
    pub small_values: Vec<Vec<[u32; 16]>>,
    pub small_ids: Vec<[u32; 16]>,
    pub small_multiplicities: Vec<[u32; 16]>,
    /// The limb columns of the relocatable-value table.
    pub relocatable_values: Vec<Vec<[u32; 16]>>,
    pub relocatable_ids: Vec<[u32; 16]>,
    pub relocatable_multiplicities: Vec<[u32; 16]>,
}

/// What writing the trace produces: the claim, the columns for the
/// interaction trace, the trace columns of each table, and for each of the
/// eight 9-bit-pair range checks the pairs of packed limbs it must count.
pub struct TraceOutput {
    pub claim: Claim,
    pub interaction_claim_generator: InteractionClaimGenerator,
    pub big_traces: Vec<Vec<BaseColumn>>,
    pub small_trace: Vec<BaseColumn>,
    pub relocatable_trace: Vec<BaseColumn>,
    pub range_check_inputs: Vec<Vec<([u32; 16], [u32; 16])>>,
}

/// The range-check inputs that check `g` gets from all tables: the limb
/// pairs of the large-value tables (pair `p` to check `p % 8`), of the
/// small-value table (pair `p` to check `p % 4`), and of the relocatable-value
/// table (all to check 0).
pub open spec fn all_pair_inputs(
    big_traces: Seq<Vec<BaseColumn>>,
    small_trace: Seq<BaseColumn>,
    relocatable_trace: Seq<BaseColumn>,
    g: nat,
) -> Seq<([u32; 16], [u32; 16])> {
    big_pair_inputs(big_traces, big_traces.len(), g) + pair_inputs(small_trace, 4, 4, g)
        + pair_inputs(relocatable_trace, 4, 1, g)
}

/// A copy of a list of packed rows.
fn copy_rows(v: &Vec<[u32; 16]>) -> (r: Vec<[u32; 16]>)
    ensures
        r@ == v@,
{
    let mut r: Vec<[u32; 16]> = Vec::new();
    let mut i: usize = 0;
    while i < v.len()
        invariant
            i <= v@.len(),
            r@ == v@.take(i as int),
        decreases v@.len() - i,
    {
        r.push(v[i]);
        assert(v@.take(i + 1) =~= v@.take(i as int).push(v@[i as int]));
        i = i + 1;
    }
    assert(v@.take(v@.len() as int) =~= v@);
    r
}

/// Copies of the data of columns `0 .. n` of `cols`.
fn copy_columns(cols: &Vec<BaseColumn>, n: usize) -> (r: Vec<Vec<[u32; 16]>>)
    requires
        n <= cols@.len(),
    ensures
        r@.len() == n,
        forall|j: int| 0 <= j < n ==> #[trigger] r@[j]@ == cols@[j].data@,
{
    let mut r: Vec<Vec<[u32; 16]>> = Vec::new();
    let mut j: usize = 0;
    while j < n
        invariant
            j <= n <= cols@.len(),
            r@.len() == j,
            forall|a: int| 0 <= a < j ==> #[trigger] r@[a]@ == cols@[a].data@,
        decreases n - j,
    {
        r.push(copy_rows(&cols[j].data));
        j = j + 1;
    }
    r
}

/// Concatenations of 9-bit pairs are 9-bit.
proof fn lemma_pairs_9_bit_append(a: Seq<([u32; 16], [u32; 16])>, b: Seq<([u32; 16], [u32; 16])>)
    requires
        pairs_are_9_bit(a),
        pairs_are_9_bit(b),
    ensures
        pairs_are_9_bit(a + b),
{
    assert forall|q: int, l: int| 0 <= q < (a + b).len() && 0 <= l < 16 implies #[trigger] (a
        + b)[q].0[l] < 512 && (a + b)[q].1[l] < 512 by {
        if q >= a.len() {
            assert((a + b)[q] == b[q - a.len()]);
            assert(b[q - a.len()].0[l] < 512 && b[q - a.len()].1[l] < 512);
        } else {
            assert((a + b)[q] == a[q]);
            assert(a[q].0[l] < 512 && a[q].1[l] < 512);
        }
    }
}

/// The large-value tables' pairs are 9-bit.
proof fn lemma_big_pairs_9_bit(traces: Seq<Vec<BaseColumn>>, n: nat, g: nat)
    requires
        n <= traces.len(),
        forall|c: int|
            0 <= c < traces.len() ==> #[trigger] crate::trace::limbs_are_9_bit(traces[c]@, 28)
                && traces[c]@.len() >= 28,
    ensures
        pairs_are_9_bit(big_pair_inputs(traces, n, g)),
    decreases n,
{
    if n == 0 {
        assert(pairs_are_9_bit(Seq::empty()));
    } else {
        lemma_big_pairs_9_bit(traces, (n - 1) as nat, g);
        assert(crate::trace::limbs_are_9_bit(traces[n - 1]@, 28));
        lemma_pair_inputs_9_bit(traces[n - 1]@, 14, 8, g);
        lemma_pairs_9_bit_append(
            big_pair_inputs(traces, (n - 1) as nat, g),
            pair_inputs(traces[n - 1]@, 14, 8, g),
        );
    }
}

impl ClaimGenerator {
    /// Writes the traces of the three tables and gathers what follows from
    /// them: the claim (the log sizes of the traces), the columns the
    /// interaction trace is computed from, and, for each 9-bit-pair range
    /// check, the pairs of limbs it must count (every limb is checked to be 9-bit).
    pub fn write_trace(self, log_max_big_size: u32) -> (out: TraceOutput)
        requires
            self.wf(),
            4 <= log_max_big_size < usize::BITS,
            big_chunks_fit(
                self.big_table(),
                count_rows(self.big_counts()),
                pow2(log_max_big_size as nat),
            ),
        ensures
            are_big_table_traces(
                out.big_traces@,
                self.big_table(),
                count_rows(self.big_counts()),
                pow2(log_max_big_size as nat),
            ),
            is_table_trace(
                out.small_trace@,
                |e: int| small_words(self.small_table()[e]),
                count_rows(self.small_counts()),
                short_trace_rows(self.small_table().len(), count_rows(self.small_counts())),
                8,
                trace_column_length(count_rows(self.small_counts())),
                trace_column_length(count_rows(self.small_counts())) * 16,
            ),
            is_table_trace(
                out.relocatable_trace@,
                |e: int| relocatable_words(self.relocatable_table()[e]),
                count_rows(self.relocatable_counts()),
                short_trace_rows(
                    self.relocatable_table().len(),
                    count_rows(self.relocatable_counts()),
                ),
                8,
                trace_column_length(count_rows(self.relocatable_counts())),
                trace_column_length(count_rows(self.relocatable_counts())) * 16,
            ),
            out.claim.big_log_sizes@.len() == out.big_traces@.len(),
            forall|c: int|
                0 <= c < out.big_traces@.len() ==> pow2(
                    #[trigger] out.claim.big_log_sizes@[c] as nat,
                ) == trace_column_length(
                    chunk_of(
                        count_rows(self.big_counts()),
                        c as nat,
                        pow2(log_max_big_size as nat) / 16,
                    ),
                ),
            pow2(out.claim.small_log_size as nat) == 16 * trace_column_length(
                count_rows(self.small_counts()),
            ),
            pow2(out.claim.relocatable_log_size as nat) == 16 * trace_column_length(
                count_rows(self.relocatable_counts()),
            ),
            out.interaction_claim_generator.big_components_values@.len() == out.big_traces@.len(),
            out.interaction_claim_generator.big_ids@.len() == out.big_traces@.len(),
            out.interaction_claim_generator.big_multiplicities@.len() == out.big_traces@.len(),
            forall|c: int, j: int|
                0 <= c < out.big_traces@.len() && 0 <= j < 28
                    ==> #[trigger] out.interaction_claim_generator.big_components_values@[c]@[j]@
                    == out.big_traces@[c]@[j].data@,
            forall|c: int|
                0 <= c < out.big_traces@.len() ==> {
                    &&& #[trigger] out.interaction_claim_generator.big_components_values@[c]@.len()
                        == 28
                    &&& out.interaction_claim_generator.big_ids@[c]@ == out.big_traces@[c]@[28].data@
                    &&& out.interaction_claim_generator.big_multiplicities@[c]@
                        == out.big_traces@[c]@[29].data@
                },
            out.interaction_claim_generator.small_values@.len() == 8,
            forall|j: int|
                0 <= j < 8 ==> #[trigger] out.interaction_claim_generator.small_values@[j]@
                    == out.small_trace@[j].data@,
            out.interaction_claim_generator.small_ids@ == out.small_trace@[8].data@,
            out.interaction_claim_generator.small_multiplicities@ == out.small_trace@[9].data@,
            out.interaction_claim_generator.relocatable_values@.len() == 8,
            forall|j: int|
                0 <= j < 8 ==> #[trigger] out.interaction_claim_generator.relocatable_values@[j]@
                    == out.relocatable_trace@[j].data@,
            out.interaction_claim_generator.relocatable_ids@ == out.relocatable_trace@[8].data@,
            out.interaction_claim_generator.relocatable_multiplicities@
                == out.relocatable_trace@[9].data@,
            out.range_check_inputs@.len() == 8,
            forall|g: int|
                0 <= g < 8 ==> #[trigger] out.range_check_inputs@[g]@ == all_pair_inputs(
                    out.big_traces@,
                    out.small_trace@,
                    out.relocatable_trace@,
                    g as nat,
                ),
            forall|g: int| 0 <= g < 8 ==> pairs_are_9_bit(#[trigger] out.range_check_inputs@[g]@),
    {
        let ghost big_table = self.big_table();
        let ghost big_counts = self.big_counts();
        let ghost small_table = self.small_table();
        let ghost small_counts = self.small_counts();
        let ghost relocatable_table = self.relocatable_table();
        let ghost relocatable_counts = self.relocatable_counts();
        let ghost max = pow2(log_max_big_size as nat);
        let big_rows = self.big_mults.into_simd_vec();
        let small_rows = self.small_mults.into_simd_vec();
        let relocatable_rows = self.relocatable_mults.into_simd_vec();
        let big_traces = gen_big_memory_traces(self.big_values, big_rows, log_max_big_size);
        let small_trace = gen_small_memory_trace(self.small_values, small_rows);
        let relocatable_trace = gen_relocatable_memory_trace(
            &self.relocatable_values,
            &relocatable_rows,
        );
        let ghost small_rows_v = count_rows(small_counts);
        let ghost relocatable_rows_v = count_rows(relocatable_counts);
        let ghost big_rows_v = count_rows(big_counts);
        // Lookup data.
        let mut big_components_values: Vec<Vec<Vec<[u32; 16]>>> = Vec::new();
        let mut big_ids: Vec<Vec<[u32; 16]>> = Vec::new();
        let mut big_multiplicities: Vec<Vec<[u32; 16]>> = Vec::new();
        let mut big_log_sizes: Vec<u32> = Vec::new();
        let mut c: usize = 0;
        while c < big_traces.len()
            invariant
                c <= big_traces@.len(),
                are_big_table_traces(big_traces@, big_table, big_rows_v, max),
                big_components_values@.len() == c,
                big_ids@.len() == c,
                big_multiplicities@.len() == c,
                big_log_sizes@.len() == c,
                forall|d: int, j: int|
                    0 <= d < c && 0 <= j < 28 ==> #[trigger] big_components_values@[d]@[j]@
                        == big_traces@[d]@[j].data@,
                forall|d: int| 0 <= d < c ==> #[trigger] big_components_values@[d]@.len() == 28,
                forall|d: int|
                    0 <= d < c ==> #[trigger] big_ids@[d]@ == big_traces@[d]@[28].data@,
                forall|d: int|
                    0 <= d < c ==> #[trigger] big_multiplicities@[d]@ == big_traces@[d]@[29].data@,
                forall|d: int|
                    0 <= d < c ==> pow2(#[trigger] big_log_sizes@[d] as nat) == trace_column_length(
                        chunk_of(big_rows_v, d as nat, max / 16),
                    ),
            decreases big_traces@.len() - c,
        {
            let trace = &big_traces[c];
            let ghost m = chunk_of(big_rows_v, c as nat, max / 16);
            assert(is_table_trace(
                big_traces@[c as int]@,
                |e: int| elem_words_of_chunk(big_table, c as nat, max, e),
                m,
                crate::trace::big_trace_rows(m),
                28,
                trace_column_length(m),
                trace_column_length(m),
            ));
            assert(trace@[0].length == trace_column_length(m));
            big_components_values.push(copy_columns(trace, 28));
            big_ids.push(copy_rows(&trace[28].data));
            big_multiplicities.push(copy_rows(&trace[29].data));
            proof {
                crate::trace::lemma_next_pow2_positive(m);
            }
            let log = ilog2(trace[0].length);
            proof {
                lemma_next_pow2_is_pow2(crate::trace::nonzero_rows(m));
                lemma_pow2_log(trace_column_length(m), log as nat);
            }
            big_log_sizes.push(log);
            c = c + 1;
        }
        proof {
            crate::trace::lemma_next_pow2_positive(small_rows_v);
            crate::trace::lemma_next_pow2_positive(relocatable_rows_v);
            lemma_next_pow2_is_pow2(crate::trace::nonzero_rows(small_rows_v));
            lemma_next_pow2_is_pow2(crate::trace::nonzero_rows(relocatable_rows_v));
            lemma_is_pow2_times_16(trace_column_length(small_rows_v));
            lemma_is_pow2_times_16(trace_column_length(relocatable_rows_v));
            assert(small_trace@[0].length == trace_column_length(small_rows_v) * 16);
            assert(relocatable_trace@[0].length == trace_column_length(relocatable_rows_v) * 16);
        }
        let small_log_size = ilog2(small_trace[0].len());
        let relocatable_log_size = ilog2(relocatable_trace[0].len());
        proof {
            lemma_pow2_log(16 * trace_column_length(small_rows_v), small_log_size as nat);
            lemma_pow2_log(16 * trace_column_length(relocatable_rows_v), relocatable_log_size as nat);
        }
        let small_values = copy_columns(&small_trace, 8);
        let small_ids = copy_rows(&small_trace[8].data);
        let small_multiplicities = copy_rows(&small_trace[9].data);
        let relocatable_values = copy_columns(&relocatable_trace, 8);
        let relocatable_ids = copy_rows(&relocatable_trace[8].data);
        let relocatable_multiplicities = copy_rows(&relocatable_trace[9].data);
        // Inputs of the range checks: every limb is 9-bit.
        let mut range_check_inputs: Vec<Vec<([u32; 16], [u32; 16])>> = Vec::new();
        let mut g: usize = 0;
        while g < 8
            invariant
                g <= 8,
                are_big_table_traces(big_traces@, big_table, big_rows_v, max),
                small_trace@.len() == 10,
                relocatable_trace@.len() == 10,
                range_check_inputs@.len() == g,
                forall|h: int|
                    0 <= h < g ==> #[trigger] range_check_inputs@[h]@ == all_pair_inputs(
                        big_traces@,
                        small_trace@,
                        relocatable_trace@,
                        h as nat,
                    ),
            decreases 8 - g,
        {
            let mut list: Vec<([u32; 16], [u32; 16])> = Vec::new();
            let mut t: usize = 0;
            while t < big_traces.len()
                invariant
                    t <= big_traces@.len(),
                    are_big_table_traces(big_traces@, big_table, big_rows_v, max),
                    list@ == big_pair_inputs(big_traces@, t as nat, g as nat),
                decreases big_traces@.len() - t,
            {
                let ghost m = chunk_of(big_rows_v, t as nat, max / 16);
                assert(is_table_trace(
                    big_traces@[t as int]@,
                    |e: int| elem_words_of_chunk(big_table, t as nat, max, e),
                    m,
                    crate::trace::big_trace_rows(m),
                    28,
                    trace_column_length(m),
                    trace_column_length(m),
                ));
                push_pair_inputs(&mut list, &big_traces[t], 14, 8, g);
                t = t + 1;
            }
            push_pair_inputs(&mut list, &small_trace, 4, 4, g);
            push_pair_inputs(&mut list, &relocatable_trace, 4, 1, g);
            range_check_inputs.push(list);
            g = g + 1;
        }
        proof {
            assert forall|c: int| 0 <= c < big_traces@.len() implies #[trigger] crate::trace::limbs_are_9_bit(
                big_traces@[c]@,
                28,
            ) && big_traces@[c]@.len() >= 28 by {
                let m = chunk_of(big_rows_v, c as nat, max / 16);
                lemma_table_trace_9_bit(
                    big_traces@[c]@,
                    |e: int| elem_words_of_chunk(big_table, c as nat, max, e),
                    m,
                    crate::trace::big_trace_rows(m),
                    28,
                    trace_column_length(m),
                    trace_column_length(m),
                );
            }
            lemma_table_trace_9_bit(
                small_trace@,
                |e: int| small_words(small_table[e]),
                small_rows_v,
                short_trace_rows(small_table.len(), small_rows_v),
                8,
                trace_column_length(small_rows_v),
                trace_column_length(small_rows_v) * 16,
            );
            lemma_table_trace_9_bit(
                relocatable_trace@,
                |e: int| relocatable_words(relocatable_table[e]),
                relocatable_rows_v,
                short_trace_rows(relocatable_table.len(), relocatable_rows_v),
                8,
                trace_column_length(relocatable_rows_v),
                trace_column_length(relocatable_rows_v) * 16,
            );
            assert forall|g: int| 0 <= g < 8 implies pairs_are_9_bit(
                #[trigger] range_check_inputs@[g]@,
            ) by {
                lemma_big_pairs_9_bit(big_traces@, big_traces@.len(), g as nat);
                lemma_pair_inputs_9_bit(small_trace@, 4, 4, g as nat);
                lemma_pair_inputs_9_bit(relocatable_trace@, 4, 1, g as nat);
                lemma_pairs_9_bit_append(
                    big_pair_inputs(big_traces@, big_traces@.len(), g as nat),
                    pair_inputs(small_trace@, 4, 4, g as nat),
                );
                lemma_pairs_9_bit_append(
                    big_pair_inputs(big_traces@, big_traces@.len(), g as nat) + pair_inputs(
                        small_trace@,
                        4,
                        4,
                        g as nat,
                    ),
                    pair_inputs(relocatable_trace@, 4, 1, g as nat),
                );
            }
        }
        TraceOutput {
            claim: Claim { big_log_sizes, small_log_size, relocatable_log_size },
            interaction_claim_generator: InteractionClaimGenerator {
                big_components_values,
                big_ids,
                big_multiplicities,
                small_values,
                small_ids,
                small_multiplicities,
                relocatable_values,
                relocatable_ids,
                relocatable_multiplicities,
            },
            big_traces,
            small_trace,
            relocatable_trace,
            range_check_inputs,
        }
    }
}

/// Words of entry `e` of chunk `c` of the large-value table.
pub open spec fn elem_words_of_chunk(values: Seq<[u32; 8]>, c: nat, max: nat, e: int) -> Seq<u32> {
    crate::trace::elem_words(chunk_of(values, c, max), e)
}

/// The lanes of the first `n` rows are a prefix of the lanes of all rows.
proof fn lemma_flatten_prefix(rows: Seq<[u32; 16]>, n: nat)
    requires
        n <= rows.len(),
    ensures
        flatten_rows(rows.take(n as int)).len() == 16 * n,
        flatten_rows(rows).len() == 16 * rows.len(),
        forall|k: int|
            0 <= k < 16 * n ==> #[trigger] flatten_rows(rows.take(n as int))[k] == flatten_rows(
                rows,
            )[k],
    decreases rows.len(),
{
    if rows.len() > 0 {
        let init = rows.drop_last();
        if n == rows.len() {
            assert(rows.take(n as int) =~= rows);
            lemma_flatten_prefix(init, 0);
        } else {
            lemma_flatten_prefix(init, n);
            assert(init.take(n as int) =~= rows.take(n as int));
        }
    } else {
        assert(rows.take(0) =~= rows);
    }
}

} // verus!
