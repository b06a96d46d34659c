//! Trace columns of packed M31 values, and the multiplicity counters that
//! record how often each table row is looked up.
use vstd::prelude::*;

verus! {

/// Number of M31 values in a packed row.
pub const N_LANES: usize = 16;

/// `log2(N_LANES)`.
pub const LOG_N_LANES: u32 = 4;

/// Whether every lane of a packed row is zero.
pub open spec fn is_zero_row(r: [u32; 16]) -> bool {
    forall|l: int| 0 <= l < 16 ==> r[l] == 0
}

/// `ceil(n / 16)`: the packed rows needed for `n` values.
pub open spec fn packed_rows(n: nat) -> nat {
    (n + 15) / 16
}

/// Whether a packed row is zero (`PackedM31::is_zero`).
pub fn row_is_zero(r: &[u32; 16]) -> (b: bool)
    ensures
        b == is_zero_row(*r),
{
    let mut l: usize = 0;
    while l < 16
        invariant
            l <= 16,
            forall|m: int| 0 <= m < l ==> r[m] == 0,
        decreases 16 - l,
    {
        if r[l] != 0 {
            return false;
        }
        l = l + 1;
    }
    true
}

/// A column of `length` M31 values, held as packed rows of 16 lanes.
pub struct BaseColumn {
    pub data: Vec<[u32; 16]>,
    pub length: usize,
}

impl BaseColumn {
    /// A column of `length` zeros, in `ceil(length / 16)` packed rows.
    pub fn zeros(length: usize) -> (c: BaseColumn)
        ensures
            c.length == length,
            c.data@.len() == packed_rows(length as nat),
            forall|i: int| 0 <= i < c.data@.len() ==> is_zero_row(#[trigger] c.data@[i]),
    {
        let rows = length / 16 + if length % 16 == 0 {
            0
        } else {
            1
        };
        let mut data: Vec<[u32; 16]> = Vec::new();
        let mut i: usize = 0;
        while i < rows
            invariant
                i <= rows,
                data@.len() == i,
                forall|j: int| 0 <= j < i ==> is_zero_row(#[trigger] data@[j]),
            decreases rows - i,
        {
            data.push([0u32; 16]);
            i = i + 1;
        }
        BaseColumn { data, length }
    }

    /// A column made of the given packed rows (`BaseColumn::from_simd`).
    pub fn from_simd(values: Vec<[u32; 16]>) -> (c: BaseColumn)
        requires
            values@.len() * 16 <= usize::MAX,
        ensures
            c.data@ == values@,
            c.length == values@.len() * 16,
    {
        let length = values.len() * 16;
        BaseColumn { data: values, length }
    }

    /// The number of values in the column.
    pub fn len(&self) -> (n: usize)
        ensures
            n == self.length,
    {
        self.length
    }
}

/// Counter `i`, or zero past the end.
pub open spec fn count_at(c: Seq<u32>, i: int) -> u32 {
    if 0 <= i < c.len() {
        c[i]
    } else {
        0
    }
}

/// Counters `16 r .. 16 r + 16` as a packed row, zero past the end.
pub open spec fn count_row(c: Seq<u32>, r: int) -> [u32; 16] {
    [
        count_at(c, 16 * r),
        count_at(c, 16 * r + 1),
        count_at(c, 16 * r + 2),
        count_at(c, 16 * r + 3),
        count_at(c, 16 * r + 4),
        count_at(c, 16 * r + 5),
        count_at(c, 16 * r + 6),
        count_at(c, 16 * r + 7),
        count_at(c, 16 * r + 8),
        count_at(c, 16 * r + 9),
        count_at(c, 16 * r + 10),
        count_at(c, 16 * r + 11),
        count_at(c, 16 * r + 12),
        count_at(c, 16 * r + 13),
        count_at(c, 16 * r + 14),
        count_at(c, 16 * r + 15),
    ]
}

/// The counters as packed rows, the last one padded with zeros.
pub open spec fn count_rows(c: Seq<u32>) -> Seq<[u32; 16]> {
    Seq::new(packed_rows(c.len()), |r: int| count_row(c, r))
}

/// Lane `l` of `count_row(c, r)` is counter `16 r + l`.
pub proof fn lemma_count_row(c: Seq<u32>, r: int, l: int)
    requires
        0 <= l < 16,
    ensures
        count_row(c, r)[l] == count_at(c, 16 * r + l),
{
}

/// A counter per table row of how many times the row was looked up.
pub struct MultiplicityColumn {
    data: Vec<u32>,
}

impl View for MultiplicityColumn {
    type V = Seq<u32>;

    closed spec fn view(&self) -> Seq<u32> {
        self.data@
    }
}

/// One more, wrapping around at `2^32` as an atomic counter does.
pub open spec fn wrapping_inc(x: u32) -> u32 {
    ((x + 1) % 0x1_0000_0000) as u32
}

impl MultiplicityColumn {
    /// `size` counters, all zero.
    pub fn new(size: usize) -> (c: MultiplicityColumn)
        ensures
            c@ == Seq::new(size as nat, |i: int| 0u32),
    {
        let mut data: Vec<u32> = Vec::new();
        let mut i: usize = 0;
        while i < size
            invariant
                i <= size,
                data@ == Seq::new(i as nat, |j: int| 0u32),
            decreases size - i,
        {
            data.push(0);
            i = i + 1;
        }
        MultiplicityColumn { data }
    }

    /// The number of counters.
    pub fn len(&self) -> (n: usize)
        ensures
            n == self@.len(),
    {
        self.data.len()
    }

    /// Counts one more lookup of row `address`.
    pub fn increase_at(&mut self, address: u32)
        requires
            (address as int) < old(self)@.len(),
        ensures
            final(self)@ == old(self)@.update(address as int, wrapping_inc(old(self)@[address as int])),
    {
        let a = address as usize;
        let v = self.data[a];
        let nv = if v == u32::MAX {
            0
        } else {
            v + 1
        };
        self.data.set(a, nv);
    }

    /// The counters as packed rows, the last row padded with zeros.
    pub fn into_simd_vec(self) -> (rows: Vec<[u32; 16]>)
        ensures
            rows@ == count_rows(self@),
            rows@.len() == packed_rows(self@.len()),
            forall|r: int, l: int|
                0 <= r < rows@.len() && 0 <= l < 16 ==> #[trigger] rows@[r][l] == (if 16 * r + l
                    < self@.len() {
                    self@[16 * r + l]
                } else {
                    0
                }),
    {
        let n = self.data.len();
        let mut rows: Vec<[u32; 16]> = Vec::new();
        let mut r: usize = 0;
        let n_rows = n / 16 + if n % 16 == 0 {
            0
        } else {
            1
        };
        while r < n_rows
            invariant
                n == self@.len(),
                n_rows == packed_rows(n as nat),
                r <= n_rows,
                rows@.len() == r,
                forall|q: int, l: int|
                    0 <= q < r && 0 <= l < 16 ==> #[trigger] rows@[q][l] == (if 16 * q + l < n {
                        self@[16 * q + l]
                    } else {
                        0
                    }),
            decreases n_rows - r,
        {
            let mut row = [0u32; 16];
            let mut l: usize = 0;
            while l < 16
                invariant
                    n == self@.len(),
                    r < n_rows,
                    n_rows == packed_rows(n as nat),
                    l <= 16,
                    forall|m: int| l <= m < 16 ==> row[m] == 0,
                    forall|m: int|
                        0 <= m < l ==> row[m] == (if 16 * r + m < n {
                            self@[16 * r + m]
                        } else {
                            0
                        }),
                decreases 16 - l,
            {
                if 16 * r + l < n {
                    row[l] = self.data[16 * r + l];
                }
                l = l + 1;
            }
            rows.push(row);
            r = r + 1;
        }
        proof {
            assert forall|q: int| 0 <= q < rows@.len() implies #[trigger] rows@[q] == count_rows(
                self@,
            )[q] by {
                assert forall|l: int| 0 <= l < 16 implies rows@[q][l] == count_row(self@, q)[l] by {
                    lemma_count_row(self@, q, l);
                }
                assert(rows@[q] =~= count_row(self@, q));
            }
            assert(rows@ =~= count_rows(self@));
        }
        rows
    }
}

} // verus!
