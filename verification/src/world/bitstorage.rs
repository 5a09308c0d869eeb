//! Packed bit storage.
//!
//! Entries of `bits` width are packed into `u64` cells, and an entry never
//! straddles two cells. That wastes `64 % bits` bits per cell but makes every
//! access a single load, shift and mask.
//!
//! # Why not just divide
//!
//! Locating an entry means dividing its index by the number of entries in a
//! cell, which is not a power of two for most widths (5 bits gives 12 per cell,
//! 6 gives 10). The divisor is turned into a multiply-and-shift at construction
//! time instead; [`law_reciprocal_division`] says that this is exact.

use vstd::prelude::*;

verus! {

/// Widths above this cannot be represented.
pub const MAX_BITS: u32 = 32;

/// The number of entries below which reciprocal division is exact.
pub const MAX_LEN: usize = 0x400_0000;

/// Entries of `bits` width in one cell.
pub open spec fn per_cell(bits: u32) -> int {
    64int / bits as int
}

/// Cells that hold `len` entries of `bits` width, the last perhaps in part.
pub open spec fn cells_for(len: int, bits: u32) -> int {
    if bits == 0 {
        0
    } else {
        (len + per_cell(bits) - 1) / per_cell(bits)
    }
}

/// A field of `bits` ones.
pub open spec fn mask_of(bits: u32) -> u64 {
    ((1u64 << bits) - 1) as u64
}

/// The place of entry `index` in its cell, in bits.
pub open spec fn offset_of(bits: u32, index: int) -> u32 {
    (index % per_cell(bits) * bits) as u32
}

/// The field of `bits` width at `offset` in a cell.
pub open spec fn field(cell: u64, offset: u32, bits: u32) -> u64 {
    (cell >> offset) & mask_of(bits)
}

/// A cell with the field at `offset` replaced.
pub open spec fn with_field(cell: u64, offset: u32, bits: u32, value: u64) -> u64 {
    (cell & !(mask_of(bits) << offset)) | (value << offset)
}

/// Entry `index` of packed cells.
pub open spec fn entry(cells: Seq<u64>, bits: u32, index: int) -> u32 {
    field(cells[index / per_cell(bits)], offset_of(bits, index), bits) as u32
}

/// The least whole number that is no less than 2^32 divided by `divisor`.
pub open spec fn reciprocal_of(divisor: int) -> int {
    (0x1_0000_0000 + divisor - 1) / divisor
}

/// A field of ones is no wider than an entry.
proof fn lemma_mask(cell: u64, bits: u32)
    by (bit_vector)
    requires
        1 <= bits <= 32,
    ensures
        (1u64 << bits) >= 1,
        mask_of(bits) <= 0xffff_ffff,
        cell & mask_of(bits) <= mask_of(bits),
        0 & mask_of(bits) == 0,
        mask_of(1) == 1,
        bits < 32 ==> mask_of((bits + 1) as u32) == 2 * mask_of(bits) + 1,
{
}

/// A shift in two steps is one shift.
proof fn lemma_shifts(cell: u64, offset: u32, bits: u32)
    requires
        offset + bits < 64,
    ensures
        (cell >> offset) >> bits == cell >> ((offset + bits) as u32),
        cell >> 0u32 == cell,
{
    vstd::bits::lemma_u64_shr_is_div(cell, 0);
    vstd::bits::lemma_u64_shr_is_div(cell, offset as u64);
    vstd::bits::lemma_u64_shr_is_div(cell >> offset, bits as u64);
    vstd::bits::lemma_u64_shr_is_div(cell, (offset + bits) as u64);
    vstd::arithmetic::power2::lemma2_to64();
    vstd::arithmetic::power2::lemma_pow2_pos(offset as nat);
    vstd::arithmetic::power2::lemma_pow2_pos(bits as nat);
    vstd::arithmetic::power2::lemma_pow2_adds(offset as nat, bits as nat);
    vstd::arithmetic::div_mod::lemma_div_denominator(
        cell as int,
        vstd::arithmetic::power2::pow2(offset as nat) as int,
        vstd::arithmetic::power2::pow2(bits as nat) as int,
    );
}

/// A replaced field is read back.
proof fn lemma_replaced(cell: u64, value: u64, offset: u32, bits: u32)
    by (bit_vector)
    requires
        1 <= bits <= 32,
        offset + bits <= 64,
        value <= mask_of(bits),
    ensures
        field(with_field(cell, offset, bits, value), offset, bits) == value,
{
}

/// A field beside a replaced one is untouched.
proof fn lemma_beside(cell: u64, value: u64, offset: u32, other: u32, bits: u32)
    by (bit_vector)
    requires
        1 <= bits <= 32,
        offset + bits <= 64,
        other + bits <= 64,
        value <= mask_of(bits),
        other + bits <= offset || offset + bits <= other,
    ensures
        field(with_field(cell, offset, bits, value), other, bits) == field(cell, other, bits),
{
}

/// Where an entry lies in its cell.
pub proof fn lemma_place(bits: u32, index: int)
    requires
        1 <= bits <= MAX_BITS,
        0 <= index,
    ensures
        2 <= per_cell(bits) <= 64,
        per_cell(bits) * bits <= 64,
        0 <= index % per_cell(bits) < per_cell(bits),
        index == per_cell(bits) * (index / per_cell(bits)) + index % per_cell(bits),
        0 <= index % per_cell(bits) * bits <= 64 - bits,
        offset_of(bits, index) == index % per_cell(bits) * bits,
        offset_of(bits, index) + bits <= 64,
{
    let d = per_cell(bits);
    assert(2 <= d <= 64 && d * bits <= 64) by (nonlinear_arith)
        requires
            1 <= bits <= 32,
            d == 64int / bits as int,
    ;
    vstd::arithmetic::div_mod::lemma_fundamental_div_mod(index, d);
    let k = index % d;
    assert(0 <= k * bits <= 64 - bits) by (nonlinear_arith)
        requires
            0 <= k < d,
            d * bits <= 64,
            1 <= bits,
    ;
}

/// Multiplying by the reciprocal and dropping 32 bits divides exactly.
pub proof fn law_reciprocal_division(index: int, divisor: int)
    requires
        0 <= index < MAX_LEN,
        1 <= divisor <= 64,
    ensures
        index * reciprocal_of(divisor) / 0x1_0000_0000 == index / divisor,
        0 < reciprocal_of(divisor) <= 0x1_0000_0000,
        index * reciprocal_of(divisor) < 0x400_0000_0000_0000,
{
    let m = reciprocal_of(divisor);
    let q = index / divisor;
    let r = index % divisor;
    let e = m * divisor - 0x1_0000_0000;
    vstd::arithmetic::div_mod::lemma_fundamental_div_mod(index, divisor);
    vstd::arithmetic::div_mod::lemma_fundamental_div_mod(0x1_0000_0000 + divisor - 1, divisor);
    assert(m * divisor == divisor * m) by (nonlinear_arith);
    assert(0 <= e < divisor);
    assert(0 < m <= 0x1_0000_0000) by (nonlinear_arith)
        requires
            1 <= divisor <= 64,
            0 <= e < divisor,
            e == m * divisor - 0x1_0000_0000,
    ;
    assert(q * divisor == divisor * q) by (nonlinear_arith);
    assert((q + 1) * divisor * e <= (0x400_0000 + 63) * 63) by (nonlinear_arith)
        requires
            q * divisor <= index < 0x400_0000,
            0 <= e < divisor <= 64,
            0 <= q,
    ;
    assert((q + 1) * e < m) by (nonlinear_arith)
        requires
            (q + 1) * divisor * e <= (0x400_0000 + 63) * 63,
            m * divisor == 0x1_0000_0000 + e,
            0 <= e,
            1 <= divisor,
    ;
    assert(r * m <= 0x1_0000_0000 + e - m) by (nonlinear_arith)
        requires
            0 <= r <= divisor - 1,
            m * divisor == 0x1_0000_0000 + e,
            0 < m,
    ;
    assert(index * m == q * 0x1_0000_0000 + (q * e + r * m)) by (nonlinear_arith)
        requires
            index == divisor * q + r,
            m * divisor == 0x1_0000_0000 + e,
    ;
    assert((q + 1) * e == q * e + e) by (nonlinear_arith);
    assert(0 <= q * e && 0 <= r * m) by (nonlinear_arith)
        requires
            0 <= q,
            0 <= e,
            0 <= r,
            0 < m,
    ;
    vstd::arithmetic::div_mod::lemma_fundamental_div_mod_converse(
        index * m,
        0x1_0000_0000,
        q,
        q * e + r * m,
    );
    assert(index * m < 0x400_0000_0000_0000) by (nonlinear_arith)
        requires
            0 <= index < 0x400_0000,
            0 < m <= 0x1_0000_0000,
    ;
}

/// The multiplier for reciprocal division.
#[inline]
pub fn reciprocal(divisor: u32) -> (magic: u64)
    requires
        divisor > 0,
    ensures
        magic == reciprocal_of(divisor as int),
{
    let d: u64 = divisor as u64;
    (0x1_0000_0000u64 + d - 1) / d
}

/// Cells needed to hold `len` entries of `bits` width.
#[must_use]
pub fn cells_required(len: usize, bits: u32) -> (cells: usize)
    requires
        bits <= 64,
    ensures
        cells == cells_for(len as int, bits),
{
    if bits == 0 {
        return 0;
    }
    let values_per_long: usize = (64 / bits) as usize;
    assert(values_per_long >= 1) by (nonlinear_arith)
        requires
            1 <= bits <= 64,
            values_per_long == 64int / bits as int,
    ;
    let full: usize = len / values_per_long;
    proof {
        let d = values_per_long as int;
        let r = len as int % d;
        vstd::arithmetic::div_mod::lemma_fundamental_div_mod(len as int, d);
        assert(full <= len) by (nonlinear_arith)
            requires
                full == len as int / d,
                d >= 1,
        ;
        if r == 0 {
            vstd::arithmetic::div_mod::lemma_fundamental_div_mod_converse(
                len as int + d - 1,
                d,
                full as int,
                d - 1,
            );
        } else {
            assert(d * (full + 1) == d * full + d) by (nonlinear_arith);
            vstd::arithmetic::div_mod::lemma_fundamental_div_mod_converse(
                len as int + d - 1,
                d,
                full + 1,
                r - 1,
            );
            assert(full < len) by (nonlinear_arith)
                requires
                    len == d * full + r,
                    r >= 1,
                    d >= 1,
                    full >= 0,
            ;
        }
    }
    if len % values_per_long == 0 {
        full
    } else {
        full + 1
    }
}

#[derive(Debug, PartialEq, Eq)]
pub struct BitStorage {
    data: Vec<u64>,
    len: usize,
    bits: u32,
    values_per_long: u32,
    /// Reciprocal of `values_per_long`, scaled by 2^32.
    magic: u64,
    mask: u64,
}

impl View for BitStorage {
    type V = Seq<u32>;

    /// The entries in index order.
    open spec fn view(&self) -> Seq<u32> {
        Seq::new(self.count(), |i: int| entry(self.cells(), self.width(), i))
    }
}

impl Clone for BitStorage {
    fn clone(&self) -> (copy: Self)
        ensures
            copy.same(*self),
    {
        let mut data: Vec<u64> = Vec::with_capacity(self.data.len());
        data.extend_from_slice(self.data.as_slice());
        assert(data@ =~= self.data@);
        BitStorage {
            data,
            len: self.len,
            bits: self.bits,
            values_per_long: self.values_per_long,
            magic: self.magic,
            mask: self.mask,
        }
    }
}

impl BitStorage {
    /// Two storages hold the same entries in the same cells, and both or neither
    /// are well formed.
    pub open spec fn same(&self, other: BitStorage) -> bool {
        &&& self.cells() == other.cells()
        &&& self.width() == other.width()
        &&& self.count() == other.count()
        &&& self.wf() == other.wf()
    }

    /// The packed cells.
    pub closed spec fn cells(&self) -> Seq<u64> {
        self.data@
    }

    /// Bits in an entry.
    pub closed spec fn width(&self) -> u32 {
        self.bits
    }

    /// How many entries there are.
    pub closed spec fn count(&self) -> nat {
        self.len as nat
    }

    /// The width is one that can be represented, and there are exactly as many
    /// cells as the entries need.
    pub closed spec fn wf(&self) -> bool {
        &&& 1 <= self.bits <= MAX_BITS
        &&& self.len < MAX_LEN
        &&& self.data@.len() == cells_for(self.len as int, self.bits)
        &&& self.values_per_long == per_cell(self.bits)
        &&& self.magic == reciprocal_of(per_cell(self.bits))
        &&& self.mask == mask_of(self.bits)
    }

    /// What every storage keeps.
    pub proof fn lemma_wf(&self)
        requires
            self.wf(),
        ensures
            1 <= self.width() <= MAX_BITS,
            self.count() < MAX_LEN,
            self.cells().len() == cells_for(self.count() as int, self.width()),
            self@.len() == self.count(),
            forall|i: int| 0 <= i < self@.len() ==> #[trigger] self@[i] <= mask_of(self.width()),
    {
        assert forall|i: int| 0 <= i < self@.len() implies #[trigger] self@[i] <= mask_of(
            self.width(),
        ) by {
            lemma_entry(self.cells(), self.width(), i);
        }
    }

    fn assemble(data: Vec<u64>, len: usize, bits: u32) -> (storage: Self)
        requires
            1 <= bits <= MAX_BITS,
            len < MAX_LEN,
            data@.len() == cells_for(len as int, bits),
        ensures
            storage.wf(),
            storage.cells() == data@,
            storage.count() == len,
            storage.width() == bits,
    {
        proof {
            lemma_place(bits, 0);
            lemma_mask(0, bits);
        }
        let values_per_long: u32 = 64 / bits;
        BitStorage {
            data,
            len,
            bits,
            values_per_long,
            magic: reciprocal(values_per_long),
            mask: (1u64 << bits) - 1,
        }
    }

    /// Creates zero-filled storage for `len` entries of `bits` width.
    #[must_use]
    pub fn new(len: usize, bits: u32) -> (storage: Self)
        requires
            0 < bits <= MAX_BITS,
            len < MAX_LEN,
        ensures
            storage.wf(),
            storage.width() == bits,
            storage.count() == len,
            storage.cells() == zero_cells(len as int, bits),
            storage@ == Seq::new(len as nat, |i: int| 0u32),
    {
        let cells: usize = cells_required(len, bits);
        let mut data: Vec<u64> = Vec::with_capacity(cells);
        let mut i: usize = 0;
        while i < cells
            invariant
                i <= cells,
                data@ == Seq::new(i as nat, |k: int| 0u64),
            decreases cells - i,
        {
            data.push(0);
            assert(data@ =~= Seq::new((i + 1) as nat, |k: int| 0u64));
            i += 1;
        }
        let storage = BitStorage::assemble(data, len, bits);
        assert forall|k: int| 0 <= k < len implies #[trigger] storage@[k] == 0 by {
            lemma_zero_cells(len as int, bits, k);
        }
        assert(storage@ =~= Seq::new(len as nat, |k: int| 0u32));
        storage
    }

    /// Wraps existing cells, as read from disk or the network.
    ///
    /// Returns `None` if `data` is not exactly the right length, which would
    /// otherwise show up later as silently truncated terrain.
    #[must_use]
    pub fn from_data(len: usize, bits: u32, data: Vec<u64>) -> (storage: Option<Self>)
        ensures
            storage is Some <==> 0 < bits <= MAX_BITS && len < MAX_LEN && data@.len() == cells_for(
                len as int,
                bits,
            ),
            storage matches Some(s) ==> s.wf() && s.cells() == data@ && s.count() == len
                && s.width() == bits,
    {
        if bits == 0 || bits > MAX_BITS || len >= MAX_LEN {
            return None;
        }
        if data.len() != cells_required(len, bits) {
            return None;
        }
        Some(BitStorage::assemble(data, len, bits))
    }

    #[inline]
    #[must_use]
    pub fn len(&self) -> (len: usize)
        requires
            self.wf(),
        ensures
            len == self@.len(),
    {
        self.len
    }

    #[inline]
    #[must_use]
    pub fn is_empty(&self) -> (empty: bool)
        requires
            self.wf(),
        ensures
            empty == (self@.len() == 0),
    {
        self.len == 0
    }

    /// The largest value that an entry can hold.
    #[inline]
    pub(crate) fn max_value(&self) -> (value: u32)
        requires
            self.wf(),
        ensures
            value == mask_of(self.width()),
    {
        proof {
            lemma_mask(0, self.bits);
        }
        self.mask as u32
    }

    #[inline]
    #[must_use]
    pub fn bits(&self) -> (bits: u32)
        ensures
            bits == self.width(),
    {
        self.bits
    }

    /// The raw cells, for serialization.
    #[inline]
    #[must_use]
    pub fn data(&self) -> (cells: &[u64])
        ensures
            cells@ == self.cells(),
    {
        self.data.as_slice()
    }

    /// Index of the cell holding entry `index`, via reciprocal multiplication.
    #[inline]
    fn cell_of(&self, index: usize) -> (cell: usize)
        requires
            self.wf(),
            index < self.count(),
        ensures
            cell == index as int / per_cell(self.width()),
            cell < self.cells().len(),
    {
        proof {
            lemma_place(self.bits, index as int);
            law_reciprocal_division(index as int, per_cell(self.bits));
            lemma_cell_in_range(self.len as int, self.bits, index as int);
            let product = (index as u64 * self.magic) as u64;
            vstd::bits::lemma_u64_shr_is_div(product, 32);
            vstd::arithmetic::power2::lemma2_to64();
        }
        ((index as u64 * self.magic) >> 32) as usize
    }

    /// The place of entry `index` in its cell.
    #[inline]
    fn offset_in(&self, index: usize, cell: usize) -> (offset: u32)
        requires
            self.wf(),
            index < self.count(),
            cell == index as int / per_cell(self.width()),
        ensures
            offset == offset_of(self.width(), index as int),
            offset + self.width() <= 64,
    {
        proof {
            lemma_place(self.bits, index as int);
            let d = self.values_per_long as int;
            assert(cell * d == d * cell) by (nonlinear_arith);
            assert(cell * d <= index);
        }
        let place: usize = index - cell * self.values_per_long as usize;
        place as u32 * self.bits
    }

    /// Reads entry `index`.
    #[inline]
    #[must_use]
    pub fn get(&self, index: usize) -> (value: u32)
        requires
            self.wf(),
            index < self@.len(),
        ensures
            value == self@[index as int],
    {
        let cell: usize = self.cell_of(index);
        let offset: u32 = self.offset_in(index, cell);
        ((self.data[cell] >> offset) & self.mask) as u32
    }

    /// Writes entry `index`, returning the previous value. No other entry
    /// changes, and no other cell.
    #[inline]
    pub fn set(&mut self, index: usize, value: u32) -> (previous: u32)
        requires
            old(self).wf(),
            index < old(self)@.len(),
            value <= mask_of(old(self).width()),
        ensures
            final(self).wf(),
            final(self).width() == old(self).width(),
            final(self).count() == old(self).count(),
            previous == old(self)@[index as int],
            final(self)@ == old(self)@.update(index as int, value),
            final(self).cells() == with_entry(
                old(self).cells(),
                old(self).width(),
                index as int,
                value,
            ),
    {
        let cell: usize = self.cell_of(index);
        let offset: u32 = self.offset_in(index, cell);
        let value64: u64 = value as u64;
        let word: u64 = self.data[cell];
        let previous: u64 = (word >> offset) & self.mask;
        self.data.set(cell, (word & !(self.mask << offset)) | (value64 << offset));
        proof {
            let before = old(self).cells();
            assert(self.cells() =~= with_entry(before, self.bits, index as int, value));
            lemma_with_entry(before, self.bits, self.len as int, index as int, value);
            assert(self@ =~= old(self)@.update(index as int, value));
        }
        previous as u32
    }

    /// Calls `f` for every entry in index order.
    ///
    /// Decodes a whole cell at a time rather than recomputing the cell index per
    /// entry.
    pub fn for_each<F: FnMut(usize, u32)>(&self, f: F)
        requires
            self.wf(),
            forall|i: int| 0 <= i < self@.len() ==> #[trigger] call_requires(
                f,
                (i as usize, self@[i]),
            ),
        ensures
            forall|i: int| 0 <= i < self@.len() ==> #[trigger] call_ensures(
                f,
                (i as usize, self@[i]),
                (),
            ),
    {
        let mut visit = f;
        let mut index: usize = 0;
        let mut cell: usize = 0;
        proof {
            lemma_place(self.bits, 0);
        }
        while cell < self.data.len()
            invariant
                self.wf(),
                visit == f,
                cell <= self.data@.len(),
                index <= self.len,
                2 <= self.values_per_long <= 64,
                index == cell * self.values_per_long || index == self.len,
                forall|i: int| 0 <= i < self@.len() ==> #[trigger] call_requires(
                    f,
                    (i as usize, self@[i]),
                ),
                forall|i: int| 0 <= i < index ==> #[trigger] call_ensures(
                    f,
                    (i as usize, self@[i]),
                    (),
                ),
            decreases self.data@.len() - cell,
        {
            let mut word: u64 = self.data[cell];
            let mut place: u32 = 0;
            proof {
                lemma_shifts(word, 0, 0);
                assert((cell + 1) * self.values_per_long == cell * self.values_per_long
                    + self.values_per_long) by (nonlinear_arith);
            }
            while place < self.values_per_long
                invariant
                    self.wf(),
                    visit == f,
                    cell < self.data@.len(),
                    place <= self.values_per_long <= 64,
                    index <= self.len,
                    index == self.len || index == cell * self.values_per_long + place,
                    index < self.len && place < self.values_per_long ==> word
                        == self.data@[cell as int] >> ((place * self.bits) as u32),
                    forall|i: int| 0 <= i < self@.len() ==> #[trigger] call_requires(
                        f,
                        (i as usize, self@[i]),
                    ),
                    forall|i: int| 0 <= i < index ==> #[trigger] call_ensures(
                        f,
                        (i as usize, self@[i]),
                        (),
                    ),
                decreases self.values_per_long - place,
            {
                if index < self.len {
                    proof {
                        let d = self.values_per_long as int;
                        assert(d * cell == cell * d) by (nonlinear_arith);
                        vstd::arithmetic::div_mod::lemma_fundamental_div_mod_converse(
                            index as int,
                            d,
                            cell as int,
                            place as int,
                        );
                        lemma_place(self.bits, index as int);
                        let offset = offset_of(self.bits, index as int);
                        if offset + self.bits < 64 {
                            lemma_shifts(self.data@[cell as int], offset, self.bits);
                        }
                        assert((place + 1) * self.bits == place * self.bits + self.bits)
                            by (nonlinear_arith);
                        if place + 1 < self.values_per_long {
                            lemma_place(self.bits, place + 1);
                            vstd::arithmetic::div_mod::lemma_small_mod(
                                (place + 1) as nat,
                                d as nat,
                            );
                        }
                        assert(call_requires(f, (index as usize, self@[index as int])));
                    }
                    visit(index, (word & self.mask) as u32);
                    word = word >> self.bits;
                    index += 1;
                }
                place += 1;
            }
            cell += 1;
        }
        proof {
            lemma_all_covered(self.len as int, self.bits);
        }
    }

    /// Rebuilds at a new bit width, mapping each entry through `f`.
    ///
    /// Used when a palette grows past its current width, and when converting
    /// between indirect and direct representations.
    #[must_use]
    pub fn remap<F: FnMut(u32) -> u32>(&self, new_bits: u32, f: F) -> (out: Self)
        requires
            self.wf(),
            0 < new_bits <= MAX_BITS,
            forall|i: int| 0 <= i < self@.len() ==> #[trigger] call_requires(f, (self@[i],)),
            forall|i: int, v: u32|
                0 <= i < self@.len() && #[trigger] call_ensures(f, (self@[i],), v) ==> v <= mask_of(
                    new_bits,
                ),
        ensures
            out.wf(),
            out.width() == new_bits,
            out.count() == self.count(),
            out@.len() == self@.len(),
            forall|i: int| 0 <= i < self@.len() ==> call_ensures(
                f,
                (self@[i],),
                #[trigger] out@[i],
            ),
            out.cells() == packed(out@, new_bits, self@.len() as int),
    {
        let mut map = f;
        let mut out = BitStorage::new(self.len, new_bits);
        let mut index: usize = 0;
        assert(out@.take(0) =~= Seq::<u32>::empty());
        while index < self.len
            invariant
                self.wf(),
                map == f,
                out.cells() == packed(out@.take(index as int), new_bits, self.len as int),
                index <= self.len,
                out.wf(),
                out.width() == new_bits,
                out.count() == self.len,
                out@.len() == self.len,
                forall|i: int| 0 <= i < self@.len() ==> #[trigger] call_requires(f, (self@[i],)),
                forall|i: int, v: u32|
                    0 <= i < self@.len() && #[trigger] call_ensures(f, (self@[i],), v) ==> v
                        <= mask_of(new_bits),
                forall|i: int| 0 <= i < index ==> call_ensures(
                    f,
                    (self@[i],),
                    #[trigger] out@[i],
                ),
            decreases self.len - index,
        {
            let value: u32 = map(self.get(index));
            let ghost before = out@;
            let _ = out.set(index, value);
            assert(out@.take(index + 1).drop_last() =~= before.take(index as int));
            index += 1;
        }
        assert(out@.take(index as int) =~= out@);
        out
    }
}

/// Packed cells with entry `index` replaced.
pub open spec fn with_entry(cells: Seq<u64>, bits: u32, index: int, value: u32) -> Seq<u64> {
    let cell = index / per_cell(bits);
    cells.update(cell, with_field(cells[cell], offset_of(bits, index), bits, value as u64))
}

/// Cells without a bit set.
pub open spec fn zero_cells(len: int, bits: u32) -> Seq<u64> {
    Seq::new(cells_for(len, bits) as nat, |i: int| 0u64)
}

/// Cells with the first entries written in order over what was there.
pub open spec fn packed_over(base: Seq<u64>, entries: Seq<u32>, bits: u32) -> Seq<u64>
    decreases entries.len(),
{
    if entries.len() == 0 {
        base
    } else {
        with_entry(
            packed_over(base, entries.drop_last(), bits),
            bits,
            entries.len() - 1,
            entries.last(),
        )
    }
}

/// Cells for `len` entries with the first ones written in order, and no other
/// bit set.
pub open spec fn packed(entries: Seq<u32>, bits: u32, len: int) -> Seq<u64> {
    packed_over(zero_cells(len, bits), entries, bits)
}

/// Entries written over cells are read back, and every entry behind them is the
/// one that was there.
pub proof fn law_packed_over(
    base: Seq<u64>,
    entries: Seq<u32>,
    bits: u32,
    len: int,
    index: int,
)
    requires
        1 <= bits <= MAX_BITS,
        base.len() == cells_for(len, bits),
        entries.len() <= len,
        forall|i: int| 0 <= i < entries.len() ==> #[trigger] entries[i] <= mask_of(bits),
        0 <= index < len,
    ensures
        packed_over(base, entries, bits).len() == cells_for(len, bits),
        entry(packed_over(base, entries, bits), bits, index) == if index < entries.len() {
            entries[index]
        } else {
            entry(base, bits, index)
        },
    decreases entries.len(),
{
    lemma_cell_in_range(len, bits, index);
    if entries.len() > 0 {
        let before = packed_over(base, entries.drop_last(), bits);
        law_packed_over(base, entries.drop_last(), bits, len, index);
        lemma_cell_in_range(len, bits, entries.len() - 1);
        law_with_entry(before, bits, entries.len() - 1, entries.last(), index);
    }
}

/// Packed entries are read back.
pub proof fn law_packed(entries: Seq<u32>, bits: u32, len: int, index: int)
    requires
        1 <= bits <= MAX_BITS,
        entries.len() <= len,
        forall|i: int| 0 <= i < entries.len() ==> #[trigger] entries[i] <= mask_of(bits),
        0 <= index < len,
    ensures
        packed(entries, bits, len).len() == cells_for(len, bits),
        entry(packed(entries, bits, len), bits, index) == if index < entries.len() {
            entries[index]
        } else {
            0
        },
{
    lemma_zero_cells(len, bits, index);
    law_packed_over(zero_cells(len, bits), entries, bits, len, index);
}

/// Writing an entry that is already there changes no bit.
proof fn lemma_same_field(cell: u64, offset: u32, bits: u32)
    by (bit_vector)
    requires
        1 <= bits <= 32,
        offset + bits <= 64,
    ensures
        with_field(cell, offset, bits, field(cell, offset, bits)) == cell,
{
}

/// Writing the entries that are already there changes no bit.
pub proof fn law_packed_over_same(cells: Seq<u64>, entries: Seq<u32>, bits: u32, len: int)
    requires
        1 <= bits <= MAX_BITS,
        cells.len() == cells_for(len, bits),
        entries.len() <= len,
        forall|i: int| 0 <= i < entries.len() ==> #[trigger] entries[i] == entry(cells, bits, i),
    ensures
        packed_over(cells, entries, bits) == cells,
    decreases entries.len(),
{
    if entries.len() > 0 {
        let last = entries.len() - 1;
        law_packed_over_same(cells, entries.drop_last(), bits, len);
        assert(entries[last] == entry(cells, bits, last));
        lemma_cell_in_range(len, bits, last);
        lemma_place(bits, last);
        let cell = cells[last / per_cell(bits)];
        lemma_same_field(cell, offset_of(bits, last), bits);
        lemma_mask(cell >> offset_of(bits, last), bits);
        assert(with_entry(cells, bits, last, entries.last()) =~= cells);
    }
}

/// Cells without a bit set hold zeros.
pub proof fn lemma_zero_cells(len: int, bits: u32, index: int)
    requires
        1 <= bits <= MAX_BITS,
        0 <= index < len,
    ensures
        zero_cells(len, bits).len() == cells_for(len, bits),
        entry(zero_cells(len, bits), bits, index) == 0,
{
    lemma_cell_in_range(len, bits, index);
    lemma_place(bits, index);
    let offset = offset_of(bits, index);
    lemma_mask(0, bits);
    vstd::bits::lemma_u64_shr_is_div(0, offset as u64);
    vstd::arithmetic::power2::lemma_pow2_pos(offset as nat);
}

/// A field holds as many values as its width allows.
pub proof fn lemma_mask_is_power(bits: u32)
    requires
        1 <= bits <= MAX_BITS,
    ensures
        mask_of(bits) + 1 == vstd::arithmetic::power2::pow2(bits as nat),
        mask_of(bits) <= 0xffff_ffff,
        bits < MAX_BITS ==> mask_of((bits + 1) as u32) == 2 * mask_of(bits) + 1,
    decreases bits,
{
    lemma_mask(0, bits);
    vstd::arithmetic::power2::lemma2_to64();
    if bits > 1 {
        lemma_mask_is_power((bits - 1) as u32);
        lemma_mask(0, (bits - 1) as u32);
        vstd::arithmetic::power2::lemma_pow2_unfold(bits as nat);
    }
}

/// An entry fits its field.
pub proof fn lemma_entry(cells: Seq<u64>, bits: u32, index: int)
    requires
        1 <= bits <= MAX_BITS,
        0 <= index,
    ensures
        entry(cells, bits, index) <= mask_of(bits),
        mask_of(bits) <= 0xffff_ffff,
{
    lemma_mask(cells[index / per_cell(bits)] >> offset_of(bits, index), bits);
}

/// Every entry lies in a cell.
proof fn lemma_cell_in_range(len: int, bits: u32, index: int)
    requires
        1 <= bits <= MAX_BITS,
        0 <= index < len,
    ensures
        0 <= index / per_cell(bits) < cells_for(len, bits),
{
    lemma_place(bits, index);
    let d = per_cell(bits);
    let q = index / d;
    vstd::arithmetic::div_mod::lemma_fundamental_div_mod(len + d - 1, d);
    let n = cells_for(len, bits);
    assert(0 <= q < n) by (nonlinear_arith)
        requires
            d >= 2,
            0 <= index < len,
            index == d * q + index % d,
            0 <= index % d < d,
            len + d - 1 == d * n + (len + d - 1) % d,
            0 <= (len + d - 1) % d < d,
    ;
}

/// There are no more cells than entries.
pub proof fn lemma_cells_bound(len: int, bits: u32)
    requires
        1 <= bits <= MAX_BITS,
        0 <= len,
    ensures
        0 <= cells_for(len, bits) <= len,
{
    lemma_place(bits, 0);
    let d = per_cell(bits);
    vstd::arithmetic::div_mod::lemma_fundamental_div_mod(len + d - 1, d);
    let n = cells_for(len, bits);
    assert(0 <= n <= len) by (nonlinear_arith)
        requires
            d >= 2,
            0 <= len,
            len + d - 1 == d * n + (len + d - 1) % d,
            0 <= (len + d - 1) % d < d,
    ;
}

/// The cells hold at least as many entries as there are.
proof fn lemma_all_covered(len: int, bits: u32)
    requires
        1 <= bits <= MAX_BITS,
        0 <= len,
    ensures
        cells_for(len, bits) * per_cell(bits) >= len,
{
    lemma_place(bits, 0);
    let d = per_cell(bits);
    vstd::arithmetic::div_mod::lemma_fundamental_div_mod(len + d - 1, d);
    let n = cells_for(len, bits);
    assert(n * d == d * n) by (nonlinear_arith);
}

/// Replacing an entry changes that entry and no other: nothing bleeds into a
/// neighbour, in the same cell or in the next.
pub proof fn law_with_entry(cells: Seq<u64>, bits: u32, index: int, value: u32, other: int)
    requires
        1 <= bits <= MAX_BITS,
        0 <= index,
        0 <= other,
        index / per_cell(bits) < cells.len(),
        other / per_cell(bits) < cells.len(),
        value <= mask_of(bits),
    ensures
        entry(with_entry(cells, bits, index, value), bits, other) == if other == index {
            value
        } else {
            entry(cells, bits, other)
        },
{
    let d = per_cell(bits);
    let cell = index / d;
    lemma_place(bits, index);
    lemma_place(bits, other);
    let a = offset_of(bits, index);
    let b = offset_of(bits, other);
    lemma_replaced(cells[cell], value as u64, a, bits);
    assert(cell >= 0) by (nonlinear_arith)
        requires
            cell == index / d,
            index >= 0,
            d >= 2,
    ;
    if other / d == cell && other != index {
        let j = index % d;
        let k = other % d;
        assert(k * bits + bits <= j * bits || j * bits + bits <= k * bits) by (nonlinear_arith)
            requires
                j != k,
                bits >= 1,
        ;
        lemma_beside(cells[cell], value as u64, a, b, bits);
    }
}

/// Replacing an entry changes that entry and no other.
pub proof fn lemma_with_entry(cells: Seq<u64>, bits: u32, len: int, index: int, value: u32)
    requires
        1 <= bits <= MAX_BITS,
        0 <= index < len,
        cells.len() == cells_for(len, bits),
        value <= mask_of(bits),
    ensures
        with_entry(cells, bits, index, value).len() == cells.len(),
        forall|k: int|
            0 <= k < len ==> #[trigger] entry(with_entry(cells, bits, index, value), bits, k)
                == if k == index {
                value
            } else {
                entry(cells, bits, k)
            },
{
    lemma_cell_in_range(len, bits, index);
    assert forall|k: int| 0 <= k < len implies #[trigger] entry(
        with_entry(cells, bits, index, value),
        bits,
        k,
    ) == if k == index {
        value
    } else {
        entry(cells, bits, k)
    } by {
        lemma_cell_in_range(len, bits, k);
        law_with_entry(cells, bits, index, value, k);
    }
}

} // verus!
