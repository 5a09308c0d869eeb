//! Paletted containers, the representation that makes chunks small.
//!
//! Most 16x16x16 sections contain a handful of distinct blocks, so storing a full
//! registry id per block wastes an order of magnitude of memory and bandwidth.
//! Instead a container adapts between three representations:
//!
//! * **Single**: the whole section is one block. Costs no per-block storage at
//!   all, and covers the overwhelming majority of sections in a real world.
//! * **Indirect**: a small palette of ids, with each entry storing an index
//!   into it at the narrowest width that fits.
//! * **Direct**: registry ids stored inline, once a section is too varied for
//!   a palette to pay for itself.
//!
//! Promotion happens automatically on write and never reverses on its own;
//! [`PalettedContainer::shrink`] recomputes the minimal representation when it
//! is worth paying for, such as before saving or sending.

use vstd::prelude::*;

use crate::protocol::varint;
use crate::protocol::wire;
use crate::protocol::writer;
use crate::protocol::writer::PacketWrite;
use crate::world::bitstorage;
use crate::world::bitstorage::BitStorage;

verus! {

/// What a container holds, which fixes its size and palette thresholds.
#[derive(Debug, Clone, Copy, PartialEq, Eq, Structural)]
pub enum ContainerKind {
    /// 16x16x16 block states.
    Blocks,
    /// 4x4x4 biome cells within a section.
    Biomes,
}

/// Entries in a container.
pub open spec fn volume_of(kind: ContainerKind) -> int {
    match kind {
        ContainerKind::Blocks => 4096,
        ContainerKind::Biomes => 64,
    }
}

/// Narrowest width of a palette index.
pub open spec fn min_bits_of(kind: ContainerKind) -> u32 {
    match kind {
        ContainerKind::Blocks => 4,
        ContainerKind::Biomes => 1,
    }
}

/// Widest width of a palette index.
pub open spec fn max_bits_of(kind: ContainerKind) -> u32 {
    match kind {
        ContainerKind::Blocks => 8,
        ContainerKind::Biomes => 3,
    }
}

impl ContainerKind {
    #[must_use]
    pub fn volume(self) -> (volume: usize)
        ensures
            volume == volume_of(self),
    {
        match self {
            ContainerKind::Blocks => 16 * 16 * 16,
            ContainerKind::Biomes => 4 * 4 * 4,
        }
    }

    /// Narrowest indirect width. Blocks never use fewer than 4 bits, even when
    /// 1 would do.
    #[must_use]
    pub fn min_indirect_bits(self) -> (bits: u32)
        ensures
            bits == min_bits_of(self),
    {
        match self {
            ContainerKind::Blocks => 4,
            ContainerKind::Biomes => 1,
        }
    }

    /// Widest indirect width before switching to direct storage.
    #[must_use]
    pub fn max_indirect_bits(self) -> (bits: u32)
        ensures
            bits == max_bits_of(self),
    {
        match self {
            ContainerKind::Blocks => 8,
            ContainerKind::Biomes => 3,
        }
    }
}

/// How a container represents its entries.
pub enum Form {
    /// One id everywhere.
    Single(u32),
    /// Packed indices of `bits` width into a palette of ids.
    Indirect { palette: Seq<u32>, bits: u32, cells: Seq<u64> },
    /// Packed ids, at the width that the registry needs.
    Direct(Seq<u64>),
}

/// The first `len` entries of packed cells.
pub open spec fn entries(cells: Seq<u64>, bits: u32, len: int) -> Seq<u32> {
    Seq::new(len as nat, |i: int| bitstorage::entry(cells, bits, i))
}

/// The ids that a representation stands for.
pub open spec fn contents(kind: ContainerKind, direct_bits: u32, form: Form) -> Seq<u32> {
    match form {
        Form::Single(id) => Seq::new(volume_of(kind) as nat, |i: int| id),
        Form::Indirect { palette, bits, cells } => Seq::new(
            volume_of(kind) as nat,
            |i: int| palette[bitstorage::entry(cells, bits, i) as int],
        ),
        Form::Direct(cells) => entries(cells, direct_bits, volume_of(kind)),
    }
}

/// Every representation that a container can be in. A palette has no id twice,
/// fits its index width, and every index names an id of it.
pub open spec fn form_wf(kind: ContainerKind, direct_bits: u32, form: Form) -> bool {
    match form {
        Form::Single(_) => true,
        Form::Indirect { palette, bits, cells } => {
            &&& min_bits_of(kind) <= bits <= max_bits_of(kind)
            &&& 0 < palette.len() <= bitstorage::mask_of(bits) + 1
            &&& palette.no_duplicates()
            &&& cells.len() == bitstorage::cells_for(volume_of(kind), bits)
            &&& forall|i: int|
                0 <= i < volume_of(kind) ==> #[trigger] bitstorage::entry(cells, bits, i)
                    < palette.len()
        },
        Form::Direct(cells) => {
            &&& 1 <= direct_bits <= bitstorage::MAX_BITS
            &&& cells.len() == bitstorage::cells_for(volume_of(kind), direct_bits)
        },
    }
}

/// Every id is one that the direct representation can hold.
pub open spec fn all_fit(ids: Seq<u32>, direct_bits: u32) -> bool {
    &&& 1 <= direct_bits <= bitstorage::MAX_BITS
    &&& forall|i: int| 0 <= i < ids.len() ==> #[trigger] ids[i] <= bitstorage::mask_of(direct_bits)
}

/// Whether `value` can be written. While the container names its ids by a
/// palette, or is about to, any id can; once ids are stored inline, each must
/// fit the registry's width.
pub open spec fn accepts(kind: ContainerKind, direct_bits: u32, form: Form, value: u32) -> bool {
    match form {
        Form::Single(_) => true,
        Form::Indirect { palette, bits, .. } => {
            ||| palette.contains(value)
            ||| palette.len() <= bitstorage::mask_of(bits)
            ||| bits < max_bits_of(kind)
            ||| all_fit(contents(kind, direct_bits, form).push(value), direct_bits)
        },
        Form::Direct(_) => value <= bitstorage::mask_of(direct_bits),
    }
}

/// The representation after `value` was written at `index`.
pub open spec fn after_set(
    kind: ContainerKind,
    direct_bits: u32,
    form: Form,
    index: int,
    value: u32,
) -> Form {
    match form {
        Form::Single(id) => if id == value {
            form
        } else {
            // The old id takes slot 0, which zeroed cells already name.
            let bits = min_bits_of(kind);
            Form::Indirect {
                palette: seq![id, value],
                bits,
                cells: bitstorage::with_entry(
                    bitstorage::zero_cells(volume_of(kind), bits),
                    bits,
                    index,
                    1,
                ),
            }
        },
        Form::Indirect { palette, bits, cells } => {
            let next = palette.len() as u32;
            if palette.contains(value) {
                let slot = palette.index_of(value) as u32;
                Form::Indirect {
                    palette,
                    bits,
                    cells: bitstorage::with_entry(cells, bits, index, slot),
                }
            } else if palette.len() <= bitstorage::mask_of(bits) {
                Form::Indirect {
                    palette: palette.push(value),
                    bits,
                    cells: bitstorage::with_entry(cells, bits, index, next),
                }
            } else if bits < max_bits_of(kind) {
                let wider = (bits + 1) as u32;
                let slots = entries(cells, bits, volume_of(kind));
                Form::Indirect {
                    palette: palette.push(value),
                    bits: wider,
                    cells: bitstorage::with_entry(
                        bitstorage::packed(slots, wider, volume_of(kind)),
                        wider,
                        index,
                        next,
                    ),
                }
            } else {
                let ids = contents(kind, direct_bits, form);
                Form::Direct(
                    bitstorage::with_entry(
                        bitstorage::packed(ids, direct_bits, volume_of(kind)),
                        direct_bits,
                        index,
                        value,
                    ),
                )
            }
        },
        Form::Direct(cells) => Form::Direct(
            bitstorage::with_entry(cells, direct_bits, index, value),
        ),
    }
}

/// The ids that occur, each once, in the order in which they first do.
pub open spec fn distinct(ids: Seq<u32>) -> Seq<u32>
    decreases ids.len(),
{
    if ids.len() == 0 {
        Seq::empty()
    } else {
        let before = distinct(ids.drop_last());
        if before.contains(ids.last()) {
            before
        } else {
            before.push(ids.last())
        }
    }
}

/// The place of each id in a palette.
pub open spec fn slots_of(ids: Seq<u32>, palette: Seq<u32>) -> Seq<u32> {
    Seq::new(ids.len(), |i: int| palette.index_of(ids[i]) as u32)
}

/// Bits needed to tell `count` values apart, and at least one.
pub open spec fn index_bits(count: nat) -> nat
    decreases count,
{
    if count <= 2 {
        1
    } else {
        1 + index_bits((count + 1) / 2)
    }
}

/// The width of a palette of `count` ids.
pub open spec fn palette_bits(kind: ContainerKind, count: nat) -> nat {
    if index_bits(count) < min_bits_of(kind) {
        min_bits_of(kind) as nat
    } else {
        index_bits(count)
    }
}

/// The narrowest representation of the same contents. Where there are too many
/// distinct ids for a palette, the representation stays.
pub open spec fn after_shrink(kind: ContainerKind, direct_bits: u32, form: Form) -> Form {
    let ids = contents(kind, direct_bits, form);
    let palette = distinct(ids);
    let bits = palette_bits(kind, palette.len());
    if form is Single {
        form
    } else if palette.len() == 1 {
        Form::Single(palette[0])
    } else if bits > max_bits_of(kind) {
        form
    } else {
        Form::Indirect {
            palette,
            bits: bits as u32,
            cells: bitstorage::packed(slots_of(ids, palette), bits as u32, volume_of(kind)),
        }
    }
}

/// Cells behind their count.
pub open spec fn cells_bytes(cells: Seq<u64>) -> Seq<u8> {
    varint::varint_bytes(cells.len() as i32) + writer::concat_bytes(
        cells,
        |cell: u64| wire::be64(cell),
    )
}

/// Ids behind their count.
pub open spec fn palette_bytes(palette: Seq<u32>) -> Seq<u8> {
    varint::varint_bytes(palette.len() as i32) + writer::concat_bytes(
        palette,
        |id: u32| varint::varint_bytes(id as i32),
    )
}

/// A container in the chunk-data wire format.
pub open spec fn container_bytes(direct_bits: u32, form: Form) -> Seq<u8> {
    match form {
        Form::Single(id) => seq![0u8] + varint::varint_bytes(id as i32) + varint::varint_bytes(0),
        Form::Indirect { palette, bits, cells } => seq![bits as u8] + palette_bytes(palette)
            + cells_bytes(cells),
        Form::Direct(cells) => seq![direct_bits as u8] + cells_bytes(cells),
    }
}

/// How many of some ids `holds` is true of.
pub open spec fn count_where(ids: Seq<u32>, holds: spec_fn(u32) -> bool) -> nat
    decreases ids.len(),
{
    if ids.len() == 0 {
        0
    } else {
        count_where(ids.drop_last(), holds) + if holds(ids.last()) {
            1nat
        } else {
            0nat
        }
    }
}

/// How many of some answers are yes.
pub open spec fn count_yes(answers: Seq<bool>) -> nat
    decreases answers.len(),
{
    if answers.len() == 0 {
        0
    } else {
        count_yes(answers.drop_last()) + if answers.last() {
            1nat
        } else {
            0nat
        }
    }
}

/// Each answer is one that `predicate` gives of the id at its place.
pub open spec fn answered<P: FnMut(u32) -> bool>(
    predicate: P,
    ids: Seq<u32>,
    answers: Seq<bool>,
) -> bool {
    &&& answers.len() == ids.len()
    &&& forall|k: int|
        0 <= k < ids.len() ==> call_ensures(predicate, (ids[k],), #[trigger] answers[k])
}

/// The answer to each entry, given the answers to the ids of a palette.
pub open spec fn answers_by_slot(
    answers: Seq<bool>,
    cells: Seq<u64>,
    bits: u32,
    volume: nat,
) -> Seq<bool> {
    Seq::new(volume, |i: int| answers[bitstorage::entry(cells, bits, i) as int])
}

/// What counting rests on: one answer for a single id, one for each id of a
/// palette, and one for each entry without a palette.
pub open spec fn tallies<P: FnMut(u32) -> bool>(
    predicate: P,
    kind: ContainerKind,
    direct_bits: u32,
    form: Form,
    total: usize,
) -> bool {
    match form {
        Form::Single(id) => exists|answer: bool| #[trigger]
            call_ensures(predicate, (id,), answer) && total == (if answer {
                volume_of(kind)
            } else {
                0
            }),
        Form::Indirect { palette, bits, cells } => exists|answers: Seq<bool>| #[trigger]
            answered(predicate, palette, answers) && total == count_yes(
                answers_by_slot(answers, cells, bits, volume_of(kind) as nat),
            ),
        Form::Direct(_) => exists|answers: Seq<bool>| #[trigger]
            answered(predicate, contents(kind, direct_bits, form), answers) && total == count_yes(
                answers,
            ),
    }
}

/// `predicate` answers as `holds` does.
pub open spec fn decides<P: FnMut(u32) -> bool>(predicate: P, holds: spec_fn(u32) -> bool) -> bool {
    forall|id: u32, answer: bool| #[trigger]
        call_ensures(predicate, (id,), answer) ==> answer == holds(id)
}

/// Bits needed to index `count` distinct values.
#[must_use]
pub fn bits_for(count: usize) -> (bits: u32)
    ensures
        bits == index_bits(count as nat),
        bits <= usize::BITS,
{
    let mut left: usize = count;
    let mut bits: u32 = 1;
    proof {
        vstd::arithmetic::power2::lemma2_to64();
        assert(usize::BITS == 32 || usize::BITS == 64);
        lemma_index_bits_bound(count as nat, usize::BITS as nat);
    }
    while left > 2
        invariant
            index_bits(count as nat) <= usize::BITS,
            bits >= 1,
            index_bits(count as nat) == bits - 1 + index_bits(left as nat),
        decreases left,
    {
        left = left / 2 + left % 2;
        bits += 1;
    }
    bits
}

/// A width that is enough bounds the width chosen.
pub proof fn lemma_index_bits_bound(count: nat, bits: nat)
    requires
        count <= vstd::arithmetic::power2::pow2(bits),
        bits >= 1,
    ensures
        index_bits(count) <= bits,
    decreases count,
{
    vstd::arithmetic::power2::lemma2_to64();
    if count > 2 {
        if bits > 1 {
            vstd::arithmetic::power2::lemma_pow2_unfold(bits);
            lemma_index_bits_bound((count + 1) / 2, (bits - 1) as nat);
        }
    }
}

/// The width for `count` values is enough for them, and one bit less would not
/// be.
pub proof fn law_index_bits(count: nat)
    ensures
        index_bits(count) >= 1,
        count <= vstd::arithmetic::power2::pow2(index_bits(count)),
        index_bits(count) > 1 ==> count > vstd::arithmetic::power2::pow2(
            (index_bits(count) - 1) as nat,
        ),
    decreases count,
{
    vstd::arithmetic::power2::lemma2_to64();
    if count > 2 {
        let half = (count + 1) / 2;
        law_index_bits(half);
        vstd::arithmetic::power2::lemma_pow2_unfold(index_bits(count));
        if index_bits(half) > 1 {
            vstd::arithmetic::power2::lemma_pow2_unfold((index_bits(count) - 1) as nat);
        }
    }
}

/// A written id is read back where it was written, and every other id where it
/// was, through every change of representation.
pub proof fn law_set_contents(
    kind: ContainerKind,
    direct_bits: u32,
    form: Form,
    index: int,
    value: u32,
)
    requires
        form_wf(kind, direct_bits, form),
        accepts(kind, direct_bits, form, value),
        0 <= index < volume_of(kind),
    ensures
        form_wf(kind, direct_bits, after_set(kind, direct_bits, form, index, value)),
        contents(kind, direct_bits, after_set(kind, direct_bits, form, index, value)) == contents(
            kind,
            direct_bits,
            form,
        ).update(index, value),
{
    match form {
        Form::Single(id) => lemma_set_single(kind, direct_bits, id, index, value),
        Form::Indirect { palette, bits, cells } => {
            if palette.contains(value) {
                lemma_set_named(kind, direct_bits, form, index, value);
            } else if palette.len() <= bitstorage::mask_of(bits) {
                lemma_set_pushed(kind, direct_bits, form, index, value);
            } else if bits < max_bits_of(kind) {
                lemma_set_widened(kind, direct_bits, form, index, value);
            } else {
                lemma_set_inlined(kind, direct_bits, form, index, value);
            }
        },
        Form::Direct(cells) => {
            let after = after_set(kind, direct_bits, form, index, value);
            bitstorage::lemma_with_entry(cells, direct_bits, volume_of(kind), index, value);
            assert(contents(kind, direct_bits, after) =~= contents(
                kind,
                direct_bits,
                form,
            ).update(index, value));
        },
    }
}

proof fn lemma_set_single(
    kind: ContainerKind,
    direct_bits: u32,
    id: u32,
    index: int,
    value: u32,
)
    requires
        0 <= index < volume_of(kind),
    ensures
        ({
            let form = Form::Single(id);
            let after = after_set(kind, direct_bits, form, index, value);
            &&& form_wf(kind, direct_bits, after)
            &&& contents(kind, direct_bits, after) == contents(kind, direct_bits, form).update(
                index,
                value,
            )
        }),
{
    let form = Form::Single(id);
    let after = after_set(kind, direct_bits, form, index, value);
    if id != value {
        let bits = min_bits_of(kind);
        let zeros = bitstorage::zero_cells(volume_of(kind), bits);
        bitstorage::lemma_mask_is_power(bits);
        vstd::arithmetic::power2::lemma2_to64();
        assert forall|i: int| 0 <= i < volume_of(kind) implies #[trigger] bitstorage::entry(
            zeros,
            bits,
            i,
        ) == 0 by {
            bitstorage::lemma_zero_cells(volume_of(kind), bits, i);
        }
        bitstorage::lemma_zero_cells(volume_of(kind), bits, index);
        bitstorage::lemma_with_entry(zeros, bits, volume_of(kind), index, 1);
    }
    assert(contents(kind, direct_bits, after) =~= contents(kind, direct_bits, form).update(
        index,
        value,
    ));
}

/// An id that the palette names.
proof fn lemma_set_named(
    kind: ContainerKind,
    direct_bits: u32,
    form: Form,
    index: int,
    value: u32,
)
    requires
        form is Indirect,
        form_wf(kind, direct_bits, form),
        form->palette.contains(value),
        0 <= index < volume_of(kind),
    ensures
        ({
            let after = after_set(kind, direct_bits, form, index, value);
            &&& form_wf(kind, direct_bits, after)
            &&& contents(kind, direct_bits, after) == contents(kind, direct_bits, form).update(
                index,
                value,
            )
        }),
{
    let (palette, bits, cells) = (form->palette, form->bits, form->cells);
    let after = after_set(kind, direct_bits, form, index, value);
    let slot = palette.index_of(value);
    bitstorage::lemma_mask_is_power(bits);
    bitstorage::lemma_with_entry(cells, bits, volume_of(kind), index, slot as u32);
    assert(contents(kind, direct_bits, after) =~= contents(kind, direct_bits, form).update(
        index,
        value,
    ));
}

/// A new id while the palette has room.
proof fn lemma_set_pushed(
    kind: ContainerKind,
    direct_bits: u32,
    form: Form,
    index: int,
    value: u32,
)
    requires
        form is Indirect,
        form_wf(kind, direct_bits, form),
        !form->palette.contains(value),
        form->palette.len() <= bitstorage::mask_of(form->bits),
        0 <= index < volume_of(kind),
    ensures
        ({
            let after = after_set(kind, direct_bits, form, index, value);
            &&& form_wf(kind, direct_bits, after)
            &&& contents(kind, direct_bits, after) == contents(kind, direct_bits, form).update(
                index,
                value,
            )
        }),
{
    let (palette, bits, cells) = (form->palette, form->bits, form->cells);
    let after = after_set(kind, direct_bits, form, index, value);
    bitstorage::lemma_mask_is_power(bits);
    bitstorage::lemma_with_entry(cells, bits, volume_of(kind), index, palette.len() as u32);
    assert(contents(kind, direct_bits, after) =~= contents(kind, direct_bits, form).update(
        index,
        value,
    ));
}

/// A new id that the palette has to widen for.
proof fn lemma_set_widened(
    kind: ContainerKind,
    direct_bits: u32,
    form: Form,
    index: int,
    value: u32,
)
    requires
        form is Indirect,
        form_wf(kind, direct_bits, form),
        !form->palette.contains(value),
        form->palette.len() > bitstorage::mask_of(form->bits),
        form->bits < max_bits_of(kind),
        0 <= index < volume_of(kind),
    ensures
        ({
            let after = after_set(kind, direct_bits, form, index, value);
            &&& form_wf(kind, direct_bits, after)
            &&& contents(kind, direct_bits, after) == contents(kind, direct_bits, form).update(
                index,
                value,
            )
        }),
{
    let (palette, bits, cells) = (form->palette, form->bits, form->cells);
    let after = after_set(kind, direct_bits, form, index, value);
    let wider = (bits + 1) as u32;
    let slots = entries(cells, bits, volume_of(kind));
    let wide = bitstorage::packed(slots, wider, volume_of(kind));
    bitstorage::lemma_mask_is_power(bits);
    bitstorage::lemma_mask_is_power(wider);
    assert forall|i: int| 0 <= i < volume_of(kind) implies #[trigger] bitstorage::entry(
        wide,
        wider,
        i,
    ) == slots[i] by {
        bitstorage::law_packed(slots, wider, volume_of(kind), i);
    }
    bitstorage::law_packed(slots, wider, volume_of(kind), index);
    bitstorage::lemma_with_entry(wide, wider, volume_of(kind), index, palette.len() as u32);
    assert(contents(kind, direct_bits, after) =~= contents(kind, direct_bits, form).update(
        index,
        value,
    ));
}

/// A new id that makes the container too varied for a palette.
proof fn lemma_set_inlined(
    kind: ContainerKind,
    direct_bits: u32,
    form: Form,
    index: int,
    value: u32,
)
    requires
        form is Indirect,
        form_wf(kind, direct_bits, form),
        all_fit(contents(kind, direct_bits, form).push(value), direct_bits),
        0 <= index < volume_of(kind),
    ensures
        ({
            let ids = contents(kind, direct_bits, form);
            let after = Form::Direct(
                bitstorage::with_entry(
                    bitstorage::packed(ids, direct_bits, volume_of(kind)),
                    direct_bits,
                    index,
                    value,
                ),
            );
            &&& form_wf(kind, direct_bits, after)
            &&& contents(kind, direct_bits, after) == ids.update(index, value)
        }),
{
    let ids = contents(kind, direct_bits, form);
    let fitting = ids.push(value);
    let inline = bitstorage::packed(ids, direct_bits, volume_of(kind));
    assert(fitting[ids.len() as int] == value);
    assert forall|i: int| 0 <= i < ids.len() implies #[trigger] ids[i] <= bitstorage::mask_of(
        direct_bits,
    ) by {
        assert(fitting[i] == ids[i]);
    }
    assert forall|i: int| 0 <= i < volume_of(kind) implies #[trigger] bitstorage::entry(
        inline,
        direct_bits,
        i,
    ) == ids[i] by {
        bitstorage::law_packed(ids, direct_bits, volume_of(kind), i);
    }
    bitstorage::law_packed(ids, direct_bits, volume_of(kind), index);
    bitstorage::lemma_with_entry(inline, direct_bits, volume_of(kind), index, value);
    let after = Form::Direct(
        bitstorage::with_entry(inline, direct_bits, index, value),
    );
    assert(contents(kind, direct_bits, after) =~= ids.update(index, value));
}

/// Where every id fits the registry's width, any fitting id can be written.
pub proof fn law_fitting_ids_are_accepted(
    kind: ContainerKind,
    direct_bits: u32,
    form: Form,
    value: u32,
)
    requires
        all_fit(contents(kind, direct_bits, form).push(value), direct_bits),
    ensures
        accepts(kind, direct_bits, form, value),
{
    let ids = contents(kind, direct_bits, form);
    assert(ids.push(value)[ids.len() as int] == value);
}

/// Distinct ids are all the ids there are, each once.
pub proof fn law_distinct(ids: Seq<u32>)
    ensures
        distinct(ids).no_duplicates(),
        forall|id: u32| #[trigger] distinct(ids).contains(id) <==> ids.contains(id),
        distinct(ids).len() <= ids.len(),
    decreases ids.len(),
{
    if ids.len() == 0 {
        assert(distinct(ids) =~= ids);
    } else {
        let before = distinct(ids.drop_last());
        let last = ids.last();
        law_distinct(ids.drop_last());
        assert(ids =~= ids.drop_last().push(last));
        assert(before.push(last)[before.len() as int] == last);
        assert forall|id: u32| #[trigger] distinct(ids).contains(id) <==> ids.contains(id) by {
            if distinct(ids).contains(id) {
                if id != last {
                    let k = distinct(ids).index_of(id);
                    assert(before[k] == id);
                    assert(before.contains(id));
                    let j = ids.drop_last().index_of(id);
                    assert(ids[j] == id);
                } else {
                    assert(ids[ids.len() - 1] == last);
                }
            }
            if ids.contains(id) {
                if id != last {
                    let j = ids.index_of(id);
                    assert(ids.drop_last()[j] == id);
                    assert(before.contains(id));
                    let k = before.index_of(id);
                    assert(distinct(ids)[k] == id);
                }
            }
        }
    }
}

/// Shrinking changes the representation and nothing else.
pub proof fn law_shrink_contents(kind: ContainerKind, direct_bits: u32, form: Form)
    requires
        form_wf(kind, direct_bits, form),
    ensures
        form_wf(kind, direct_bits, after_shrink(kind, direct_bits, form)),
        contents(kind, direct_bits, after_shrink(kind, direct_bits, form)) == contents(
            kind,
            direct_bits,
            form,
        ),
{
    let ids = contents(kind, direct_bits, form);
    let palette = distinct(ids);
    let bits = palette_bits(kind, palette.len());
    let after = after_shrink(kind, direct_bits, form);
    law_distinct(ids);
    assert forall|i: int| 0 <= i < ids.len() implies palette.contains(#[trigger] ids[i]) by {
        assert(ids.contains(ids[i]));
    }
    assert(palette.contains(ids[0]));
    if !(form is Single) {
        if palette.len() == 1 {
            assert forall|i: int| 0 <= i < ids.len() implies #[trigger] ids[i] == palette[0] by {
                assert(palette.contains(ids[i]));
            }
            assert(contents(kind, direct_bits, after) =~= ids);
        } else if bits <= max_bits_of(kind) {
            let slots = slots_of(ids, palette);
            let cells = bitstorage::packed(slots, bits as u32, volume_of(kind));
            lemma_palette_fits(kind, palette.len());
            assert forall|i: int| 0 <= i < ids.len() implies (#[trigger] slots[i]) < palette.len()
                && palette[slots[i] as int] == ids[i] by {
                assert(palette.contains(ids[i]));
            }
            assert forall|i: int| 0 <= i < volume_of(kind) implies #[trigger] bitstorage::entry(
                cells,
                bits as u32,
                i,
            ) == slots[i] by {
                bitstorage::law_packed(slots, bits as u32, volume_of(kind), i);
            }
            bitstorage::law_packed(slots, bits as u32, volume_of(kind), 0);
            assert(contents(kind, direct_bits, after) =~= ids);
        }
    }
}

/// A palette of `count` ids fits the width chosen for it.
proof fn lemma_palette_fits(kind: ContainerKind, count: nat)
    requires
        palette_bits(kind, count) <= max_bits_of(kind),
    ensures
        min_bits_of(kind) <= palette_bits(kind, count),
        count <= bitstorage::mask_of(palette_bits(kind, count) as u32) + 1,
        count <= 256,
{
    let bits = palette_bits(kind, count);
    law_index_bits(count);
    bitstorage::lemma_mask_is_power(bits as u32);
    vstd::arithmetic::power2::lemma2_to64();
    if index_bits(count) < bits {
        vstd::arithmetic::power2::lemma_pow2_strictly_increases(index_bits(count), bits);
    }
    if bits < 8 {
        vstd::arithmetic::power2::lemma_pow2_strictly_increases(bits, 8);
    }
}

/// Shrinking a second time changes nothing.
pub proof fn law_shrink_is_idempotent(kind: ContainerKind, direct_bits: u32, form: Form)
    requires
        form_wf(kind, direct_bits, form),
    ensures
        after_shrink(kind, direct_bits, after_shrink(kind, direct_bits, form)) == after_shrink(
            kind,
            direct_bits,
            form,
        ),
{
    law_shrink_contents(kind, direct_bits, form);
}

#[derive(Debug, PartialEq, Eq)]
enum Repr {
    Single(u32),
    Indirect { palette: Vec<u32>, storage: BitStorage },
    Direct(BitStorage),
}

impl Repr {
    spec fn form(self) -> Form {
        match self {
            Repr::Single(id) => Form::Single(id),
            Repr::Indirect { palette, storage } => Form::Indirect {
                palette: palette@,
                bits: storage.width(),
                cells: storage.cells(),
            },
            Repr::Direct(storage) => Form::Direct(storage.cells()),
        }
    }

    spec fn wf(self, kind: ContainerKind, direct_bits: u32) -> bool {
        &&& form_wf(kind, direct_bits, self.form())
        &&& match self {
            Repr::Single(_) => true,
            Repr::Indirect { storage, .. } => storage.wf() && storage.count() == volume_of(kind),
            Repr::Direct(storage) => storage.wf() && storage.count() == volume_of(kind)
                && storage.width() == direct_bits,
        }
    }
}

/// The place of `value` in a palette.
fn position(palette: &Vec<u32>, value: u32) -> (slot: Option<usize>)
    requires
        palette@.no_duplicates(),
    ensures
        slot is Some <==> palette@.contains(value),
        slot matches Some(k) ==> k == palette@.index_of(value) && k < palette@.len(),
{
    let mut i: usize = 0;
    while i < palette.len()
        invariant
            i <= palette@.len(),
            palette@.no_duplicates(),
            forall|k: int| 0 <= k < i ==> palette@[k] != value,
        decreases palette@.len() - i,
    {
        if palette[i] == value {
            assert(palette@[i as int] == value);
            return Some(i);
        }
        i += 1;
    }
    None
}

#[derive(Debug, PartialEq, Eq)]
pub struct PalettedContainer {
    kind: ContainerKind,
    /// Width used by the direct representation, derived from the registry size.
    direct_bits: u32,
    repr: Repr,
}

impl View for PalettedContainer {
    type V = Seq<u32>;

    /// The ids in index order.
    open spec fn view(&self) -> Seq<u32> {
        contents(self.holds(), self.id_bits(), self.form())
    }
}

impl Clone for PalettedContainer {
    fn clone(&self) -> (copy: Self)
        ensures
            copy.same(*self),
    {
        let repr = match &self.repr {
            Repr::Single(value) => Repr::Single(*value),
            Repr::Indirect { palette, storage } => {
                let mut ids: Vec<u32> = Vec::with_capacity(palette.len());
                ids.extend_from_slice(palette.as_slice());
                assert(ids@ =~= palette@);
                Repr::Indirect { palette: ids, storage: storage.clone() }
            },
            Repr::Direct(storage) => Repr::Direct(storage.clone()),
        };
        PalettedContainer { kind: self.kind, direct_bits: self.direct_bits, repr }
    }
}

impl PalettedContainer {
    /// Two containers hold the same in the same representation, and both or
    /// neither are well formed.
    pub open spec fn same(&self, other: PalettedContainer) -> bool {
        &&& self.holds() == other.holds()
        &&& self.id_bits() == other.id_bits()
        &&& self.form() == other.form()
        &&& self.wf() == other.wf()
    }

    /// What the container holds.
    pub closed spec fn holds(&self) -> ContainerKind {
        self.kind
    }

    /// The width that the registry needs for an id.
    pub closed spec fn id_bits(&self) -> u32 {
        self.direct_bits
    }

    /// How the container represents its entries.
    pub closed spec fn form(&self) -> Form {
        self.repr.form()
    }

    pub closed spec fn wf(&self) -> bool {
        self.repr.wf(self.kind, self.direct_bits)
    }

    /// Whether `value` can be written.
    pub open spec fn takes(&self, value: u32) -> bool {
        accepts(self.holds(), self.id_bits(), self.form(), value)
    }

    /// What every container keeps.
    pub proof fn lemma_wf(&self)
        requires
            self.wf(),
        ensures
            form_wf(self.holds(), self.id_bits(), self.form()),
            self@.len() == volume_of(self.holds()),
    {
    }

    /// A container entirely filled with `value`.
    #[must_use]
    pub fn filled(kind: ContainerKind, direct_bits: u32, value: u32) -> (container: Self)
        ensures
            container.wf(),
            container.holds() == kind,
            container.id_bits() == direct_bits,
            container.form() == Form::Single(value),
            container@ == Seq::new(volume_of(kind) as nat, |i: int| value),
    {
        PalettedContainer { kind, direct_bits, repr: Repr::Single(value) }
    }

    #[must_use]
    pub fn kind(&self) -> (kind: ContainerKind)
        ensures
            kind == self.holds(),
    {
        self.kind
    }

    /// Number of entries, fixed by the container kind.
    #[must_use]
    pub fn volume(&self) -> (volume: usize)
        ensures
            volume == volume_of(self.holds()),
            volume == self@.len(),
    {
        self.kind.volume()
    }

    /// Bits currently used per entry; `0` for a single-value container.
    #[must_use]
    pub fn bits_per_entry(&self) -> (bits: u32)
        requires
            self.wf(),
        ensures
            bits == (match self.form() {
                Form::Single(_) => 0,
                Form::Indirect { bits, .. } => bits,
                Form::Direct(_) => self.id_bits(),
            }),
    {
        match &self.repr {
            Repr::Single(_) => 0,
            Repr::Indirect { storage, .. } => storage.bits(),
            Repr::Direct(storage) => storage.bits(),
        }
    }

    /// Number of distinct ids the container can currently name.
    #[must_use]
    pub fn palette_len(&self) -> (len: usize)
        requires
            self.wf(),
            self.form() is Direct ==> self.id_bits() < usize::BITS,
        ensures
            len == (match self.form() {
                Form::Single(_) => 1,
                Form::Indirect { palette, .. } => palette.len() as int,
                Form::Direct(_) => vstd::arithmetic::power2::pow2(self.id_bits() as nat) as int,
            }),
    {
        match &self.repr {
            Repr::Single(_) => 1,
            Repr::Indirect { palette, .. } => palette.len(),
            Repr::Direct(storage) => {
                proof {
                    let bits = self.direct_bits;
                    assert(usize::BITS == 32 || usize::BITS == 64);
                    bitstorage::lemma_mask_is_power(bits);
                    vstd::arithmetic::power2::lemma2_to64();
                    if bits < 31 {
                        vstd::arithmetic::power2::lemma_pow2_strictly_increases(bits as nat, 31);
                    }
                }
                storage.max_value() as usize + 1
            },
        }
    }

    /// Reads the id at `index`.
    #[inline]
    #[must_use]
    pub fn get(&self, index: usize) -> (id: u32)
        requires
            self.wf(),
            index < self@.len(),
        ensures
            id == self@[index as int],
    {
        match &self.repr {
            Repr::Single(value) => *value,
            Repr::Indirect { palette, storage } => {
                let slot: u32 = storage.get(index);
                assert(slot == bitstorage::entry(storage.cells(), storage.width(), index as int));
                palette[slot as usize]
            },
            Repr::Direct(storage) => storage.get(index),
        }
    }

    /// Writes `value` at `index`, returning the id previously there.
    pub fn set(&mut self, index: usize, value: u32) -> (previous: u32)
        requires
            old(self).wf(),
            index < old(self)@.len(),
            old(self).takes(value),
        ensures
            final(self).wf(),
            final(self).holds() == old(self).holds(),
            final(self).id_bits() == old(self).id_bits(),
            previous == old(self)@[index as int],
            final(self)@ == old(self)@.update(index as int, value),
            final(self).form() == after_set(
                old(self).holds(),
                old(self).id_bits(),
                old(self).form(),
                index as int,
                value,
            ),
    {
        let previous: u32 = self.get(index);
        proof {
            law_set_contents(
                self.kind,
                self.direct_bits,
                self.form(),
                index as int,
                value,
            );
        }
        let mut repr = Repr::Single(value);
        std::mem::swap(&mut self.repr, &mut repr);
        self.repr = Self::written(repr, self.kind, self.direct_bits, index, value);
        previous
    }

    /// A representation with `value` written at `index`.
    fn written(
        repr: Repr,
        kind: ContainerKind,
        direct_bits: u32,
        index: usize,
        value: u32,
    ) -> (after: Repr)
        requires
            repr.wf(kind, direct_bits),
            index < volume_of(kind),
            accepts(kind, direct_bits, repr.form(), value),
        ensures
            after.form() == after_set(kind, direct_bits, repr.form(), index as int, value),
            after.wf(kind, direct_bits),
    {
        proof {
            law_set_contents(kind, direct_bits, repr.form(), index as int, value);
        }
        match repr {
            Repr::Single(previous) => {
                if previous == value {
                    return Repr::Single(previous);
                }
                // Second distinct value: go indirect with the old value at slot
                // 0, so the zero-filled storage is already correct everywhere
                // except the entry being written.
                let bits: u32 = kind.min_indirect_bits();
                proof {
                    bitstorage::lemma_mask_is_power(bits);
                    vstd::arithmetic::power2::lemma_pow2_pos(bits as nat);
                    vstd::arithmetic::power2::lemma2_to64();
                }
                let mut storage = BitStorage::new(kind.volume(), bits);
                let _ = storage.set(index, 1);
                let mut palette: Vec<u32> = Vec::new();
                palette.push(previous);
                palette.push(value);
                assert(palette@ =~= seq![previous, value]);
                Repr::Indirect { palette, storage }
            },
            Repr::Indirect { palette, storage } => {
                let mut palette = palette;
                let mut storage = storage;
                let ghost bits = storage.width();
                let ghost slots = storage@;
                proof {
                    bitstorage::lemma_mask_is_power(bits);
                    if bits < max_bits_of(kind) {
                        bitstorage::lemma_mask_is_power((bits + 1) as u32);
                    }
                    assert forall|i: int| 0 <= i < slots.len() implies (#[trigger] slots[i])
                        < palette@.len() by {
                        assert(slots[i] == bitstorage::entry(storage.cells(), bits, i));
                    }
                    assert(slots =~= entries(storage.cells(), bits, volume_of(kind)));
                }
                if let Some(slot) = position(&palette, value) {
                    let _ = storage.set(index, slot as u32);
                    return Repr::Indirect { palette, storage };
                }
                let count: usize = palette.len();
                if count <= storage.max_value() as usize {
                    palette.push(value);
                    let _ = storage.set(index, count as u32);
                    return Repr::Indirect { palette, storage };
                }
                if storage.bits() < kind.max_indirect_bits() {
                    let wider: u32 = storage.bits() + 1;
                    let keep = |slot: u32| -> (same: u32)
                        ensures
                            same == slot,
                    {
                        slot
                    };
                    let mut grown = storage.remap(wider, keep);
                    assert(grown@ =~= slots);
                    palette.push(value);
                    let _ = grown.set(index, count as u32);
                    Repr::Indirect { palette, storage: grown }
                } else {
                    // Too varied for a palette to pay for itself: store ids
                    // inline from here on.
                    let ghost ids = contents(kind, direct_bits, repr.form());
                    proof {
                        let fitting = ids.push(value);
                        assert(fitting[ids.len() as int] == value);
                        assert forall|i: int| 0 <= i < slots.len() implies palette@[(
                        #[trigger] slots[i]) as int] <= bitstorage::mask_of(direct_bits) by {
                            assert(fitting[i] == ids[i]);
                            assert(ids[i] == palette@[slots[i] as int]);
                        }
                    }
                    let resolve = |slot: u32| -> (id: u32)
                        requires
                            slot < palette@.len(),
                        ensures
                            id == palette@[slot as int],
                    {
                        palette[slot as usize]
                    };
                    let mut direct = storage.remap(direct_bits, resolve);
                    assert(direct@ =~= ids);
                    let _ = direct.set(index, value);
                    Repr::Direct(direct)
                }
            },
            Repr::Direct(storage) => {
                let mut storage = storage;
                let _ = storage.set(index, value);
                Repr::Direct(storage)
            },
        }
    }

    /// Resets every entry to `value`, dropping any allocation.
    pub fn fill(&mut self, value: u32)
        ensures
            final(self).wf(),
            final(self).holds() == old(self).holds(),
            final(self).id_bits() == old(self).id_bits(),
            final(self).form() == Form::Single(value),
            final(self)@ == Seq::new(volume_of(old(self).holds()) as nat, |i: int| value),
    {
        self.repr = Repr::Single(value);
    }

    /// Visits every entry in index order.
    pub fn for_each<F: FnMut(usize, u32)>(&self, f: F)
        requires
            self.wf(),
            forall|i: int| 0 <= i < self@.len() ==> #[trigger] call_requires(
                f,
                (i as usize, self@[i]),
            ),
        ensures
            forall|i: int| 0 <= i < self@.len() ==> #[trigger] call_ensures(
                f,
                (i as usize, self@[i]),
                (),
            ),
    {
        let mut visit = f;
        let volume: usize = self.volume();
        let mut index: usize = 0;
        while index < volume
            invariant
                self.wf(),
                visit == f,
                volume == self@.len(),
                index <= volume,
                forall|i: int| 0 <= i < self@.len() ==> #[trigger] call_requires(
                    f,
                    (i as usize, self@[i]),
                ),
                forall|i: int| 0 <= i < index ==> #[trigger] call_ensures(
                    f,
                    (i as usize, self@[i]),
                    (),
                ),
            decreases volume - index,
        {
            assert(call_requires(f, (index as int as usize, self@[index as int])));
            visit(index, self.get(index));
            index += 1;
        }
    }

    /// Counts entries for which `predicate` holds.
    ///
    /// For a single-value container this is one predicate call rather than
    /// 4096, and with a palette it is one for each id of the palette, which is
    /// why block counts are effectively free for uniform sections.
    #[must_use]
    pub fn count<P: FnMut(u32) -> bool>(&self, predicate: P) -> (total: usize)
        requires
            self.wf(),
            forall|id: u32| #[trigger] call_requires(predicate, (id,)),
        ensures
            tallies(predicate, self.holds(), self.id_bits(), self.form(), total),
            forall|holds: spec_fn(u32) -> bool|
                decides(predicate, holds) ==> total == #[trigger] count_where(self@, holds),
    {
        let mut ask = predicate;
        let volume: usize = self.volume();
        match &self.repr {
            Repr::Single(value) => {
                proof {
                    assert forall|holds: spec_fn(u32) -> bool| true implies #[trigger] count_where(
                        self@,
                        holds,
                    ) == if holds(*value) {
                        volume as nat
                    } else {
                        0
                    } by {
                        lemma_count_uniform(self@, *value, holds);
                    }
                }
                if ask(*value) {
                    volume
                } else {
                    0
                }
            },
            Repr::Indirect { palette, storage } => {
                // Evaluate the predicate once per palette entry, not per block.
                let mut matching: Vec<bool> = Vec::with_capacity(palette.len());
                let mut slot: usize = 0;
                while slot < palette.len()
                    invariant
                        slot <= palette@.len(),
                        ask == predicate,
                        matching@.len() == slot,
                        forall|id: u32| #[trigger] call_requires(predicate, (id,)),
                        forall|k: int| 0 <= k < slot ==> call_ensures(
                            predicate,
                            (palette@[k],),
                            #[trigger] matching@[k],
                        ),
                    decreases palette@.len() - slot,
                {
                    matching.push(ask(palette[slot]));
                    slot += 1;
                }
                assert(answered(predicate, palette@, matching@));
                let ghost by_slot = answers_by_slot(
                    matching@,
                    storage.cells(),
                    storage.width(),
                    volume as nat,
                );
                let mut total: usize = 0;
                let mut index: usize = 0;
                assert(by_slot.take(0) =~= Seq::<bool>::empty());
                while index < volume
                    invariant
                        by_slot == answers_by_slot(
                            matching@,
                            storage.cells(),
                            storage.width(),
                            volume as nat,
                        ),
                        total == count_yes(by_slot.take(index as int)),
                        self.wf(),
                        self.repr == (Repr::Indirect { palette: *palette, storage: *storage }),
                        volume == self@.len(),
                        index <= volume,
                        total <= index,
                        matching@.len() == palette@.len(),
                        forall|k: int| 0 <= k < palette@.len() ==> call_ensures(
                            predicate,
                            (palette@[k],),
                            #[trigger] matching@[k],
                        ),
                        forall|holds: spec_fn(u32) -> bool|
                            decides(predicate, holds) ==> total == #[trigger] count_where(
                                self@.take(index as int),
                                holds,
                            ),
                    decreases volume - index,
                {
                    let slot: u32 = storage.get(index);
                    assert(slot == bitstorage::entry(
                        storage.cells(),
                        storage.width(),
                        index as int,
                    ));
                    let found: bool = matching[slot as usize];
                    proof {
                        let next = self@.take(index + 1);
                        assert(next.drop_last() =~= self@.take(index as int));
                        assert(next.last() == palette@[slot as int]);
                        assert(call_ensures(predicate, (palette@[slot as int],), found));
                        assert(by_slot.take(index + 1).drop_last() =~= by_slot.take(index as int));
                        assert(by_slot.take(index + 1).last() == found);
                    }
                    let ghost counted = total;
                    if found {
                        total += 1;
                    }
                    assert forall|holds: spec_fn(u32) -> bool|
                        decides(predicate, holds) implies total == #[trigger] count_where(
                        self@.take(index + 1),
                        holds,
                    ) by {
                        assert(counted == count_where(self@.take(index as int), holds));
                    }
                    index += 1;
                }
                assert(self@.take(index as int) =~= self@);
                assert(by_slot.take(index as int) =~= by_slot);
                total
            },
            Repr::Direct(storage) => {
                let mut total: usize = 0;
                let mut index: usize = 0;
                let ghost mut answers = Seq::<bool>::empty();
                while index < volume
                    invariant
                        answers.len() == index,
                        forall|k: int|
                            0 <= k < index ==> call_ensures(
                                predicate,
                                (self@[k],),
                                #[trigger] answers[k],
                            ),
                        total == count_yes(answers),
                        self.wf(),
                        self.repr == Repr::Direct(*storage),
                        ask == predicate,
                        volume == self@.len(),
                        index <= volume,
                        total <= index,
                        forall|id: u32| #[trigger] call_requires(predicate, (id,)),
                        forall|holds: spec_fn(u32) -> bool|
                            decides(predicate, holds) ==> total == #[trigger] count_where(
                                self@.take(index as int),
                                holds,
                            ),
                    decreases volume - index,
                {
                    let id: u32 = storage.get(index);
                    let found: bool = ask(id);
                    proof {
                        let before = answers;
                        answers = before.push(found);
                        assert(answers.drop_last() =~= before);
                        assert(self@[index as int] == id);
                        let next = self@.take(index + 1);
                        assert(next.drop_last() =~= self@.take(index as int));
                        assert(next.last() == id);
                    }
                    let ghost counted = total;
                    if found {
                        total += 1;
                    }
                    assert forall|holds: spec_fn(u32) -> bool|
                        decides(predicate, holds) implies total == #[trigger] count_where(
                        self@.take(index + 1),
                        holds,
                    ) by {
                        assert(counted == count_where(self@.take(index as int), holds));
                    }
                    index += 1;
                }
                assert(self@.take(index as int) =~= self@);
                assert(answered(predicate, self@, answers));
                total
            },
        }
    }

    /// Rebuilds at the narrowest representation that fits the current contents.
    ///
    /// Writes only ever widen a container, so a section that was briefly varied
    /// keeps paying for that forever without this. Worth calling before saving
    /// or sending, not on every block change.
    pub fn shrink(&mut self)
        requires
            old(self).wf(),
        ensures
            final(self).wf(),
            final(self).holds() == old(self).holds(),
            final(self).id_bits() == old(self).id_bits(),
            final(self)@ == old(self)@,
            final(self).form() == after_shrink(
                old(self).holds(),
                old(self).id_bits(),
                old(self).form(),
            ),
    {
        proof {
            law_shrink_contents(self.kind, self.direct_bits, self.form());
        }
        if let Repr::Single(_) = &self.repr {
            return;
        }
        let volume: usize = self.volume();
        let mut palette: Vec<u32> = Vec::new();
        let mut index: usize = 0;
        while index < volume
            invariant
                self.wf(),
                volume == self@.len(),
                index <= volume,
                palette@ == distinct(self@.take(index as int)),
            decreases volume - index,
        {
            let id: u32 = self.get(index);
            proof {
                let next = self@.take(index + 1);
                assert(next.drop_last() =~= self@.take(index as int));
                assert(next.last() == id);
                law_distinct(self@.take(index as int));
            }
            if position(&palette, id).is_none() {
                palette.push(id);
            }
            index += 1;
        }
        assert(self@.take(index as int) =~= self@);
        proof {
            law_distinct(self@);
        }
        if palette.len() == 1 {
            self.repr = Repr::Single(palette[0]);
            return;
        }
        let needed: u32 = bits_for(palette.len());
        let narrowest: u32 = self.kind.min_indirect_bits();
        let bits: u32 = if needed < narrowest {
            narrowest
        } else {
            needed
        };
        if bits > self.kind.max_indirect_bits() {
            return ;
        }
        proof {
            lemma_palette_fits(self.kind, palette@.len());
        }
        let ghost slots = slots_of(self@, palette@);
        let mut storage = BitStorage::new(volume, bits);
        let mut index: usize = 0;
        assert(storage@.take(0) =~= Seq::<u32>::empty());
        assert(slots.take(0) =~= Seq::<u32>::empty());
        while index < volume
            invariant
                self.wf(),
                volume == self@.len(),
                index <= volume,
                storage.wf(),
                storage.width() == bits,
                storage.count() == volume,
                palette@ == distinct(self@),
                palette@.len() <= bitstorage::mask_of(bits) + 1,
                palette@.len() <= 256,
                slots == slots_of(self@, palette@),
                storage.cells() == bitstorage::packed(
                    slots.take(index as int),
                    bits,
                    volume as int,
                ),
            decreases volume - index,
        {
            let id: u32 = self.get(index);
            proof {
                law_distinct(self@);
                assert(self@.contains(id));
                assert(palette@.contains(id));
                assert(slots.take(index + 1).drop_last() =~= slots.take(index as int));
            }
            if let Some(slot) = position(&palette, id) {
                let _ = storage.set(index, slot as u32);
                assert(slots.take(index + 1).last() == slot as u32);
            }
            index += 1;
        }
        assert(slots.take(index as int) =~= slots);
        self.repr = Repr::Indirect { palette, storage };
    }

    /// Writes the container in the chunk-data wire format.
    pub fn write<W: PacketWrite>(&self, out: &mut W)
        requires
            self.wf(),
        ensures
            final(out).written() == old(out).written() + container_bytes(
                self.id_bits(),
                self.form(),
            ),
    {
        match &self.repr {
            Repr::Single(value) => {
                out.write_u8(0);
                out.write_varint(*value as i32);
                // Empty data array.
                out.write_varint(0);
            },
            Repr::Indirect { palette, storage } => {
                out.write_u8(storage.bits() as u8);
                write_palette(palette, out);
                write_cells(storage, out);
            },
            Repr::Direct(storage) => {
                out.write_u8(storage.bits() as u8);
                write_cells(storage, out);
            },
        }
        assert(out.written() =~= old(out).written() + container_bytes(
            self.id_bits(),
            self.form(),
        ));
    }

    /// Size in bytes the container occupies on the wire.
    #[must_use]
    pub fn wire_len(&self) -> (len: usize)
        requires
            self.wf(),
        ensures
            len == container_bytes(self.id_bits(), self.form()).len(),
            len <= 40_000,
    {
        match &self.repr {
            Repr::Single(value) => {
                assert(varint::varint_bytes(0) =~= seq![0u8]);
                1 + varint::varint_len(*value as i32) + 1
            },
            Repr::Indirect { palette, storage } => {
                proof {
                    bitstorage::lemma_cells_bound(volume_of(self.kind), storage.width());
                    lemma_narrow_palette(self.kind, self.direct_bits, self.form());
                }
                1 + palette_len_on_wire(palette) + cells_len_on_wire(storage)
            },
            Repr::Direct(storage) => {
                proof {
                    bitstorage::lemma_cells_bound(volume_of(self.kind), storage.width());
                }
                1 + cells_len_on_wire(storage)
            },
        }
    }
}

/// A palette never has more ids than its widest index can tell apart.
proof fn lemma_narrow_palette(kind: ContainerKind, direct_bits: u32, form: Form)
    requires
        form is Indirect,
        form_wf(kind, direct_bits, form),
    ensures
        form->palette.len() <= 256,
{
    bitstorage::lemma_mask_is_power(form->bits);
    vstd::arithmetic::power2::lemma2_to64();
    if form->bits < 8 {
        vstd::arithmetic::power2::lemma_pow2_strictly_increases(form->bits as nat, 8);
    }
}

proof fn lemma_count_uniform(ids: Seq<u32>, id: u32, holds: spec_fn(u32) -> bool)
    requires
        forall|i: int| 0 <= i < ids.len() ==> #[trigger] ids[i] == id,
    ensures
        count_where(ids, holds) == if holds(id) {
            ids.len()
        } else {
            0
        },
    decreases ids.len(),
{
    if ids.len() > 0 {
        lemma_count_uniform(ids.drop_last(), id, holds);
    }
}

/// No more ids are counted than there are.
pub proof fn lemma_count_bound(ids: Seq<u32>, holds: spec_fn(u32) -> bool)
    ensures
        count_where(ids, holds) <= ids.len(),
    decreases ids.len(),
{
    if ids.len() > 0 {
        lemma_count_bound(ids.drop_last(), holds);
    }
}

fn write_palette<W: PacketWrite>(palette: &Vec<u32>, out: &mut W)
    ensures
        final(out).written() == old(out).written() + palette_bytes(palette@),
{
    out.write_varint(palette.len() as i32);
    let ghost head = out.written();
    let ghost encoding = |id: u32| varint::varint_bytes(id as i32);
    let mut i: usize = 0;
    assert(head + writer::concat_bytes(palette@.take(0), encoding) =~= head);
    while i < palette.len()
        invariant
            i <= palette@.len(),
            encoding == |id: u32| varint::varint_bytes(id as i32),
            out.written() == head + writer::concat_bytes(palette@.take(i as int), encoding),
        decreases palette@.len() - i,
    {
        out.write_varint(palette[i] as i32);
        assert(palette@.take(i + 1).drop_last() =~= palette@.take(i as int));
        assert(out.written() =~= head + writer::concat_bytes(palette@.take(i + 1), encoding));
        i += 1;
    }
    assert(palette@.take(i as int) =~= palette@);
    assert(out.written() =~= old(out).written() + palette_bytes(palette@));
}

fn write_cells<W: PacketWrite>(storage: &BitStorage, out: &mut W)
    ensures
        final(out).written() == old(out).written() + cells_bytes(storage.cells()),
{
    let cells = storage.data();
    out.write_varint(cells.len() as i32);
    let ghost head = out.written();
    let ghost encoding = |cell: u64| wire::be64(cell);
    let mut i: usize = 0;
    assert(head + writer::concat_bytes(cells@.take(0), encoding) =~= head);
    while i < cells.len()
        invariant
            i <= cells@.len(),
            encoding == |cell: u64| wire::be64(cell),
            out.written() == head + writer::concat_bytes(cells@.take(i as int), encoding),
        decreases cells@.len() - i,
    {
        out.write_u64(cells[i]);
        assert(cells@.take(i + 1).drop_last() =~= cells@.take(i as int));
        assert(out.written() =~= head + writer::concat_bytes(cells@.take(i + 1), encoding));
        i += 1;
    }
    assert(cells@.take(i as int) =~= cells@);
    assert(out.written() =~= old(out).written() + cells_bytes(storage.cells()));
}

fn palette_len_on_wire(palette: &Vec<u32>) -> (len: usize)
    requires
        palette@.len() <= 256,
    ensures
        len == palette_bytes(palette@).len(),
        len <= 5 + 5 * palette@.len(),
{
    let ghost encoding = |id: u32| varint::varint_bytes(id as i32);
    let mut total: usize = varint::varint_len(palette.len() as i32);
    let ghost head = total as int;
    let mut i: usize = 0;
    while i < palette.len()
        invariant
            i <= palette@.len() <= 256,
            head <= 5,
            encoding == |id: u32| varint::varint_bytes(id as i32),
            total == head + writer::concat_bytes(palette@.take(i as int), encoding).len(),
            total <= head + 5 * i,
        decreases palette@.len() - i,
    {
        total += varint::varint_len(palette[i] as i32);
        assert(palette@.take(i + 1).drop_last() =~= palette@.take(i as int));
        i += 1;
    }
    assert(palette@.take(i as int) =~= palette@);
    total
}

fn cells_len_on_wire(storage: &BitStorage) -> (len: usize)
    requires
        storage.cells().len() <= 4096,
    ensures
        len == cells_bytes(storage.cells()).len(),
        len == varint::varint_bytes(storage.cells().len() as i32).len() + 8
            * storage.cells().len(),
        len <= 5 + 8 * storage.cells().len(),
{
    let count: usize = storage.data().len();
    proof {
        lemma_cells_len(storage.cells());
    }
    varint::varint_len(count as i32) + count * 8
}

proof fn lemma_cells_len(cells: Seq<u64>)
    ensures
        writer::concat_bytes(cells, |cell: u64| wire::be64(cell)).len() == 8 * cells.len(),
    decreases cells.len(),
{
    if cells.len() > 0 {
        lemma_cells_len(cells.drop_last());
    }
}

} // verus!
