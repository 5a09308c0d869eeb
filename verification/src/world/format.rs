//! The chunk-data format, as a client reads it.

use vstd::arithmetic::power2;
use vstd::prelude::*;

use crate::protocol::error::ProtocolError;
use crate::protocol::reader::Parse;
use crate::protocol::reader;
use crate::protocol::varint;
use crate::protocol::wire;
use crate::world::bitstorage;
use crate::world::chunk;
use crate::world::chunk::ChunkSection;
use crate::world::palette;
use crate::world::palette::{ContainerKind, Form, PalettedContainer};

verus! {

/// Entry `index` of cells that hold `64 / bits` entries each, from their least
/// significant bits up.
pub open spec fn slot(cells: Seq<u64>, bits: int, index: int) -> int {
    let each = 64int / bits;
    cells[index / each] as int / power2::pow2((bits * (index % each)) as nat) as int % power2::pow2(
        bits as nat,
    ) as int
}

/// The id in a VarInt at the front.
pub open spec fn read_id(s: Seq<u8>) -> Parse<u32> {
    match reader::take_varint(s) {
        (Ok(id), t) => (Ok(id as u32), t),
        (Err(e), t) => (Err(e), t),
    }
}

/// What a client makes of a container of `volume` entries at the front of `s`:
/// the ids, and what is left. A width of zero means one id for all, a width of
/// at most `widest` indices into a palette, and any other ids as they are.
#[verifier::opaque]
pub open spec fn read_container(s: Seq<u8>, volume: nat, widest: u8) -> Option<
    (Seq<u32>, Seq<u8>),
> {
    match reader::parse_u8(s) {
        (Err(_), _) => None,
        (Ok(bits), t) => if bits == 0 {
            match read_id(t) {
                (Err(_), _) => None,
                (Ok(id), u) => match read_cells(u) {
                    (Err(_), _) => None,
                    (Ok(_), rest) => Some((Seq::new(volume, |i: int| id), rest)),
                },
            }
        } else if bits <= widest {
            match reader::parse_array(t, 0x1_0000, |u: Seq<u8>| read_id(u)) {
                (Err(_), _) => None,
                (Ok(ids), u) => match read_cells(u) {
                    (Err(_), _) => None,
                    (Ok(cells), rest) => Some(
                        (Seq::new(volume, |i: int| ids[slot(cells, bits as int, i)]), rest),
                    ),
                },
            }
        } else {
            match read_cells(t) {
                (Err(_), _) => None,
                (Ok(cells), rest) => Some(
                    (Seq::new(volume, |i: int| slot(cells, bits as int, i) as u32), rest),
                ),
            }
        },
    }
}

/// Cells behind their count.
pub open spec fn read_cells(s: Seq<u8>) -> Parse<Seq<u64>> {
    reader::parse_array(s, 0x1_0000, |u: Seq<u8>| reader::parse_u64(u))
}

/// An entry is the field of its cell that lies above those of the entries before
/// it.
pub proof fn law_entry_is_slot(cells: Seq<u64>, bits: u32, index: int)
    requires
        1 <= bits <= 32,
        index >= 0,
    ensures
        bitstorage::entry(cells, bits, index) == slot(cells, bits as int, index),
{
    let each = 64int / bits as int;
    let cell = cells[index / each];
    let offset = bitstorage::offset_of(bits, index);
    bitstorage::lemma_place(bits, index);
    let k = index % each;
    assert(k * bits == bits * k) by (nonlinear_arith);
    assert(offset == bits * k);
    bitstorage::lemma_mask_is_power(bits);
    vstd::bits::lemma_u64_shr_is_div(cell, offset as u64);
    let shifted = cell >> offset;
    vstd::bits::lemma_u64_low_bits_mask_is_mod(shifted, bits as nat);
    assert(bitstorage::field(cell, offset, bits) == shifted as int % power2::pow2(
        bits as nat,
    ) as int);
    bitstorage::lemma_entry(cells, bits, index);
}

/// There are as many cells as the entries need, and no more.
pub proof fn law_cells_needed(len: int, bits: u32)
    requires
        1 <= bits <= 32,
        len >= 0,
    ensures
        bitstorage::cells_for(len, bits) * (64int / bits as int) >= len,
        bitstorage::cells_for(len, bits) > 0 ==> (bitstorage::cells_for(len, bits) - 1) * (64int
            / bits as int) < len,
{
    let each = 64int / bits as int;
    bitstorage::lemma_place(bits, 0);
    let n = bitstorage::cells_for(len, bits);
    vstd::arithmetic::div_mod::lemma_fundamental_div_mod(len + each - 1, each);
    let r = (len + each - 1) % each;
    assert(each * n == n * each) by (nonlinear_arith);
    assert((n - 1) * each == n * each - each) by (nonlinear_arith);
}

proof fn lemma_id(id: u32, tail: Seq<u8>)
    ensures
        read_id(varint::varint_bytes(id as i32) + tail) == (Ok::<u32, ProtocolError>(id), tail),
{
    assert((id as i32) as u32 == id) by (bit_vector);
    reader::lemma_reads_varint(id as i32, tail);
}

proof fn lemma_cells(cells: Seq<u64>, tail: Seq<u8>)
    requires
        cells.len() <= 0x1_0000,
    ensures
        read_cells(palette::cells_bytes(cells) + tail) == (
            Ok::<Seq<u64>, ProtocolError>(cells),
            tail,
        ),
{
    let encoding = |cell: u64| wire::be64(cell);
    let item = |u: Seq<u8>| reader::parse_u64(u);
    assert forall|i: int, rest: Seq<u8>| 0 <= i < cells.len() implies #[trigger] item(
        encoding(cells[i]) + rest,
    ) == (Ok::<u64, ProtocolError>(cells[i]), rest) by {
        wire::law_be_round_trip(0, 0, cells[i], 0, rest);
        assert((wire::be64(cells[i]) + rest).skip(8) =~= rest);
    }
    reader::law_array_round_trip(cells, 0x1_0000, encoding, item, tail);
}

proof fn lemma_palette(ids: Seq<u32>, tail: Seq<u8>)
    requires
        ids.len() <= 0x1_0000,
    ensures
        reader::parse_array(
            palette::palette_bytes(ids) + tail,
            0x1_0000,
            |u: Seq<u8>| read_id(u),
        ) == (Ok::<Seq<u32>, ProtocolError>(ids), tail),
{
    let encoding = |id: u32| varint::varint_bytes(id as i32);
    let item = |u: Seq<u8>| read_id(u);
    assert forall|i: int, rest: Seq<u8>| 0 <= i < ids.len() implies #[trigger] item(
        encoding(ids[i]) + rest,
    ) == (Ok::<u32, ProtocolError>(ids[i]), rest) by {
        lemma_id(ids[i], rest);
    }
    reader::law_array_round_trip(ids, 0x1_0000, encoding, item, tail);
}

/// A width by which a client can tell ids as they are from indices into a
/// palette.
pub open spec fn told_apart(container: PalettedContainer, widest: u8) -> bool {
    container.form() is Direct ==> container.id_bits() > widest
}

/// A client reads from a written container just the ids that it holds, in their
/// order, and what follows is left: of 4096 blocks, where palettes have up to
/// eight bits, and of 64 biomes, where they have up to three.
pub proof fn law_container_reads(container: PalettedContainer, tail: Seq<u8>)
    requires
        container.wf(),
        told_apart(
            container,
            if container.holds() == ContainerKind::Blocks {
                8
            } else {
                3
            },
        ),
    ensures
        ({
            let s = palette::container_bytes(container.id_bits(), container.form()) + tail;
            if container.holds() == ContainerKind::Blocks {
                read_container(s, 4096, 8) == Some((container@, tail)) && container@.len() == 4096
            } else {
                read_container(s, 64, 3) == Some((container@, tail)) && container@.len() == 64
            }
        }),
{
    reveal(read_container);
    container.lemma_wf();
    let kind = container.holds();
    let widest: u8 = if kind == ContainerKind::Blocks {
        8
    } else {
        3
    };
    let volume = palette::volume_of(kind) as nat;
    let direct = container.id_bits();
    let s = palette::container_bytes(direct, container.form()) + tail;
    match container.form() {
        Form::Single(id) => {
            let none = Seq::<u64>::empty();
            assert(palette::cells_bytes(none) =~= varint::varint_bytes(0));
            let rest = varint::varint_bytes(0) + tail;
            lemma_cells(none, tail);
            lemma_id(id, rest);
            reader::lemma_reads_u8(0, varint::varint_bytes(id as i32) + rest);
            assert(s =~= seq![0u8] + (varint::varint_bytes(id as i32) + rest));
            assert(container@ =~= Seq::new(volume, |i: int| id));
        },
        Form::Indirect { palette: ids, bits, cells } => {
            lemma_widths(volume as int, bits);
            let rest = palette::cells_bytes(cells) + tail;
            lemma_cells(cells, tail);
            lemma_palette(ids, rest);
            reader::lemma_reads_u8(bits as u8, palette::palette_bytes(ids) + rest);
            assert(s =~= seq![bits as u8] + (palette::palette_bytes(ids) + rest));
            assert(container@ =~= Seq::new(volume, |i: int| ids[slot(cells, bits as int, i)])) by {
                assert forall|i: int| 0 <= i < volume implies container@[i] == ids[slot(
                    cells,
                    bits as int,
                    i,
                )] by {
                    law_entry_is_slot(cells, bits, i);
                }
            }
        },
        Form::Direct(cells) => {
            lemma_widths(volume as int, direct);
            lemma_cells(cells, tail);
            reader::lemma_reads_u8(direct as u8, palette::cells_bytes(cells) + tail);
            assert(s =~= seq![direct as u8] + (palette::cells_bytes(cells) + tail));
            assert(container@ =~= Seq::new(
                volume,
                |i: int| slot(cells, direct as int, i) as u32,
            )) by {
                assert forall|i: int| 0 <= i < volume implies container@[i] == slot(
                    cells,
                    direct as int,
                    i,
                ) as u32 by {
                    law_entry_is_slot(cells, direct, i);
                }
            }
        },
    }
}

proof fn lemma_widths(volume: int, bits: u32)
    requires
        1 <= bits <= 32,
        0 <= volume <= 4096,
    ensures
        bitstorage::cells_for(volume, bits) <= 0x1_0000,
        bitstorage::mask_of(bits) + 1 == power2::pow2(bits as nat),
        bits <= 8 ==> power2::pow2(bits as nat) <= 256,
{
    bitstorage::lemma_place(bits, 0);
    bitstorage::lemma_mask_is_power(bits);
    law_cells_needed(volume, bits);
    let n = bitstorage::cells_for(volume, bits);
    let each = 64int / bits as int;
    assert(n <= 0x1_0000) by (nonlinear_arith)
        requires
            n > 0 ==> (n - 1) * each < volume,
            each >= 2,
            0 <= volume <= 4096,
    ;
    power2::lemma2_to64();
    if bits < 8 {
        power2::lemma_pow2_strictly_increases(bits as nat, 8);
    }
}

/// What a client makes of a section at the front of `s`: the number of blocks
/// that are not air, the blocks, the biomes, and what is left.
pub open spec fn read_section(s: Seq<u8>) -> Option<(u16, Seq<u32>, Seq<u32>, Seq<u8>)> {
    match reader::parse_u16(s) {
        (Err(_), _) => None,
        (Ok(count), t) => match read_container(t, 4096, 8) {
            None => None,
            Some((blocks, u)) => match read_container(u, 64, 3) {
                None => None,
                Some((biomes, rest)) => Some((count, blocks, biomes, rest)),
            },
        },
    }
}

/// Ids of a section that a client can tell from indices.
pub open spec fn section_told_apart(section: ChunkSection) -> bool {
    told_apart(section.blocks(), 8) && told_apart(section.biome_cells(), 3)
}

/// A client reads from a written section the number of its blocks that are not
/// air, then its blocks, then its biomes, and what follows is left.
pub proof fn law_section_reads(section: ChunkSection, air: u32, tail: Seq<u8>)
    requires
        section.wf(),
        section_told_apart(section),
    ensures
        read_section(chunk::section_bytes(section, air) + tail) == Some(
            (
                chunk::non_air(section.blocks()@, air) as u16,
                section.blocks()@,
                section.biome_cells()@,
                tail,
            ),
        ),
        section.blocks()@.len() == 4096,
        section.biome_cells()@.len() == 64,
        chunk::non_air(section.blocks()@, air) <= 4096,
{
    let count = chunk::non_air(section.blocks()@, air) as u16;
    let blocks = palette::container_bytes(section.blocks().id_bits(), section.blocks().form());
    let biomes = palette::container_bytes(
        section.biome_cells().id_bits(),
        section.biome_cells().form(),
    );
    let rest = blocks + (biomes + tail);
    law_container_reads(section.blocks(), biomes + tail);
    law_container_reads(section.biome_cells(), tail);
    chunk::law_empty_is_all_air(section.blocks()@, air);
    lemma_count(count, rest);
    lemma_regroup(wire::be16(count), blocks, biomes, tail);
}

proof fn lemma_count(count: u16, rest: Seq<u8>)
    ensures
        reader::parse_u16(wire::be16(count) + rest) == (Ok::<u16, ProtocolError>(count), rest),
{
    wire::law_be_round_trip(count, 0, 0, 0, rest);
    assert((wire::be16(count) + rest).skip(2) =~= rest);
}

proof fn lemma_regroup(a: Seq<u8>, b: Seq<u8>, c: Seq<u8>, d: Seq<u8>)
    ensures
        a + b + c + d == a + (b + (c + d)),
{
    assert(a + b + c + d =~= a + (b + (c + d)));
}

/// The bytes of a section after the count begin with the bytes of its blocks.
pub proof fn law_section_begins_with_blocks(section: ChunkSection, air: u32)
    ensures
        palette::container_bytes(
            section.blocks().id_bits(),
            section.blocks().form(),
        ).is_prefix_of(chunk::section_bytes(section, air).skip(2)),
{
    let blocks = palette::container_bytes(section.blocks().id_bits(), section.blocks().form());
    let s = chunk::section_bytes(section, air).skip(2);
    assert(s.take(blocks.len() as int) =~= blocks);
}

/// What a client makes of `n` sections at the front of `s`: the blocks and the
/// biomes of each, from the bottom up, and what is left.
pub open spec fn read_sections(s: Seq<u8>, n: nat) -> Option<
    (Seq<(Seq<u32>, Seq<u32>)>, Seq<u8>),
>
    decreases n,
{
    if n == 0 {
        Some((Seq::empty(), s))
    } else {
        match read_sections(s, (n - 1) as nat) {
            None => None,
            Some((below, t)) => match read_section(t) {
                None => None,
                Some((_, blocks, biomes, rest)) => Some((below.push((blocks, biomes)), rest)),
            },
        }
    }
}

/// A client reads from written sections the blocks and the biomes of each, from
/// the bottom up.
pub proof fn law_sections_read(sections: Seq<ChunkSection>, air: u32, tail: Seq<u8>)
    requires
        forall|i: int|
            0 <= i < sections.len() ==> (#[trigger] sections[i]).wf() && section_told_apart(
                sections[i],
            ),
    ensures
        read_sections(chunk::sections_bytes(sections, air) + tail, sections.len()) == Some(
            (
                Seq::new(
                    sections.len(),
                    |i: int| (sections[i].blocks()@, sections[i].biome_cells()@),
                ),
                tail,
            ),
        ),
    decreases sections.len(),
{
    let all = Seq::new(
        sections.len(),
        |i: int| (sections[i].blocks()@, sections[i].biome_cells()@),
    );
    let s = chunk::sections_bytes(sections, air) + tail;
    if sections.len() == 0 {
        assert(s =~= tail);
        assert(all =~= Seq::<(Seq<u32>, Seq<u32>)>::empty());
    } else {
        let below = sections.drop_last();
        let last = sections[sections.len() - 1];
        assert forall|i: int| 0 <= i < below.len() implies (#[trigger] below[i]).wf()
            && section_told_apart(below[i]) by {
            assert(below[i] == sections[i]);
        }
        let rest = chunk::section_bytes(last, air) + tail;
        law_sections_read(below, air, rest);
        assert(last.wf());
        law_section_reads(last, air, tail);
        assert(s =~= chunk::sections_bytes(below, air) + rest);
        let fewer = Seq::new(
            below.len(),
            |i: int| (below[i].blocks()@, below[i].biome_cells()@),
        );
        assert(fewer.push((last.blocks()@, last.biome_cells()@)) =~= all);
    }
}

/// The number of blocks that are not air grows by one with each block that is
/// not, and by nothing with one that is.
pub proof fn law_non_air_counts(ids: Seq<u32>, id: u32, air: u32)
    ensures
        chunk::non_air(Seq::empty(), air) == 0,
        chunk::non_air(ids.push(id), air) == chunk::non_air(ids, air) + (if id == air {
            0int
        } else {
            1int
        }),
{
    assert(ids.push(id).drop_last() =~= ids);
}

} // verus!
