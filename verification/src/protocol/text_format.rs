//! The JSON and NBT forms of text components, member by member.

use vstd::prelude::*;

use crate::protocol::json;
use crate::protocol::nbt;
use crate::protocol::nbt::NbtValue;
use crate::protocol::text;
use crate::protocol::text::{Component, Message, NamedColor};

verus! {

/// What entries hold under a key: just that value, or nothing.
pub open spec fn under(
    entries: Seq<(Seq<char>, NbtValue)>,
    key: Seq<char>,
    value: Option<NbtValue>,
) -> bool {
    match value {
        Some(v) => exists|i: int| 0 <= i < entries.len() && #[trigger] entries[i] == (key, v),
        None => forall|i: int| 0 <= i < entries.len() ==> (#[trigger] entries[i]).0 != key,
    }
}

/// A text as a string tag.
pub open spec fn text_tag(value: Option<String>) -> Option<NbtValue> {
    match value {
        Some(t) => Some(NbtValue::Text(t@)),
        None => None,
    }
}

/// A flag as a byte tag: one where it is set, zero where it is not.
pub open spec fn flag_tag(value: Option<bool>) -> Option<NbtValue> {
    match value {
        Some(true) => Some(NbtValue::Byte(1)),
        Some(false) => Some(NbtValue::Byte(0)),
        None => None,
    }
}

/// The NBT form is a compound in which each field stands under its own name, just
/// where it is set, and the children, where there are any, as a list of
/// compounds.
pub proof fn law_nbt_form(c: Component)
    ensures
        ({
            let entries = text::nbt_form(c@)->Compound_0;
            &&& text::nbt_form(c@) is Compound
            &&& nbt::distinct_keys(entries)
            &&& under(entries, "text"@, text_tag(c.text))
            &&& under(entries, "translate"@, text_tag(c.translate))
            &&& under(entries, "color"@, text_tag(c.color))
            &&& under(entries, "bold"@, flag_tag(c.bold))
            &&& under(entries, "italic"@, flag_tag(c.italic))
            &&& under(entries, "underlined"@, flag_tag(c.underlined))
            &&& under(entries, "strikethrough"@, flag_tag(c.strikethrough))
            &&& under(entries, "obfuscated"@, flag_tag(c.obfuscated))
            &&& under(
                entries,
                "extra"@,
                if c.extra@.len() == 0 {
                    None
                } else {
                    Some(
                        NbtValue::List(
                            10,
                            Seq::new(c.extra@.len(), |i: int| text::nbt_form(c.extra@[i]@)),
                        ),
                    )
                },
            )
            &&& forall|i: int|
                0 <= i < entries.len() ==> is_key((#[trigger] entries[i]).0)
        }),
{
    let m = c@;
    lemma_keys_differ();
    let e0 = Seq::<(Seq<char>, NbtValue)>::empty();
    let e1 = text::nbt_text_entry(e0, "text"@, m.text);
    let e2 = text::nbt_text_entry(e1, "translate"@, m.translate);
    let e3 = text::nbt_text_entry(e2, "color"@, m.color);
    let e4 = text::nbt_flag_entry(e3, "bold"@, m.bold);
    let e5 = text::nbt_flag_entry(e4, "italic"@, m.italic);
    let e6 = text::nbt_flag_entry(e5, "underlined"@, m.underlined);
    let e7 = text::nbt_flag_entry(e6, "strikethrough"@, m.strikethrough);
    let e8 = text::nbt_flag_entry(e7, "obfuscated"@, m.obfuscated);
    let children = NbtValue::List(10, text::nbt_forms(m.extra));
    let e9 = if m.extra.len() == 0 {
        e8
    } else {
        nbt::entries_with(e8, "extra"@, children)
    };
    assert(good(e0));
    lemma_text_entry(e0, "text"@, c.text);
    lemma_text_entry(e1, "translate"@, c.translate);
    lemma_text_entry(e2, "color"@, c.color);
    lemma_flag_entry(e3, "bold"@, m.bold);
    lemma_flag_entry(e4, "italic"@, m.italic);
    lemma_flag_entry(e5, "underlined"@, m.underlined);
    lemma_flag_entry(e6, "strikethrough"@, m.strikethrough);
    lemma_flag_entry(e7, "obfuscated"@, m.obfuscated);
    lemma_set(e8, "extra"@, children);
    assert(text::nbt_form(m) == NbtValue::Compound(e9));
    assert(text::nbt_forms(m.extra) =~= Seq::new(
        c.extra@.len(),
        |i: int| text::nbt_form(c.extra@[i]@),
    ));
    lemma_keeps(e0, e1, "text"@);
    lemma_keeps(e1, e2, "translate"@);
    lemma_keeps(e2, e3, "color"@);
    lemma_keeps(e3, e4, "bold"@);
    lemma_keeps(e4, e5, "italic"@);
    lemma_keeps(e5, e6, "underlined"@);
    lemma_keeps(e6, e7, "strikethrough"@);
    lemma_keeps(e7, e8, "obfuscated"@);
    lemma_keeps(e8, e9, "extra"@);
}

/// One of the names that a member can have.
pub open spec fn is_key(key: Seq<char>) -> bool {
    key == "text"@ || key == "translate"@ || key == "color"@ || key == "bold"@ || key
        == "italic"@ || key == "underlined"@ || key == "strikethrough"@ || key == "obfuscated"@
        || key == "extra"@
}

spec fn good(entries: Seq<(Seq<char>, NbtValue)>) -> bool {
    &&& nbt::distinct_keys(entries)
    &&& forall|i: int| 0 <= i < entries.len() ==> is_key((#[trigger] entries[i]).0)
}

/// Entries that differ under one key at most.
spec fn beside(
    before: Seq<(Seq<char>, NbtValue)>,
    after: Seq<(Seq<char>, NbtValue)>,
    key: Seq<char>,
) -> bool {
    &&& forall|i: int|
        0 <= i < before.len() && (#[trigger] before[i]).0 != key ==> i < after.len() && after[i]
            == before[i]
    &&& forall|i: int|
        0 <= i < after.len() && (#[trigger] after[i]).0 != key ==> i < before.len() && after[i]
            == before[i]
}

proof fn lemma_keeps(
    before: Seq<(Seq<char>, NbtValue)>,
    after: Seq<(Seq<char>, NbtValue)>,
    key: Seq<char>,
)
    requires
        beside(before, after, key),
    ensures
        forall|other: Seq<char>, value: Option<NbtValue>|
            other != key && #[trigger] under(before, other, value) ==> under(after, other, value),
{
    assert forall|other: Seq<char>, value: Option<NbtValue>|
        other != key && #[trigger] under(before, other, value) implies under(
        after,
        other,
        value,
    ) by {
        match value {
            Some(v) => {
                let i = choose|i: int| 0 <= i < before.len() && #[trigger] before[i] == (other, v);
                assert(after[i] == (other, v));
            },
            None => {
                assert forall|i: int| 0 <= i < after.len() implies (#[trigger] after[i]).0
                    != other by {
                    if after[i].0 == other {
                        assert(before[i].0 == other);
                    }
                }
            },
        }
    }
}

proof fn lemma_set(entries: Seq<(Seq<char>, NbtValue)>, key: Seq<char>, value: NbtValue)
    requires
        good(entries),
        is_key(key),
    ensures
        good(nbt::entries_with(entries, key, value)),
        beside(entries, nbt::entries_with(entries, key, value), key),
        beside(entries, entries, key),
        under(nbt::entries_with(entries, key, value), key, Some(value)),
{
    let after = nbt::entries_with(entries, key, value);
    let i = nbt::key_index(entries, key) as int;
    nbt::law_keys_stay_distinct(entries, key, value);
    lemma_key_index(entries, key);
    assert(after[i] == (key, value));
    assert forall|k: int| 0 <= k < after.len() implies is_key((#[trigger] after[k]).0) by {
        if k != i {
            assert(after[k] == entries[k]);
        }
    }
}

proof fn lemma_key_index(entries: Seq<(Seq<char>, NbtValue)>, key: Seq<char>)
    ensures
        nbt::key_index(entries, key) <= entries.len(),
        nbt::key_index(entries, key) < entries.len() ==> entries[nbt::key_index(
            entries,
            key,
        ) as int].0 == key,
    decreases entries.len(),
{
    if entries.len() > 0 && entries[0].0 != key {
        lemma_key_index(entries.skip(1), key);
    }
}

proof fn lemma_text_entry(
    entries: Seq<(Seq<char>, NbtValue)>,
    key: Seq<char>,
    value: Option<String>,
)
    requires
        good(entries),
        is_key(key),
        under(entries, key, None),
    ensures
        ({
            let after = text::nbt_text_entry(entries, key, text::chars(value));
            good(after) && beside(entries, after, key) && under(after, key, text_tag(value))
        }),
{
    match value {
        Some(t) => lemma_set(entries, key, NbtValue::Text(t@)),
        None => lemma_set(entries, key, NbtValue::Byte(0)),
    }
}

proof fn lemma_flag_entry(
    entries: Seq<(Seq<char>, NbtValue)>,
    key: Seq<char>,
    value: Option<bool>,
)
    requires
        good(entries),
        is_key(key),
        under(entries, key, None),
    ensures
        ({
            let after = text::nbt_flag_entry(entries, key, value);
            good(after) && beside(entries, after, key) && under(after, key, flag_tag(value))
        }),
{
    lemma_set(entries, key, NbtValue::Byte(1));
    lemma_set(entries, key, NbtValue::Byte(0));
}

proof fn lemma_keys_differ()
    ensures
        "text"@ != "bold"@,
        "color"@ != "extra"@,
        "underlined"@ != "obfuscated"@,
        "text"@.len() == 4,
        "translate"@.len() == 9,
        "color"@.len() == 5,
        "bold"@.len() == 4,
        "italic"@.len() == 6,
        "underlined"@.len() == 10,
        "strikethrough"@.len() == 13,
        "obfuscated"@.len() == 10,
        "extra"@.len() == 5,
{
    reveal_strlit("text");
    reveal_strlit("translate");
    reveal_strlit("color");
    reveal_strlit("bold");
    reveal_strlit("italic");
    reveal_strlit("underlined");
    reveal_strlit("strikethrough");
    reveal_strlit("obfuscated");
    reveal_strlit("extra");
    assert("text"@[0] != "bold"@[0]);
    assert("color"@[0] != "extra"@[0]);
    assert("underlined"@[0] != "obfuscated"@[0]);
}

/// The members of a JSON object, where they have a value: the name in quotes, a
/// colon and the value, with commas between them.
pub open spec fn members(parts: Seq<(Seq<char>, Option<Seq<char>>)>) -> Seq<char>
    decreases parts.len(),
{
    if parts.len() == 0 {
        Seq::empty()
    } else {
        let before = members(parts.drop_last());
        match parts.last().1 {
            None => before,
            Some(value) => {
                let member = seq!['"'] + parts.last().0 + seq!['"', ':'] + value;
                if before.len() == 0 {
                    member
                } else {
                    before + seq![','] + member
                }
            },
        }
    }
}

/// Values with commas between them.
pub open spec fn elements(values: Seq<Seq<char>>) -> Seq<char>
    decreases values.len(),
{
    if values.len() <= 1 {
        if values.len() == 0 {
            Seq::empty()
        } else {
            values[0]
        }
    } else {
        elements(values.drop_last()) + seq![','] + values.last()
    }
}

/// A text as a JSON string.
pub open spec fn text_value(value: Option<String>) -> Option<Seq<char>> {
    match value {
        Some(t) => Some(json::json_string(t@)),
        None => None,
    }
}

/// A flag as a JSON boolean.
pub open spec fn flag_value(value: Option<bool>) -> Option<Seq<char>> {
    match value {
        Some(true) => Some("true"@),
        Some(false) => Some("false"@),
        None => None,
    }
}

/// The JSON form is an object in which each field stands under its own name, just
/// where it is set, and the children, where there are any, as an array of their
/// forms.
pub proof fn law_json_form(c: Component)
    ensures
        text::json_form(c@) == seq!['{'] + members(
            seq![
                ("text"@, text_value(c.text)),
                ("translate"@, text_value(c.translate)),
                ("color"@, text_value(c.color)),
                ("bold"@, flag_value(c.bold)),
                ("italic"@, flag_value(c.italic)),
                ("underlined"@, flag_value(c.underlined)),
                ("strikethrough"@, flag_value(c.strikethrough)),
                ("obfuscated"@, flag_value(c.obfuscated)),
                (
                    "extra"@,
                    if c.extra@.len() == 0 {
                        None
                    } else {
                        Some(
                            seq!['['] + elements(
                                Seq::new(c.extra@.len(), |i: int| text::json_form(c.extra@[i]@)),
                            ) + seq![']'],
                        )
                    },
                ),
            ],
        ) + seq!['}'],
{
    let m = c@;
    lemma_json_keys();
    let forms = Seq::new(c.extra@.len(), |i: int| text::json_form(c.extra@[i]@));
    let array = seq!['['] + elements(forms) + seq![']'];
    let children = if c.extra@.len() == 0 {
        None
    } else {
        Some(array)
    };
    let p0 = Seq::<(Seq<char>, Option<Seq<char>>)>::empty();
    let p1 = p0.push(("text"@, text_value(c.text)));
    let p2 = p1.push(("translate"@, text_value(c.translate)));
    let p3 = p2.push(("color"@, text_value(c.color)));
    let p4 = p3.push(("bold"@, flag_value(c.bold)));
    let p5 = p4.push(("italic"@, flag_value(c.italic)));
    let p6 = p5.push(("underlined"@, flag_value(c.underlined)));
    let p7 = p6.push(("strikethrough"@, flag_value(c.strikethrough)));
    let p8 = p7.push(("obfuscated"@, flag_value(c.obfuscated)));
    let p9 = p8.push(("extra"@, children));
    let s0 = Seq::<char>::empty();
    let s1 = text::json_text_member(s0, "\"text\":"@, m.text);
    let s2 = text::json_text_member(s1, "\"translate\":"@, m.translate);
    let s3 = text::json_text_member(s2, "\"color\":"@, m.color);
    let s4 = text::json_flag_member(s3, "\"bold\":"@, m.bold);
    let s5 = text::json_flag_member(s4, "\"italic\":"@, m.italic);
    let s6 = text::json_flag_member(s5, "\"underlined\":"@, m.underlined);
    let s7 = text::json_flag_member(s6, "\"strikethrough\":"@, m.strikethrough);
    let s8 = text::json_flag_member(s7, "\"obfuscated\":"@, m.obfuscated);
    lemma_text_member(p0, "text"@, "\"text\":"@, c.text);
    lemma_text_member(p1, "translate"@, "\"translate\":"@, c.translate);
    lemma_text_member(p2, "color"@, "\"color\":"@, c.color);
    lemma_flag_member(p3, "bold"@, "\"bold\":"@, c.bold);
    lemma_flag_member(p4, "italic"@, "\"italic\":"@, c.italic);
    lemma_flag_member(p5, "underlined"@, "\"underlined\":"@, c.underlined);
    lemma_flag_member(p6, "strikethrough"@, "\"strikethrough\":"@, c.strikethrough);
    lemma_flag_member(p7, "obfuscated"@, "\"obfuscated\":"@, c.obfuscated);
    assert(members(p8) == text::json_style(m));
    lemma_member(p8, "extra"@, "\"extra\":"@, array);
    lemma_no_member(p8, "extra"@);
    lemma_elements(c.extra@);
    assert(text::json_form(m) == "{"@ + members(p9) + "}"@);
    assert(p9 =~= seq![
        ("text"@, text_value(c.text)),
        ("translate"@, text_value(c.translate)),
        ("color"@, text_value(c.color)),
        ("bold"@, flag_value(c.bold)),
        ("italic"@, flag_value(c.italic)),
        ("underlined"@, flag_value(c.underlined)),
        ("strikethrough"@, flag_value(c.strikethrough)),
        ("obfuscated"@, flag_value(c.obfuscated)),
        ("extra"@, children),
    ]);
}

proof fn lemma_json_keys()
    ensures
        "\"text\":"@ == seq!['"'] + "text"@ + seq!['"', ':'],
        "\"translate\":"@ == seq!['"'] + "translate"@ + seq!['"', ':'],
        "\"color\":"@ == seq!['"'] + "color"@ + seq!['"', ':'],
        "\"bold\":"@ == seq!['"'] + "bold"@ + seq!['"', ':'],
        "\"italic\":"@ == seq!['"'] + "italic"@ + seq!['"', ':'],
        "\"underlined\":"@ == seq!['"'] + "underlined"@ + seq!['"', ':'],
        "\"strikethrough\":"@ == seq!['"'] + "strikethrough"@ + seq!['"', ':'],
        "\"obfuscated\":"@ == seq!['"'] + "obfuscated"@ + seq!['"', ':'],
        "\"extra\":"@ == seq!['"'] + "extra"@ + seq!['"', ':'],
        "{"@ == seq!['{'],
        "}"@ == seq!['}'],
        "["@ == seq!['['],
        "]"@ == seq![']'],
        ","@ == seq![','],
{
    reveal_strlit("text");
    reveal_strlit("translate");
    reveal_strlit("color");
    reveal_strlit("bold");
    reveal_strlit("italic");
    reveal_strlit("underlined");
    reveal_strlit("strikethrough");
    reveal_strlit("obfuscated");
    reveal_strlit("extra");
    reveal_strlit("\"text\":");
    reveal_strlit("\"translate\":");
    reveal_strlit("\"color\":");
    reveal_strlit("\"bold\":");
    reveal_strlit("\"italic\":");
    reveal_strlit("\"underlined\":");
    reveal_strlit("\"strikethrough\":");
    reveal_strlit("\"obfuscated\":");
    reveal_strlit("\"extra\":");
    reveal_strlit("{");
    reveal_strlit("}");
    reveal_strlit("[");
    reveal_strlit("]");
    reveal_strlit(",");
    assert("\"text\":"@ =~= seq!['"'] + "text"@ + seq!['"', ':']);
    assert("\"translate\":"@ =~= seq!['"'] + "translate"@ + seq!['"', ':']);
    assert("\"color\":"@ =~= seq!['"'] + "color"@ + seq!['"', ':']);
    assert("\"bold\":"@ =~= seq!['"'] + "bold"@ + seq!['"', ':']);
    assert("\"italic\":"@ =~= seq!['"'] + "italic"@ + seq!['"', ':']);
    assert("\"underlined\":"@ =~= seq!['"'] + "underlined"@ + seq!['"', ':']);
    assert("\"strikethrough\":"@ =~= seq!['"'] + "strikethrough"@ + seq!['"', ':']);
    assert("\"obfuscated\":"@ =~= seq!['"'] + "obfuscated"@ + seq!['"', ':']);
    assert("\"extra\":"@ =~= seq!['"'] + "extra"@ + seq!['"', ':']);
    assert("{"@ =~= seq!['{']);
    assert("}"@ =~= seq!['}']);
    assert("["@ =~= seq!['[']);
    assert("]"@ =~= seq![']']);
    assert(","@ =~= seq![',']);
}

/// A member more, behind a name that is given with its quotes and its colon.
pub proof fn lemma_member(
    parts: Seq<(Seq<char>, Option<Seq<char>>)>,
    name: Seq<char>,
    key: Seq<char>,
    value: Seq<char>,
)
    requires
        key == seq!['"'] + name + seq!['"', ':'],
        ","@ == seq![','],
    ensures
        members(parts.push((name, Some(value)))) == json::with_member(members(parts), key + value),
{
    assert(parts.push((name, Some(value))).drop_last() =~= parts);
}

/// A member without a value changes nothing.
pub proof fn lemma_no_member(parts: Seq<(Seq<char>, Option<Seq<char>>)>, name: Seq<char>)
    ensures
        members(parts.push((name, None))) == members(parts),
{
    assert(parts.push((name, None)).drop_last() =~= parts);
}

proof fn lemma_text_member(
    parts: Seq<(Seq<char>, Option<Seq<char>>)>,
    name: Seq<char>,
    key: Seq<char>,
    value: Option<String>,
)
    requires
        key == seq!['"'] + name + seq!['"', ':'],
        ","@ == seq![','],
    ensures
        members(parts.push((name, text_value(value)))) == text::json_text_member(
            members(parts),
            key,
            text::chars(value),
        ),
{
    match value {
        Some(t) => lemma_member(parts, name, key, json::json_string(t@)),
        None => lemma_no_member(parts, name),
    }
}

proof fn lemma_flag_member(
    parts: Seq<(Seq<char>, Option<Seq<char>>)>,
    name: Seq<char>,
    key: Seq<char>,
    value: Option<bool>,
)
    requires
        key == seq!['"'] + name + seq!['"', ':'],
        ","@ == seq![','],
    ensures
        members(parts.push((name, flag_value(value)))) == text::json_flag_member(
            members(parts),
            key,
            value,
        ),
{
    match value {
        Some(b) => lemma_member(parts, name, key, json::json_bool(b)),
        None => lemma_no_member(parts, name),
    }
}

proof fn lemma_elements(items: Seq<Component>)
    ensures
        text::json_forms(text::messages(items)) == elements(
            Seq::new(items.len(), |i: int| text::json_form(items[i]@)),
        ),
        items.len() > 0 ==> text::json_forms(text::messages(items)).len() > 0,
    decreases items.len(),
{
    let all = Seq::new(items.len(), |i: int| text::json_form(items[i]@));
    let ms = text::messages(items);
    if items.len() > 0 {
        let fewer = items.drop_last();
        lemma_elements(fewer);
        lemma_json_keys();
        assert(ms.drop_last() =~= text::messages(fewer));
        assert(all.drop_last() =~= Seq::new(fewer.len(), |i: int| text::json_form(fewer[i]@)));
        assert(ms.last() == items[items.len() - 1]@);
        assert(text::json_form(ms.last()).len() > 0);
        if items.len() == 1 {
            assert(text::json_forms(ms.drop_last()).len() == 0);
        }
    }
}

/// The names of the colours.
pub proof fn law_color_names(color: NamedColor)
    ensures
        text::color_name(color) == (match color {
            NamedColor::Black => "black",
            NamedColor::DarkBlue => "dark_blue",
            NamedColor::DarkGreen => "dark_green",
            NamedColor::DarkAqua => "dark_aqua",
            NamedColor::DarkRed => "dark_red",
            NamedColor::DarkPurple => "dark_purple",
            NamedColor::Gold => "gold",
            NamedColor::Gray => "gray",
            NamedColor::DarkGray => "dark_gray",
            NamedColor::Blue => "blue",
            NamedColor::Green => "green",
            NamedColor::Aqua => "aqua",
            NamedColor::Red => "red",
            NamedColor::LightPurple => "light_purple",
            NamedColor::Yellow => "yellow",
            NamedColor::White => "white",
        })@,
{
}

/// What a hexadecimal digit in upper case is worth.
pub open spec fn hex_worth(c: char) -> int {
    if '0' <= c <= '9' {
        c as int - '0' as int
    } else if 'A' <= c <= 'F' {
        c as int - 'A' as int + 10
    } else {
        -1
    }
}

/// A colour given by its number is a hash sign and six digits in upper case, of
/// which two each give the red, the green and the blue.
pub proof fn law_hex_color(rgb: u32)
    ensures
        ({
            let name = text::hex_color_name(rgb);
            let (r, g, b) = (rgb as int / 0x1_0000 % 256, rgb as int / 256 % 256, rgb as int % 256);
            &&& name.len() == 7
            &&& name[0] == '#'
            &&& forall|i: int| 1 <= i < 7 ==> 0 <= hex_worth(#[trigger] name[i]) < 16
            &&& hex_worth(name[1]) * 16 + hex_worth(name[2]) == r
            &&& hex_worth(name[3]) * 16 + hex_worth(name[4]) == g
            &&& hex_worth(name[5]) * 16 + hex_worth(name[6]) == b
        }),
{
    lemma_nibbles(rgb);
    let v = rgb as int;
    let name = text::hex_color_name(rgb);
    lemma_hex_worth((rgb >> 20) & 0xF);
    lemma_hex_worth((rgb >> 16) & 0xF);
    lemma_hex_worth((rgb >> 12) & 0xF);
    lemma_hex_worth((rgb >> 8) & 0xF);
    lemma_hex_worth((rgb >> 4) & 0xF);
    lemma_hex_worth(rgb & 0xF);
    lemma_byte_of_nibbles(v / 0x1_0000);
    lemma_byte_of_nibbles(v / 0x100);
    lemma_byte_of_nibbles(v);
    assert(v / 0x1_0000 / 16 == v / 0x10_0000);
    assert(v / 0x100 / 16 == v / 0x1000);
    assert forall|i: int| 1 <= i < 7 implies 0 <= hex_worth(#[trigger] name[i]) < 16 by {
        assert(i == 1 || i == 2 || i == 3 || i == 4 || i == 5 || i == 6);
    }
}

proof fn lemma_nibbles(rgb: u32)
    ensures
        (rgb >> 20) & 0xF == rgb as int / 0x10_0000 % 16,
        (rgb >> 16) & 0xF == rgb as int / 0x1_0000 % 16,
        (rgb >> 12) & 0xF == rgb as int / 0x1000 % 16,
        (rgb >> 8) & 0xF == rgb as int / 0x100 % 16,
        (rgb >> 4) & 0xF == rgb as int / 0x10 % 16,
        rgb & 0xF == rgb as int % 16,
{
    assert((rgb >> 20) & 0xF == rgb / 0x10_0000 % 16 && (rgb >> 16) & 0xF == rgb / 0x1_0000 % 16
        && (
    rgb >> 12) & 0xF == rgb / 0x1000 % 16 && (rgb >> 8) & 0xF == rgb / 0x100 % 16 && (rgb >> 4)
        & 0xF == rgb / 0x10 % 16 && rgb & 0xF == rgb % 16) by (bit_vector);
}

proof fn lemma_hex_worth(n: u32)
    requires
        n < 16,
    ensures
        hex_worth(text::upper_hex_digit(n)) == n,
{
}

proof fn lemma_byte_of_nibbles(v: int)
    requires
        v >= 0,
    ensures
        v % 256 == (v / 16 % 16) * 16 + v % 16,
{
}

/// The plain text of a component is its own text, or the key to translate where
/// it has none, and then the plain texts of its children, in order.
pub proof fn law_plain_text(c: Component, m: Message, child: Message)
    ensures
        c.extra@.len() == 0 && c.text is Some ==> text::plain(c@) == c.text->0@,
        c.extra@.len() == 0 && c.text is None && c.translate is Some ==> text::plain(c@)
            == c.translate->0@,
        c.extra@.len() == 0 && c.text is None && c.translate is None ==> text::plain(c@).len()
            == 0,
        text::plain(Message { extra: m.extra.push(child), ..m }) == text::plain(m) + text::plain(
            child,
        ),
{
    let more = Message { extra: m.extra.push(child), ..m };
    assert(more.extra.drop_last() =~= m.extra);
    assert(more.extra.last() == child);
    assert(text::plain(more) =~= text::plain(m) + text::plain(child));
    if c.extra@.len() == 0 {
        assert(text::plain_all(c@.extra) =~= Seq::<char>::empty());
        assert(text::plain(c@) =~= text::own_text(c@));
    }
}

} // verus!
