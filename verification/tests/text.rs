//! Text components, in their JSON and NBT forms.

use rukkit::protocol::nbt;
use rukkit::protocol::nbt::NbtTag;
use rukkit::protocol::text::NamedColor;
use rukkit::protocol::{Component, PacketReader};

#[test]
fn plain_component_serializes_without_null_fields() {
    let json = Component::text("hi").to_json();
    assert_eq!(json, r#"{"text":"hi"}"#);
}

#[test]
fn styling_appears_only_when_set() {
    let json = Component::text("hi")
        .color(NamedColor::Red)
        .bold(true)
        .to_json();
    assert!(json.contains(r#""color":"red""#), "{json}");
    assert!(json.contains(r#""bold":true"#), "{json}");
    assert!(!json.contains("italic"), "{json}");
}

#[test]
fn hex_colors_are_six_digit_uppercase() {
    let c = Component::text("x").hex_color(0x00_FF7F);
    assert_eq!(c.color.as_deref(), Some("#00FF7F"));
}

#[test]
fn children_round_trip_through_json() {
    let original = Component::text("a")
        .color(NamedColor::Gold)
        .append(Component::text("b").italic(true));
    let json = original.to_json();
    let parsed: serde_json::Value = serde_json::from_str(&json).unwrap();
    assert_eq!(parsed["text"], "a");
    assert_eq!(parsed["color"], "gold");
    assert_eq!(parsed["extra"][0]["text"], "b");
    assert_eq!(parsed["extra"][0]["italic"], true);
    assert_eq!(parsed.as_object().unwrap().len(), 3);
    assert_eq!(parsed["extra"].as_array().unwrap().len(), 1);
    assert_eq!(parsed["extra"][0].as_object().unwrap().len(), 2);
}

#[test]
fn plain_text_flattens_children_in_order() {
    let c = Component::text("Hello, ")
        .append(Component::text("world").bold(true))
        .append(Component::text("!"));
    assert_eq!(c.plain_text(), "Hello, world!");
}

#[test]
fn nbt_form_carries_the_same_fields() {
    let c = Component::text("hi")
        .color(NamedColor::Red)
        .bold(true)
        .append(Component::text("!"));
    let NbtTag::Compound(compound) = c.to_nbt() else {
        panic!("expected compound");
    };
    assert_eq!(compound.get("text").and_then(NbtTag::as_str), Some("hi"));
    assert_eq!(compound.get("color").and_then(NbtTag::as_str), Some("red"));
    assert_eq!(compound.get("bold").and_then(NbtTag::as_i64), Some(1));
    assert!(compound.get("italic").is_none());

    match compound.get("extra") {
        Some(NbtTag::List(list)) => assert_eq!(list.len(), 1),
        other => panic!("expected extra list, got {other:?}"),
    }
}

#[test]
fn nbt_form_survives_a_binary_round_trip() {
    let tag = Component::text("색 \u{1F600}")
        .color(NamedColor::Aqua)
        .to_nbt();
    let mut buf = Vec::new();
    nbt::write_network(&tag, &mut buf);
    let decoded = nbt::read_network(&mut PacketReader::new(&buf)).unwrap();
    assert_eq!(decoded, tag);
}

#[test]
fn an_owned_text_is_kept_as_it_is() {
    let owned = String::from("caf\u{e9} \u{1F600}");
    assert_eq!(Component::text(owned.clone()).text, Some(owned.clone()));
    assert_eq!(Component::translate(owned.clone()).translate, Some(owned.clone()));
    assert_eq!(Component::text(owned.clone()), Component::text(owned.as_str()));
    assert_eq!(Component::from(owned.clone()), Component::text(owned.as_str()));
}
