//! Chat/text components.
//!
//! Components travel in two shapes: the status response and the login
//! disconnect carry them as JSON, while play and configuration packets carry
//! them as network NBT. One struct produces both.

use vstd::prelude::*;

use crate::protocol::error::ProtocolError;
use crate::protocol::json;
use crate::protocol::mutf8;
use crate::protocol::mutf8::push_char;
use crate::protocol::nbt::{NbtCompound, NbtList, NbtTag, NbtValue, TAG_COMPOUND};
use crate::protocol::nbt;

verus! {

/// Calls `String::from`, which copies the text.
pub assume_specification<'a>[ <std::string::String as std::convert::From<&'a str>>::from ](
    s: &str,
) -> (copy: std::string::String)
    ensures
        copy@ == s@,
;

/// Calls `From::from` from a type to itself, which returns its argument unchanged.
pub assume_specification<Kept>[ <Kept as std::convert::From<Kept>>::from ](given: Kept) -> (kept:
    Kept)
    ensures
        kept == given,
;

/// The sixteen named colours.
#[derive(Debug, Clone, Copy, PartialEq, Eq, Structural)]
pub enum NamedColor {
    Black,
    DarkBlue,
    DarkGreen,
    DarkAqua,
    DarkRed,
    DarkPurple,
    Gold,
    Gray,
    DarkGray,
    Blue,
    Green,
    Aqua,
    Red,
    LightPurple,
    Yellow,
    White,
}

/// The name of a colour on the wire.
pub open spec fn color_name(color: NamedColor) -> Seq<char> {
    match color {
        NamedColor::Black => "black"@,
        NamedColor::DarkBlue => "dark_blue"@,
        NamedColor::DarkGreen => "dark_green"@,
        NamedColor::DarkAqua => "dark_aqua"@,
        NamedColor::DarkRed => "dark_red"@,
        NamedColor::DarkPurple => "dark_purple"@,
        NamedColor::Gold => "gold"@,
        NamedColor::Gray => "gray"@,
        NamedColor::DarkGray => "dark_gray"@,
        NamedColor::Blue => "blue"@,
        NamedColor::Green => "green"@,
        NamedColor::Aqua => "aqua"@,
        NamedColor::Red => "red"@,
        NamedColor::LightPurple => "light_purple"@,
        NamedColor::Yellow => "yellow"@,
        NamedColor::White => "white"@,
    }
}

impl NamedColor {
    #[must_use]
    pub fn as_str(self) -> (name: &'static str)
        ensures
            name@ == color_name(self),
    {
        match self {
            NamedColor::Black => "black",
            NamedColor::DarkBlue => "dark_blue",
            NamedColor::DarkGreen => "dark_green",
            NamedColor::DarkAqua => "dark_aqua",
            NamedColor::DarkRed => "dark_red",
            NamedColor::DarkPurple => "dark_purple",
            NamedColor::Gold => "gold",
            NamedColor::Gray => "gray",
            NamedColor::DarkGray => "dark_gray",
            NamedColor::Blue => "blue",
            NamedColor::Green => "green",
            NamedColor::Aqua => "aqua",
            NamedColor::Red => "red",
            NamedColor::LightPurple => "light_purple",
            NamedColor::Yellow => "yellow",
            NamedColor::White => "white",
        }
    }
}

/// A text component: literal or translatable text plus styling and children.
#[derive(Debug, PartialEq)]
pub struct Component {
    pub text: Option<String>,
    pub translate: Option<String>,
    pub color: Option<String>,
    pub bold: Option<bool>,
    pub italic: Option<bool>,
    pub underlined: Option<bool>,
    pub strikethrough: Option<bool>,
    pub obfuscated: Option<bool>,
    pub extra: Vec<Component>,
}

/// What a component says.
pub struct Message {
    pub text: Option<Seq<char>>,
    pub translate: Option<Seq<char>>,
    pub color: Option<Seq<char>>,
    pub bold: Option<bool>,
    pub italic: Option<bool>,
    pub underlined: Option<bool>,
    pub strikethrough: Option<bool>,
    pub obfuscated: Option<bool>,
    pub extra: Seq<Message>,
}

/// The characters of an optional text.
pub open spec fn chars(text: Option<String>) -> Option<Seq<char>> {
    match text {
        Some(t) => Some(t@),
        None => None,
    }
}

/// What a component says.
pub open spec fn message(c: Component) -> Message
    decreases c,
{
    Message {
        text: chars(c.text),
        translate: chars(c.translate),
        color: chars(c.color),
        bold: c.bold,
        italic: c.italic,
        underlined: c.underlined,
        strikethrough: c.strikethrough,
        obfuscated: c.obfuscated,
        extra: messages(c.extra@),
    }
}

/// What each of some components says.
pub open spec fn messages(items: Seq<Component>) -> Seq<Message>
    decreases items,
{
    Seq::new(
        items.len(),
        |i: int|
            if 0 <= i < items.len() {
                message(items[i])
            } else {
                arbitrary()
            },
    )
}

impl View for Component {
    type V = Message;

    open spec fn view(&self) -> Message {
        message(*self)
    }
}

/// The message without any content.
pub open spec fn blank() -> Message {
    Message {
        text: None,
        translate: None,
        color: None,
        bold: None,
        italic: None,
        underlined: None,
        strikethrough: None,
        obfuscated: None,
        extra: Seq::empty(),
    }
}

/// An upper-case hexadecimal digit.
pub open spec fn upper_hex_digit(n: u32) -> char {
    if n < 10 {
        ('0' as u32 + n) as char
    } else {
        ('A' as u32 + (n - 10)) as char
    }
}

/// A colour in the form `#RRGGBB`.
pub open spec fn hex_color_name(rgb: u32) -> Seq<char> {
    seq![
        '#',
        upper_hex_digit((rgb >> 20) & 0xF),
        upper_hex_digit((rgb >> 16) & 0xF),
        upper_hex_digit((rgb >> 12) & 0xF),
        upper_hex_digit((rgb >> 8) & 0xF),
        upper_hex_digit((rgb >> 4) & 0xF),
        upper_hex_digit(rgb & 0xF),
    ]
}

/// The members of an object with a member for an optional text added.
pub open spec fn json_text_member(
    sofar: Seq<char>,
    key: Seq<char>,
    text: Option<Seq<char>>,
) -> Seq<char> {
    match text {
        Some(t) => json::with_member(sofar, key + json::json_string(t)),
        None => sofar,
    }
}

/// The members of an object with a member for an optional flag added.
pub open spec fn json_flag_member(
    sofar: Seq<char>,
    key: Seq<char>,
    flag: Option<bool>,
) -> Seq<char> {
    match flag {
        Some(f) => json::with_member(sofar, key + json::json_bool(f)),
        None => sofar,
    }
}

/// The members of the JSON form that are not children.
pub open spec fn json_style(m: Message) -> Seq<char> {
    let s = Seq::<char>::empty();
    let s = json_text_member(s, "\"text\":"@, m.text);
    let s = json_text_member(s, "\"translate\":"@, m.translate);
    let s = json_text_member(s, "\"color\":"@, m.color);
    let s = json_flag_member(s, "\"bold\":"@, m.bold);
    let s = json_flag_member(s, "\"italic\":"@, m.italic);
    let s = json_flag_member(s, "\"underlined\":"@, m.underlined);
    let s = json_flag_member(s, "\"strikethrough\":"@, m.strikethrough);
    json_flag_member(s, "\"obfuscated\":"@, m.obfuscated)
}

/// The JSON form: an object with a member for each field that is set.
pub open spec fn json_form(m: Message) -> Seq<char>
    decreases m,
{
    let members = if m.extra.len() == 0 {
        json_style(m)
    } else {
        json::with_member(json_style(m), "\"extra\":"@ + ("["@ + json_forms(m.extra) + "]"@))
    };
    "{"@ + members + "}"@
}

/// The JSON forms of several messages, separated by commas.
pub open spec fn json_forms(items: Seq<Message>) -> Seq<char>
    decreases items,
{
    if items.len() == 0 {
        Seq::empty()
    } else {
        json::with_member(json_forms(items.drop_last()), json_form(items.last()))
    }
}

/// The entries with an optional text set.
pub open spec fn nbt_text_entry(
    entries: Seq<(Seq<char>, NbtValue)>,
    key: Seq<char>,
    text: Option<Seq<char>>,
) -> Seq<(Seq<char>, NbtValue)> {
    match text {
        Some(t) => nbt::entries_with(entries, key, NbtValue::Text(t)),
        None => entries,
    }
}

/// The entries with an optional flag set.
pub open spec fn nbt_flag_entry(
    entries: Seq<(Seq<char>, NbtValue)>,
    key: Seq<char>,
    flag: Option<bool>,
) -> Seq<(Seq<char>, NbtValue)> {
    match flag {
        Some(f) => nbt::entries_with(
            entries,
            key,
            NbtValue::Byte(
                if f {
                    1
                } else {
                    0
                },
            ),
        ),
        None => entries,
    }
}

/// The entries of the NBT form that are not children.
pub open spec fn nbt_style(m: Message) -> Seq<(Seq<char>, NbtValue)> {
    let e = Seq::<(Seq<char>, NbtValue)>::empty();
    let e = nbt_text_entry(e, "text"@, m.text);
    let e = nbt_text_entry(e, "translate"@, m.translate);
    let e = nbt_text_entry(e, "color"@, m.color);
    let e = nbt_flag_entry(e, "bold"@, m.bold);
    let e = nbt_flag_entry(e, "italic"@, m.italic);
    let e = nbt_flag_entry(e, "underlined"@, m.underlined);
    let e = nbt_flag_entry(e, "strikethrough"@, m.strikethrough);
    nbt_flag_entry(e, "obfuscated"@, m.obfuscated)
}

/// The NBT form: a compound with an entry for each field that is set.
pub open spec fn nbt_form(m: Message) -> NbtValue
    decreases m,
{
    let style = nbt_style(m);
    if m.extra.len() == 0 {
        NbtValue::Compound(style)
    } else {
        NbtValue::Compound(
            nbt::entries_with(style, "extra"@, NbtValue::List(TAG_COMPOUND, nbt_forms(m.extra))),
        )
    }
}

/// The NBT forms of several messages.
pub open spec fn nbt_forms(items: Seq<Message>) -> Seq<NbtValue>
    decreases items,
{
    Seq::new(
        items.len(),
        |i: int|
            if 0 <= i < items.len() {
                nbt_form(items[i])
            } else {
                arbitrary()
            },
    )
}

/// The text of a message without its children: the literal, else the key.
pub open spec fn own_text(m: Message) -> Seq<char> {
    match m.text {
        Some(t) => t,
        None => match m.translate {
            Some(key) => key,
            None => Seq::empty(),
        },
    }
}

/// The text of a message and its children, in order.
pub open spec fn plain(m: Message) -> Seq<char>
    decreases m,
{
    own_text(m) + plain_all(m.extra)
}

/// The texts of several messages, in order.
pub open spec fn plain_all(items: Seq<Message>) -> Seq<char>
    decreases items,
{
    if items.len() == 0 {
        Seq::empty()
    } else {
        plain_all(items.drop_last()) + plain(items.last())
    }
}

impl Default for Component {
    fn default() -> (c: Self)
        ensures
            c@ == blank(),
    {
        let c = Component {
            text: None,
            translate: None,
            color: None,
            bold: None,
            italic: None,
            underlined: None,
            strikethrough: None,
            obfuscated: None,
            extra: Vec::new(),
        };
        assert(c@.extra =~= Seq::<Message>::empty());
        c
    }
}

impl Component {
    /// A literal-text component.
    #[must_use]
    pub fn text<S: Into<String>>(text: S) -> (c: Self)
        ensures
            exists|t: String| #[trigger]
                call_ensures(S::into, (text,), t) && c@ == (Message { text: Some(t@), ..blank() }),
    {
        let mut c = Component::default();
        let t: String = text.into();
        c.text = Some(t);
        c
    }

    /// A component resolved against the client's language file.
    #[must_use]
    pub fn translate<S: Into<String>>(key: S) -> (c: Self)
        ensures
            exists|k: String| #[trigger]
                call_ensures(S::into, (key,), k) && c@ == (Message {
                    translate: Some(k@),
                    ..blank()
                }),
    {
        let mut c = Component::default();
        let k: String = key.into();
        c.translate = Some(k);
        c
    }

    #[must_use]
    pub fn color(self, color: NamedColor) -> (c: Self)
        ensures
            c@ == (Message { color: Some(color_name(color)), ..self@ }),
    {
        let mut c = self;
        c.color = Some(color.as_str().to_owned());
        c
    }

    /// Sets an `#rrggbb` colour.
    #[must_use]
    pub fn hex_color(self, rgb: u32) -> (c: Self)
        ensures
            c@ == (Message { color: Some(hex_color_name(rgb)), ..self@ }),
    {
        assert((rgb >> 20) & 0xF < 16 && (rgb >> 16) & 0xF < 16 && (rgb >> 12) & 0xF < 16 && (rgb
            >> 8) & 0xF < 16 && (rgb >> 4) & 0xF < 16 && rgb & 0xF < 16) by (bit_vector);
        let mut name: String = String::new();
        push_char(&mut name, '#');
        push_char(&mut name, upper_hex((rgb >> 20) & 0xF));
        push_char(&mut name, upper_hex((rgb >> 16) & 0xF));
        push_char(&mut name, upper_hex((rgb >> 12) & 0xF));
        push_char(&mut name, upper_hex((rgb >> 8) & 0xF));
        push_char(&mut name, upper_hex((rgb >> 4) & 0xF));
        push_char(&mut name, upper_hex(rgb & 0xF));
        assert(name@ =~= hex_color_name(rgb));
        let mut c = self;
        c.color = Some(name);
        c
    }

    #[must_use]
    pub fn bold(self, value: bool) -> (c: Self)
        ensures
            c@ == (Message { bold: Some(value), ..self@ }),
    {
        let mut c = self;
        c.bold = Some(value);
        c
    }

    #[must_use]
    pub fn italic(self, value: bool) -> (c: Self)
        ensures
            c@ == (Message { italic: Some(value), ..self@ }),
    {
        let mut c = self;
        c.italic = Some(value);
        c
    }

    #[must_use]
    pub fn underlined(self, value: bool) -> (c: Self)
        ensures
            c@ == (Message { underlined: Some(value), ..self@ }),
    {
        let mut c = self;
        c.underlined = Some(value);
        c
    }

    #[must_use]
    pub fn strikethrough(self, value: bool) -> (c: Self)
        ensures
            c@ == (Message { strikethrough: Some(value), ..self@ }),
    {
        let mut c = self;
        c.strikethrough = Some(value);
        c
    }

    #[must_use]
    pub fn obfuscated(self, value: bool) -> (c: Self)
        ensures
            c@ == (Message { obfuscated: Some(value), ..self@ }),
    {
        let mut c = self;
        c.obfuscated = Some(value);
        c
    }

    /// Appends a child component, which inherits this one's styling.
    #[must_use]
    pub fn append(self, child: Component) -> (c: Self)
        ensures
            c@ == (Message { extra: self@.extra.push(child@), ..self@ }),
    {
        let mut c = self;
        c.extra.push(child);
        assert(c@.extra =~= self@.extra.push(child@));
        c
    }

    /// Serializes to the JSON form used by the status response.
    #[must_use]
    pub fn to_json(&self) -> (json: String)
        ensures
            json@ == json_form(self@),
        decreases self,
    {
        let mut out: String = String::new();
        add_text(&mut out, "\"text\":", &self.text);
        add_text(&mut out, "\"translate\":", &self.translate);
        add_text(&mut out, "\"color\":", &self.color);
        add_flag(&mut out, "\"bold\":", self.bold);
        add_flag(&mut out, "\"italic\":", self.italic);
        add_flag(&mut out, "\"underlined\":", self.underlined);
        add_flag(&mut out, "\"strikethrough\":", self.strikethrough);
        add_flag(&mut out, "\"obfuscated\":", self.obfuscated);
        assert(out@ == json_style(self@));
        if self.extra.len() > 0 {
            let mut children: String = String::new();
            let mut i: usize = 0;
            assert(self@.extra.take(0) =~= Seq::<Message>::empty());
            while i < self.extra.len()
                invariant
                    i <= self.extra@.len(),
                    self@.extra.len() == self.extra@.len(),
                    children@ == json_forms(self@.extra.take(i as int)),
                decreases self.extra@.len() - i,
            {
                assert(decreases_to!(*self => self.extra));
                assert(decreases_to!(self.extra => self.extra@));
                assert(decreases_to!(self.extra@ => self.extra@[i as int]));
                let child = self.extra[i].to_json();
                json::add_member(&mut children, child.as_str());
                assert(self@.extra.take(i + 1).drop_last() =~= self@.extra.take(i as int));
                i += 1;
            }
            assert(self@.extra.take(i as int) =~= self@.extra);
            let array = json::enclose("[", children.as_str(), "]");
            json::add_field(&mut out, "\"extra\":", array.as_str());
        }
        json::enclose("{", out.as_str(), "}")
    }

    /// Converts to the network NBT form used by play and configuration packets.
    #[must_use]
    pub fn to_nbt(&self) -> (tag: NbtTag)
        ensures
            tag@ == nbt_form(self@),
        decreases self,
    {
        let mut c = NbtCompound::new();
        put_text(&mut c, "text", &self.text);
        put_text(&mut c, "translate", &self.translate);
        put_text(&mut c, "color", &self.color);
        put_flag(&mut c, "bold", self.bold);
        put_flag(&mut c, "italic", self.italic);
        put_flag(&mut c, "underlined", self.underlined);
        put_flag(&mut c, "strikethrough", self.strikethrough);
        put_flag(&mut c, "obfuscated", self.obfuscated);
        assert(c@ == nbt_style(self@));
        if self.extra.len() > 0 {
            let mut children: Vec<NbtTag> = Vec::new();
            let mut i: usize = 0;
            while i < self.extra.len()
                invariant
                    i <= self.extra@.len(),
                    self@.extra.len() == self.extra@.len(),
                    children@.len() == i,
                    forall|k: int|
                        0 <= k < i ==> nbt::tag_value(#[trigger] children@[k]) == nbt_form(
                            self@.extra[k],
                        ),
                decreases self.extra@.len() - i,
            {
                assert(decreases_to!(*self => self.extra));
                assert(decreases_to!(self.extra => self.extra@));
                assert(decreases_to!(self.extra@ => self.extra@[i as int]));
                let child = self.extra[i].to_nbt();
                children.push(child);
                i += 1;
            }
            proof {
                assert forall|k: int| 0 <= k < children@.len() implies (
                #[trigger] children@[k])@.type_id() == TAG_COMPOUND by {
                    lemma_nbt_form_is_compound(self@.extra[k]);
                }
            }
            // Every child is a compound, so the list is homogeneous by
            // construction and `new` cannot fail.
            if let Some(list) = NbtList::new(children) {
                proof {
                    assert(list@.1 =~= nbt_forms(self@.extra));
                    assert(children@[0]@.type_id() == TAG_COMPOUND);
                }
                c.put("extra".to_owned(), NbtTag::List(list));
            }
        }
        NbtTag::Compound(c)
    }

    /// Flattens to plain text, discarding styling. Used for console logs.
    #[must_use]
    pub fn plain_text(&self) -> (text: String)
        ensures
            text@ == plain(self@),
    {
        let mut out: String = String::new();
        self.write_plain(&mut out);
        assert(out@ =~= plain(self@));
        out
    }

    fn write_plain(&self, out: &mut String)
        ensures
            final(out)@ == old(out)@ + plain(self@),
        decreases self,
    {
        let ghost start = out@;
        if let Some(text) = &self.text {
            out.append(text.as_str());
        } else if let Some(key) = &self.translate {
            // Without the client's language file the key is the best there is.
            out.append(key.as_str());
        }
        let ghost own = out@;
        assert(own =~= start + own_text(self@));
        let mut i: usize = 0;
        assert(own + plain_all(self@.extra.take(0)) =~= own);
        while i < self.extra.len()
            invariant
                i <= self.extra@.len(),
                self@.extra.len() == self.extra@.len(),
                out@ == own + plain_all(self@.extra.take(i as int)),
            decreases self.extra@.len() - i,
        {
            assert(decreases_to!(*self => self.extra));
            assert(decreases_to!(self.extra => self.extra@));
            assert(decreases_to!(self.extra@ => self.extra@[i as int]));
            self.extra[i].write_plain(out);
            assert(self@.extra.take(i + 1).drop_last() =~= self@.extra.take(i as int));
            assert(out@ =~= own + plain_all(self@.extra.take(i + 1)));
            i += 1;
        }
        assert(self@.extra.take(i as int) =~= self@.extra);
        assert(out@ =~= start + plain(self@));
    }
}

/// The NBT form of a message is a compound.
proof fn lemma_nbt_form_is_compound(m: Message)
    ensures
        nbt_form(m).type_id() == TAG_COMPOUND,
{
}

fn upper_hex(n: u32) -> (digit: char)
    requires
        n < 16,
    ensures
        digit == upper_hex_digit(n),
{
    if n < 10 {
        (48u8 + n as u8) as char
    } else {
        (65u8 + (n - 10) as u8) as char
    }
}

fn add_text(out: &mut String, key: &str, text: &Option<String>)
    ensures
        final(out)@ == json_text_member(old(out)@, key@, chars(*text)),
{
    if let Some(t) = text {
        let quoted = json::quote(t.as_str());
        json::add_field(out, key, quoted.as_str());
    }
}

fn add_flag(out: &mut String, key: &str, flag: Option<bool>)
    ensures
        final(out)@ == json_flag_member(old(out)@, key@, flag),
{
    if let Some(f) = flag {
        json::add_field(out, key, json::boolean(f));
    }
}

fn put_text(c: &mut NbtCompound, key: &str, text: &Option<String>)
    ensures
        final(c)@ == nbt_text_entry(old(c)@, key@, chars(*text)),
{
    if let Some(t) = text {
        c.put(key.to_owned(), NbtTag::String(t.clone()));
    }
}

fn put_flag(c: &mut NbtCompound, key: &str, flag: Option<bool>)
    ensures
        final(c)@ == nbt_flag_entry(old(c)@, key@, flag),
{
    if let Some(f) = flag {
        c.put(key.to_owned(), NbtTag::Byte(if f { 1 } else { 0 }));
    }
}

fn copy_text(text: &Option<String>) -> (copy: Option<String>)
    ensures
        chars(copy) == chars(*text),
{
    match text {
        Some(t) => Some(t.clone()),
        None => None,
    }
}

fn copy_component(c: &Component) -> (copy: Component)
    ensures
        copy@ == c@,
    decreases c,
{
    let mut extra: Vec<Component> = Vec::new();
    let mut i: usize = 0;
    while i < c.extra.len()
        invariant
            i <= c.extra@.len(),
            extra@.len() == i,
            forall|k: int| 0 <= k < i ==> message(#[trigger] extra@[k]) == message(c.extra@[k]),
        decreases c.extra@.len() - i,
    {
        assert(decreases_to!(*c => c.extra));
        assert(decreases_to!(c.extra => c.extra@));
        assert(decreases_to!(c.extra@ => c.extra@[i as int]));
        let child = copy_component(&c.extra[i]);
        extra.push(child);
        i += 1;
    }
    let copy = Component {
        text: copy_text(&c.text),
        translate: copy_text(&c.translate),
        color: copy_text(&c.color),
        bold: c.bold,
        italic: c.italic,
        underlined: c.underlined,
        strikethrough: c.strikethrough,
        obfuscated: c.obfuscated,
        extra,
    };
    assert(copy@.extra =~= c@.extra);
    copy
}

impl Clone for Component {
    fn clone(&self) -> (copy: Self)
        ensures
            copy@ == self@,
    {
        copy_component(self)
    }
}

impl From<&str> for Component {
    fn from(value: &str) -> (c: Self)
        ensures
            c@ == (Message { text: Some(value@), ..blank() }),
    {
        Component::text(value)
    }
}

impl vstd::std_specs::convert::FromSpecImpl<&str> for Component {
    open spec fn obeys_from_spec() -> bool {
        false
    }

    open spec fn from_spec(value: &str) -> Self {
        arbitrary()
    }
}

impl From<String> for Component {
    fn from(value: String) -> (c: Self)
        ensures
            c@ == (Message { text: Some(value@), ..blank() }),
    {
        Component::text(value)
    }
}

impl vstd::std_specs::convert::FromSpecImpl<String> for Component {
    open spec fn obeys_from_spec() -> bool {
        false
    }

    open spec fn from_spec(value: String) -> Self {
        arbitrary()
    }
}

/// A text that fits a 16-bit length, where there is one.
pub open spec fn text_writable(text: Option<Seq<char>>) -> bool {
    text matches Some(t) ==> mutf8::text_bytes(t).len() <= mutf8::MAX_TEXT_BYTES
}

/// What the NBT form can hold: texts within a 16-bit length, no more children
/// than a list has room for, and nesting for which `levels` are enough. A child
/// is two levels below its parent, being in a list.
pub open spec fn writable(m: Message, levels: nat) -> bool
    decreases m,
{
    &&& levels > 1
    &&& text_writable(m.text) && text_writable(m.translate) && text_writable(m.color)
    &&& m.extra.len() <= nbt::MAX_ARRAY_LEN
    &&& forall|i: int|
        0 <= i < m.extra.len() ==> levels > 2 && writable(
            #[trigger] m.extra[i],
            (levels - 2) as nat,
        )
}

/// Entries that a compound `levels` above its values can hold.
spec fn holdable(entries: Seq<(Seq<char>, NbtValue)>, levels: nat) -> bool {
    &&& nbt::distinct_keys(entries)
    &&& forall|i: int|
        0 <= i < entries.len() ==> mutf8::text_bytes((#[trigger] entries[i]).0).len()
            <= mutf8::MAX_TEXT_BYTES && nbt::representable(entries[i].1, levels)
}

proof fn lemma_set_holdable(
    entries: Seq<(Seq<char>, NbtValue)>,
    key: Seq<char>,
    value: NbtValue,
    levels: nat,
)
    requires
        holdable(entries, levels),
        key.len() < 100,
        nbt::representable(value, levels),
    ensures
        holdable(nbt::entries_with(entries, key, value), levels),
{
    mutf8::lemma_text_bytes_bound(key);
    nbt::law_keys_stay_distinct(entries, key, value);
    let after = nbt::entries_with(entries, key, value);
    assert forall|i: int| 0 <= i < after.len() implies mutf8::text_bytes(
        (#[trigger] after[i]).0,
    ).len() <= mutf8::MAX_TEXT_BYTES && nbt::representable(after[i].1, levels) by {
        if after[i] != (key, value) {
            assert(after[i] == entries[i]);
        }
    }
}

proof fn lemma_text_entry_holdable(
    entries: Seq<(Seq<char>, NbtValue)>,
    key: Seq<char>,
    text: Option<Seq<char>>,
    levels: nat,
)
    requires
        holdable(entries, levels),
        levels > 0,
        key.len() < 100,
        text_writable(text),
    ensures
        holdable(nbt_text_entry(entries, key, text), levels),
{
    if let Some(t) = text {
        lemma_set_holdable(entries, key, NbtValue::Text(t), levels);
    }
}

proof fn lemma_flag_entry_holdable(
    entries: Seq<(Seq<char>, NbtValue)>,
    key: Seq<char>,
    flag: Option<bool>,
    levels: nat,
)
    requires
        holdable(entries, levels),
        levels > 0,
        key.len() < 100,
    ensures
        holdable(nbt_flag_entry(entries, key, flag), levels),
{
    lemma_set_holdable(entries, key, NbtValue::Byte(1), levels);
    lemma_set_holdable(entries, key, NbtValue::Byte(0), levels);
}

proof fn lemma_style_holdable(m: Message, levels: nat)
    requires
        levels > 0,
        text_writable(m.text) && text_writable(m.translate) && text_writable(m.color),
    ensures
        holdable(nbt_style(m), levels),
{
    reveal_strlit("text");
    reveal_strlit("translate");
    reveal_strlit("color");
    reveal_strlit("bold");
    reveal_strlit("italic");
    reveal_strlit("underlined");
    reveal_strlit("strikethrough");
    reveal_strlit("obfuscated");
    let e = Seq::<(Seq<char>, NbtValue)>::empty();
    lemma_text_entry_holdable(e, "text"@, m.text, levels);
    let e = nbt_text_entry(e, "text"@, m.text);
    lemma_text_entry_holdable(e, "translate"@, m.translate, levels);
    let e = nbt_text_entry(e, "translate"@, m.translate);
    lemma_text_entry_holdable(e, "color"@, m.color, levels);
    let e = nbt_text_entry(e, "color"@, m.color);
    lemma_flag_entry_holdable(e, "bold"@, m.bold, levels);
    let e = nbt_flag_entry(e, "bold"@, m.bold);
    lemma_flag_entry_holdable(e, "italic"@, m.italic, levels);
    let e = nbt_flag_entry(e, "italic"@, m.italic);
    lemma_flag_entry_holdable(e, "underlined"@, m.underlined, levels);
    let e = nbt_flag_entry(e, "underlined"@, m.underlined);
    lemma_flag_entry_holdable(e, "strikethrough"@, m.strikethrough, levels);
    let e = nbt_flag_entry(e, "strikethrough"@, m.strikethrough);
    lemma_flag_entry_holdable(e, "obfuscated"@, m.obfuscated, levels);
}

proof fn lemma_form_representable(m: Message, levels: nat)
    requires
        writable(m, levels),
    ensures
        nbt::representable(nbt_form(m), levels),
        nbt_form(m).type_id() == TAG_COMPOUND,
    decreases m,
{
    let below = (levels - 1) as nat;
    lemma_style_holdable(m, below);
    if m.extra.len() > 0 {
        let children = nbt_forms(m.extra);
        assert forall|i: int| 0 <= i < children.len() implies (#[trigger] children[i]).type_id()
            == TAG_COMPOUND && nbt::representable(children[i], (below - 1) as nat) by {
            assert(writable(m.extra[i], (levels - 2) as nat));
            lemma_form_representable(m.extra[i], (levels - 2) as nat);
        }
        assert(writable(m.extra[0], (levels - 2) as nat));
        let list = NbtValue::List(TAG_COMPOUND, children);
        reveal_strlit("extra");
        lemma_set_holdable(nbt_style(m), "extra"@, list, below);
    }
}

/// A message that the NBT form can hold is read back from its network encoding
/// as it was written, children and all, and exactly its bytes are consumed.
pub proof fn law_message_survives_the_wire(m: Message, tail: Seq<u8>)
    requires
        writable(m, (nbt::MAX_DEPTH + 1) as nat),
    ensures
        nbt::parse_network(nbt::network_bytes(nbt_form(m)) + tail) == (
            Ok::<NbtValue, ProtocolError>(nbt_form(m)),
            tail,
        ),
{
    lemma_form_representable(m, (nbt::MAX_DEPTH + 1) as nat);
    nbt::law_network_round_trip(nbt_form(m), tail);
}

} // verus!
