//! The server-list response, cached.
//!
//! Pings are unauthenticated and cheap to send, so a public server answers far
//! more of them than logins, and every one of them would otherwise re-serialize
//! the same JSON. The document only changes when the player count does, so it is
//! built once per distinct count and shared from there on.

use std::collections::HashMap;
use std::sync::Arc;

use vstd::prelude::*;

use crate::protocol::mutf8::push_char;
use crate::protocol::nbt::same_text;
use crate::protocol::packets::status;
use crate::protocol::packets::status::{
    PlayersInfo, SamplePlayer, ServerStatus, StatusFields, VersionInfo,
};
use crate::protocol::text;
use crate::protocol::text::{Component, Message};
use crate::protocol::types;
use crate::protocol::types::Uuid;
use crate::protocol::version;
use crate::server::player;
use crate::server::player::offline_uuid;

verus! {

broadcast use vstd::std_specs::hash::group_hash_axioms;

/// Maximum names listed in the hover sample.
pub const SAMPLE_LIMIT: usize = 12;

/// The characters of each of some strings.
pub open spec fn texts(strings: Seq<String>) -> Seq<Seq<char>> {
    Seq::new(strings.len(), |i: int| strings[i]@)
}

/// A document, and the sample it was built for.
#[derive(Debug)]
struct Cached {
    sample: Vec<String>,
    json: Arc<String>,
}

/// A document, and the sample it was built for.
pub struct CachedFields {
    pub sample: Seq<Seq<char>>,
    pub json: Arc<String>,
}

/// Builds and caches the status document, one for each player count that was
/// asked for.
#[derive(Debug)]
pub struct StatusCache {
    description: Component,
    max_players: i32,
    favicon: Option<String>,
    enforces_secure_chat: bool,
    cached: HashMap<i32, Cached>,
    rebuilds: u64,
}

/// The name and the id of each sample player, in the order of the names. The id
/// is cosmetic; a stable offline id keeps it consistent between pings.
pub open spec fn sample_of(names: Seq<Seq<char>>) -> Seq<(Seq<char>, Seq<char>)> {
    let shown = if names.len() < SAMPLE_LIMIT {
        names.len()
    } else {
        SAMPLE_LIMIT as nat
    };
    Seq::new(
        shown,
        |i: int| (names[i], types::uuid_text(player::offline_id(names[i]).value)),
    )
}

/// What asking for a document does to the cache: the one held for the count is
/// given where it was built for the same sample, else one is built and held in
/// its place. The documents of other counts stay.
pub open spec fn serves(
    was: StatusCache,
    now: StatusCache,
    online: i32,
    sample: Seq<Seq<char>>,
    json: Arc<String>,
) -> bool {
    let fresh = match was.held(online) {
        Some(c) => c.sample != sample,
        None => true,
    };
    &&& now.same_settings(was)
    &&& now.held(online) == Some(CachedFields { sample, json })
    &&& forall|other: i32| other != online ==> #[trigger] now.held(other) == was.held(other)
    &&& if fresh {
        &&& (*json)@ == status::status_json(was.document(online, sample))
        &&& now.built() == was.built().wrapping_add(1)
    } else {
        &&& json == was.held(online)->0.json
        &&& now.built() == was.built()
    }
}

/// A document is built once for each count: whoever asks for a count again is
/// given the same document without another build, even where another count was
/// asked for in between.
pub proof fn law_one_build_per_count(
    start: StatusCache,
    first: StatusCache,
    second: StatusCache,
    third: StatusCache,
    count: i32,
    sample: Seq<Seq<char>>,
    json: Arc<String>,
    other: i32,
    other_sample: Seq<Seq<char>>,
    other_json: Arc<String>,
    again: Arc<String>,
)
    requires
        count != other,
        serves(start, first, count, sample, json),
        serves(first, second, other, other_sample, other_json),
        serves(second, third, count, sample, again),
    ensures
        again == json,
        third.built() == second.built(),
{
    assert(second.held(count) == first.held(count));
}

impl StatusCache {
    /// The message of the day.
    pub closed spec fn motd(&self) -> Message {
        self.description@
    }

    /// The advertised capacity.
    pub closed spec fn capacity(&self) -> i32 {
        self.max_players
    }

    /// The icon, where there is one.
    pub closed spec fn icon(&self) -> Option<Seq<char>> {
        text::chars(self.favicon)
    }

    /// Whether chat must be signed.
    pub closed spec fn secure_chat(&self) -> bool {
        self.enforces_secure_chat
    }

    /// The document that was built last for a player count, where one was.
    pub closed spec fn held(&self, online: i32) -> Option<CachedFields> {
        if self.cached@.contains_key(online) {
            let c = self.cached@[online];
            Some(CachedFields { sample: texts(c.sample@), json: c.json })
        } else {
            None
        }
    }

    /// How many documents have been built.
    pub closed spec fn built(&self) -> u64 {
        self.rebuilds
    }

    /// What the document for a player count and sample holds.
    pub open spec fn document(&self, online: i32, names: Seq<Seq<char>>) -> StatusFields {
        StatusFields {
            version: version::MINECRAFT_VERSION@,
            protocol: version::PROTOCOL_VERSION,
            max: self.capacity(),
            online,
            sample: sample_of(names),
            description: self.motd(),
            favicon: self.icon(),
            enforces_secure_chat: self.secure_chat(),
        }
    }

    /// Every document held is the one that would be built.
    pub open spec fn wf(&self) -> bool {
        forall|online: i32|
            #[trigger] self.held(online) matches Some(c) ==> (*c.json)@ == status::status_json(
                self.document(online, c.sample),
            )
    }

    /// The settings are the same.
    pub open spec fn same_settings(&self, other: StatusCache) -> bool {
        self.motd() == other.motd() && self.capacity() == other.capacity() && self.icon()
            == other.icon() && self.secure_chat() == other.secure_chat()
    }

    #[must_use]
    pub fn new(description: Component, max_players: i32) -> (cache: Self)
        ensures
            cache.wf(),
            cache.motd() == description@,
            cache.capacity() == max_players,
            cache.icon() is None,
            !cache.secure_chat(),
            forall|online: i32| #[trigger] cache.held(online) is None,
            cache.built() == 0,
    {
        StatusCache {
            description,
            max_players,
            favicon: None,
            enforces_secure_chat: false,
            cached: HashMap::new(),
            rebuilds: 0,
        }
    }

    /// Attaches a `data:image/png;base64,...` icon. Documents that are already
    /// held stay as they are.
    #[must_use]
    pub fn with_favicon(self, favicon: Option<String>) -> (cache: Self)
        ensures
            cache.motd() == self.motd(),
            cache.capacity() == self.capacity(),
            cache.icon() == text::chars(favicon),
            cache.secure_chat() == self.secure_chat(),
            forall|online: i32| #[trigger] cache.held(online) == self.held(online),
            cache.built() == self.built(),
            (forall|online: i32| #[trigger] self.held(online) is None) ==> cache.wf(),
    {
        let cache = StatusCache { favicon, ..self };
        assert(forall|online: i32| #[trigger] cache.held(online) == self.held(online));
        cache
    }

    /// How many times the JSON has actually been serialized.
    #[must_use]
    pub fn rebuild_count(&self) -> (count: u64)
        ensures
            count == self.built(),
    {
        self.rebuilds
    }

    /// The document held for this count, where it was built for this sample.
    fn hit(&self, online: i32, sample: &[String]) -> (json: Option<Arc<String>>)
        ensures
            match self.held(online) {
                Some(c) => if c.sample == texts(sample@) {
                    json == Some(c.json)
                } else {
                    json is None
                },
                None => json is None,
            },
    {
        match self.cached.get(&online) {
            Some(c) => {
                if same_texts(&c.sample, sample) {
                    Some(c.json.clone())
                } else {
                    None
                }
            },
            None => None,
        }
    }

    /// The status JSON for the given player count and sample.
    ///
    /// It is built where it is not the one held for that count, and then it is
    /// held.
    pub fn json(&mut self, online: i32, sample: &[String]) -> (json: Arc<String>)
        ensures
            serves(*old(self), *final(self), online, texts(sample@), json),
            old(self).wf() ==> final(self).wf() && (*json)@ == status::status_json(
                old(self).document(online, texts(sample@)),
            ),
    {
        if let Some(json) = self.hit(online, sample) {
            return json;
        }
        let json: Arc<String> = Arc::new(self.build(online, sample).to_json());
        self.rebuilds = self.rebuilds.wrapping_add(1);
        let _ = self.cached.insert(
            online,
            Cached { sample: copy_texts(sample), json: json.clone() },
        );
        proof {
            assert forall|o: i32| o != online implies #[trigger] self.held(o) == old(self).held(
                o,
            ) by {}
            assert(serves(*old(self), *self, online, texts(sample@), json));
            if old(self).wf() {
                assert forall|o: i32|
                    #[trigger] self.held(o) matches Some(c) implies (*self.held(o)->0.json)@
                    == status::status_json(self.document(o, self.held(o)->0.sample)) by {
                    if o != online {
                        assert(self.held(o) == old(self).held(o));
                    }
                }
            }
        }
        json
    }

    fn build(&self, online: i32, sample: &[String]) -> (document: ServerStatus)
        ensures
            document@ == self.document(online, texts(sample@)),
    {
        let names = sample;
        let mut shown: Vec<SamplePlayer> = Vec::new();
        let mut i: usize = 0;
        while i < names.len() && i < SAMPLE_LIMIT
            invariant
                i <= names@.len(),
                i <= SAMPLE_LIMIT,
                shown@.len() == i,
                forall|k: int| 0 <= k < i ==> (
                    (#[trigger] shown@[k]).name@,
                    shown@[k].id@,
                ) == sample_of(texts(names@))[k],
            decreases names@.len() - i,
        {
            let name = names[i].as_str();
            let id = offline_uuid(name).to_string();
            shown.push(SamplePlayer { name: name.to_owned(), id });
            i += 1;
        }
        assert(status::sample_fields(shown@) =~= sample_of(texts(names@)));
        let favicon: Option<String> = match &self.favicon {
            Some(uri) => Some(uri.as_str().to_owned()),
            None => None,
        };
        ServerStatus {
            version: VersionInfo::default(),
            players: PlayersInfo { max: self.max_players, online, sample: shown },
            description: self.description.clone(),
            favicon,
            enforces_secure_chat: self.enforces_secure_chat,
        }
    }
}

fn same_texts(a: &Vec<String>, b: &[String]) -> (same: bool)
    ensures
        same == (texts(a@) == texts(b@)),
{
    if a.len() != b.len() {
        assert(texts(a@).len() != texts(b@).len());
        return false;
    }
    let mut i: usize = 0;
    while i < a.len()
        invariant
            i <= a@.len(),
            a@.len() == b@.len(),
            forall|k: int| 0 <= k < i ==> (#[trigger] a@[k])@ == b@[k]@,
        decreases a@.len() - i,
    {
        if !same_text(a[i].as_str(), b[i].as_str()) {
            assert(texts(a@)[i as int] != texts(b@)[i as int]);
            return false;
        }
        i += 1;
    }
    assert(texts(a@) =~= texts(b@));
    true
}

fn copy_texts(strings: &[String]) -> (copy: Vec<String>)
    ensures
        texts(copy@) == texts(strings@),
{
    let mut copy: Vec<String> = Vec::with_capacity(strings.len());
    let mut i: usize = 0;
    while i < strings.len()
        invariant
            i <= strings@.len(),
            copy@.len() == i,
            forall|k: int| 0 <= k < i ==> (#[trigger] copy@[k])@ == strings@[k]@,
        decreases strings@.len() - i,
    {
        copy.push(strings[i].as_str().to_owned());
        i += 1;
    }
    assert(texts(copy@) =~= texts(strings@));
    copy
}

/// The first eight bytes of every PNG file.
pub open spec fn png_signature() -> Seq<u8> {
    seq![0x89, 0x50, 0x4E, 0x47, 0x0D, 0x0A, 0x1A, 0x0A]
}

/// Turns a favicon file into the data URI the protocol expects.
///
/// Clients require a PNG; anything else is refused rather than shown broken.
#[must_use]
pub fn favicon_data_uri(png: &[u8]) -> (uri: Option<String>)
    ensures
        uri is Some <==> png_signature().is_prefix_of(png@),
        uri matches Some(uri) ==> uri@ == "data:image/png;base64,"@ + base64(png@),
{
    let signed: bool = png.len() >= 8 && png[0] == 0x89 && png[1] == 0x50 && png[2] == 0x4E
        && png[3] == 0x47 && png[4] == 0x0D && png[5] == 0x0A && png[6] == 0x1A && png[7] == 0x0A;
    proof {
        if signed {
            assert(png@.take(8) =~= png_signature());
        } else if png_signature().is_prefix_of(png@) {
            assert(forall|i: int| 0 <= i < 8 ==> png@[i] == #[trigger] png_signature()[i]);
            assert(png@[0] == png_signature()[0] && png@[1] == png_signature()[1] && png@[2]
                == png_signature()[2] && png@[3] == png_signature()[3]);
            assert(png@[4] == png_signature()[4] && png@[5] == png_signature()[5] && png@[6]
                == png_signature()[6] && png@[7] == png_signature()[7]);
        }
    }
    if !signed {
        return None;
    }
    let mut uri = "data:image/png;base64,".to_owned();
    uri.append(base64_encode(png).as_str());
    Some(uri)
}

/// The base64 digit of a number below 64.
pub open spec fn base64_digit(n: int) -> char {
    if n < 26 {
        (65 + n) as char
    } else if n < 52 {
        (71 + n) as char
    } else if n < 62 {
        (n - 4) as char
    } else if n == 62 {
        '+'
    } else {
        '/'
    }
}

/// Up to three bytes as one number of 24 bits.
pub open spec fn base64_number(group: Seq<u8>) -> int {
    group[0] * 65536 + (if group.len() > 1 {
        group[1] * 256
    } else {
        0
    }) + (if group.len() > 2 {
        group[2] as int
    } else {
        0
    })
}

/// One to three bytes as four base64 digits, padded where there are fewer than
/// three.
pub open spec fn base64_group(group: Seq<u8>) -> Seq<char> {
    let n = base64_number(group);
    seq![
        base64_digit(n / 262144),
        base64_digit(n / 4096 % 64),
        if group.len() > 1 {
            base64_digit(n / 64 % 64)
        } else {
            '='
        },
        if group.len() > 2 {
            base64_digit(n % 64)
        } else {
            '='
        },
    ]
}

/// Bytes in base64, three at a time.
pub open spec fn base64(bytes: Seq<u8>) -> Seq<char>
    decreases bytes.len(),
{
    if bytes.len() == 0 {
        Seq::empty()
    } else if bytes.len() <= 3 {
        base64_group(bytes)
    } else {
        base64_group(bytes.take(3)) + base64(bytes.skip(3))
    }
}

/// Base64 takes four characters for every three bytes begun.
pub proof fn law_base64_length(bytes: Seq<u8>)
    ensures
        base64(bytes).len() == (bytes.len() + 2) / 3 * 4,
    decreases bytes.len(),
{
    if bytes.len() > 3 {
        law_base64_length(bytes.skip(3));
    }
}

/// What a base64 digit is worth: upper-case letters, lower-case letters, digits,
/// plus and slash, in this order.
pub open spec fn base64_worth(c: char) -> int {
    if 'A' <= c <= 'Z' {
        c as int - 'A' as int
    } else if 'a' <= c <= 'z' {
        c as int - 'a' as int + 26
    } else if '0' <= c <= '9' {
        c as int - '0' as int + 52
    } else if c == '+' {
        62
    } else if c == '/' {
        63
    } else {
        -1
    }
}

/// Three bytes are four digits that add up to the same number. Where there are
/// fewer bytes, the digits that they leave out are equals signs.
pub proof fn law_base64_group(a: u8, b: u8, c: u8)
    ensures
        ({
            let (x, y, z) = (base64(seq![a, b, c]), base64(seq![a, b]), base64(seq![a]));
            &&& x.len() == 4 && y.len() == 4 && z.len() == 4
            &&& forall|i: int| 0 <= i < 4 ==> 0 <= base64_worth(#[trigger] x[i]) < 64
            &&& base64_worth(x[0]) * 262144 + base64_worth(x[1]) * 4096 + base64_worth(x[2]) * 64
                + base64_worth(x[3]) == a * 65536 + b * 256 + c
            &&& base64_worth(y[0]) * 262144 + base64_worth(y[1]) * 4096 + base64_worth(y[2]) * 64
                == a * 65536 + b * 256
            &&& y[3] == '='
            &&& base64_worth(z[0]) * 262144 + base64_worth(z[1]) * 4096 == a * 65536
            &&& z[2] == '=' && z[3] == '='
        }),
{
    lemma_base64_some(seq![a, b, c], a * 65536 + b * 256 + c);
    lemma_base64_some(seq![a, b], a * 65536 + b * 256);
    lemma_base64_some(seq![a], a * 65536);
}

proof fn lemma_base64_some(group: Seq<u8>, n: int)
    requires
        1 <= group.len() <= 3,
        n == base64_number(group),
    ensures
        ({
            let x = base64(group);
            &&& x.len() == 4
            &&& base64_worth(x[0]) == n / 262144 && base64_worth(x[1]) == n / 4096 % 64
            &&& group.len() > 1 ==> base64_worth(x[2]) == n / 64 % 64
            &&& group.len() > 2 ==> base64_worth(x[3]) == n % 64
            &&& group.len() <= 1 ==> x[2] == '='
            &&& group.len() <= 2 ==> x[3] == '='
        }),
        0 <= n < 0x100_0000,
        n == n / 262144 * 262144 + n / 4096 % 64 * 4096 + n / 64 % 64 * 64 + n % 64,
        group.len() <= 2 ==> n % 64 == 0,
        group.len() <= 1 ==> n / 64 % 64 == 0,
{
    lemma_base64_digits(n);
}

proof fn lemma_base64_digits(n: int)
    requires
        0 <= n < 0x100_0000,
    ensures
        base64_worth(base64_digit(n / 262144)) == n / 262144,
        base64_worth(base64_digit(n / 4096 % 64)) == n / 4096 % 64,
        base64_worth(base64_digit(n / 64 % 64)) == n / 64 % 64,
        base64_worth(base64_digit(n % 64)) == n % 64,
        n == n / 262144 * 262144 + n / 4096 % 64 * 4096 + n / 64 % 64 * 64 + n % 64,
{
    lemma_base64_worth(n / 262144);
    lemma_base64_worth(n / 4096 % 64);
    lemma_base64_worth(n / 64 % 64);
    lemma_base64_worth(n % 64);
    assert(n == n / 64 * 64 + n % 64);
    assert(n / 64 == n / 4096 * 64 + n / 64 % 64);
    assert(n / 4096 == n / 262144 * 64 + n / 4096 % 64);
}

proof fn lemma_base64_worth(n: int)
    requires
        0 <= n < 64,
    ensures
        base64_worth(base64_digit(n)) == n,
{
}

/// Bytes are taken three at a time: what follows a whole number of threes is
/// written as it would be alone.
pub proof fn law_base64_joins(a: Seq<u8>, b: Seq<u8>)
    requires
        a.len() % 3 == 0,
    ensures
        base64(Seq::empty()) == Seq::<char>::empty(),
        base64(a + b) == base64(a) + base64(b),
    decreases a.len(),
{
    if a.len() == 0 {
        assert(a + b =~= b);
        assert(base64(a + b) =~= base64(a) + base64(b));
    } else {
        let rest = a.skip(3);
        law_base64_joins(rest, b);
        assert((a + b).take(3) =~= a.take(3));
        assert((a + b).skip(3) =~= rest + b);
        if a.len() == 3 {
            assert(a.take(3) =~= a);
            assert(base64(rest) =~= Seq::<char>::empty());
        }
        if (a + b).len() == 3 {
            assert(base64(rest + b) =~= Seq::<char>::empty());
        }
        assert(base64(a + b) =~= base64(a) + base64(b));
    }
}

/// The document says the version that this server speaks, how many players there
/// are and may be, the first twelve names of the sample with their ids, and the
/// settings.
pub proof fn law_document_says(cache: StatusCache, online: i32, names: Seq<Seq<char>>)
    ensures
        ({
            let d = cache.document(online, names);
            &&& d.version == "26.2"@ && d.protocol == 776
            &&& d.online == online && d.max == cache.capacity()
            &&& d.sample.len() == (if names.len() < 12 {
                names.len()
            } else {
                12
            })
            &&& forall|i: int|
                0 <= i < d.sample.len() ==> (#[trigger] d.sample[i]).0 == names[i] && d.sample[i].1
                    == types::uuid_text(player::offline_id(names[i]).value)
            &&& d.description == cache.motd() && d.favicon == cache.icon()
            &&& d.enforces_secure_chat == cache.secure_chat()
        }),
{
}

/// Whoever asks is given the document of the count and the sample asked for,
/// whatever was held before; at most one is built for it, and the settings stay.
pub proof fn law_document_is_current(
    was: StatusCache,
    now: StatusCache,
    online: i32,
    sample: Seq<Seq<char>>,
    json: Arc<String>,
)
    requires
        was.wf(),
        serves(was, now, online, sample, json),
    ensures
        (*json)@ == status::status_json(was.document(online, sample)),
        now.document(online, sample) == was.document(online, sample),
        now.built() == was.built() || now.built() == was.built().wrapping_add(1),
{
}

/// A file is taken for a PNG just where it begins with a byte that is no text,
/// the three letters, and the line ends that such a file is known by.
pub proof fn law_png_files_are_known(png: Seq<u8>)
    ensures
        png_signature().is_prefix_of(png) <==> {
            &&& png.len() >= 8
            &&& png[0] == 137
            &&& png[1] == 'P' as u8 && png[2] == 'N' as u8 && png[3] == 'G' as u8
            &&& png[4] == 13 && png[5] == 10 && png[6] == 26 && png[7] == 10
        },
{
    let mark = png_signature();
    if mark.is_prefix_of(png) {
        assert(forall|i: int| 0 <= i < 8 ==> png[i] == #[trigger] mark[i]);
        assert(png[0] == mark[0] && png[1] == mark[1] && png[2] == mark[2] && png[3] == mark[3]);
        assert(png[4] == mark[4] && png[5] == mark[5] && png[6] == mark[6] && png[7] == mark[7]);
    } else if png.len() >= 8 {
        assert(!(mark =~= png.subrange(0, 8)));
    }
}

fn digit(n: u32) -> (c: char)
    requires
        n < 64,
    ensures
        c == base64_digit(n as int),
{
    if n < 26 {
        (65 + n as u8) as char
    } else if n < 52 {
        (71 + n as u8) as char
    } else if n < 62 {
        (n as u8 - 4) as char
    } else if n == 62 {
        '+'
    } else {
        '/'
    }
}

/// Minimal base64, to avoid a dependency for one 4 KiB icon.
#[must_use]
pub fn base64_encode(input: &[u8]) -> (out: String)
    ensures
        out@ == base64(input@),
{
    let mut out: String = String::new();
    let mut i: usize = 0;
    assert(input@.skip(0) =~= input@);
    while i < input.len()
        invariant
            i <= input@.len(),
            out@ + base64(input@.skip(i as int)) == base64(input@),
        decreases input@.len() - i,
    {
        let left: usize = input.len() - i;
        let ghost rest = input@.skip(i as int);
        let ghost group = if left <= 3 {
            rest
        } else {
            rest.take(3)
        };
        let second: u32 = if left > 1 { input[i + 1] as u32 } else { 0 };
        let third: u32 = if left > 2 { input[i + 2] as u32 } else { 0 };
        let n: u32 = input[i] as u32 * 65536 + second * 256 + third;
        assert(n == base64_number(group));
        let ghost before = out@;
        push_char(&mut out, digit(n / 262144));
        push_char(&mut out, digit(n / 4096 % 64));
        push_char(&mut out, if left > 1 { digit(n / 64 % 64) } else { '=' });
        push_char(&mut out, if left > 2 { digit(n % 64) } else { '=' });
        assert(out@ =~= before + base64_group(group));
        let step: usize = if left < 3 { left } else { 3 };
        assert(input@.skip(i + step) =~= rest.skip(step as int));
        assert(out@ + base64(input@.skip(i + step)) =~= before + base64(rest));
        i += step;
    }
    assert(input@.skip(i as int) =~= Seq::<u8>::empty());
    assert(out@ + base64(input@.skip(i as int)) =~= out@);
    out
}

/// A deterministic id for a sample entry.
#[must_use]
pub fn sample_id(name: &str) -> (id: Uuid)
    ensures
        id == player::offline_id(name@),
{
    offline_uuid(name)
}

} // verus!
