//! The status document, member by member.

use vstd::prelude::*;

use crate::protocol::json;
use crate::protocol::packets::status;
use crate::protocol::packets::status::{PlayersInfo, SamplePlayer, ServerStatus, VersionInfo};
use crate::protocol::text;
use crate::protocol::text_format;

verus! {

/// A JSON object of some members.
pub open spec fn object(parts: Seq<(Seq<char>, Option<Seq<char>>)>) -> Seq<char> {
    seq!['{'] + text_format::members(parts) + seq!['}']
}

/// The version, as an object of its name and its number.
pub open spec fn version_object(v: VersionInfo) -> Seq<char> {
    object(
        seq![
            ("name"@, Some(json::json_string(v.name@))),
            ("protocol"@, Some(json::decimal(v.protocol as int))),
        ],
    )
}

/// A sample player, as an object of their name and their id.
pub open spec fn sample_object(p: SamplePlayer) -> Seq<char> {
    object(
        seq![
            ("name"@, Some(json::json_string(p.name@))),
            ("id"@, Some(json::json_string(p.id@))),
        ],
    )
}

/// The players, as an object of how many there may be, how many there are, and a
/// sample where there is one.
pub open spec fn players_object(p: PlayersInfo) -> Seq<char> {
    object(
        seq![
            ("max"@, Some(json::decimal(p.max as int))),
            ("online"@, Some(json::decimal(p.online as int))),
            (
                "sample"@,
                if p.sample@.len() == 0 {
                    None
                } else {
                    Some(
                        seq!['['] + text_format::elements(
                            Seq::new(p.sample@.len(), |i: int| sample_object(p.sample@[i])),
                        ) + seq![']'],
                    )
                },
            ),
        ],
    )
}

/// The status document is an object of the version, the players, the
/// description, the icon where there is one, and whether chat must be signed.
pub proof fn law_status_document(s: ServerStatus)
    ensures
        status::status_json(s@) == object(
            seq![
                ("version"@, Some(version_object(s.version))),
                ("players"@, Some(players_object(s.players))),
                ("description"@, Some(text::json_form(s.description@))),
                ("favicon"@, text_format::text_value(s.favicon)),
                (
                    "enforcesSecureChat"@,
                    text_format::flag_value(Some(s.enforces_secure_chat)),
                ),
            ],
        ),
{
    lemma_names();
    lemma_version(s.version);
    lemma_players(s.players);
    let version = version_object(s.version);
    let players = players_object(s.players);
    let description = text::json_form(s.description@);
    let flag = json::json_bool(s.enforces_secure_chat);
    let p0 = Seq::<(Seq<char>, Option<Seq<char>>)>::empty();
    let p1 = p0.push(("version"@, Some(version)));
    let p2 = p1.push(("players"@, Some(players)));
    let p3 = p2.push(("description"@, Some(description)));
    let p4 = p3.push(("favicon"@, text_format::text_value(s.favicon)));
    let p5 = p4.push(("enforcesSecureChat"@, Some(flag)));
    text_format::lemma_member(p0, "version"@, "\"version\":"@, version);
    text_format::lemma_member(p1, "players"@, "\"players\":"@, players);
    text_format::lemma_member(p2, "description"@, "\"description\":"@, description);
    match s.favicon {
        Some(uri) => text_format::lemma_member(
            p3,
            "favicon"@,
            "\"favicon\":"@,
            json::json_string(uri@),
        ),
        None => text_format::lemma_no_member(p3, "favicon"@),
    }
    text_format::lemma_member(p4, "enforcesSecureChat"@, "\"enforcesSecureChat\":"@, flag);
    assert(text_format::members(p0).len() == 0);
    assert(p5 =~= seq![
        ("version"@, Some(version)),
        ("players"@, Some(players)),
        ("description"@, Some(description)),
        ("favicon"@, text_format::text_value(s.favicon)),
        ("enforcesSecureChat"@, Some(flag)),
    ]);
}

proof fn lemma_version(v: VersionInfo)
    ensures
        status::version_json(v.name@, v.protocol) == version_object(v),
{
    lemma_names();
    let name = json::json_string(v.name@);
    let number = json::decimal(v.protocol as int);
    let p0 = Seq::<(Seq<char>, Option<Seq<char>>)>::empty();
    let p1 = p0.push(("name"@, Some(name)));
    let p2 = p1.push(("protocol"@, Some(number)));
    text_format::lemma_member(p0, "name"@, "\"name\":"@, name);
    text_format::lemma_member(p1, "protocol"@, "\"protocol\":"@, number);
    assert(text_format::members(p0).len() == 0);
    assert(p2 =~= seq![("name"@, Some(name)), ("protocol"@, Some(number))]);
}

proof fn lemma_sample(p: SamplePlayer)
    ensures
        status::sample_json((p.name@, p.id@)) == sample_object(p),
        sample_object(p).len() > 0,
{
    lemma_names();
    let name = json::json_string(p.name@);
    let id = json::json_string(p.id@);
    let p0 = Seq::<(Seq<char>, Option<Seq<char>>)>::empty();
    let p1 = p0.push(("name"@, Some(name)));
    let p2 = p1.push(("id"@, Some(id)));
    text_format::lemma_member(p0, "name"@, "\"name\":"@, name);
    text_format::lemma_member(p1, "id"@, "\"id\":"@, id);
    assert(text_format::members(p0).len() == 0);
    assert(p2 =~= seq![("name"@, Some(name)), ("id"@, Some(id))]);
}

proof fn lemma_samples(sample: Seq<SamplePlayer>)
    ensures
        status::samples_json(status::sample_fields(sample)) == text_format::elements(
            Seq::new(sample.len(), |i: int| sample_object(sample[i])),
        ),
        sample.len() > 0 ==> status::samples_json(status::sample_fields(sample)).len() > 0,
    decreases sample.len(),
{
    let all = Seq::new(sample.len(), |i: int| sample_object(sample[i]));
    let fields = status::sample_fields(sample);
    if sample.len() > 0 {
        let fewer = sample.drop_last();
        lemma_samples(fewer);
        lemma_names();
        lemma_sample(sample.last());
        assert(fields.drop_last() =~= status::sample_fields(fewer));
        assert(all.drop_last() =~= Seq::new(fewer.len(), |i: int| sample_object(fewer[i])));
        if sample.len() == 1 {
            assert(status::samples_json(fields.drop_last()).len() == 0);
        }
    }
}

proof fn lemma_players(p: PlayersInfo)
    ensures
        status::players_json(p.max, p.online, status::sample_fields(p.sample@)) == players_object(
            p,
        ),
{
    lemma_names();
    lemma_samples(p.sample@);
    let most = json::decimal(p.max as int);
    let online = json::decimal(p.online as int);
    let list = seq!['['] + text_format::elements(
        Seq::new(p.sample@.len(), |i: int| sample_object(p.sample@[i])),
    ) + seq![']'];
    let sample = if p.sample@.len() == 0 {
        None
    } else {
        Some(list)
    };
    let p0 = Seq::<(Seq<char>, Option<Seq<char>>)>::empty();
    let p1 = p0.push(("max"@, Some(most)));
    let p2 = p1.push(("online"@, Some(online)));
    let p3 = p2.push(("sample"@, sample));
    text_format::lemma_member(p0, "max"@, "\"max\":"@, most);
    text_format::lemma_member(p1, "online"@, "\"online\":"@, online);
    text_format::lemma_member(p2, "sample"@, "\"sample\":"@, list);
    text_format::lemma_no_member(p2, "sample"@);
    assert(text_format::members(p0).len() == 0);
    assert(p3 =~= seq![
        ("max"@, Some(most)),
        ("online"@, Some(online)),
        ("sample"@, sample),
    ]);
}

proof fn lemma_names()
    ensures
        "\"version\":"@ == seq!['"'] + "version"@ + seq!['"', ':'],
        "\"players\":"@ == seq!['"'] + "players"@ + seq!['"', ':'],
        "\"description\":"@ == seq!['"'] + "description"@ + seq!['"', ':'],
        "\"favicon\":"@ == seq!['"'] + "favicon"@ + seq!['"', ':'],
        "\"enforcesSecureChat\":"@ == seq!['"'] + "enforcesSecureChat"@ + seq!['"', ':'],
        "\"name\":"@ == seq!['"'] + "name"@ + seq!['"', ':'],
        "\"protocol\":"@ == seq!['"'] + "protocol"@ + seq!['"', ':'],
        "\"id\":"@ == seq!['"'] + "id"@ + seq!['"', ':'],
        "\"max\":"@ == seq!['"'] + "max"@ + seq!['"', ':'],
        "\"online\":"@ == seq!['"'] + "online"@ + seq!['"', ':'],
        "\"sample\":"@ == seq!['"'] + "sample"@ + seq!['"', ':'],
        "{"@ == seq!['{'],
        "}"@ == seq!['}'],
        "["@ == seq!['['],
        "]"@ == seq![']'],
        ","@ == seq![','],
{
    reveal_strlit("version");
    reveal_strlit("players");
    reveal_strlit("description");
    reveal_strlit("favicon");
    reveal_strlit("enforcesSecureChat");
    reveal_strlit("name");
    reveal_strlit("protocol");
    reveal_strlit("id");
    reveal_strlit("max");
    reveal_strlit("online");
    reveal_strlit("sample");
    reveal_strlit("\"version\":");
    reveal_strlit("\"players\":");
    reveal_strlit("\"description\":");
    reveal_strlit("\"favicon\":");
    reveal_strlit("\"enforcesSecureChat\":");
    reveal_strlit("\"name\":");
    reveal_strlit("\"protocol\":");
    reveal_strlit("\"id\":");
    reveal_strlit("\"max\":");
    reveal_strlit("\"online\":");
    reveal_strlit("\"sample\":");
    reveal_strlit("{");
    reveal_strlit("}");
    reveal_strlit("[");
    reveal_strlit("]");
    reveal_strlit(",");
    assert("\"version\":"@ =~= seq!['"'] + "version"@ + seq!['"', ':']);
    assert("\"players\":"@ =~= seq!['"'] + "players"@ + seq!['"', ':']);
    assert("\"description\":"@ =~= seq!['"'] + "description"@ + seq!['"', ':']);
    assert("\"favicon\":"@ =~= seq!['"'] + "favicon"@ + seq!['"', ':']);
    assert("\"enforcesSecureChat\":"@ =~= seq!['"'] + "enforcesSecureChat"@ + seq!['"', ':']);
    assert("\"name\":"@ =~= seq!['"'] + "name"@ + seq!['"', ':']);
    assert("\"protocol\":"@ =~= seq!['"'] + "protocol"@ + seq!['"', ':']);
    assert("\"id\":"@ =~= seq!['"'] + "id"@ + seq!['"', ':']);
    assert("\"max\":"@ =~= seq!['"'] + "max"@ + seq!['"', ':']);
    assert("\"online\":"@ =~= seq!['"'] + "online"@ + seq!['"', ':']);
    assert("\"sample\":"@ =~= seq!['"'] + "sample"@ + seq!['"', ':']);
    assert("{"@ =~= seq!['{']);
    assert("}"@ =~= seq!['}']);
    assert("["@ =~= seq!['[']);
    assert("]"@ =~= seq![']']);
    assert(","@ =~= seq![',']);
}

/// What a decimal digit is worth.
pub open spec fn digit_worth(c: char) -> int {
    c as int - '0' as int
}

/// The number that decimal digits add up to.
pub open spec fn decimal_value(digits: Seq<char>) -> int
    decreases digits.len(),
{
    if digits.len() == 0 {
        0
    } else {
        decimal_value(digits.drop_last()) * 10 + digit_worth(digits.last())
    }
}

/// A number in decimal is a minus sign where it is negative, and digits that add
/// up to its size, the first of them no zero but for zero itself.
pub proof fn law_decimal(n: int)
    ensures
        n < 0 ==> json::decimal(n)[0] == '-' && is_number(json::decimal(n).skip(1), -n),
        n >= 0 ==> is_number(json::decimal(n), n),
{
    if n < 0 {
        lemma_digits((-n) as nat);
        assert(json::decimal(n).skip(1) =~= json::digits((-n) as nat));
    } else {
        lemma_digits(n as nat);
    }
}

/// Digits that add up to a number, without zeros in front.
pub open spec fn is_number(digits: Seq<char>, n: int) -> bool {
    &&& digits.len() >= 1
    &&& forall|i: int| 0 <= i < digits.len() ==> '0' <= #[trigger] digits[i] <= '9'
    &&& decimal_value(digits) == n
    &&& digits[0] == '0' ==> n == 0 && digits.len() == 1
}

proof fn lemma_digits(n: nat)
    ensures
        is_number(json::digits(n), n as int),
    decreases n,
{
    let d = json::digits(n);
    let last = ('0' as u32 + n % 10) as char;
    assert(digit_worth(last) == n % 10 && '0' <= last <= '9');
    if n < 10 {
        assert(d.drop_last() =~= Seq::<char>::empty());
        assert(decimal_value(d.drop_last()) == 0);
    } else {
        lemma_digits(n / 10);
        assert(d.drop_last() =~= json::digits(n / 10));
        assert(d[0] == json::digits(n / 10)[0]);
    }
}

} // verus!
