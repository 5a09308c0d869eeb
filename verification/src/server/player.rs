//! Connected-player bookkeeping.

use std::collections::HashMap;

use vstd::prelude::*;
use vstd::utf8;

use crate::protocol::layout;
use crate::protocol::nbt::same_text;
use crate::protocol::types::Uuid;
use crate::protocol::wire;

verus! {

broadcast use vstd::std_specs::hash::group_hash_axioms;

/// A player's identity for the life of their connection.
#[derive(Debug, PartialEq, Eq)]
pub struct PlayerInfo {
    pub uuid: Uuid,
    pub name: String,
    /// Where the player connects from.
    pub addr: String,
}

/// The same identity, name and address.
pub open spec fn same_player(a: PlayerInfo, b: PlayerInfo) -> bool {
    a.uuid == b.uuid && a.name@ == b.name@ && a.addr@ == b.addr@
}

impl Clone for PlayerInfo {
    fn clone(&self) -> (copy: Self)
        ensures
            same_player(copy, *self),
    {
        PlayerInfo {
            uuid: self.uuid,
            name: self.name.as_str().to_owned(),
            addr: self.addr.as_str().to_owned(),
        }
    }
}

/// Why a login was refused.
#[derive(Debug, Clone, Copy, PartialEq, Eq, Structural)]
pub enum JoinError {
    Full,
    NameTaken,
}

/// The text of a [`JoinError`].
pub open spec fn join_error_text(e: JoinError) -> &'static str {
    match e {
        JoinError::Full => "The server is full",
        JoinError::NameTaken => "A player with that name is already connected",
    }
}

impl JoinError {
    /// The text to show.
    #[must_use]
    pub fn message(self) -> (text: &'static str)
        ensures
            text == join_error_text(self),
    {
        match self {
            JoinError::Full => "The server is full",
            JoinError::NameTaken => "A player with that name is already connected",
        }
    }
}

/// A player of that name is connected.
pub open spec fn taken(players: Map<u128, PlayerInfo>, name: Seq<char>) -> bool {
    exists|id: u128| #[trigger] players.contains_key(id) && players[id].name@ == name
}

/// Whether a login is refused, and why.
pub open spec fn refused(
    players: Map<u128, PlayerInfo>,
    name: Seq<char>,
    max_players: usize,
) -> Option<JoinError> {
    if players.len() >= max_players {
        Some(JoinError::Full)
    } else if taken(players, name) {
        Some(JoinError::NameTaken)
    } else {
        None
    }
}

/// The set of players currently connected.
#[derive(Debug)]
pub struct PlayerRegistry {
    players: HashMap<u128, PlayerInfo>,
}

impl View for PlayerRegistry {
    type V = Map<u128, PlayerInfo>;

    /// The connected players by their UUIDs.
    closed spec fn view(&self) -> Map<u128, PlayerInfo> {
        self.players@
    }
}

impl Default for PlayerRegistry {
    fn default() -> (registry: Self)
        ensures
            registry@ == Map::<u128, PlayerInfo>::empty(),
            registry.wf(),
    {
        PlayerRegistry { players: HashMap::new() }
    }
}

impl PlayerRegistry {
    /// Every player is kept under their own UUID, and no two share a name.
    pub open spec fn wf(&self) -> bool {
        &&& self@.dom().finite()
        &&& forall|id: u128| #[trigger] self@.contains_key(id) ==> self@[id].uuid.value == id
        &&& forall|a: u128, b: u128| #[trigger]
            self@.contains_key(a) && #[trigger] self@.contains_key(b) && a != b ==> self@[a].name@
                != self@[b].name@
    }

    #[must_use]
    pub fn new() -> (registry: Self)
        ensures
            registry@ == Map::<u128, PlayerInfo>::empty(),
            registry.wf(),
    {
        PlayerRegistry { players: HashMap::new() }
    }

    /// Admits a player, or explains why not. A player who is refused changes
    /// nothing.
    pub fn try_insert(&mut self, info: PlayerInfo, max_players: usize) -> (admitted: Result<
        (),
        JoinError,
    >)
        ensures
            match refused(old(self)@, info.name@, max_players) {
                Some(why) => admitted == Err::<(), JoinError>(why) && final(self)@ == old(self)@,
                None => admitted is Ok && final(self)@ == old(self)@.insert(
                    info.uuid.value,
                    info,
                ),
            },
            old(self).wf() ==> final(self).wf(),
    {
        if self.players.len() >= max_players {
            return Err(JoinError::Full);
        }
        if self.contains_name(info.name.as_str()) {
            return Err(JoinError::NameTaken);
        }
        let id: u128 = info.uuid.value;
        let _ = self.players.insert(id, info);
        Ok(())
    }

    pub fn remove(&mut self, uuid: Uuid) -> (removed: Option<PlayerInfo>)
        ensures
            final(self)@ == old(self)@.remove(uuid.value),
            removed == if old(self)@.contains_key(uuid.value) {
                Some(old(self)@[uuid.value])
            } else {
                None
            },
            old(self).wf() ==> final(self).wf(),
    {
        let id: u128 = uuid.value;
        let removed = self.players.remove(&id);
        assert(self@ =~= old(self)@.remove(id));
        removed
    }

    #[must_use]
    pub fn count(&self) -> (count: usize)
        ensures
            count == self@.len(),
    {
        self.players.len()
    }

    #[must_use]
    pub fn is_empty(&self) -> (empty: bool)
        ensures
            empty == (self@.len() == 0),
    {
        self.players.len() == 0
    }

    #[must_use]
    pub fn get(&self, uuid: Uuid) -> (found: Option<PlayerInfo>)
        ensures
            found is Some <==> self@.contains_key(uuid.value),
            found matches Some(info) ==> same_player(info, self@[uuid.value]),
    {
        let id: u128 = uuid.value;
        match self.players.get(&id) {
            Some(info) => Some(info.clone()),
            None => None,
        }
    }

    #[must_use]
    pub fn contains_name(&self, name: &str) -> (found: bool)
        ensures
            found == taken(self@, name@),
    {
        for p in it: self.players.values()
            invariant
                it.seq().unref().to_set() == self.players@.values(),
                forall|i: int| 0 <= i < it.index() ==> (#[trigger] it.seq()[i]).name@ != name@,
        {
            if same_text(p.name.as_str(), name) {
                proof {
                    let k = it.index();
                    assert(it.seq().unref()[k] == *p);
                    assert(it.seq().unref().to_set().contains(*p));
                    assert(self.players@.values().contains(*p));
                }
                return true;
            }
        }
        proof {
            assert forall|id: u128| #[trigger] self@.contains_key(id) implies self@[id].name@
                != name@ by {
                assert(self.players@.values().contains(self@[id]));
            }
        }
        false
    }

    /// A snapshot of everyone connected, in no particular order.
    #[must_use]
    pub fn snapshot(&self) -> (everyone: Vec<PlayerInfo>)
        ensures
            everyone@.len() == self@.len(),
            forall|i: int| 0 <= i < everyone@.len() ==> listed(self@, #[trigger] everyone@[i]),
            forall|id: u128| #[trigger]
                self@.contains_key(id) ==> exists|i: int|
                    0 <= i < everyone@.len() && same_player(#[trigger] everyone@[i], self@[id]),
    {
        let mut everyone: Vec<PlayerInfo> = Vec::with_capacity(self.players.len());
        for p in it: self.players.values()
            invariant
                it.seq().unref().to_set() == self.players@.values(),
                it.seq().len() == self.players@.dom().len(),
                everyone@.len() == it.index(),
                forall|i: int|
                    #![trigger everyone@[i]]
                    #![trigger it.seq()[i]]
                    0 <= i < it.index() ==> same_player(everyone@[i], *it.seq()[i]),
                forall|i: int| 0 <= i < it.index() ==> listed(self@, #[trigger] everyone@[i]),
        {
            let copy = p.clone();
            proof {
                let k = it.index();
                assert(it.seq().unref()[k] == *p);
                assert(it.seq().unref().to_set().contains(*p));
                assert(self.players@.values().contains(*p));
                let id = choose|id: u128| #[trigger]
                    self.players@.contains_key(id) && self.players@[id] == *p;
                assert(self@.contains_key(id) && same_player(copy, self@[id]));
            }
            everyone.push(copy);
        }
        assert forall|id: u128| #[trigger] self@.contains_key(id) implies exists|i: int|
            0 <= i < everyone@.len() && same_player(#[trigger] everyone@[i], self@[id]) by {
            assert(self.players@.values().contains(self@[id]));
        }
        everyone
    }

    /// Up to `limit` names, for the server list sample, in no particular order.
    #[must_use]
    pub fn sample_names(&self, limit: usize) -> (names: Vec<String>)
        ensures
            names@.len() == if limit < self@.len() {
                limit as nat
            } else {
                self@.len()
            },
            forall|i: int| 0 <= i < names@.len() ==> taken(self@, (#[trigger] names@[i])@),
            self.wf() ==> forall|i: int, j: int|
                0 <= i < j < names@.len() ==> (#[trigger] names@[i])@ != (#[trigger] names@[j])@,
    {
        let everyone = self.snapshot();
        let mut names: Vec<String> = Vec::new();
        let mut i: usize = 0;
        while i < everyone.len() && i < limit
            invariant
                i <= limit,
                i <= everyone@.len(),
                names@.len() == i,
                everyone@.len() == self@.len(),
                forall|k: int| 0 <= k < everyone@.len() ==> listed(
                    self@,
                    #[trigger] everyone@[k],
                ),
                forall|k: int| 0 <= k < i ==> (#[trigger] names@[k])@ == everyone@[k].name@,
            decreases everyone@.len() - i,
        {
            names.push(everyone[i].name.as_str().to_owned());
            i += 1;
        }
        proof {
            assert forall|k: int| 0 <= k < names@.len() implies taken(
                self@,
                (#[trigger] names@[k])@,
            ) by {
                assert(listed(self@, everyone@[k]));
            }
            if self.wf() {
                lemma_snapshot_names(*self, everyone@);
            }
        }
        names
    }
}

/// A copy of a connected player.
pub open spec fn listed(players: Map<u128, PlayerInfo>, info: PlayerInfo) -> bool {
    exists|id: u128| #[trigger] players.contains_key(id) && same_player(info, players[id])
}

/// In a snapshot no name comes twice.
proof fn lemma_snapshot_names(registry: PlayerRegistry, everyone: Seq<PlayerInfo>)
    requires
        registry.wf(),
        everyone.len() == registry@.len(),
        forall|i: int| 0 <= i < everyone.len() ==> listed(registry@, #[trigger] everyone[i]),
        forall|id: u128| #[trigger]
            registry@.contains_key(id) ==> exists|i: int|
                0 <= i < everyone.len() && same_player(#[trigger] everyone[i], registry@[id]),
    ensures
        forall|i: int, j: int|
            0 <= i < j < everyone.len() ==> (#[trigger] everyone[i]).name@ != (
            #[trigger] everyone[j]).name@,
{
    // Each place of the snapshot shows one player, and every player is shown;
    // so the ids of the places are all of them, and none comes twice.
    let ids = Seq::new(everyone.len(), |i: int| everyone[i].uuid.value);
    assert forall|i: int| 0 <= i < ids.len() implies registry@.dom().contains(
        #[trigger] ids[i],
    ) by {
        assert(listed(registry@, everyone[i]));
    }
    assert(ids.to_set() =~= registry@.dom()) by {
        assert forall|id: u128| registry@.dom().contains(id) implies ids.to_set().contains(id) by {
            assert(registry@.contains_key(id));
            let i = choose|i: int|
                0 <= i < everyone.len() && same_player(#[trigger] everyone[i], registry@[id]);
            assert(ids[i] == id);
        }
    }
    ids.lemma_no_dup_set_cardinality();
    assert forall|i: int, j: int| 0 <= i < j < everyone.len() implies (
    #[trigger] everyone[i]).name@ != (#[trigger] everyone[j]).name@ by {
        assert(listed(registry@, everyone[i]) && listed(registry@, everyone[j]));
        assert(ids[i] != ids[j]);
        assert(registry@.contains_key(ids[i]) && registry@.contains_key(ids[j]));
        assert(same_player(everyone[i], registry@[ids[i]]));
        assert(same_player(everyone[j], registry@[ids[j]]));
    }
}

/// No login makes a server hold more players than it admits.
pub proof fn law_capacity_is_kept(
    players: Map<u128, PlayerInfo>,
    info: PlayerInfo,
    max_players: usize,
)
    requires
        players.dom().finite(),
        refused(players, info.name@, max_players) is None,
    ensures
        players.insert(info.uuid.value, info).len() <= max_players,
{
}

/// A player who joined and left is gone, and everyone else is where they were.
pub proof fn law_leave_undoes_join(players: Map<u128, PlayerInfo>, info: PlayerInfo)
    requires
        !players.contains_key(info.uuid.value),
    ensures
        players.insert(info.uuid.value, info).remove(info.uuid.value) == players,
{
    assert(players.insert(info.uuid.value, info).remove(info.uuid.value) =~= players);
}

/// The MD5 digest of some bytes.
pub uninterp spec fn md5_digest(bytes: Seq<u8>) -> Seq<u8>;

/// Calls `digest` of `md5::Md5`, which hashes the bytes with MD5 into sixteen
/// bytes.
#[verifier::external_body]
fn md5_of(bytes: &[u8]) -> (digest: [u8; 16])
    ensures
        digest@ == md5_digest(bytes@),
{
    <md5::Md5 as md5::Digest>::digest(bytes).into()
}

/// A digest with the bits of version 3 and of the IETF variant forced.
pub open spec fn stamped(digest: Seq<u8>) -> Seq<u8> {
    digest.update(6, (digest[6] & 0x0F) | 0x30).update(8, (digest[8] & 0x3F) | 0x80)
}

/// The UUID made of an MD5 digest: version 3, of the IETF variant.
#[must_use]
pub fn uuid_from_digest(digest: [u8; 16]) -> (uuid: Uuid)
    ensures
        uuid.value == wire::from_be128(stamped(digest@)),
{
    let mut bytes: [u8; 16] = digest;
    bytes[6] = (bytes[6] & 0x0F) | 0x30;
    bytes[8] = (bytes[8] & 0x3F) | 0x80;
    assert(bytes@ =~= stamped(digest@));
    Uuid::from_bytes(bytes)
}

/// The UUID that an offline-mode player of that name is given.
pub open spec fn offline_id(name: Seq<char>) -> Uuid {
    Uuid {
        value: wire::from_be128(
            stamped(md5_digest(utf8::encode_utf8("OfflinePlayer:"@ + name))),
        ),
    }
}

/// The UUID an offline-mode player is given.
///
/// An MD5 digest of `OfflinePlayer:<name>` with the version-3 and IETF variant
/// bits forced, as Java's `UUID.nameUUIDFromBytes` makes it, so a world created
/// here keeps working on another server and vice versa. Getting this subtly
/// wrong orphans every player's inventory.
#[must_use]
pub fn offline_uuid(name: &str) -> (uuid: Uuid)
    ensures
        uuid == offline_id(name@),
{
    let mut text = "OfflinePlayer:".to_owned();
    text.append(name);
    uuid_from_digest(md5_of(text.as_str().as_bytes()))
}

/// The bytes of the UUID of an offline-mode player are the MD5 digest of
/// `OfflinePlayer:` and the name, but for the high half of the seventh byte, which
/// is 3, and the two highest bits of the ninth, which are 2.
pub proof fn law_offline_id_is_digest(name: Seq<char>, digest: Seq<u8>, i: int)
    requires
        digest == md5_digest(utf8::encode_utf8("OfflinePlayer:"@ + name)),
        digest.len() == 16,
        0 <= i < 16,
    ensures
        ({
            let bytes = wire::be128(offline_id(name).value);
            &&& bytes.len() == 16
            &&& bytes[i] == (if i == 6 {
                0x30 + digest[6] as int % 16
            } else if i == 8 {
                0x80 + digest[8] as int % 64
            } else {
                digest[i] as int
            })
        }),
{
    let (a, b) = (digest[6], digest[8]);
    assert(((a & 0x0F) | 0x30) == 0x30 + a % 16 && ((b & 0x3F) | 0x80) == 0x80 + b % 64)
        by (bit_vector);
    layout::lemma_bytes_of_number(stamped(digest));
}

/// Every UUID made of a digest says that it is of version 3 and of the IETF
/// variant.
pub proof fn law_stamped_version_and_variant(digest: Seq<u8>)
    requires
        digest.len() == 16,
    ensures
        ({
            let value = wire::from_be128(stamped(digest));
            (value >> 76) & 0xf == 3 && (value >> 62) & 0x3 == 2
        }),
{
    let b = stamped(digest);
    let low = b.skip(8);
    let (sixth, eighth) = (digest[6], digest[8]);
    let (b0, b1, b2, b3, b4, b5, b6, b7) = (b[0], b[1], b[2], b[3], b[4], b[5], b[6], b[7]);
    let (c0, c1, c2, c3, c4, c5, c6, c7) = (
        low[0],
        low[1],
        low[2],
        low[3],
        low[4],
        low[5],
        low[6],
        low[7],
    );
    lemma_stamp_bits(b0, b1, b2, b3, b4, b5, sixth, b7, eighth, c1, c2, c3, c4, c5, c6, c7);
    lemma_join_bits(wire::from_be64(b), wire::from_be64(low));
}

proof fn lemma_stamp_bits(
    b0: u8,
    b1: u8,
    b2: u8,
    b3: u8,
    b4: u8,
    b5: u8,
    sixth: u8,
    b7: u8,
    eighth: u8,
    c1: u8,
    c2: u8,
    c3: u8,
    c4: u8,
    c5: u8,
    c6: u8,
    c7: u8,
)
    by (bit_vector)
    ensures
        ((((b0 as u64) << 56) | ((b1 as u64) << 48) | ((b2 as u64) << 40) | ((b3 as u64) << 32) | ((
        b4 as u64) << 24) | ((b5 as u64) << 16) | ((((sixth & 0x0F) | 0x30) as u64) << 8)
            | b7 as u64) >> 12) & 0xf == 3,
        (((((eighth & 0x3F) | 0x80) as u64) << 56) | ((c1 as u64) << 48) | ((c2 as u64) << 40) | ((
        c3 as u64) << 32) | ((c4 as u64) << 24) | ((c5 as u64) << 16) | ((c6 as u64) << 8)
            | c7 as u64) >> 62 == 2,
{
}

proof fn lemma_join_bits(high: u64, low: u64)
    by (bit_vector)
    requires
        (high >> 12) & 0xf == 3,
        low >> 62 == 2,
    ensures
        ((((high as u128) << 64) | low as u128) >> 76) & 0xf == 3,
        ((((high as u128) << 64) | low as u128) >> 62) & 0x3 == 2,
{
}

/// A server that is full refuses everyone, for that reason. One that is not
/// refuses just those whose name is in use.
pub proof fn law_who_is_refused(
    players: Map<u128, PlayerInfo>,
    name: Seq<char>,
    max_players: usize,
)
    ensures
        refused(players, name, max_players) == Some(JoinError::Full) <==> players.len()
            >= max_players,
        refused(players, name, max_players) == Some(JoinError::NameTaken) <==> players.len()
            < max_players && exists|id: u128| #[trigger]
            players.contains_key(id) && players[id].name@ == name,
{
}

/// Whoever has joined keeps others from joining under the same name, until they
/// leave.
pub proof fn law_names_join_once(
    players: Map<u128, PlayerInfo>,
    info: PlayerInfo,
    max_players: usize,
)
    requires
        players.dom().finite(),
        refused(players, info.name@, max_players) is None,
        !players.contains_key(info.uuid.value),
    ensures
        refused(players.insert(info.uuid.value, info), info.name@, max_players) is Some,
        refused(
            players.insert(info.uuid.value, info).remove(info.uuid.value),
            info.name@,
            max_players,
        ) is None,
{
    let joined = players.insert(info.uuid.value, info);
    assert(joined.contains_key(info.uuid.value));
    law_leave_undoes_join(players, info);
}

/// The text of a refusal tells which of the two it is.
pub proof fn law_refusals_are_told_apart(e: JoinError)
    ensures
        "The server is full"@.is_prefix_of(join_error_text(e)@) <==> e == JoinError::Full,
        "A player with that name"@.is_prefix_of(join_error_text(e)@) <==> e
            == JoinError::NameTaken,
{
    reveal_strlit("The server is full");
    reveal_strlit("A player with that name");
    reveal_strlit("A player with that name is already connected");
    let full = "The server is full"@;
    assert(full[0] == 'T');
    assert(join_error_text(JoinError::NameTaken)@.subrange(0, full.len() as int)[0] == 'A');
}

/// A copy of a player is whole: the identity, the name and the address.
pub proof fn law_players_are_copied_whole(copy: PlayerInfo, info: PlayerInfo)
    requires
        same_player(copy, info),
    ensures
        copy.uuid == info.uuid,
        copy.name@ == info.name@,
        copy.addr@ == info.addr@,
{
}

} // verus!
