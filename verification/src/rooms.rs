//! Room manager: the room state machine and the player-to-room index.
//!
//! Rooms and the index are held in vectors with unique keys; their
//! mathematical value is a pair of maps, over which every contract is
//! stated.

use vstd::prelude::*;
use vstd::string::StringExecFns;

verus! {

/// Relies on uuid's `Uuid::new_v4` and its `Display` impl: a fresh random
/// version-4 UUID rendered in the hyphenated form, which is 36 ASCII
/// characters. Nothing is assumed about which identifier comes back.
#[verifier::external_body]
fn new_session_id() -> (id: String)
    ensures
        id@.len() == 36,
{
    uuid::Uuid::new_v4().to_string()
}

/// Status of a room's state machine.
#[derive(Clone, Debug, PartialEq, Eq, Structural)]
pub enum RoomStatus {
    Waiting,
    Playing,
    Finished,
}

/// A two-seat pairing session between a host and an optional guest.
#[derive(Debug)]
pub struct GameRoom {
    pub id: String,
    pub host_id: String,
    pub guest_id: Option<String>,
    pub status: RoomStatus,
}

/// Mathematical value of a room.
#[verifier::ext_equal]
pub ghost struct RoomModel {
    pub id: Seq<char>,
    pub host: Seq<char>,
    pub guest: Option<Seq<char>>,
    pub status: RoomStatus,
}

impl RoomModel {
    /// The statuses in which a guest occupies the second seat.
    pub open spec fn active(self) -> bool {
        self.status is Playing || self.status is Finished
    }
}

impl View for GameRoom {
    type V = RoomModel;

    open spec fn view(&self) -> RoomModel {
        RoomModel {
            id: self.id@,
            host: self.host_id@,
            guest: match self.guest_id {
                Some(g) => Some(g@),
                None => None,
            },
            status: self.status,
        }
    }
}

/// A room is well formed when the guest seat is occupied exactly in the
/// Playing and Finished statuses.
pub open spec fn room_ok(room: GameRoom) -> bool {
    room@.guest is Some <==> room@.active()
}

/// The global room table and the player-to-room index.
pub struct GameState {
    pub rooms: Vec<GameRoom>,
    pub player_rooms: Vec<(String, String)>,
}

/// Mathematical value of the room manager: the room table and the index,
/// both as maps.
#[verifier::ext_equal]
pub ghost struct StateModel {
    pub rooms: Map<Seq<char>, RoomModel>,
    pub players: Map<Seq<char>, Seq<char>>,
}

pub open spec fn has_room(rs: Seq<GameRoom>, id: Seq<char>) -> bool {
    exists|i: int| 0 <= i < rs.len() && (#[trigger] rs[i]).id@ == id
}

pub open spec fn room_index(rs: Seq<GameRoom>, id: Seq<char>) -> int {
    choose|i: int| 0 <= i < rs.len() && (#[trigger] rs[i]).id@ == id
}

pub open spec fn rooms_view(rs: Seq<GameRoom>) -> Map<Seq<char>, RoomModel> {
    Map::new(|id: Seq<char>| has_room(rs, id), |id: Seq<char>| rs[room_index(rs, id)]@)
}

pub open spec fn has_player(ps: Seq<(String, String)>, p: Seq<char>) -> bool {
    exists|i: int| 0 <= i < ps.len() && (#[trigger] ps[i]).0@ == p
}

pub open spec fn player_index(ps: Seq<(String, String)>, p: Seq<char>) -> int {
    choose|i: int| 0 <= i < ps.len() && (#[trigger] ps[i]).0@ == p
}

pub open spec fn players_view(ps: Seq<(String, String)>) -> Map<Seq<char>, Seq<char>> {
    Map::new(|p: Seq<char>| has_player(ps, p), |p: Seq<char>| ps[player_index(ps, p)].1@)
}

pub open spec fn rooms_unique(rs: Seq<GameRoom>) -> bool {
    forall|i: int, j: int|
        0 <= i < j < rs.len() ==> (#[trigger] rs[i]).id@ != (#[trigger] rs[j]).id@
}

pub open spec fn players_unique(ps: Seq<(String, String)>) -> bool {
    forall|i: int, j: int|
        0 <= i < j < ps.len() ==> (#[trigger] ps[i]).0@ != (#[trigger] ps[j]).0@
}

impl View for GameState {
    type V = StateModel;

    open spec fn view(&self) -> StateModel {
        StateModel { rooms: rooms_view(self.rooms@), players: players_view(self.player_rooms@) }
    }
}

impl GameState {
    /// Representation invariant: unique keys in both tables, and every
    /// room's guest seat agrees with its status.
    pub open spec fn wf(self) -> bool {
        &&& rooms_unique(self.rooms@)
        &&& players_unique(self.player_rooms@)
        &&& forall|i: int| 0 <= i < self.rooms@.len() ==> room_ok(#[trigger] self.rooms@[i])
    }
}

/// Error text sent when a join names a room that does not exist.
pub open spec fn room_not_found_text() -> Seq<char> {
    "RoomNotFound"@
}

/// Error text sent when the named room is already occupied or started.
pub open spec fn room_full_text() -> Seq<char> {
    "RoomFull"@
}

/// A room accepts a guest exactly when it is Waiting with an empty seat.
pub open spec fn joinable(room: RoomModel) -> bool {
    room.status is Waiting && room.guest is None
}

/// The room after a guest took the second seat.
pub open spec fn joined(room: RoomModel, guest: Seq<char>) -> RoomModel {
    RoomModel { guest: Some(guest), status: RoomStatus::Playing, ..room }
}

/// The whole effect of a player's departure on the room table and the
/// index: an unindexed player changes nothing; a departing host takes the
/// room with them and unindexes the guest; a departing guest frees the
/// seat and the room waits again.
pub open spec fn spec_disconnect(m: StateModel, p: Seq<char>) -> StateModel {
    if !m.players.contains_key(p) {
        m
    } else {
        let rid = m.players[p];
        let players1 = m.players.remove(p);
        if !m.rooms.contains_key(rid) {
            StateModel { rooms: m.rooms, players: players1 }
        } else {
            let room = m.rooms[rid];
            if room.host == p {
                let players2 = match room.guest {
                    Some(g) => players1.remove(g),
                    None => players1,
                };
                StateModel { rooms: m.rooms.remove(rid), players: players2 }
            } else if room.guest == Some(p) {
                StateModel {
                    rooms: m.rooms.insert(
                        rid,
                        (RoomModel { guest: None, status: RoomStatus::Waiting, ..room }),
                    ),
                    players: players1,
                }
            } else {
                StateModel { rooms: m.rooms, players: players1 }
            }
        }
    }
}

proof fn lemma_room_at(rs: Seq<GameRoom>, i: int)
    requires
        rooms_unique(rs),
        0 <= i < rs.len(),
    ensures
        has_room(rs, rs[i].id@),
        room_index(rs, rs[i].id@) == i,
        rooms_view(rs).contains_key(rs[i].id@),
        rooms_view(rs)[rs[i].id@] == rs[i]@,
{
    assert(has_room(rs, rs[i].id@));
    let j = room_index(rs, rs[i].id@);
    assert(0 <= j < rs.len() && rs[j].id@ == rs[i].id@);
    if i < j {
        assert(rs[i].id@ != rs[j].id@);
    }
    if j < i {
        assert(rs[j].id@ != rs[i].id@);
    }
}

proof fn lemma_player_at(ps: Seq<(String, String)>, i: int)
    requires
        players_unique(ps),
        0 <= i < ps.len(),
    ensures
        has_player(ps, ps[i].0@),
        player_index(ps, ps[i].0@) == i,
        players_view(ps).contains_key(ps[i].0@),
        players_view(ps)[ps[i].0@] == ps[i].1@,
{
    assert(has_player(ps, ps[i].0@));
    let j = player_index(ps, ps[i].0@);
    assert(0 <= j < ps.len() && ps[j].0@ == ps[i].0@);
    if i < j {
        assert(ps[i].0@ != ps[j].0@);
    }
    if j < i {
        assert(ps[j].0@ != ps[i].0@);
    }
}

proof fn lemma_rooms_view_push(rs: Seq<GameRoom>, room: GameRoom)
    requires
        rooms_unique(rs),
        !has_room(rs, room.id@),
    ensures
        rooms_unique(rs.push(room)),
        rooms_view(rs.push(room)) == rooms_view(rs).insert(room.id@, room@),
{
    let rs2 = rs.push(room);
    assert forall|i: int, j: int| 0 <= i < j < rs2.len() implies (#[trigger] rs2[i]).id@ != (
    #[trigger] rs2[j]).id@ by {
        if j < rs.len() {
            assert(rs2[i] == rs[i] && rs2[j] == rs[j]);
        } else {
            assert(rs2[i] == rs[i] && rs2[j] == room);
            if rs[i].id@ == room.id@ {
                assert(has_room(rs, room.id@));
            }
        }
    }
    let m1 = rooms_view(rs2);
    let m2 = rooms_view(rs).insert(room.id@, room@);
    assert forall|k: Seq<char>| m1.contains_key(k) implies m2.contains_key(k) && m1[k] == m2[k] by {
        let i = choose|i: int| 0 <= i < rs2.len() && (#[trigger] rs2[i]).id@ == k;
        lemma_room_at(rs2, i);
        if i < rs.len() {
            assert(rs2[i] == rs[i]);
            assert(has_room(rs, k));
            lemma_room_at(rs, i);
            assert(k != room.id@);
        } else {
            assert(rs2[i] == room);
        }
    }
    assert forall|k: Seq<char>| m2.contains_key(k) implies m1.contains_key(k) by {
        if k == room.id@ {
            assert(rs2[rs.len() as int] == room);
            assert(has_room(rs2, k));
        } else {
            let i = choose|i: int| 0 <= i < rs.len() && (#[trigger] rs[i]).id@ == k;
            assert(rs2[i] == rs[i]);
            assert(has_room(rs2, k));
        }
    }
    assert(m1 =~= m2);
}

proof fn lemma_rooms_view_remove(rs: Seq<GameRoom>, at: int)
    requires
        rooms_unique(rs),
        0 <= at < rs.len(),
    ensures
        rooms_unique(rs.remove(at)),
        rooms_view(rs.remove(at)) == rooms_view(rs).remove(rs[at].id@),
{
    let rs2 = rs.remove(at);
    assert forall|i: int, j: int| 0 <= i < j < rs2.len() implies (#[trigger] rs2[i]).id@ != (
    #[trigger] rs2[j]).id@ by {
        let oi: int = if i < at { i } else { i + 1 };
        let oj: int = if j < at { j } else { j + 1 };
        assert(rs2[i] == rs[oi] && rs2[j] == rs[oj]);
    }
    let m1 = rooms_view(rs2);
    let m2 = rooms_view(rs).remove(rs[at].id@);
    assert forall|k: Seq<char>| m1.contains_key(k) implies m2.contains_key(k) && m1[k] == m2[k] by {
        let i = choose|i: int| 0 <= i < rs2.len() && (#[trigger] rs2[i]).id@ == k;
        lemma_room_at(rs2, i);
        let oi: int = if i < at { i } else { i + 1 };
        assert(rs2[i] == rs[oi]);
        lemma_room_at(rs, oi);
        assert(k != rs[at].id@) by {
            if oi < at {
                assert(rs[oi].id@ != rs[at].id@);
            } else {
                assert(rs[at].id@ != rs[oi].id@);
            }
        }
    }
    assert forall|k: Seq<char>| m2.contains_key(k) implies m1.contains_key(k) by {
        let i = choose|i: int| 0 <= i < rs.len() && (#[trigger] rs[i]).id@ == k;
        assert(k != rs[at].id@);
        if i < at {
            assert(rs2[i] == rs[i]);
            assert(has_room(rs2, k));
        } else {
            assert(i > at);
            assert(rs2[i - 1] == rs[i]);
            assert(has_room(rs2, k));
        }
    }
    assert(m1 =~= m2);
}

proof fn lemma_players_view_push(ps: Seq<(String, String)>, entry: (String, String))
    requires
        players_unique(ps),
        !has_player(ps, entry.0@),
    ensures
        players_unique(ps.push(entry)),
        players_view(ps.push(entry)) == players_view(ps).insert(entry.0@, entry.1@),
{
    let ps2 = ps.push(entry);
    assert forall|i: int, j: int| 0 <= i < j < ps2.len() implies (#[trigger] ps2[i]).0@ != (
    #[trigger] ps2[j]).0@ by {
        if j < ps.len() {
            assert(ps2[i] == ps[i] && ps2[j] == ps[j]);
        } else {
            assert(ps2[i] == ps[i] && ps2[j] == entry);
            if ps[i].0@ == entry.0@ {
                assert(has_player(ps, entry.0@));
            }
        }
    }
    let m1 = players_view(ps2);
    let m2 = players_view(ps).insert(entry.0@, entry.1@);
    assert forall|k: Seq<char>| m1.contains_key(k) implies m2.contains_key(k) && m1[k] == m2[k] by {
        let i = choose|i: int| 0 <= i < ps2.len() && (#[trigger] ps2[i]).0@ == k;
        lemma_player_at(ps2, i);
        if i < ps.len() {
            assert(ps2[i] == ps[i]);
            assert(has_player(ps, k));
            lemma_player_at(ps, i);
            assert(k != entry.0@);
        } else {
            assert(ps2[i] == entry);
        }
    }
    assert forall|k: Seq<char>| m2.contains_key(k) implies m1.contains_key(k) by {
        if k == entry.0@ {
            assert(ps2[ps.len() as int] == entry);
            assert(has_player(ps2, k));
        } else {
            let i = choose|i: int| 0 <= i < ps.len() && (#[trigger] ps[i]).0@ == k;
            assert(ps2[i] == ps[i]);
            assert(has_player(ps2, k));
        }
    }
    assert(m1 =~= m2);
}

proof fn lemma_players_view_remove(ps: Seq<(String, String)>, at: int)
    requires
        players_unique(ps),
        0 <= at < ps.len(),
    ensures
        players_unique(ps.remove(at)),
        players_view(ps.remove(at)) == players_view(ps).remove(ps[at].0@),
{
    let ps2 = ps.remove(at);
    assert forall|i: int, j: int| 0 <= i < j < ps2.len() implies (#[trigger] ps2[i]).0@ != (
    #[trigger] ps2[j]).0@ by {
        let oi: int = if i < at { i } else { i + 1 };
        let oj: int = if j < at { j } else { j + 1 };
        assert(ps2[i] == ps[oi] && ps2[j] == ps[oj]);
    }
    let m1 = players_view(ps2);
    let m2 = players_view(ps).remove(ps[at].0@);
    assert forall|k: Seq<char>| m1.contains_key(k) implies m2.contains_key(k) && m1[k] == m2[k] by {
        let i = choose|i: int| 0 <= i < ps2.len() && (#[trigger] ps2[i]).0@ == k;
        lemma_player_at(ps2, i);
        let oi: int = if i < at { i } else { i + 1 };
        assert(ps2[i] == ps[oi]);
        lemma_player_at(ps, oi);
        assert(k != ps[at].0@) by {
            if oi < at {
                assert(ps[oi].0@ != ps[at].0@);
            } else {
                assert(ps[at].0@ != ps[oi].0@);
            }
        }
    }
    assert forall|k: Seq<char>| m2.contains_key(k) implies m1.contains_key(k) by {
        let i = choose|i: int| 0 <= i < ps.len() && (#[trigger] ps[i]).0@ == k;
        assert(k != ps[at].0@);
        if i < at {
            assert(ps2[i] == ps[i]);
            assert(has_player(ps2, k));
        } else {
            assert(i > at);
            assert(ps2[i - 1] == ps[i]);
            assert(has_player(ps2, k));
        }
    }
    assert(m1 =~= m2);
}

/// Every index entry points at an existing room of which that player is
/// the host or the guest. This is the direction of the index/room-table
/// consistency that the operations themselves maintain; the converse —
/// every occupant is indexed — is a protocol-level expectation on callers,
/// since a player may create or join a second room and thereby abandon
/// their seat in the first.
pub open spec fn index_consistent(m: StateModel) -> bool {
    forall|p: Seq<char>| #[trigger] m.players.contains_key(p) ==> {
        &&& m.rooms.contains_key(m.players[p])
        &&& (m.rooms[m.players[p]].host == p || m.rooms[m.players[p]].guest == Some(p))
    }
}

/// Creating a room keeps the index pointing at occupied seats.
pub proof fn lemma_create_room_keeps_index_consistency(
    m: StateModel,
    m2: StateModel,
    host: Seq<char>,
    rid: Seq<char>,
)
    requires
        index_consistent(m),
        !m.rooms.contains_key(rid),
        m2.rooms == m.rooms.insert(
            rid,
            (RoomModel { id: rid, host: host, guest: None, status: RoomStatus::Waiting }),
        ),
        m2.players == m.players.insert(host, rid),
    ensures
        index_consistent(m2),
{
    assert forall|p: Seq<char>| #[trigger] m2.players.contains_key(p) implies {
        &&& m2.rooms.contains_key(m2.players[p])
        &&& (m2.rooms[m2.players[p]].host == p || m2.rooms[m2.players[p]].guest == Some(p))
    } by {
        if p != host {
            assert(m.players.contains_key(p));
            assert(m.players[p] != rid);
        }
    }
}

/// Joining a room keeps the index pointing at occupied seats.
pub proof fn lemma_join_room_keeps_index_consistency(
    m: StateModel,
    m2: StateModel,
    guest: Seq<char>,
    rid: Seq<char>,
)
    requires
        index_consistent(m),
        m.rooms.contains_key(rid),
        joinable(m.rooms[rid]),
        m2.rooms == m.rooms.insert(rid, joined(m.rooms[rid], guest)),
        m2.players == m.players.insert(guest, rid),
    ensures
        index_consistent(m2),
{
    assert forall|p: Seq<char>| #[trigger] m2.players.contains_key(p) implies {
        &&& m2.rooms.contains_key(m2.players[p])
        &&& (m2.rooms[m2.players[p]].host == p || m2.rooms[m2.players[p]].guest == Some(p))
    } by {
        if p != guest {
            assert(m.players.contains_key(p));
            if m.players[p] == rid {
                // The room was joinable, so its seat was empty and the
                // entry can only belong to the host.
                assert(m.rooms[rid].host == p);
            }
        }
    }
}

/// A departure keeps the index pointing at occupied seats.
pub proof fn lemma_disconnect_keeps_index_consistency(m: StateModel, p: Seq<char>)
    requires
        index_consistent(m),
    ensures
        index_consistent(spec_disconnect(m, p)),
{
    let m2 = spec_disconnect(m, p);
    assert forall|q: Seq<char>| #[trigger] m2.players.contains_key(q) implies {
        &&& m2.rooms.contains_key(m2.players[q])
        &&& (m2.rooms[m2.players[q]].host == q || m2.rooms[m2.players[q]].guest == Some(q))
    } by {
        if m.players.contains_key(p) {
            let rid = m.players[p];
            let room = m.rooms[rid];
            assert(m.players.contains_key(q) && q != p);
            if room.host == p {
                // The room is gone; no surviving entry pointed at it,
                // since its only occupants were p and the removed guest.
                assert(m.players[q] != rid);
            }
        }
    }
}

/// In every well-formed state, a room's guest seat is occupied exactly
/// when the room's status is Playing or Finished.
pub proof fn lemma_guest_present_iff_active(s: &GameState)
    requires
        s.wf(),
    ensures
        forall|id: Seq<char>|
            s@.rooms.contains_key(id) ==> ((#[trigger] s@.rooms[id]).guest is Some
                <==> s@.rooms[id].active()),
{
    assert forall|id: Seq<char>| s@.rooms.contains_key(id) implies ((#[trigger] s@.rooms[id]).guest
        is Some <==> s@.rooms[id].active()) by {
        let i = room_index(s.rooms@, id);
        assert(has_room(s.rooms@, id));
        assert(0 <= i < s.rooms@.len() && s.rooms@[i].id@ == id);
        assert(room_ok(s.rooms@[i]));
    }
}

/// After a host's departure the room no longer exists, the host is
/// unindexed, and the former guest, if any, is unindexed too.
pub proof fn lemma_host_disconnect_removes_room(m: StateModel, p: Seq<char>)
    requires
        m.players.contains_key(p),
        m.rooms.contains_key(m.players[p]),
        m.rooms[m.players[p]].host == p,
    ensures
        !spec_disconnect(m, p).rooms.contains_key(m.players[p]),
        !spec_disconnect(m, p).players.contains_key(p),
        m.rooms[m.players[p]].guest matches Some(g) ==> !spec_disconnect(m, p).players.contains_key(
            g,
        ),
{
}

/// After a guest's departure the room still exists, is Waiting with an
/// empty guest seat under the same host, the guest is unindexed, and every
/// other player's index entry — the host's in particular — is untouched.
pub proof fn lemma_guest_disconnect_keeps_room(m: StateModel, p: Seq<char>)
    requires
        m.players.contains_key(p),
        m.rooms.contains_key(m.players[p]),
        m.rooms[m.players[p]].host != p,
        m.rooms[m.players[p]].guest == Some(p),
    ensures
        spec_disconnect(m, p).rooms.contains_key(m.players[p]),
        spec_disconnect(m, p).rooms[m.players[p]].status is Waiting,
        spec_disconnect(m, p).rooms[m.players[p]].guest is None,
        spec_disconnect(m, p).rooms[m.players[p]].host == m.rooms[m.players[p]].host,
        !spec_disconnect(m, p).players.contains_key(p),
        forall|q: Seq<char>|
            q != p ==> (#[trigger] spec_disconnect(m, p).players.contains_key(q)
                <==> m.players.contains_key(q)),
        forall|q: Seq<char>|
            q != p && #[trigger] m.players.contains_key(q) ==> spec_disconnect(m, p).players[q]
                == m.players[q],
{
}

/// Compare two string slices by their character sequences.
pub(crate) fn str_eq(a: &str, b: &str) -> (r: bool)
    ensures
        r == (a@ == b@),
{
    let sa: String = a.to_owned();
    let sb: String = b.to_owned();
    sa == sb
}

impl GameState {
    /// A manager with no rooms and no indexed players.
    pub fn new() -> (s: Self)
        ensures
            s.wf(),
            s@.rooms == Map::<Seq<char>, RoomModel>::empty(),
            s@.players == Map::<Seq<char>, Seq<char>>::empty(),
    {
        let s = GameState { rooms: Vec::new(), player_rooms: Vec::new() };
        proof {
            assert(s@.rooms =~= Map::<Seq<char>, RoomModel>::empty());
            assert(s@.players =~= Map::<Seq<char>, Seq<char>>::empty());
        }
        s
    }

    fn find_room_index(&self, room_id: &str) -> (res: Option<usize>)
        ensures
            match res {
                Some(i) => i < self.rooms@.len() && self.rooms@[i as int].id@ == room_id@,
                None => !has_room(self.rooms@, room_id@),
            },
    {
        let mut i: usize = 0;
        while i < self.rooms.len()
            invariant
                i <= self.rooms@.len(),
                forall|j: int| 0 <= j < i ==> (#[trigger] self.rooms@[j]).id@ != room_id@,
            decreases self.rooms@.len() - i,
        {
            if str_eq(self.rooms[i].id.as_str(), room_id) {
                return Some(i);
            }
            i += 1;
        }
        None
    }

    fn find_player_index(&self, player_id: &str) -> (res: Option<usize>)
        ensures
            match res {
                Some(i) => i < self.player_rooms@.len() && self.player_rooms@[i as int].0@
                    == player_id@,
                None => !has_player(self.player_rooms@, player_id@),
            },
    {
        let mut i: usize = 0;
        while i < self.player_rooms.len()
            invariant
                i <= self.player_rooms@.len(),
                forall|j: int| 0 <= j < i ==> (#[trigger] self.player_rooms@[j]).0@ != player_id@,
            decreases self.player_rooms@.len() - i,
        {
            if str_eq(self.player_rooms[i].0.as_str(), player_id) {
                return Some(i);
            }
            i += 1;
        }
        None
    }

    /// A room id that no current room carries. The fresh draw is a UUID;
    /// in the vanishingly unlikely event of a collision, an id strictly
    /// longer than every existing one is built instead.
    fn fresh_room_id(&self) -> (room_id: String)
        requires
            self.wf(),
        ensures
            !has_room(self.rooms@, room_id@),
            room_id@.len() >= 36,
    {
        let id = new_session_id();
        let taken = self.find_room_index(id.as_str());
        match taken {
            None => id,
            Some(hit) => {
                let mut acc = String::new();
                let mut i: usize = 0;
                while i < self.rooms.len()
                    invariant
                        i <= self.rooms@.len(),
                        forall|j: int|
                            0 <= j < i ==> acc@.len() >= (#[trigger] self.rooms@[j]).id@.len(),
                    decreases self.rooms@.len() - i,
                {
                    acc.append(self.rooms[i].id.as_str());
                    i += 1;
                }
                acc.append("x");
                proof {
                    reveal_strlit("x");
                    assert(hit < self.rooms@.len() && self.rooms@[hit as int].id@.len() == 36);
                    assert forall|j: int| 0 <= j < self.rooms@.len() implies (#[trigger] self
                        .rooms@[j]).id@ != acc@ by {
                        assert(acc@.len() >= self.rooms@[j].id@.len() + 1);
                    }
                    if has_room(self.rooms@, acc@) {
                        let w = choose|w: int|
                            0 <= w < self.rooms@.len() && (#[trigger] self.rooms@[w]).id@ == acc@;
                        assert(self.rooms@[w].id@ != acc@);
                    }
                }
                acc
            },
        }
    }

    /// Allocate a fresh room id, insert a Waiting room owned by `host_id`,
    /// and index the host to it. Always succeeds.
    pub fn create_room(&mut self, host_id: String) -> (room_id: String)
        requires
            old(self).wf(),
        ensures
            final(self).wf(),
            !old(self)@.rooms.contains_key(room_id@),
            room_id@.len() >= 36,
            final(self)@.rooms == old(self)@.rooms.insert(
                room_id@,
                (RoomModel {
                    id: room_id@,
                    host: host_id@,
                    guest: None,
                    status: RoomStatus::Waiting,
                }),
            ),
            final(self)@.players == old(self)@.players.insert(host_id@, room_id@),
    {
        let room_id = self.fresh_room_id();
        let ghost rs0 = self.rooms@;
        let room = GameRoom {
            id: room_id.clone(),
            host_id: host_id.clone(),
            guest_id: None,
            status: RoomStatus::Waiting,
        };
        proof {
            lemma_rooms_view_push(rs0, room);
        }
        self.rooms.push(room);
        self.index_player(host_id, room_id.clone());
        proof {
            assert forall|i: int| 0 <= i < self.rooms@.len() implies room_ok(
                #[trigger] self.rooms@[i],
            ) by {
                if i < rs0.len() {
                    assert(self.rooms@[i] == rs0[i]);
                }
            }
        }
        room_id
    }

    /// Seat `player_id` as the guest of room `room_id`. Succeeds exactly
    /// when the room exists, is Waiting, and has no guest; then the room
    /// moves to Playing and the guest is indexed to it. An unknown room id
    /// is reported as RoomNotFound, an occupied or started room as
    /// RoomFull; in both failure cases nothing changes.
    pub fn join_room(&mut self, player_id: String, room_id: String) -> (r: Result<(), String>)
        requires
            old(self).wf(),
        ensures
            final(self).wf(),
            !old(self)@.rooms.contains_key(room_id@) ==> (r matches Err(m) && m@
                == room_not_found_text()) && *final(self) == *old(self),
            old(self)@.rooms.contains_key(room_id@) && !joinable(old(self)@.rooms[room_id@]) ==> (
            r matches Err(m) && m@ == room_full_text()) && *final(self) == *old(self),
            old(self)@.rooms.contains_key(room_id@) && joinable(old(self)@.rooms[room_id@]) ==> {
                &&& r is Ok
                &&& final(self)@.rooms == old(self)@.rooms.insert(
                    room_id@,
                    joined(old(self)@.rooms[room_id@], player_id@),
                )
                &&& final(self)@.players == old(self)@.players.insert(player_id@, room_id@)
            },
    {
        let found = self.find_room_index(room_id.as_str());
        match found {
            None => {
                proof {
                    if self@.rooms.contains_key(room_id@) {
                        assert(has_room(self.rooms@, room_id@));
                    }
                }
                Err("RoomNotFound".to_owned())
            },
            Some(i) => {
                let ghost rs0 = self.rooms@;
                proof {
                    lemma_room_at(rs0, i as int);
                }
                let is_waiting = self.rooms[i].status == RoomStatus::Waiting;
                let has_guest = self.rooms[i].guest_id.is_some();
                if is_waiting && !has_guest {
                    proof {
                        lemma_rooms_view_remove(rs0, i as int);
                    }
                    let room = self.rooms.remove(i);
                    let room2 = GameRoom {
                        id: room.id,
                        host_id: room.host_id,
                        guest_id: Some(player_id.clone()),
                        status: RoomStatus::Playing,
                    };
                    proof {
                        if has_room(self.rooms@, room2.id@) {
                            assert(rooms_view(self.rooms@).contains_key(room2.id@));
                        }
                        lemma_rooms_view_push(self.rooms@, room2);
                    }
                    self.rooms.push(room2);
                    self.index_player(player_id, room_id);
                    proof {
                        assert(rooms_view(rs0).remove(rs0[i as int].id@).insert(
                            rs0[i as int].id@,
                            room2@,
                        ) =~= rooms_view(rs0).insert(rs0[i as int].id@, room2@));
                        assert forall|k: int| 0 <= k < self.rooms@.len() implies room_ok(
                            #[trigger] self.rooms@[k],
                        ) by {
                            if k < rs0.len() - 1 {
                                assert(self.rooms@[k] == rs0.remove(i as int)[k]);
                            }
                        }
                    }
                    Ok(())
                } else {
                    Err("RoomFull".to_owned())
                }
            },
        }
    }

    /// The room the player is indexed to, when that room exists.
    pub fn get_player_room(&self, player_id: &str) -> (room: Option<&GameRoom>)
        requires
            self.wf(),
        ensures
            match room {
                Some(r) => self@.players.contains_key(player_id@) && self@.rooms.contains_key(
                    self@.players[player_id@],
                ) && r@ == self@.rooms[self@.players[player_id@]],
                None => !self@.players.contains_key(player_id@) || !self@.rooms.contains_key(
                    self@.players[player_id@],
                ),
            },
    {
        match self.find_player_index(player_id) {
            None => None,
            Some(j) => {
                proof {
                    lemma_player_at(self.player_rooms@, j as int);
                }
                let room_id = &self.player_rooms[j].1;
                match self.find_room_index(room_id.as_str()) {
                    None => {
                        proof {
                            if self@.rooms.contains_key(room_id@) {
                                assert(has_room(self.rooms@, room_id@));
                            }
                        }
                        None
                    },
                    Some(i) => {
                        proof {
                            lemma_room_at(self.rooms@, i as int);
                        }
                        Some(&self.rooms[i])
                    },
                }
            },
        }
    }

    /// Remove a departing player. An unindexed player is a no-op; a host's
    /// departure deletes the room and unindexes its guest; a guest's
    /// departure clears the seat and returns the room to Waiting.
    pub fn handle_disconnect(&mut self, player_id: &str)
        requires
            old(self).wf(),
        ensures
            final(self).wf(),
            final(self)@ == spec_disconnect(old(self)@, player_id@),
    {
        let ghost m0 = self@;
        let ghost ps0 = self.player_rooms@;
        let found = self.find_player_index(player_id);
        match found {
            None => {
                proof {
                    if m0.players.contains_key(player_id@) {
                        assert(has_player(ps0, player_id@));
                    }
                }
            },
            Some(j) => {
                proof {
                    lemma_players_view_remove(ps0, j as int);
                    lemma_player_at(ps0, j as int);
                }
                let entry = self.player_rooms.remove(j);
                let room_id = entry.1;
                let found_room = self.find_room_index(room_id.as_str());
                match found_room {
                    None => {
                        proof {
                            if m0.rooms.contains_key(room_id@) {
                                assert(has_room(self.rooms@, room_id@));
                            }
                        }
                    },
                    Some(i) => {
                        let ghost rs0 = self.rooms@;
                        proof {
                            lemma_room_at(rs0, i as int);
                        }
                        let is_host = str_eq(self.rooms[i].host_id.as_str(), player_id);
                        if is_host {
                            proof {
                                lemma_rooms_view_remove(rs0, i as int);
                            }
                            let room = self.rooms.remove(i);
                            proof {
                                assert forall|k: int|
                                    0 <= k < self.rooms@.len() implies room_ok(
                                    #[trigger] self.rooms@[k],
                                ) by {
                                    let ok: int = if k < i { k } else { k + 1 };
                                    assert(self.rooms@[k] == rs0[ok]);
                                }
                            }
                            if let Some(guest) = room.guest_id {
                                let ghost ps1 = self.player_rooms@;
                                let found_guest = self.find_player_index(guest.as_str());
                                match found_guest {
                                    Some(k) => {
                                        proof {
                                            lemma_players_view_remove(ps1, k as int);
                                            lemma_player_at(ps1, k as int);
                                        }
                                        self.player_rooms.remove(k);
                                    },
                                    None => {
                                        proof {
                                            if players_view(ps1).contains_key(guest@) {
                                                assert(has_player(ps1, guest@));
                                            }
                                            assert(players_view(ps1).remove(guest@)
                                                =~= players_view(ps1));
                                        }
                                    },
                                }
                            }
                        } else {
                            let is_guest = match &self.rooms[i].guest_id {
                                Some(g) => str_eq(g.as_str(), player_id),
                                None => false,
                            };
                            if is_guest {
                                proof {
                                    lemma_rooms_view_remove(rs0, i as int);
                                }
                                let room = self.rooms.remove(i);
                                let room2 = GameRoom {
                                    id: room.id,
                                    host_id: room.host_id,
                                    guest_id: None,
                                    status: RoomStatus::Waiting,
                                };
                                proof {
                                    if has_room(self.rooms@, room2.id@) {
                                        assert(rooms_view(self.rooms@).contains_key(room2.id@));
                                    }
                                    lemma_rooms_view_push(self.rooms@, room2);
                                }
                                self.rooms.push(room2);
                                proof {
                                    assert(rooms_view(rs0).remove(rs0[i as int].id@).insert(
                                        rs0[i as int].id@,
                                        room2@,
                                    ) =~= rooms_view(rs0).insert(rs0[i as int].id@, room2@));
                                    assert forall|k: int|
                                        0 <= k < self.rooms@.len() implies room_ok(
                                        #[trigger] self.rooms@[k],
                                    ) by {
                                        if k < rs0.len() - 1 {
                                            assert(self.rooms@[k] == rs0.remove(i as int)[k]);
                                        }
                                    }
                                }
                            }
                        }
                    },
                }
            },
        }
    }

    /// Set the index entry for `player_id` to `room_id`, replacing any
    /// entry the player had.
    fn index_player(&mut self, player_id: String, room_id: String)
        requires
            players_unique(old(self).player_rooms@),
        ensures
            final(self).rooms == old(self).rooms,
            players_unique(final(self).player_rooms@),
            players_view(final(self).player_rooms@) == players_view(
                old(self).player_rooms@,
            ).insert(player_id@, room_id@),
    {
        let ghost ps0 = self.player_rooms@;
        match self.find_player_index(player_id.as_str()) {
            Some(j) => {
                proof {
                    lemma_players_view_remove(ps0, j as int);
                    lemma_player_at(ps0, j as int);
                }
                self.player_rooms.remove(j);
                let ghost ps1 = self.player_rooms@;
                proof {
                    if has_player(ps1, player_id@) {
                        assert(players_view(ps1).contains_key(player_id@));
                    }
                    lemma_players_view_push(ps1, (player_id, room_id));
                }
                self.player_rooms.push((player_id, room_id));
                proof {
                    assert(players_view(ps0).remove(player_id@).insert(player_id@, room_id@)
                        =~= players_view(ps0).insert(player_id@, room_id@));
                }
            },
            None => {
                proof {
                    lemma_players_view_push(ps0, (player_id, room_id));
                }
                self.player_rooms.push((player_id, room_id));
            },
        }
    }
}

} // verus!
