//! Wire protocol events and frame recognition.
//!
//! Inbound frames are first classified: anything containing "ping" is a
//! heartbeat, anything containing "close" is a close request, everything
//! else is a payload for the router. A payload that fails strict decoding
//! is retried through a tolerant structural scan whose decision logic
//! lives here.

use vstd::prelude::*;
use crate::board::StoneType;

verus! {

/// Inbound protocol events: the strict schema of the wire protocol.
#[derive(Debug)]
pub enum GameMessage {
    CreateRoom { player_id: String },
    JoinRoom { player_id: String, room_id: String },
    PlaceStone { player_id: String, row: usize, col: usize },
    GameUpdate { board: Vec<Vec<Option<StoneType>>>, current_player: StoneType },
    GameOver { winner: Option<StoneType>, is_draw: bool },
    RestartGame { player_id: String },
    UndoRequest { player_id: String },
    UndoResponse { player_id: String, accepted: bool },
    PlayerDisconnected { player_id: String },
    Error { message: String },
}

/// Outbound events, each serialized by the transport layer.
#[derive(Debug, Clone)]
pub enum OutboundEvent {
    Init { player_id: String },
    Pong { time: i64 },
    RoomCreated { room_id: String },
    GameStart { room_id: String, host_id: String, guest_id: String },
    ErrorMessage { message: String },
    StonePlaced { player_id: String, row: usize, col: usize },
    PlayerDisconnected { player_id: String },
}

/// An outbound event addressed to a single peer.
#[derive(Debug, Clone)]
pub struct Directed {
    pub target: String,
    pub event: OutboundEvent,
}

/// How an inbound frame is handled before any decoding is attempted.
#[derive(Clone, Copy, Debug, PartialEq, Eq, Structural)]
pub enum FrameKind {
    Ping,
    Close,
    Payload,
}

/// `pat` occurs in `s` starting at position `i`.
pub open spec fn token_at(s: Seq<char>, pat: Seq<char>, i: int) -> bool {
    &&& 0 <= i
    &&& i + pat.len() <= s.len()
    &&& s.subrange(i, i + pat.len()) == pat
}

/// `pat` occurs somewhere in `s`.
pub open spec fn contains_token(s: Seq<char>, pat: Seq<char>) -> bool {
    exists|i: int| #[trigger] token_at(s, pat, i)
}

/// A frame containing "ping" is a heartbeat; otherwise one containing
/// "close" is a close request; everything else is a payload.
pub open spec fn spec_classify(s: Seq<char>) -> FrameKind {
    if contains_token(s, "ping"@) {
        FrameKind::Ping
    } else if contains_token(s, "close"@) {
        FrameKind::Close
    } else {
        FrameKind::Payload
    }
}

fn match_at(text: &str, pat: &str, start: usize, m: usize) -> (r: bool)
    requires
        m == pat@.len(),
        start + m <= text@.len(),
        text@.len() <= usize::MAX,
    ensures
        r == (text@.subrange(start as int, start as int + m as int) == pat@),
{
    let mut j: usize = 0;
    while j < m
        invariant
            j <= m,
            m == pat@.len(),
            start + m <= text@.len(),
            text@.len() <= usize::MAX,
            forall|t: int| 0 <= t < j ==> text@[start + t] == #[trigger] pat@[t],
        decreases m - j,
    {
        let a = text.get_char(start + j);
        let b = pat.get_char(j);
        if a != b {
            proof {
                assert(text@.subrange(start as int, start as int + m as int)[j as int] == text@[
                    start + j
                ]);
            }
            return false;
        }
        j += 1;
    }
    proof {
        assert(text@.subrange(start as int, start as int + m as int) =~= pat@);
    }
    true
}

/// Whether `pat` occurs as a contiguous substring of `text`.
fn contains_str(text: &str, pat: &str) -> (r: bool)
    ensures
        r == contains_token(text@, pat@),
{
    let n = text.unicode_len();
    let m = pat.unicode_len();
    if m == 0 {
        proof {
            assert(text@.subrange(0, 0) =~= pat@);
            assert(token_at(text@, pat@, 0));
        }
        return true;
    }
    if m > n {
        proof {
            if contains_token(text@, pat@) {
                let i = choose|i: int| #[trigger] token_at(text@, pat@, i);
            }
        }
        return false;
    }
    let mut i: usize = 0;
    while i <= n - m
        invariant
            1 <= m <= n,
            n == text@.len(),
            m == pat@.len(),
            i <= n - m + 1,
            forall|k: int| 0 <= k < i ==> !#[trigger] token_at(text@, pat@, k),
        decreases n - m + 1 - i,
    {
        if match_at(text, pat, i, m) {
            proof {
                assert(token_at(text@, pat@, i as int));
            }
            return true;
        }
        i += 1;
    }
    proof {
        if contains_token(text@, pat@) {
            let k = choose|k: int| #[trigger] token_at(text@, pat@, k);
        }
    }
    false
}

/// Classify an inbound frame: heartbeat, close request, or payload.
pub fn classify_frame(text: &str) -> (kind: FrameKind)
    ensures
        kind == spec_classify(text@),
{
    if contains_str(text, "ping") {
        FrameKind::Ping
    } else if contains_str(text, "close") {
        FrameKind::Close
    } else {
        FrameKind::Payload
    }
}

/// The raw findings of a tolerant structural scan of a payload frame that
/// failed strict decoding: which alternate field shapes are present, and
/// what they carry. The transport layer fills this in; the decision of
/// what event, if any, the frame means stays here.
pub struct FrameScan {
    /// A CreateRoom field is present.
    pub create_room: bool,
    /// A JoinRoom field is present.
    pub join_room: bool,
    /// The room_id string under the JoinRoom field, when present.
    pub join_room_id: Option<String>,
    /// A PlaceStone field is present.
    pub place_stone: bool,
    /// The row number under the PlaceStone field, when present.
    pub place_row: Option<u64>,
    /// The column number under the PlaceStone field, when present.
    pub place_col: Option<u64>,
}

/// Decide what event a scanned fallback frame means, on behalf of
/// `sender_id`. CreateRoom is recognized first; then JoinRoom, which needs
/// its room id; then PlaceStone, which needs both coordinates. A frame
/// matching none of the shapes is discarded.
pub fn fallback_event(scan: &FrameScan, sender_id: &str) -> (msg: Option<GameMessage>)
    ensures
        scan.create_room ==> (msg matches Some(m) && m matches GameMessage::CreateRoom {
            player_id,
        } && player_id@ == sender_id@),
        !scan.create_room && scan.join_room ==> match scan.join_room_id {
            Some(rid) => msg matches Some(m) && (m matches GameMessage::JoinRoom {
                player_id,
                room_id,
            } && player_id@ == sender_id@ && room_id@ == rid@),
            None => msg is None,
        },
        !scan.create_room && !scan.join_room && scan.place_stone ==> match (
            scan.place_row,
            scan.place_col,
        ) {
            (Some(row), Some(col)) => msg matches Some(m) && (m
                matches GameMessage::PlaceStone {
                player_id,
                row: r,
                col: c,
            } && player_id@ == sender_id@ && r == row as usize && c == col as usize),
            _ => msg is None,
        },
        !scan.create_room && !scan.join_room && !scan.place_stone ==> msg is None,
{
    if scan.create_room {
        Some(GameMessage::CreateRoom { player_id: sender_id.to_owned() })
    } else if scan.join_room {
        match &scan.join_room_id {
            Some(rid) => Some(
                GameMessage::JoinRoom {
                    player_id: sender_id.to_owned(),
                    room_id: rid.clone(),
                },
            ),
            None => None,
        }
    } else if scan.place_stone {
        match (&scan.place_row, &scan.place_col) {
            (Some(row), Some(col)) => Some(
                GameMessage::PlaceStone {
                    player_id: sender_id.to_owned(),
                    row: #[verifier::truncate] (*row as usize),
                    col: #[verifier::truncate] (*col as usize),
                },
            ),
            _ => None,
        }
    } else {
        None
    }
}

} // verus!
