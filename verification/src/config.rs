//! Connection-setup values handed to the client shell: the default
//! STUN/TURN configuration, the result shapes of room commands, and the
//! greeting used by the shell's smoke test.

use vstd::prelude::*;
use vstd::string::StringExecFns;

verus! {

/// STUN and TURN servers offered to the client for peer connection setup.
#[derive(Debug)]
pub struct WebRTCConfig {
    pub stun_servers: Vec<String>,
    pub turn_servers: Vec<TurnServerConfig>,
}

/// One TURN relay endpoint with its public credentials.
#[derive(Debug)]
pub struct TurnServerConfig {
    pub urls: String,
    pub username: String,
    pub credential: String,
}

/// Result shape of a create-room command as reported to the client shell.
#[derive(Debug)]
pub struct CreateRoomResult {
    pub success: bool,
    pub room_id: String,
    pub error: Option<String>,
}

/// Result shape of a join-room command as reported to the client shell.
#[derive(Debug)]
pub struct JoinRoomResult {
    pub success: bool,
    pub room_id: Option<String>,
    pub error: Option<String>,
}

/// The default configuration: five public STUN servers and three open
/// TURN relays.
pub open spec fn default_webrtc_ok(c: WebRTCConfig) -> bool {
    &&& c.stun_servers@.len() == 5
    &&& c.stun_servers@[0]@ == "stun:stun.l.google.com:19302"@
    &&& c.stun_servers@[1]@ == "stun:stun1.l.google.com:19302"@
    &&& c.stun_servers@[2]@ == "stun:stun2.l.google.com:19302"@
    &&& c.stun_servers@[3]@ == "stun:stun3.l.google.com:19302"@
    &&& c.stun_servers@[4]@ == "stun:stun4.l.google.com:19302"@
    &&& c.turn_servers@.len() == 3
    &&& c.turn_servers@[0].urls@ == "turn:openrelay.metered.ca:80"@
    &&& c.turn_servers@[1].urls@ == "turn:openrelay.metered.ca:443"@
    &&& c.turn_servers@[2].urls@ == "turn:openrelay.metered.ca:443?transport=tcp"@
    &&& forall|i: int|
        0 <= i < 3 ==> (#[trigger] c.turn_servers@[i]).username@ == "openrelayproject"@
            && c.turn_servers@[i].credential@ == "openrelayproject"@
}

/// The default STUN/TURN configuration.
pub fn get_default_webrtc_config() -> (c: WebRTCConfig)
    ensures
        default_webrtc_ok(c),
{
    let mut stun_servers: Vec<String> = Vec::new();
    stun_servers.push("stun:stun.l.google.com:19302".to_owned());
    stun_servers.push("stun:stun1.l.google.com:19302".to_owned());
    stun_servers.push("stun:stun2.l.google.com:19302".to_owned());
    stun_servers.push("stun:stun3.l.google.com:19302".to_owned());
    stun_servers.push("stun:stun4.l.google.com:19302".to_owned());
    let mut turn_servers: Vec<TurnServerConfig> = Vec::new();
    turn_servers.push(
        TurnServerConfig {
            urls: "turn:openrelay.metered.ca:80".to_owned(),
            username: "openrelayproject".to_owned(),
            credential: "openrelayproject".to_owned(),
        },
    );
    turn_servers.push(
        TurnServerConfig {
            urls: "turn:openrelay.metered.ca:443".to_owned(),
            username: "openrelayproject".to_owned(),
            credential: "openrelayproject".to_owned(),
        },
    );
    turn_servers.push(
        TurnServerConfig {
            urls: "turn:openrelay.metered.ca:443?transport=tcp".to_owned(),
            username: "openrelayproject".to_owned(),
            credential: "openrelayproject".to_owned(),
        },
    );
    WebRTCConfig { stun_servers, turn_servers }
}

/// The shell's smoke-test greeting for `name`.
pub fn greet(name: &str) -> (s: String)
    ensures
        s@ == "Hello, "@ + name@ + "! You've been greeted from Rust!"@,
{
    let mut s = String::new();
    s.append("Hello, ");
    s.append(name);
    s.append("! You've been greeted from Rust!");
    proof {
        assert(s@ =~= "Hello, "@ + name@ + "! You've been greeted from Rust!"@);
    }
    s
}

} // verus!
