//! The bridge between the player and the mini player: the player reports its state, which
//! is kept and passed on while the mini player is open; the mini player sends controls back.
use vstd::prelude::*;
use crate::json::{Json, JsonObject, JsonValue};

verus! {

/// What the bridge keeps: the player's last reported state and whether the mini player is
/// open.
pub struct PlayerBridge {
    pub playback_state: JsonValue,
    pub mini_player_open: bool,
}

impl PlayerBridge {
    /// A bridge before any report: a null state, the mini player closed.
    pub fn new() -> (r: PlayerBridge)
        ensures
            r.playback_state@ == Json::Null,
            !r.mini_player_open,
    {
        PlayerBridge { playback_state: JsonValue::Null, mini_player_open: false }
    }
}

/// Keeps the player's reported state (`update_playback_state_bridge`) and gives the state to
/// pass on to the mini player: `Some` exactly when the mini player is open.
pub fn update_playback_state_bridge(bridge: &mut PlayerBridge, state: JsonValue) -> (r: Option<JsonValue>)
    ensures
        final(bridge).playback_state@ == state@,
        final(bridge).mini_player_open == old(bridge).mini_player_open,
        r is Some <==> old(bridge).mini_player_open,
        r matches Some(v) ==> v@ == state@,
{
    let out = if bridge.mini_player_open {
        Some(state.copy())
    } else {
        None
    };
    bridge.playback_state = state;
    out
}

/// The player's last reported state (`get_playback_state_bridge`).
pub fn get_playback_state_bridge(bridge: &PlayerBridge) -> (r: JsonValue)
    ensures
        r@ == bridge.playback_state@,
{
    bridge.playback_state.copy()
}

/// Notes whether the mini player is open (`set_mini_player_open`).
pub fn set_mini_player_open(bridge: &mut PlayerBridge, status: bool)
    ensures
        final(bridge).mini_player_open == status,
        final(bridge).playback_state == old(bridge).playback_state,
{
    bridge.mini_player_open = status;
}

/// The message that passes a control of the mini player on to the player
/// (`control_from_mini`): `{"action": action, "data": data}`.
pub fn control_from_mini(action: String, data: JsonValue) -> (r: JsonValue)
    ensures
        r@ == Json::Object(
            Map::<Seq<char>, Json>::empty().insert("action"@, Json::Str(action@)).insert("data"@, data@),
        ),
{
    let mut o = JsonObject::new();
    o.insert("action".to_string(), JsonValue::Str(action));
    o.insert("data".to_string(), data);
    JsonValue::Object(o)
}

} // verus!
