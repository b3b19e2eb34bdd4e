//! Windows: the mini player is a window of its own, drawn without frame on a transparent
//! background, in one of three sizes.
use vstd::prelude::*;
use crate::text::same_text;

verus! {

/// The label of the mini player's window.
pub open spec fn mini_player_label() -> Seq<char> {
    "mini_player_window"@
}

/// Whether a new window with this label is drawn without frame and with a transparent
/// background (`open_new_window`): only the mini player is.
pub fn is_frameless_window(label: &str) -> (r: bool)
    ensures
        r == (label@ == mini_player_label()),
{
    same_text(label, "mini_player_window")
}

/// The logical size of the mini player for a mode (`set_mini_player_mode`): `large` is 450 by
/// 750, `medium` 320 by 550, `small` 250 by 250; other modes leave the size as it is.
pub open spec fn mini_player_size_of(mode: Seq<char>) -> Option<(u32, u32)> {
    if mode == "large"@ {
        Some((450, 750))
    } else if mode == "medium"@ {
        Some((320, 550))
    } else if mode == "small"@ {
        Some((250, 250))
    } else {
        None
    }
}

/// The logical size of the mini player for a mode (see `mini_player_size_of`).
pub fn mini_player_size(mode: &str) -> (r: Option<(u32, u32)>)
    ensures
        r == mini_player_size_of(mode@),
{
    if same_text(mode, "large") {
        Some((450, 750))
    } else if same_text(mode, "medium") {
        Some((320, 550))
    } else if same_text(mode, "small") {
        Some((250, 250))
    } else {
        None
    }
}

} // verus!
