//! Fixed dimensions and timings of the daemon.
use vstd::prelude::*;

verus! {

/// Card width, in logical pixels.
pub const WIDTH: u32 = 380;

/// Card height, in logical pixels.
pub const HEIGHT: u32 = 94;

/// Corner radius of a card, in logical pixels.
pub const RADIUS: i32 = 16;

/// Distance of the topmost card from the top edge of the screen.
pub const MARGIN_TOP: i32 = 14;

/// Distance of a resting card from the right edge of the screen.
pub const MARGIN_RIGHT: i32 = 14;

/// Buffer pixels per logical pixel.
pub const SCALE: i32 = 2;

/// Side of the application icon, in logical pixels.
pub const ICON_LOGICAL: u32 = 18;

/// Vertical gap between two stacked cards.
pub const STACK_GAP: i32 = 8;

/// Duration of the slide-in animation.
pub const ENTER_MS: u64 = 280;

/// Duration of the fade-out animation.
pub const LEAVE_MS: u64 = 180;

/// Pause between two turns of the display loop (about sixty a second).
pub const TICK_MS: u64 = 16;

/// Side of the square at the top left of a card that counts as its close button.
pub const CLOSE_HIT_PX: i32 = 30;

/// Timeout of a notification whose sender leaves the choice to the daemon.
pub const DEFAULT_TIMEOUT_MS: u32 = 5000;

/// Nanoseconds in a millisecond.
pub const NANOS_PER_MS: u64 = 1_000_000;

/// Wayland pointer coordinates count this many units to a logical pixel.
pub const FIXED_UNITS: i32 = 256;

/// Linux input code of the left mouse button.
pub const BTN_LEFT: u32 = 0x110;

/// Reason sent with `NotificationClosed`: the notification expired.
pub const REASON_EXPIRED: u32 = 1;

/// Reason sent with `NotificationClosed`: the user dismissed the notification.
pub const REASON_DISMISSED: u32 = 2;

/// Reason sent with `NotificationClosed`: a `CloseNotification` call closed it.
pub const REASON_CLOSED: u32 = 3;

} // verus!
