//! The bytes that a terminal sends for the keys of this client's commands, and
//! those that the client sends to the terminal.
use vstd::prelude::*;

verus! {

/// ctrl-q
pub const QUIT: [u8; 1] = [17];

/// escape
pub const ESC: [u8; 1] = [27];

/// the character `\n`
pub const ENTER: [u8; 1] = [10];

/// alt-h
pub const MOVE_FOCUS_LEFT_IN_NORMAL_MODE: [u8; 2] = [27, 104];

/// alt-l
pub const MOVE_FOCUS_RIGHT_IN_NORMAL_MODE: [u8; 2] = [27, 108];

/// ctrl-p
pub const PANE_MODE: [u8; 1] = [16];

/// n
pub const SPAWN_TERMINAL_IN_PANE_MODE: [u8; 1] = [110];

/// p
pub const MOVE_FOCUS_IN_PANE_MODE: [u8; 1] = [112];

/// d
pub const SPLIT_DOWN_IN_PANE_MODE: [u8; 1] = [100];

/// r
pub const SPLIT_RIGHT_IN_PANE_MODE: [u8; 1] = [114];

/// f
pub const TOGGLE_ACTIVE_TERMINAL_FULLSCREEN_IN_PANE_MODE: [u8; 1] = [102];

/// x
pub const CLOSE_PANE_IN_PANE_MODE: [u8; 1] = [120];

/// j
pub const MOVE_FOCUS_DOWN_IN_PANE_MODE: [u8; 1] = [106];

/// k
pub const MOVE_FOCUS_UP_IN_PANE_MODE: [u8; 1] = [107];

/// h
pub const MOVE_FOCUS_LEFT_IN_PANE_MODE: [u8; 1] = [104];

/// l
pub const MOVE_FOCUS_RIGHT_IN_PANE_MODE: [u8; 1] = [108];

/// ctrl-s
pub const SCROLL_MODE: [u8; 1] = [19];

/// k
pub const SCROLL_UP_IN_SCROLL_MODE: [u8; 1] = [107];

/// j
pub const SCROLL_DOWN_IN_SCROLL_MODE: [u8; 1] = [106];

/// ctrl-b
pub const SCROLL_PAGE_UP_IN_SCROLL_MODE: [u8; 1] = [2];

/// ctrl-f
pub const SCROLL_PAGE_DOWN_IN_SCROLL_MODE: [u8; 1] = [6];

/// ctrl-r
pub const RESIZE_MODE: [u8; 1] = [18];

/// j
pub const RESIZE_DOWN_IN_RESIZE_MODE: [u8; 1] = [106];

/// k
pub const RESIZE_UP_IN_RESIZE_MODE: [u8; 1] = [107];

/// h
pub const RESIZE_LEFT_IN_RESIZE_MODE: [u8; 1] = [104];

/// l
pub const RESIZE_RIGHT_IN_RESIZE_MODE: [u8; 1] = [108];

/// ctrl-t
pub const TAB_MODE: [u8; 1] = [20];

/// n
pub const NEW_TAB_IN_TAB_MODE: [u8; 1] = [110];

/// l
pub const SWITCH_NEXT_TAB_IN_TAB_MODE: [u8; 1] = [108];

/// h
pub const SWITCH_PREV_TAB_IN_TAB_MODE: [u8; 1] = [104];

/// x
pub const CLOSE_TAB_IN_TAB_MODE: [u8; 1] = [120];

/// `\u{1b}[200~`
pub const BRACKETED_PASTE_START: [u8; 6] = [27, 91, 50, 48, 48, 126];

/// `\u{1b}[201~`
pub const BRACKETED_PASTE_END: [u8; 6] = [27, 91, 50, 48, 49, 126];

/// No bytes at all.
pub const SLEEP: [u8; 0] = [];

/// `\u{1b}[14t\u{1b}[16t`: asks the terminal emulator for the sizes, in pixels,
/// of the text area and of a character cell.
pub const PIXEL_QUERIES: [u8; 10] = [27, 91, 49, 52, 116, 27, 91, 49, 54, 116];

} // verus!
