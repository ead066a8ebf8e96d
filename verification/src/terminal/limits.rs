//! What terminals may retain.
use vstd::prelude::*;

use super::replay::MAX_REPLAY_BYTES;
use super::snapshot::{
    DEFAULT_INACTIVE_SCROLLBACK_LINES, DEFAULT_MAX_TOTAL_SCROLLBACK_BYTES,
    DEFAULT_REPLAY_HISTORY_BYTES, DEFAULT_SCROLLBACK_LINES, MAX_SCROLLBACK_LINES,
    MAX_TOTAL_SCROLLBACK_BYTES, MIN_MAX_TOTAL_SCROLLBACK_BYTES, MIN_REPLAY_HISTORY_BYTES,
};
use crate::num::{clamp_usize, clamped, min_of};

verus! {

/// Per-terminal and aggregate limits resolved from the configuration.
#[derive(Debug, Clone, Copy, PartialEq, Eq, Structural)]
pub struct TerminalLimits {
    /// Scrollback rows the GUI terminal emulator retains (focused terminal).
    pub scrollback_lines: usize,
    /// Scrollback rows the GUI terminal retains once it loses focus.
    pub inactive_scrollback_lines: usize,
    /// Aggregate byte budget shared by the GUI scrollback grids.
    pub max_total_scrollback_bytes: usize,
    /// Hard byte limit for the server's per-terminal raw replay history.
    pub replay_history_bytes: usize,
}

impl TerminalLimits {
    pub open spec fn standard() -> TerminalLimits {
        TerminalLimits {
            scrollback_lines: DEFAULT_SCROLLBACK_LINES,
            inactive_scrollback_lines: DEFAULT_INACTIVE_SCROLLBACK_LINES,
            max_total_scrollback_bytes: DEFAULT_MAX_TOTAL_SCROLLBACK_BYTES,
            replay_history_bytes: DEFAULT_REPLAY_HISTORY_BYTES,
        }
    }

    /// The limits with each brought into its range, and no more rows without
    /// focus than with it.
    pub open spec fn in_range(self) -> TerminalLimits {
        let scrollback = clamped(self.scrollback_lines as int, 1, MAX_SCROLLBACK_LINES as int);
        let inactive = clamped(
            self.inactive_scrollback_lines as int,
            1,
            MAX_SCROLLBACK_LINES as int,
        );
        TerminalLimits {
            scrollback_lines: scrollback as usize,
            inactive_scrollback_lines: min_of(inactive, scrollback) as usize,
            max_total_scrollback_bytes: clamped(
                self.max_total_scrollback_bytes as int,
                MIN_MAX_TOTAL_SCROLLBACK_BYTES as int,
                MAX_TOTAL_SCROLLBACK_BYTES as int,
            ) as usize,
            replay_history_bytes: clamped(
                self.replay_history_bytes as int,
                MIN_REPLAY_HISTORY_BYTES as int,
                MAX_REPLAY_BYTES as int,
            ) as usize,
        }
    }

    pub fn normalized(self) -> (limits: Self)
        ensures
            limits == self.in_range(),
    {
        let scrollback_lines: usize = clamp_usize(self.scrollback_lines, 1, MAX_SCROLLBACK_LINES);
        Self {
            scrollback_lines,
            inactive_scrollback_lines: clamp_usize(
                self.inactive_scrollback_lines,
                1,
                MAX_SCROLLBACK_LINES,
            ).min(scrollback_lines),
            max_total_scrollback_bytes: clamp_usize(
                self.max_total_scrollback_bytes,
                MIN_MAX_TOTAL_SCROLLBACK_BYTES,
                MAX_TOTAL_SCROLLBACK_BYTES,
            ),
            replay_history_bytes: clamp_usize(
                self.replay_history_bytes,
                MIN_REPLAY_HISTORY_BYTES,
                MAX_REPLAY_BYTES,
            ),
        }
    }
}

impl Default for TerminalLimits {
    fn default() -> (limits: Self)
        ensures
            limits == Self::standard(),
    {
        Self {
            scrollback_lines: DEFAULT_SCROLLBACK_LINES,
            inactive_scrollback_lines: DEFAULT_INACTIVE_SCROLLBACK_LINES,
            max_total_scrollback_bytes: DEFAULT_MAX_TOTAL_SCROLLBACK_BYTES,
            replay_history_bytes: DEFAULT_REPLAY_HISTORY_BYTES,
        }
    }
}

/// Limits that are in range stay as they are.
pub proof fn normalizing_twice_changes_nothing(limits: TerminalLimits)
    ensures
        limits.in_range().in_range() == limits.in_range(),
{
}

/// The default limits are in range.
pub proof fn the_default_limits_are_in_range()
    ensures
        TerminalLimits::standard().in_range() == TerminalLimits::standard(),
{
}

/// Limits that are in their ranges are kept as they are; each one beyond its
/// range becomes the end of the range that is nearer, and a terminal without
/// focus has no more history than one with it.
pub proof fn limits_are_moved_no_further_than_needed(limits: TerminalLimits)
    ensures
        ({
            let kept = limits.in_range();
            &&& 1 <= limits.scrollback_lines <= MAX_SCROLLBACK_LINES ==> kept.scrollback_lines
                == limits.scrollback_lines
            &&& limits.scrollback_lines == 0 ==> kept.scrollback_lines == 1
            &&& limits.scrollback_lines > MAX_SCROLLBACK_LINES ==> kept.scrollback_lines
                == MAX_SCROLLBACK_LINES
            &&& kept.inactive_scrollback_lines <= kept.scrollback_lines
            &&& 1 <= limits.inactive_scrollback_lines <= kept.scrollback_lines
                ==> kept.inactive_scrollback_lines == limits.inactive_scrollback_lines
            &&& limits.inactive_scrollback_lines > kept.scrollback_lines
                ==> kept.inactive_scrollback_lines == kept.scrollback_lines
            &&& limits.inactive_scrollback_lines == 0 ==> kept.inactive_scrollback_lines == 1
            &&& MIN_MAX_TOTAL_SCROLLBACK_BYTES <= limits.max_total_scrollback_bytes
                <= MAX_TOTAL_SCROLLBACK_BYTES ==> kept.max_total_scrollback_bytes
                == limits.max_total_scrollback_bytes
            &&& limits.max_total_scrollback_bytes < MIN_MAX_TOTAL_SCROLLBACK_BYTES
                ==> kept.max_total_scrollback_bytes == MIN_MAX_TOTAL_SCROLLBACK_BYTES
            &&& limits.max_total_scrollback_bytes > MAX_TOTAL_SCROLLBACK_BYTES
                ==> kept.max_total_scrollback_bytes == MAX_TOTAL_SCROLLBACK_BYTES
            &&& MIN_REPLAY_HISTORY_BYTES <= limits.replay_history_bytes <= MAX_REPLAY_BYTES
                ==> kept.replay_history_bytes == limits.replay_history_bytes
            &&& limits.replay_history_bytes < MIN_REPLAY_HISTORY_BYTES
                ==> kept.replay_history_bytes == MIN_REPLAY_HISTORY_BYTES
            &&& limits.replay_history_bytes > MAX_REPLAY_BYTES ==> kept.replay_history_bytes
                == MAX_REPLAY_BYTES
        }),
{
}

} // verus!
