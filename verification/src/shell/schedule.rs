//! When the window is drawn next. Times are nanoseconds of one clock.

use vstd::prelude::*;

verus! {

/// How long the loop sleeps at most once a redraw was asked for.
pub const SAFETY_WAIT_NS: u64 = 16_000_000;

/// What there is to wait for.
#[derive(Clone, Copy, Debug, PartialEq, Eq)]
pub struct RedrawState {
    pub now: u64,
    pub last_frame: u64,
    pub running: bool,
    /// Time that the machine still has before its next frame.
    pub owed: u64,
    pub menu_open: bool,
    pub in_editor: bool,
    /// A controller was used a moment ago.
    pub pad_active: bool,
    /// Pace while somebody may do something.
    pub active_tick: u64,
    /// Pace while nobody does.
    pub idle_tick: u64,
    /// Time after which the panels want to be drawn, if ever.
    pub repaint_delay: Option<u64>,
}

/// The time after a delay; a time past the end of the clock counts as `now`.
pub open spec fn later(from: u64, delay: u64, now: u64) -> u64 {
    if from + delay > u64::MAX {
        now
    } else {
        (from + delay) as u64
    }
}

/// When the next redraw is due.
pub open spec fn next_redraw(state: RedrawState) -> u64 {
    if state.running {
        later(state.last_frame, state.owed, state.now)
    } else {
        let tick = if state.menu_open || state.in_editor || state.pad_active {
            state.active_tick
        } else {
            state.idle_tick
        };
        let tick_next = later(state.last_frame, tick, state.now);
        match state.repaint_delay {
            Some(delay) => if state.last_frame + delay > u64::MAX || tick_next <= state.last_frame
                + delay {
                tick_next
            } else {
                (state.last_frame + delay) as u64
            },
            None => tick_next,
        }
    }
}

/// What the loop does until then.
#[derive(Clone, Copy, Debug, PartialEq, Eq, Structural)]
pub enum RedrawPlan {
    /// Sleep until an event comes.
    Wait,
    /// Ask for a redraw, and look again at the given time if none came.
    Request { look_again: u64 },
    /// Sleep until the given time.
    WaitUntil { time: u64 },
}

fn add_delay(from: u64, delay: u64, now: u64) -> (time: u64)
    ensures
        time == later(from, delay, now),
{
    match from.checked_add(delay) {
        Some(time) => time,
        None => now,
    }
}

/// What the loop does until the next redraw is due. Without a window it waits
/// for events.
pub fn schedule_next_redraw(window: bool, state: RedrawState) -> (plan: RedrawPlan)
    requires
        state.now + SAFETY_WAIT_NS <= u64::MAX,
    ensures
        plan == if !window {
            RedrawPlan::Wait
        } else if next_redraw(state) <= state.now {
            RedrawPlan::Request { look_again: (state.now + SAFETY_WAIT_NS) as u64 }
        } else {
            RedrawPlan::WaitUntil { time: next_redraw(state) }
        },
{
    if !window {
        return RedrawPlan::Wait;
    }
    let next: u64 = if state.running {
        add_delay(state.last_frame, state.owed, state.now)
    } else {
        let tick: u64 = if state.menu_open || state.in_editor || state.pad_active {
            state.active_tick
        } else {
            state.idle_tick
        };
        let tick_next: u64 = add_delay(state.last_frame, tick, state.now);
        match state.repaint_delay {
            Some(delay) => match state.last_frame.checked_add(delay) {
                Some(repaint) => if tick_next <= repaint {
                    tick_next
                } else {
                    repaint
                },
                None => tick_next,
            },
            None => tick_next,
        }
    };
    if next <= state.now {
        RedrawPlan::Request { look_again: state.now + SAFETY_WAIT_NS }
    } else {
        RedrawPlan::WaitUntil { time: next }
    }
}

/// A paused window is drawn again within one idle tick, and within one active
/// tick while the menu or the editor is in front or a controller was used.
pub proof fn law_paused_window_keeps_its_pace(state: RedrawState)
    requires
        !state.running,
        state.active_tick <= state.idle_tick,
        state.last_frame <= state.now,
        state.last_frame + state.idle_tick <= u64::MAX,
    ensures
        next_redraw(state) <= state.last_frame + state.idle_tick,
        state.menu_open || state.in_editor || state.pad_active ==> next_redraw(state)
            <= state.last_frame + state.active_tick,
{
}

/// A running machine is drawn when its next frame is owed, whatever else asks
/// for a picture; a time beyond the end of the clock is now.
pub proof fn law_running_machine_sets_the_pace(state: RedrawState)
    requires
        state.running,
    ensures
        state.last_frame + state.owed <= u64::MAX ==> next_redraw(state) == state.last_frame
            + state.owed,
        state.last_frame + state.owed > u64::MAX ==> next_redraw(state) == state.now,
{
}

/// A paused window is drawn at its tick, or sooner where somebody asked for it:
/// at the earlier of the two times, and never before both.
pub proof fn law_paused_window_answers_the_earlier_call(state: RedrawState)
    requires
        !state.running,
        state.last_frame + state.active_tick <= u64::MAX,
        state.last_frame + state.idle_tick <= u64::MAX,
    ensures
        ({
            let busy = state.menu_open || state.in_editor || state.pad_active;
            let tick = if busy { state.active_tick } else { state.idle_tick };
            &&& next_redraw(state) <= state.last_frame + tick
            &&& state.repaint_delay is None ==> next_redraw(state) == state.last_frame + tick
            &&& state.repaint_delay matches Some(delay) ==> next_redraw(state) <= state.last_frame
                + delay && (next_redraw(state) == state.last_frame + tick || next_redraw(state)
                == state.last_frame + delay)
            &&& state.repaint_delay matches Some(delay) ==> (state.last_frame + delay > u64::MAX
                ==> next_redraw(state) == state.last_frame + tick)
        }),
{
}

} // verus!
