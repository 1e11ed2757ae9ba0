//! The tray icon: which picture shows for how many running profiles, its
//! tooltip and menu, and the animation that runs while a tool is active.
use vstd::prelude::*;
use crate::text::{append_decimal, concat_str, decimal_text, str_eq};

verus! {

/// The pictures the tray can show.
///
/// `badge` is the count printed on the picture: 1 stands for no badge and 5
/// for five or more profiles. `frame` is the step of the activity animation.
#[derive(PartialEq, Eq, Structural, Clone, Copy, Debug)]
pub enum TrayIcon {
    Stopped,
    Running { badge: u8 },
    Active { frame: u8, badge: u8 },
}

/// The badge shown for `count` running profiles: none (1) up to one profile,
/// the count from two to four, and 5 for five or more.
pub open spec fn badge_for(count: nat) -> u8 {
    if count <= 1 {
        1
    } else if count >= 5 {
        5
    } else {
        count as u8
    }
}

fn badge_for_exec(count: usize) -> (b: u8)
    ensures
        b == badge_for(count as nat),
{
    if count <= 1 {
        1
    } else if count >= 5 {
        5
    } else {
        count as u8
    }
}

/// The icon shown while no tool is active.
pub open spec fn idle_icon(count: nat) -> TrayIcon {
    if count == 0 {
        TrayIcon::Stopped
    } else {
        TrayIcon::Running { badge: badge_for(count) }
    }
}

/// The icon shown at animation step `frame` while a tool is active.
pub open spec fn active_icon(frame: nat, count: nat) -> TrayIcon {
    TrayIcon::Active { frame: (frame % 3) as u8, badge: badge_for(count) }
}

/// Picks the idle icon for a given number of connected profiles.
pub fn icon_for_count(n: usize) -> (icon: TrayIcon)
    ensures
        icon == idle_icon(n as nat),
{
    if n == 0 {
        TrayIcon::Stopped
    } else {
        TrayIcon::Running { badge: badge_for_exec(n) }
    }
}

/// Picks the active (pulsing) icon for a given frame and profile count.
pub fn icon_active(frame: usize, count: usize) -> (icon: TrayIcon)
    ensures
        icon == active_icon(frame as nat, count as nat),
{
    TrayIcon::Active { frame: (frame % 3) as u8, badge: badge_for_exec(count) }
}

/// The animation repeats every three frames, and the icons for five or more
/// profiles are all the same.
pub proof fn lemma_icon_cycles(frame: nat, count: nat, more: nat)
    ensures
        active_icon(frame + 3, count) == active_icon(frame, count),
        count >= 5 ==> idle_icon(count + more) == idle_icon(count),
        count >= 5 ==> active_icon(frame, count + more) == active_icon(frame, count),
        (idle_icon(count) == TrayIcon::Stopped) <==> count == 0,
{
    assert((frame + 3) % 3 == frame % 3);
}

// ───────────────────────────── texts ─────────────────────────────

/// The tooltip for `count` running profiles.
pub open spec fn tooltip_text(count: nat) -> Seq<char> {
    "Tianshu Bridge: "@ + if count == 0 {
        "stopped"@
    } else {
        decimal_text(count) + " connected"@
    }
}

/// The tray tooltip: stopped, or how many profiles are connected.
pub fn tray_tooltip(count: usize) -> (s: String)
    ensures
        s@ == tooltip_text(count as nat),
{
    if count == 0 {
        concat_str("Tianshu Bridge: ", "stopped")
    } else {
        let mut n = String::new();
        append_decimal(&mut n, count as u128);
        let with_count = concat_str("Tianshu Bridge: ", n.as_str());
        let s = concat_str(with_count.as_str(), " connected");
        proof {
            assert(s@ =~= tooltip_text(count as nat));
        }
        s
    }
}

/// The menu line that says how many profiles are configured.
pub fn status_label(profile_count: usize) -> (s: String)
    ensures
        s@ == decimal_text(profile_count as nat) + " profile(s) configured"@,
{
    let mut n = String::new();
    append_decimal(&mut n, profile_count as u128);
    concat_str(n.as_str(), " profile(s) configured")
}

// ───────────────────────────── menu ─────────────────────────────

/// What a click on a tray menu item asks for.
#[derive(PartialEq, Eq, Structural, Clone, Copy, Debug)]
pub enum MenuAction {
    ShowSettings,
    ShowLogs,
    StartAll,
    StopAll,
    Quit,
    Ignore,
}

/// The action of the menu item with identifier `id`.
pub open spec fn menu_action_of(id: Seq<char>) -> MenuAction {
    if id == "settings"@ {
        MenuAction::ShowSettings
    } else if id == "logs"@ {
        MenuAction::ShowLogs
    } else if id == "start_all"@ {
        MenuAction::StartAll
    } else if id == "stop_all"@ {
        MenuAction::StopAll
    } else if id == "quit"@ {
        MenuAction::Quit
    } else {
        MenuAction::Ignore
    }
}

/// Maps a tray menu item identifier to its action.
pub fn menu_action(id: &str) -> (a: MenuAction)
    ensures
        a == menu_action_of(id@),
{
    if str_eq(id, "settings") {
        MenuAction::ShowSettings
    } else if str_eq(id, "logs") {
        MenuAction::ShowLogs
    } else if str_eq(id, "start_all") {
        MenuAction::StartAll
    } else if str_eq(id, "stop_all") {
        MenuAction::StopAll
    } else if str_eq(id, "quit") {
        MenuAction::Quit
    } else {
        MenuAction::Ignore
    }
}

// ───────────────────────────── activity animation ─────────────────────────────

/// How long after the last activity heartbeat the tray still shows activity,
/// in milliseconds.
pub const ACTIVITY_TIMEOUT_MS: u64 = 4000;

/// The heartbeat recorded for a report of `active` running tools at `now`.
pub open spec fn heartbeat_stamp(active: i32, now: u64) -> u64 {
    if active > 0 {
        now
    } else {
        0
    }
}

/// The heartbeat time to record when a bridge reports `active` running tools
/// at `now` (milliseconds): `now` while tools run, 0 (idle) once they finish.
pub fn activity_stamp(active: i32, now: u64) -> (ts: u64)
    ensures
        ts == heartbeat_stamp(active, now),
{
    if active > 0 {
        now
    } else {
        0
    }
}

/// A heartbeat recorded at `last` (0: none) still counts as activity at `now`:
/// it is less than the timeout old. A heartbeat stamped later than `now` (the
/// clock went back) does not count.
pub open spec fn is_active_at(last: u64, now: u64) -> bool {
    last > 0 && last <= now && now - last < ACTIVITY_TIMEOUT_MS
}

/// A report of running tools stamps the heartbeat with the current time, and
/// a report of none clears it. A heartbeat keeps the tray animated for four
/// seconds: with no heartbeat (0) it is idle; a heartbeat at or before `now` counts exactly while it is
/// less than 4000 ms old, so heartbeats two seconds apart keep it animated
/// without a gap; a heartbeat stamped after `now` does not count.
pub proof fn lemma_activity_window(last: u64, now: u64)
    ensures
        forall|n: i32| #![trigger heartbeat_stamp(n, now)] n > 0 ==> heartbeat_stamp(n, now) == now,
        forall|n: i32| #![trigger heartbeat_stamp(n, now)] n <= 0 ==> !is_active_at(heartbeat_stamp(n, now), now),
        last == 0 ==> !is_active_at(last, now),
        0 < last <= now ==> (is_active_at(last, now) <==> now - last < 4000),
        0 < last <= now && now - last <= 2000 ==> is_active_at(last, now),
        now < last ==> !is_active_at(last, now),
{
}

/// The frame after `frame`, wrapping around at the largest `usize`.
pub open spec fn next_frame(frame: usize) -> usize {
    if frame == usize::MAX {
        0
    } else {
        (frame + 1) as usize
    }
}

/// The state of the tray animation between two polls.
#[derive(PartialEq, Eq, Structural, Clone, Copy, Debug)]
pub struct PollState {
    pub frame: usize,
    pub was_active: bool,
}

impl PollState {
    /// The state before the first poll: idle, at the first frame.
    pub fn new() -> (s: PollState)
        ensures
            s.frame == 0,
            !s.was_active,
    {
        PollState { frame: 0, was_active: false }
    }
}

/// What one poll gives: while active, the next animation frame shows and the
/// frame advances; on the first poll after activity ends the idle icon
/// returns and the animation restarts; otherwise nothing changes.
pub open spec fn poll_result(state: PollState, last: u64, now: u64, count: usize) -> (PollState, Option<TrayIcon>) {
    if is_active_at(last, now) {
        (PollState { frame: next_frame(state.frame), was_active: true }, Some(active_icon(state.frame as nat, count as nat)))
    } else if state.was_active {
        (PollState { frame: 0, was_active: false }, Some(idle_icon(count as nat)))
    } else {
        (state, None)
    }
}

/// One poll of the activity heartbeat: given the animation state, the last
/// heartbeat time, the current time and the number of running profiles,
/// the next state and the icon to show (`None`: leave the icon alone).
pub fn poll_step(state: PollState, last_ts: u64, now: u64, count: usize) -> (r: (PollState, Option<TrayIcon>))
    ensures
        r == poll_result(state, last_ts, now, count),
{
    let active = last_ts > 0 && last_ts <= now && (now - last_ts) < ACTIVITY_TIMEOUT_MS;
    if active {
        let icon = icon_active(state.frame, count);
        let frame = if state.frame == usize::MAX {
            0
        } else {
            state.frame + 1
        };
        (PollState { frame, was_active: true }, Some(icon))
    } else if state.was_active {
        (PollState { frame: 0, was_active: false }, Some(icon_for_count(count)))
    } else {
        (state, None)
    }
}


/// How the tray follows the heartbeat. A heartbeat less than four seconds
/// old shows the animation at the state's frame (one of three) with the
/// badge for the running profiles, and the next poll shows the next frame.
/// Without such a heartbeat the animation never shows: the first poll after
/// activity restores the idle icon for the running profiles and restarts at
/// the first frame, and a further poll without a heartbeat changes nothing.
pub proof fn lemma_poll_follows_heartbeat(state: PollState, last: u64, now: u64, count: usize)
    ensures
        ({
            let fresh = 0 < last <= now && now - last < 4000;
            let (next, icon) = poll_result(state, last, now, count);
            &&& fresh ==> icon == Some(TrayIcon::Active { frame: (state.frame % 3) as u8, badge: badge_for(count as nat) })
                && next.was_active
            &&& fresh && state.frame < usize::MAX ==> next.frame == state.frame + 1
            &&& !fresh ==> !next.was_active && !(icon matches Some(TrayIcon::Active { .. }))
            &&& !fresh && state.was_active ==> icon == Some(idle_icon(count as nat)) && next.frame == 0
            &&& !fresh && !state.was_active ==> next == state && icon is None
            &&& !fresh ==> poll_result(next, last, now, count) == (next, None::<TrayIcon>)
        }),
{
    let fresh = 0 < last <= now && now - last < 4000;
    if !fresh && state.was_active {
        assert(idle_icon(count as nat) !is Active);
    }
}

} // verus!
