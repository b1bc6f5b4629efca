//! The state of the bar and the decisions taken on window events and on the
//! outcome of a refresh.

use vstd::prelude::*;
use vstd::string::*;
use crate::monitor::{Monitor, SCREEN_COMMAND_BASE};

verus! {

/// Timer that refreshes the bar every `REFRESH_MS` milliseconds.
pub const REFRESH_TIMER: usize = 1;

/// Timer that retries a failed refresh after `RETRY_MS` milliseconds.
pub const RETRY_TIMER: usize = 2;

pub const REFRESH_MS: u32 = 60_000;

pub const RETRY_MS: u32 = 15_000;

/// Menu command "Quit".
pub const QUIT_COMMAND: usize = 1001;

/// Menu command "Refresh now".
pub const REFRESH_COMMAND: usize = 1002;

/// Mouse message of a released left button, as the tray icon reports it.
pub const LEFT_BUTTON_UP: u32 = 0x0202;

/// Mouse message of a released right button, as the tray icon reports it.
pub const RIGHT_BUTTON_UP: u32 = 0x0205;

/// What the bar shows and where it stands, the usage percentage aside.
pub struct BarState {
    /// Seconds since the Unix epoch at which the usage window resets.
    pub resets_at_epoch: Option<i64>,
    /// The text on the bar.
    pub label: String,
    /// The error of the last refresh, when it failed.
    pub error: Option<String>,
    pub monitors: Vec<Monitor>,
    /// Device of the monitor chosen in the menu.
    pub selected_device: Option<String>,
    /// The bar is registered as an application desktop toolbar.
    pub appbar_registered: bool,
}

/// What the refresh timer for retries should do after a refresh.
pub enum RetryTimer {
    /// Stop it: the refresh succeeded.
    Stop,
    /// Start it (again) with `RETRY_MS`: the refresh failed.
    Start,
}

/// The outcome of a refresh: the new tool tip of the tray icon and the retry timer.
pub struct RefreshReport {
    pub tip: String,
    pub retry: RetryTimer,
}

impl BarState {
    /// The state at start: nothing known yet, the saved monitor choice.
    pub fn new(selected_device: Option<String>) -> (s: BarState)
        ensures
            s.resets_at_epoch is None,
            s.label@ == "loading…"@,
            s.error is None,
            s.monitors@.len() == 0,
            s.selected_device == selected_device,
            !s.appbar_registered,
    {
        BarState {
            resets_at_epoch: None,
            label: String::from_str("loading…"),
            error: None,
            monitors: Vec::new(),
            selected_device,
            appbar_registered: false,
        }
    }

    /// A refresh succeeded: the bar shows `label`, the reset time is `reset`,
    /// the error is cleared and the retry timer stops.
    pub fn record_success(&mut self, label: String, reset: Option<i64>) -> (report: RefreshReport)
        ensures
            final(self).label == label,
            final(self).resets_at_epoch == reset,
            final(self).error is None,
            final(self).monitors == old(self).monitors,
            final(self).selected_device == old(self).selected_device,
            final(self).appbar_registered == old(self).appbar_registered,
            report.tip@ == "cc_limit · "@ + label@,
            report.retry is Stop,
    {
        let mut tip = String::from_str("cc_limit · ");
        tip.append(label.as_str());
        self.label = label;
        self.resets_at_epoch = reset;
        self.error = None;
        RefreshReport { tip, retry: RetryTimer::Stop }
    }

    /// A refresh failed with `err`: the bar keeps its last label and reset
    /// time, records the error, and the retry timer starts.
    pub fn record_failure(&mut self, err: String) -> (report: RefreshReport)
        ensures
            final(self).label == old(self).label,
            final(self).resets_at_epoch == old(self).resets_at_epoch,
            final(self).error == Some(err),
            final(self).monitors == old(self).monitors,
            final(self).selected_device == old(self).selected_device,
            final(self).appbar_registered == old(self).appbar_registered,
            report.tip@ == "cc_limit · "@ + old(self).label@ + " (transient err: "@ + err@ + ")"@,
            report.retry is Start,
    {
        let mut tip = String::from_str("cc_limit · ");
        tip.append(self.label.as_str());
        tip.append(" (transient err: ");
        tip.append(err.as_str());
        tip.append(")");
        self.error = Some(err);
        RefreshReport { tip, retry: RetryTimer::Start }
    }

    /// The menu chose screen `index`: when there is such a monitor, it becomes
    /// the selected one and its device is returned to be saved.
    pub fn select_screen(&mut self, index: usize) -> (saved: Option<String>)
        ensures
            index < old(self).monitors@.len() ==> {
                let d = old(self).monitors@[index as int].device;
                &&& final(self).selected_device == Some(d)
                &&& saved == Some(d)
            },
            index >= old(self).monitors@.len() ==> {
                &&& final(self).selected_device == old(self).selected_device
                &&& saved is None
            },
            final(self).monitors == old(self).monitors,
            final(self).label == old(self).label,
            final(self).resets_at_epoch == old(self).resets_at_epoch,
            final(self).error == old(self).error,
            final(self).appbar_registered == old(self).appbar_registered,
    {
        if index < self.monitors.len() {
            let d = self.monitors[index].device.clone();
            self.selected_device = Some(d.clone());
            Some(d)
        } else {
            None
        }
    }
}

/// Hours and minutes until `reset`, when it is after `now`: the whole hours,
/// and the whole minutes that remain below the next hour.
pub fn reset_countdown(reset: Option<i64>, now: i64) -> (r: Option<(i64, i64)>)
    requires
        now >= 0,
    ensures
        r is Some <==> (reset matches Some(t) && t > now),
        r matches Some((h, m)) ==> (reset matches Some(t) && {
            let left = t - now;
            &&& 0 <= h
            &&& 0 <= m < 60
            &&& h * 3600 + m * 60 <= left < h * 3600 + m * 60 + 60
        }),
{
    match reset {
        Some(t) => {
            if t > now {
                let mut s = t - now;
                let h = s / 3600;
                s = s % 3600;
                let m = s / 60;
                Some((h, m))
            } else {
                None
            }
        },
        None => None,
    }
}

/// A window event, as the window procedure receives it.
pub enum WindowEvent {
    Create,
    Paint,
    /// A timer fired, with its identifier.
    Timer(usize),
    /// The tray icon reported a mouse event; the parameter carries the mouse message.
    TrayNotify(isize),
    /// The desktop toolbar notification.
    AppbarNotify,
    /// The right mouse button was released over the bar.
    RightButtonUp,
    /// A menu command, with the message's word parameter.
    Command(usize),
    DisplayChange,
    Destroy,
    Other,
}

/// What the window procedure does in answer.
pub enum WindowAction {
    /// Place the bar, add the tray icon, start the refresh timer and refresh.
    Setup,
    /// Paint the bar.
    Paint,
    /// Refresh in the background.
    Refresh,
    ShowMenu,
    /// Destroy the window.
    Quit,
    /// Select screen `index`, save the choice, place the bar again and repaint.
    SelectScreen(usize),
    /// Place the bar again.
    Reposition,
    /// Stop both timers, remove the toolbar and the tray icon, end the message loop.
    Teardown,
    /// Nothing to do; the message is handled.
    Nothing,
    /// Not handled: the default window procedure answers it.
    Default,
}

/// The command identifier of a menu command: the low word of the parameter.
pub open spec fn command_id(wparam: usize) -> int {
    wparam as int % 65536
}

/// The answer to each window event.
pub fn decide(event: WindowEvent) -> (a: WindowAction)
    ensures
        match event {
            WindowEvent::Create => a is Setup,
            WindowEvent::Paint => a is Paint,
            WindowEvent::Timer(id) => if id == REFRESH_TIMER || id == RETRY_TIMER {
                a is Refresh
            } else {
                a is Nothing
            },
            WindowEvent::TrayNotify(lparam) => {
                let mouse = lparam as int % 65536;
                if mouse == LEFT_BUTTON_UP || mouse == RIGHT_BUTTON_UP {
                    a is ShowMenu
                } else {
                    a is Nothing
                }
            },
            WindowEvent::AppbarNotify => a is Nothing,
            WindowEvent::RightButtonUp => a is ShowMenu,
            WindowEvent::Command(wparam) => {
                let id = command_id(wparam);
                if id == QUIT_COMMAND {
                    a is Quit
                } else if id == REFRESH_COMMAND {
                    a is Refresh
                } else if id >= SCREEN_COMMAND_BASE {
                    a == WindowAction::SelectScreen((id - SCREEN_COMMAND_BASE) as usize)
                } else {
                    a is Nothing
                }
            },
            WindowEvent::DisplayChange => a is Reposition,
            WindowEvent::Destroy => a is Teardown,
            WindowEvent::Other => a is Default,
        },
{
    match event {
        WindowEvent::Create => WindowAction::Setup,
        WindowEvent::Paint => WindowAction::Paint,
        WindowEvent::Timer(id) => {
            if id == REFRESH_TIMER || id == RETRY_TIMER {
                WindowAction::Refresh
            } else {
                WindowAction::Nothing
            }
        },
        WindowEvent::TrayNotify(lparam) => {
            let mouse: u32 = (lparam & 0xFFFF) as u32;
            assert((lparam & 0xFFFF) as u32 == lparam as int % 65536) by (bit_vector);
            if mouse == RIGHT_BUTTON_UP || mouse == LEFT_BUTTON_UP {
                WindowAction::ShowMenu
            } else {
                WindowAction::Nothing
            }
        },
        WindowEvent::AppbarNotify => WindowAction::Nothing,
        WindowEvent::RightButtonUp => WindowAction::ShowMenu,
        WindowEvent::Command(wparam) => {
            let id: usize = wparam & 0xFFFF;
            assert(wparam & 0xFFFF == wparam as int % 65536) by (bit_vector);
            if id == QUIT_COMMAND {
                WindowAction::Quit
            } else if id == REFRESH_COMMAND {
                WindowAction::Refresh
            } else if id >= SCREEN_COMMAND_BASE {
                WindowAction::SelectScreen(id - SCREEN_COMMAND_BASE)
            } else {
                WindowAction::Nothing
            }
        },
        WindowEvent::DisplayChange => WindowAction::Reposition,
        WindowEvent::Destroy => WindowAction::Teardown,
        WindowEvent::Other => WindowAction::Default,
    }
}

} // verus!
