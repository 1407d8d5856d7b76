use vstd::prelude::*;

verus! {

/// How long the scrollbar stays after the last scroll, in milliseconds.
pub const SCROLLBAR_HIDE_DELAY_MS: u64 = 700;

#[derive(Debug, Clone, Copy, PartialEq, Eq, Structural)]
pub enum Screen {
    Dashboard,
    Settings,
}

#[derive(Debug, Clone, Copy, PartialEq, Eq, Structural)]
pub enum Overlay {
    /// No overlay is open.
    Hidden,
    About,
    DriverPicker,
}

#[derive(Debug, Clone, Copy, PartialEq, Eq, Structural)]
pub enum WindowAction {
    Close,
    Minimize,
    Maximize,
    Fullscreen,
    Drag,
}

#[derive(Debug, Clone, Copy, PartialEq, Eq, Structural)]
pub enum SettingsToggle {
    IncludeTesting,
    BackgroundOnClose,
    NotificationsEnabled,
    NotifyStandings,
    NotifySessions,
}

/// What the tray menu asks for.
#[derive(Debug, Clone, Copy, PartialEq, Eq, Structural)]
pub enum TrayAction {
    Show,
    Quit,
}

/// The scrollbar shows while scrolling and for a while after, counted in ticks.
#[derive(Debug, Clone, Copy, PartialEq, Eq, Structural, Default)]
pub struct ScrollbarVisibility {
    pub visible: bool,
    pub hide_after_ticks: u32,
}

/// Ticks the scrollbar stays after a scroll: the delay over the tick length (a tick of at
/// least 1 ms), at least one.
pub open spec fn ticks_to_hide(tick_ms: u64) -> u32 {
    let per = if tick_ms > 1 {
        tick_ms
    } else {
        1
    };
    let n = SCROLLBAR_HIDE_DELAY_MS / per;
    if n > 1 {
        n as u32
    } else {
        1
    }
}

pub open spec fn scrolled(tick_ms: u64) -> ScrollbarVisibility {
    ScrollbarVisibility { visible: true, hide_after_ticks: ticks_to_hide(tick_ms) }
}

/// One tick: a shown scrollbar counts down and hides when the count reaches zero.
pub open spec fn ticked(s: ScrollbarVisibility) -> ScrollbarVisibility {
    if !s.visible {
        s
    } else {
        let left = if s.hide_after_ticks > 0 {
            (s.hide_after_ticks - 1) as u32
        } else {
            0
        };
        ScrollbarVisibility { visible: left != 0, hide_after_ticks: left }
    }
}

/// `k` ticks in a row.
pub open spec fn ticked_times(s: ScrollbarVisibility, k: nat) -> ScrollbarVisibility
    decreases k,
{
    if k == 0 {
        s
    } else {
        ticked(ticked_times(s, (k - 1) as nat))
    }
}

impl ScrollbarVisibility {
    pub fn on_scroll(&mut self, tick_ms: u64)
        ensures
            *final(self) == scrolled(tick_ms),
    {
        let per = if tick_ms > 1 {
            tick_ms
        } else {
            1
        };
        let n = SCROLLBAR_HIDE_DELAY_MS / per;
        self.visible = true;
        self.hide_after_ticks = if n > 1 {
            n as u32
        } else {
            1
        };
    }

    pub fn on_tick(&mut self)
        ensures
            *final(self) == ticked(*old(self)),
    {
        if !self.visible {
            return;
        }
        if self.hide_after_ticks > 0 {
            self.hide_after_ticks = self.hide_after_ticks - 1;
        }
        if self.hide_after_ticks == 0 {
            self.visible = false;
        }
    }
}

proof fn lemma_countdown(s: ScrollbarVisibility, k: nat)
    requires
        s.visible,
        s.hide_after_ticks > 0,
        k <= s.hide_after_ticks,
    ensures
        ticked_times(s, k).hide_after_ticks == s.hide_after_ticks - k,
        ticked_times(s, k).visible == (k < s.hide_after_ticks),
    decreases k,
{
    if k > 0 {
        lemma_countdown(s, (k - 1) as nat);
    }
}

/// After a scroll the scrollbar stays visible for `ticks_to_hide` ticks less one, and is
/// hidden at that tick: the hide delay is counted out in ticks.
pub proof fn law_scrollbar_hides_after_delay(tick_ms: u64, k: nat)
    requires
        k <= ticks_to_hide(tick_ms),
    ensures
        ticked_times(scrolled(tick_ms), k).visible == (k < ticks_to_hide(tick_ms)),
{
    lemma_countdown(scrolled(tick_ms), k);
}

} // verus!
