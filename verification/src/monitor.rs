//! Monitors, the choice of the one that carries the bar, and the geometry of
//! the bar and of its screen menu.

use vstd::prelude::*;
use crate::text::same_text;

verus! {

/// A display monitor: its device name, its rectangle in virtual-screen
/// coordinates, and whether it is the primary one.
pub struct Monitor {
    pub device: String,
    pub left: i32,
    pub top: i32,
    pub right: i32,
    pub bottom: i32,
    pub primary: bool,
}

/// A rectangle in pixels.
#[derive(PartialEq, Eq, Structural, Clone, Copy)]
pub struct Rect {
    pub left: i32,
    pub top: i32,
    pub right: i32,
    pub bottom: i32,
}

/// Height of the bar in pixels.
pub const BAR_HEIGHT: i32 = 18;

/// Menu command of the first screen entry; entry `i` has `SCREEN_COMMAND_BASE + i`.
pub const SCREEN_COMMAND_BASE: usize = 2000;

/// The device name that the configuration saved, as a character sequence.
pub open spec fn saved_device(selected: Option<String>) -> Option<Seq<char>> {
    match selected {
        Some(d) => Some(d@),
        None => None,
    }
}

/// Position of the first monitor among `ms[i..]` whose device is `device`.
pub open spec fn device_position(ms: Seq<Monitor>, device: Seq<char>, i: int) -> Option<int>
    decreases ms.len() - i,
{
    if i < 0 || i >= ms.len() {
        None
    } else if ms[i].device@ == device {
        Some(i)
    } else {
        device_position(ms, device, i + 1)
    }
}

/// Position of the first primary monitor among `ms[i..]`.
pub open spec fn primary_position(ms: Seq<Monitor>, i: int) -> Option<int>
    decreases ms.len() - i,
{
    if i < 0 || i >= ms.len() {
        None
    } else if ms[i].primary {
        Some(i)
    } else {
        primary_position(ms, i + 1)
    }
}

/// The monitor that carries the bar: the saved one when it is connected, else
/// the first primary monitor, else the first monitor.
pub open spec fn chosen_position(ms: Seq<Monitor>, selected: Option<Seq<char>>) -> Option<int> {
    let saved = match selected {
        Some(d) => device_position(ms, d, 0),
        None => None,
    };
    match saved {
        Some(i) => Some(i),
        None => match primary_position(ms, 0) {
            Some(i) => Some(i),
            None => if ms.len() > 0 {
                Some(0)
            } else {
                None
            },
        },
    }
}

proof fn lemma_device_position(ms: Seq<Monitor>, device: Seq<char>, i: int)
    requires
        0 <= i,
    ensures
        device_position(ms, device, i) matches Some(j) ==> i <= j < ms.len() && ms[j].device@
            == device,
    decreases ms.len() - i,
{
    if i < ms.len() && ms[i].device@ != device {
        lemma_device_position(ms, device, i + 1);
    }
}

proof fn lemma_primary_position(ms: Seq<Monitor>, i: int)
    requires
        0 <= i,
    ensures
        primary_position(ms, i) matches Some(j) ==> i <= j < ms.len() && ms[j].primary,
        primary_position(ms, i) is None ==> forall|j: int| i <= j < ms.len() ==> !(#[trigger] ms[j].primary),
    decreases ms.len() - i,
{
    if i < ms.len() && !ms[i].primary {
        lemma_primary_position(ms, i + 1);
    }
}

/// A bar is placed exactly when there is a monitor, and always on one of them.
pub proof fn lemma_chosen_position_in_range(ms: Seq<Monitor>, selected: Option<Seq<char>>)
    ensures
        chosen_position(ms, selected) is Some <==> ms.len() > 0,
        chosen_position(ms, selected) matches Some(i) ==> 0 <= i < ms.len(),
{
    if let Some(d) = selected {
        lemma_device_position(ms, d, 0);
    }
    lemma_primary_position(ms, 0);
}

proof fn lemma_device_position_finds(ms: Seq<Monitor>, device: Seq<char>, i: int, k: int)
    requires
        0 <= i <= k < ms.len(),
        ms[k].device@ == device,
    ensures
        device_position(ms, device, i) matches Some(j) && j <= k,
    decreases k - i,
{
    if ms[i].device@ != device {
        lemma_device_position_finds(ms, device, i + 1, k);
    }
}

/// A screen chosen in the menu carries the bar from then on: the monitor
/// chosen for the saved device of screen `k` is the first one with that
/// device, so screen `k` itself when device names are distinct.
pub proof fn lemma_selected_screen_carries_bar(ms: Seq<Monitor>, k: int)
    requires
        0 <= k < ms.len(),
    ensures
        chosen_position(ms, Some(ms[k].device@)) matches Some(j) && j <= k && ms[j].device@
            == ms[k].device@,
        (forall|a: int, b: int|
            0 <= a < b < ms.len() ==> #[trigger] ms[a].device@ != #[trigger] ms[b].device@)
            ==> chosen_position(ms, Some(ms[k].device@)) == Some(k),
{
    lemma_device_position_finds(ms, ms[k].device@, 0, k);
    lemma_device_position(ms, ms[k].device@, 0);
}

proof fn lemma_device_position_absent(ms: Seq<Monitor>, device: Seq<char>, i: int)
    requires
        0 <= i,
        forall|l: int| 0 <= l < ms.len() ==> (#[trigger] ms[l]).device@ != device,
    ensures
        device_position(ms, device, i) is None,
    decreases ms.len() - i,
{
    if i < ms.len() {
        assert(ms[i].device@ != device);
        lemma_device_position_absent(ms, device, i + 1);
    }
}

proof fn lemma_device_position_first(ms: Seq<Monitor>, device: Seq<char>, i: int, j: int)
    requires
        0 <= i <= j < ms.len(),
        ms[j].device@ == device,
        forall|l: int| 0 <= l < j ==> (#[trigger] ms[l]).device@ != device,
    ensures
        device_position(ms, device, i) == Some(j),
    decreases j - i,
{
    if i < j {
        assert(ms[i].device@ != device);
        lemma_device_position_first(ms, device, i + 1, j);
    }
}

proof fn lemma_primary_position_first(ms: Seq<Monitor>, i: int, j: int)
    requires
        0 <= i <= j < ms.len(),
        ms[j].primary,
        forall|l: int| 0 <= l < j ==> !(#[trigger] ms[l]).primary,
    ensures
        primary_position(ms, i) == Some(j),
    decreases j - i,
{
    if i < j {
        assert(!ms[i].primary);
        lemma_primary_position_first(ms, i + 1, j);
    }
}

proof fn lemma_primary_position_absent(ms: Seq<Monitor>, i: int)
    requires
        0 <= i,
        forall|l: int| 0 <= l < ms.len() ==> !(#[trigger] ms[l]).primary,
    ensures
        primary_position(ms, i) is None,
    decreases ms.len() - i,
{
    if i < ms.len() {
        assert(!ms[i].primary);
        lemma_primary_position_absent(ms, i + 1);
    }
}

/// A saved device that is connected wins: the bar goes on the first monitor
/// `j` that has it, wherever the primary monitor is.
pub proof fn lemma_saved_device_wins(ms: Seq<Monitor>, device: Seq<char>, j: int)
    requires
        0 <= j < ms.len(),
        ms[j].device@ == device,
        forall|l: int| 0 <= l < j ==> (#[trigger] ms[l]).device@ != device,
    ensures
        chosen_position(ms, Some(device)) == Some(j),
{
    lemma_device_position_first(ms, device, 0, j);
}

/// Without a connected saved device, the bar goes on the first primary
/// monitor `j`, wherever it is listed.
pub proof fn lemma_primary_when_saved_device_absent(
    ms: Seq<Monitor>,
    selected: Option<Seq<char>>,
    j: int,
)
    requires
        0 <= j < ms.len(),
        ms[j].primary,
        forall|l: int| 0 <= l < j ==> !(#[trigger] ms[l]).primary,
        selected matches Some(d) ==> forall|l: int| 0 <= l < ms.len() ==> (#[trigger] ms[l]).device@ != d,
    ensures
        chosen_position(ms, selected) == Some(j),
        ms[j].primary,
{
    if let Some(d) = selected {
        lemma_device_position_absent(ms, d, 0);
    }
    lemma_primary_position_first(ms, 0, j);
}

/// Without a connected saved device and without a primary monitor, the bar
/// goes on the first monitor.
pub proof fn lemma_first_monitor_when_no_primary(ms: Seq<Monitor>, selected: Option<Seq<char>>)
    requires
        ms.len() > 0,
        forall|l: int| 0 <= l < ms.len() ==> !(#[trigger] ms[l]).primary,
        selected matches Some(d) ==> forall|l: int| 0 <= l < ms.len() ==> (#[trigger] ms[l]).device@ != d,
    ensures
        chosen_position(ms, selected) == Some(0int),
{
    if let Some(d) = selected {
        lemma_device_position_absent(ms, d, 0);
    }
    lemma_primary_position_absent(ms, 0);
}

/// Position of the first monitor whose device is `device`.
fn find_device(ms: &[Monitor], device: &String) -> (r: Option<usize>)
    ensures
        match r {
            Some(i) => device_position(ms@, device@, 0) == Some(i as int) && i < ms@.len(),
            None => device_position(ms@, device@, 0) is None,
        },
{
    let mut i: usize = 0;
    while i < ms.len()
        invariant
            i <= ms@.len(),
            device_position(ms@, device@, 0) == device_position(ms@, device@, i as int),
        decreases ms@.len() - i,
    {
        if same_text(ms[i].device.as_str(), device.as_str()) {
            return Some(i);
        }
        i = i + 1;
    }
    None
}

fn find_primary(ms: &[Monitor]) -> (r: Option<usize>)
    ensures
        match r {
            Some(i) => primary_position(ms@, 0) == Some(i as int) && i < ms@.len(),
            None => primary_position(ms@, 0) is None,
        },
{
    let mut i: usize = 0;
    while i < ms.len()
        invariant
            i <= ms@.len(),
            primary_position(ms@, 0) == primary_position(ms@, i as int),
        decreases ms@.len() - i,
    {
        if ms[i].primary {
            return Some(i);
        }
        i = i + 1;
    }
    None
}

/// Position of the monitor that carries the bar, as [`chosen_position`] describes.
pub fn pick_monitor_index(monitors: &[Monitor], selected: &Option<String>) -> (r: Option<usize>)
    ensures
        match r {
            Some(i) => chosen_position(monitors@, saved_device(*selected)) == Some(i as int) && i
                < monitors@.len(),
            None => chosen_position(monitors@, saved_device(*selected)) is None,
        },
{
    if let Some(d) = selected {
        if let Some(i) = find_device(monitors, d) {
            return Some(i);
        }
    }
    match find_primary(monitors) {
        Some(i) => Some(i),
        None => if monitors.len() > 0 {
            Some(0)
        } else {
            None
        },
    }
}

/// The monitor that carries the bar, as [`chosen_position`] describes.
pub fn pick_monitor<'a>(monitors: &'a [Monitor], selected: &Option<String>) -> (r: Option<&'a Monitor>)
    ensures
        match chosen_position(monitors@, saved_device(*selected)) {
            Some(i) => 0 <= i < monitors@.len() && r == Some(&monitors@[i]),
            None => r is None,
        },
{
    match pick_monitor_index(monitors, selected) {
        Some(i) => Some(&monitors[i]),
        None => None,
    }
}

/// Where the bar goes on monitor `m`: along its top edge, `BAR_HEIGHT` high.
pub fn bar_rect(m: &Monitor) -> (r: Rect)
    requires
        m.top + BAR_HEIGHT <= i32::MAX,
    ensures
        r == (Rect { left: m.left, top: m.top, right: m.right, bottom: (m.top + BAR_HEIGHT) as i32 }),
{
    Rect { left: m.left, top: m.top, right: m.right, bottom: m.top + BAR_HEIGHT }
}

pub open spec fn abs(x: int) -> int {
    if x < 0 {
        -x
    } else {
        x
    }
}

/// An entry of the screen menu.
pub struct ScreenEntry {
    /// The number shown for the screen, counting from 1.
    pub number: usize,
    /// The menu command that selects the screen.
    pub command: usize,
    pub width: i32,
    pub height: i32,
    pub primary: bool,
    /// The screen carries the device of the monitor that carries the bar.
    pub checked: bool,
}

/// The size of monitor `m` is computed without overflow.
pub open spec fn size_fits(m: Monitor) -> bool {
    i32::MIN < m.right - m.left <= i32::MAX && i32::MIN < m.bottom - m.top <= i32::MAX
}

/// The entries of the screen menu, one per monitor in order.
pub fn screen_menu(monitors: &[Monitor], selected: &Option<String>) -> (entries: Vec<ScreenEntry>)
    requires
        monitors@.len() + SCREEN_COMMAND_BASE <= usize::MAX,
        forall|i: int| 0 <= i < monitors@.len() ==> size_fits(#[trigger] monitors@[i]),
    ensures
        entries@.len() == monitors@.len(),
        forall|i: int|
            0 <= i < monitors@.len() ==> {
                let e = #[trigger] entries@[i];
                let m = monitors@[i];
                &&& e.number == i + 1
                &&& e.command == SCREEN_COMMAND_BASE + i
                &&& e.width == abs(m.right - m.left)
                &&& e.height == abs(m.bottom - m.top)
                &&& e.primary == m.primary
                &&& e.checked == (chosen_position(monitors@, saved_device(*selected)) matches Some(
                    c,
                ) && monitors@[c].device@ == m.device@)
            },
{
    let chosen = pick_monitor_index(monitors, selected);
    let mut entries: Vec<ScreenEntry> = Vec::new();
    let mut i: usize = 0;
    while i < monitors.len()
        invariant
            i <= monitors@.len(),
            monitors@.len() + SCREEN_COMMAND_BASE <= usize::MAX,
            forall|j: int| 0 <= j < monitors@.len() ==> size_fits(#[trigger] monitors@[j]),
            match chosen {
                Some(c) => chosen_position(monitors@, saved_device(*selected)) == Some(c as int)
                    && c < monitors@.len(),
                None => chosen_position(monitors@, saved_device(*selected)) is None,
            },
            entries@.len() == i,
            forall|j: int|
                0 <= j < i ==> {
                    let e = #[trigger] entries@[j];
                    let m = monitors@[j];
                    &&& e.number == j + 1
                    &&& e.command == SCREEN_COMMAND_BASE + j
                    &&& e.width == abs(m.right - m.left)
                    &&& e.height == abs(m.bottom - m.top)
                    &&& e.primary == m.primary
                    &&& e.checked == (chosen_position(monitors@, saved_device(*selected)) matches Some(
                        c,
                    ) && monitors@[c].device@ == m.device@)
                },
        decreases monitors@.len() - i,
    {
        let m = &monitors[i];
        assert(size_fits(monitors@[i as int]));
        let w: i32 = m.right - m.left;
        let h: i32 = m.bottom - m.top;
        let checked = match chosen {
            Some(c) => same_text(monitors[c].device.as_str(), m.device.as_str()),
            None => false,
        };
        entries.push(
            ScreenEntry {
                number: i + 1,
                command: SCREEN_COMMAND_BASE + i,
                width: if w < 0 { -w } else { w },
                height: if h < 0 { -h } else { h },
                primary: m.primary,
                checked,
            },
        );
        i = i + 1;
    }
    entries
}

/// Where the paint routine draws in the bar's client rectangle.
pub struct TrackLayout {
    /// The track of the usage gauge.
    pub track: Rect,
    /// Where the label starts.
    pub text_x: i32,
    pub text_y: i32,
}

/// Rust's `/ 2`, which rounds toward zero.
pub open spec fn half(x: int) -> int {
    if x >= 0 {
        x / 2
    } else {
        -((-x) / 2)
    }
}

pub open spec fn max(a: int, b: int) -> int {
    if a >= b {
        a
    } else {
        b
    }
}

/// Layout of the bar in its client rectangle: a track 8 pixels high centred
/// vertically, from x = 4 to 240 pixels before the right edge (at least 20
/// wide), and the label 8 pixels after the track's nominal end.
pub fn track_layout(client: &Rect) -> (l: TrackLayout)
    requires
        i32::MIN <= client.bottom - client.top <= i32::MAX,
        client.right >= i32::MIN + 240,
    ensures
        l.track == (Rect {
            left: 4,
            top: (half(client.bottom - client.top) - 4) as i32,
            right: max(client.right - 240, 24) as i32,
            bottom: (half(client.bottom - client.top) + 4) as i32,
        }),
        l.text_x == max(client.right - 232, 4),
        l.text_y == half(client.bottom - client.top) - 7,
{
    let track_left: i32 = 4;
    let track_right_pad: i32 = 240;
    let track_top: i32 = (client.bottom - client.top) / 2 - 4;
    let track_bot: i32 = track_top + 8;
    let right_end: i32 = client.right - track_right_pad;
    let track = Rect {
        left: track_left,
        top: track_top,
        right: if right_end >= track_left + 20 { right_end } else { track_left + 20 },
        bottom: track_bot,
    };
    let text_end: i32 = client.right - track_right_pad + 8;
    let text_x: i32 = if text_end >= track_left { text_end } else { track_left };
    let text_y: i32 = (client.bottom - client.top) / 2 - 7;
    TrackLayout { track, text_x, text_y }
}

} // verus!
