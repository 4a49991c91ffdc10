//! The decisions the terminal view makes: which icons to use, how large the
//! Zen clock is, how the content is laid out, which group tabs fit, how notes
//! wrap, what the dashboard reports on, and the texts of the header and of
//! the list rows.
use vstd::prelude::*;

use crate::app::{timer_view, App, AppView};
use crate::model::{
    clock_string, clock_text, done_count, done_subtasks, pomodoro_duration, pomodoro_nanos, AppMode,
    Group, GroupView, PomodoroTimer, Priority, RowRef, SearchHit, TimerView, TodoItem, TodoStatus,
    TodoView,
};
use crate::text::{
    chars_of, decimal, eq_ascii_fold, eq_ignore_ascii_case, push_decimal, push_str_chars,
    string_from, trim, trimmed,
};

verus! {

// ---------------------------------------------------------------------------
// Icons.
// ---------------------------------------------------------------------------

#[derive(Debug, Clone, Copy, PartialEq, Eq, Default, Structural)]
pub enum IconMode {
    #[default]
    Unicode,
    NerdFont,
}

#[derive(Debug, Clone, Copy, PartialEq, Eq, Default, Structural)]
pub struct UiConfig {
    pub icon_mode: IconMode,
}

/// Whether an icon setting asks for Nerd Font icons: once trimmed it is
/// `nerd`, `nf` or `true` in any ASCII case, or `1`.
pub open spec fn asks_for_nerd_font(v: Seq<char>) -> bool {
    let t = trimmed(v);
    eq_ascii_fold(t, "nerd"@) || eq_ascii_fold(t, "nf"@) || t == "1"@ || eq_ascii_fold(t, "true"@)
}

fn chars_equal(a: &Vec<char>, b: &Vec<char>) -> (r: bool)
    ensures
        r == (a@ == b@),
{
    if a.len() != b.len() {
        return false;
    }
    let n = a.len();
    let mut i: usize = 0;
    while i < n
        invariant
            n == a@.len(),
            n == b@.len(),
            i <= n,
            forall|j: int| 0 <= j < i ==> a@[j] == b@[j],
        decreases n - i,
    {
        if a[i] != b[i] {
            return false;
        }
        i = i + 1;
    }
    assert(a@ =~= b@);
    true
}

#[derive(Debug, Clone, Copy, PartialEq, Eq)]
pub struct IconSet {
    pub app: &'static str,
    pub group: &'static str,
    pub todo: &'static str,
    pub dashboard: &'static str,
    pub notes: &'static str,
    pub search: &'static str,
    pub running: &'static str,
    pub paused: &'static str,
}

/// The icons that need no patched font.
pub open spec fn is_unicode_icons(r: IconSet) -> bool {
    &&& r.app@ == "◆"@
    &&& r.group@ == "#"@
    &&& r.todo@ == "•"@
    &&& r.dashboard@ == "◫"@
    &&& r.notes@ == "≡"@
    &&& r.search@ == "/"@
    &&& r.running@ == "▶"@
    &&& r.paused@ == "Ⅱ"@
}

/// The icons of a Nerd Font (private-use glyphs).
pub open spec fn is_nerd_font_icons(r: IconSet) -> bool {
    &&& r.app@ == "\u{f489}"@
    &&& r.group@ == "\u{f07b}"@
    &&& r.todo@ == "\u{f0ae}"@
    &&& r.dashboard@ == "\u{f0e4}"@
    &&& r.notes@ == "\u{f15c}"@
    &&& r.search@ == "\u{f002}"@
    &&& r.running@ == "\u{f04b}"@
    &&& r.paused@ == "\u{f04c}"@
}

/// The icons that need no patched font.
pub fn unicode_icons() -> (r: IconSet)
    ensures
        is_unicode_icons(r),
{
    IconSet {
        app: "◆",
        group: "#",
        todo: "•",
        dashboard: "◫",
        notes: "≡",
        search: "/",
        running: "▶",
        paused: "Ⅱ",
    }
}

/// The icons of a Nerd Font.
pub fn nerd_font_icons() -> (r: IconSet)
    ensures
        is_nerd_font_icons(r),
{
    IconSet {
        app: "\u{f489}",
        group: "\u{f07b}",
        todo: "\u{f0ae}",
        dashboard: "\u{f0e4}",
        notes: "\u{f15c}",
        search: "\u{f002}",
        running: "\u{f04b}",
        paused: "\u{f04c}",
    }
}

impl UiConfig {
    /// The configuration for an icon setting (the value of an environment
    /// variable, if set): Nerd Font icons only on an explicit request.
    pub fn from_icon_setting(value: Option<&str>) -> (r: Self)
        ensures
            r.icon_mode == match value {
                Some(v) => if asks_for_nerd_font(v@) {
                    IconMode::NerdFont
                } else {
                    IconMode::Unicode
                },
                None => IconMode::Unicode,
            },
    {
        let icon_mode = match value {
            Some(v) => {
                let t = chars_of(trim(v).as_str());
                if eq_ignore_ascii_case(&t, &chars_of("nerd")) || eq_ignore_ascii_case(
                    &t,
                    &chars_of("nf"),
                ) || chars_equal(&t, &chars_of("1")) || eq_ignore_ascii_case(
                    &t,
                    &chars_of("true"),
                ) {
                    IconMode::NerdFont
                } else {
                    IconMode::Unicode
                }
            },
            None => IconMode::Unicode,
        };
        Self { icon_mode }
    }

    /// The icons of this configuration.
    pub fn icons(self) -> (r: IconSet)
        ensures
            self.icon_mode == IconMode::Unicode ==> is_unicode_icons(r),
            self.icon_mode == IconMode::NerdFont ==> is_nerd_font_icons(r),
    {
        match self.icon_mode {
            IconMode::Unicode => unicode_icons(),
            IconMode::NerdFont => nerd_font_icons(),
        }
    }
}

// ---------------------------------------------------------------------------
// Areas and layout.
// ---------------------------------------------------------------------------

/// A rectangle of terminal cells.
#[derive(Debug, Clone, Copy, PartialEq, Eq, Default, Structural)]
pub struct Area {
    pub x: u16,
    pub y: u16,
    pub width: u16,
    pub height: u16,
}

impl Area {
    pub fn new(x: u16, y: u16, width: u16, height: u16) -> (r: Self)
        ensures
            r == (Area { x, y, width, height }),
    {
        Area { x, y, width, height }
    }
}

/// A `width` × `height` rectangle centred in `area`, shrunk to fit it.
pub fn centered_fixed(width: u16, height: u16, area: Area) -> (r: Area)
    requires
        area.x + (area.width - (if width < area.width {
            width
        } else {
            area.width
        })) / 2 <= u16::MAX,
        area.y + (area.height - (if height < area.height {
            height
        } else {
            area.height
        })) / 2 <= u16::MAX,
    ensures
        r.width == if width < area.width {
            width
        } else {
            area.width
        },
        r.height == if height < area.height {
            height
        } else {
            area.height
        },
        r.x == area.x + (area.width - r.width) / 2,
        r.y == area.y + (area.height - r.height) / 2,
{
    let w = if width < area.width {
        width
    } else {
        area.width
    };
    let h = if height < area.height {
        height
    } else {
        area.height
    };
    let dx = (area.width - w) / 2;
    let dy = (area.height - h) / 2;
    Area { x: area.x + dx, y: area.y + dy, width: w, height: h }
}

#[derive(Debug, Clone, Copy, PartialEq, Eq, Structural)]
pub enum ZenClockScale {
    Full,
    Quadrant,
    Compact,
}

/// The Zen clock's size for the space it gets: 8×8 pixel digits from
/// 44×16 cells, quadrant digits from 22×10, plain text below.
pub open spec fn clock_scale_for(width: u16, height: u16) -> ZenClockScale {
    if width >= 44 && height >= 16 {
        ZenClockScale::Full
    } else if width >= 22 && height >= 10 {
        ZenClockScale::Quadrant
    } else {
        ZenClockScale::Compact
    }
}

pub fn zen_clock_scale(area: Area) -> (r: ZenClockScale)
    ensures
        r == clock_scale_for(area.width, area.height),
{
    if area.width >= 44 && area.height >= 16 {
        ZenClockScale::Full
    } else if area.width >= 22 && area.height >= 10 {
        ZenClockScale::Quadrant
    } else {
        ZenClockScale::Compact
    }
}

/// Rows the Zen clock takes at each scale.
pub fn zen_clock_height(scale: ZenClockScale) -> (r: u16)
    ensures
        r == match scale {
            ZenClockScale::Full => 8u16,
            ZenClockScale::Quadrant => 4u16,
            ZenClockScale::Compact => 1u16,
        },
{
    match scale {
        ZenClockScale::Full => 8,
        ZenClockScale::Quadrant => 4,
        ZenClockScale::Compact => 1,
    }
}

#[derive(Debug, Clone, Copy, PartialEq, Eq, Structural)]
pub enum ContentLayout {
    Wide,
    Compact,
    FocusedList,
    FocusedNotes,
}

/// How the list and notes share the content area: side by side with a
/// dashboard from 100×10 cells, side by side from 72×6, otherwise one pane,
/// the notes while they are being edited.
pub fn content_layout(area: Area, mode: &AppMode) -> (r: ContentLayout)
    ensures
        r == if area.width >= 100 && area.height >= 10 {
            ContentLayout::Wide
        } else if area.width >= 72 && area.height >= 6 {
            ContentLayout::Compact
        } else if *mode == AppMode::EditingNotes {
            ContentLayout::FocusedNotes
        } else {
            ContentLayout::FocusedList
        },
{
    if area.width >= 100 && area.height >= 10 {
        ContentLayout::Wide
    } else if area.width >= 72 && area.height >= 6 {
        ContentLayout::Compact
    } else if *mode == AppMode::EditingNotes {
        ContentLayout::FocusedNotes
    } else {
        ContentLayout::FocusedList
    }
}

// ---------------------------------------------------------------------------
// Group tabs.
// ---------------------------------------------------------------------------

/// `a + b`, staying at `u16::MAX`.
pub open spec fn sat_add16(a: int, b: int) -> int {
    if a + b > u16::MAX {
        u16::MAX as int
    } else {
        a + b
    }
}

/// The window of tabs around the selected one that fits in `max_width`:
/// starting from the window `[start, end)` of total `width`, it grows one tab
/// to the right while that fits, else one to the left, until neither fits.
pub open spec fn tab_window_from(
    widths: Seq<u16>,
    start: int,
    end: int,
    width: int,
    sep: u16,
    max_width: u16,
) -> (int, int)
    decreases widths.len() - (end - start),
{
    if 0 <= start <= end <= widths.len() {
        let can_left = start > 0;
        let can_right = end < widths.len();
        if can_right && sat_add16(width, sat_add16(widths[end] as int, sep as int)) <= max_width {
            tab_window_from(
                widths,
                start,
                end + 1,
                sat_add16(width, sat_add16(widths[end] as int, sep as int)),
                sep,
                max_width,
            )
        } else if can_left && sat_add16(width, sat_add16(widths[start - 1] as int, sep as int))
            <= max_width {
            tab_window_from(
                widths,
                start - 1,
                end,
                sat_add16(width, sat_add16(widths[start - 1] as int, sep as int)),
                sep,
                max_width,
            )
        } else {
            (start, end)
        }
    } else {
        (start, end)
    }
}

/// What `UnicodeWidthStr::width` returns for a string with the given
/// characters: the columns it takes on a terminal.
pub uninterp spec fn text_display_width(s: Seq<char>) -> usize;

/// Calls `unicode_width::UnicodeWidthStr::width`; its result is named
/// `text_display_width`.
#[verifier::external_body]
fn str_width(s: &str) -> (r: usize)
    ensures
        r == text_display_width(s@),
{
    unicode_width::UnicodeWidthStr::width(s)
}

/// The width of a tab around a name `name_width` columns wide: the width
/// cut to 16 bits, with a space on each side.
pub open spec fn tab_width_for(name_width: usize) -> int {
    (name_width % 65536) as int + 2
}

/// The width of a group's tab for its name.
pub open spec fn tab_width_of(name: Seq<char>) -> int {
    tab_width_for(text_display_width(name))
}

/// The tab width for a name `name_width` columns wide; `None` when it is
/// wider than the largest 16-bit width.
pub fn tab_width(name_width: usize) -> (r: Option<u16>)
    ensures
        match r {
            Some(w) => w == tab_width_for(name_width),
            None => tab_width_for(name_width) > u16::MAX,
        },
{
    let cut: u16 = (name_width % 65536) as u16;
    if cut > u16::MAX - 2 {
        None
    } else {
        Some(cut + 2)
    }
}

/// The tab widths of the groups, in order; `None` when a tab is wider than
/// the largest 16-bit width.
pub fn group_tab_widths(groups: &Vec<Group>) -> (r: Option<Vec<u16>>)
    ensures
        match r {
            Some(v) => v@.len() == groups@.len() && forall|i: int|
                0 <= i < v@.len() ==> #[trigger] v@[i] == tab_width_of(groups@[i]@.name),
            None => exists|i: int|
                0 <= i < groups@.len() && tab_width_of(#[trigger] groups@[i]@.name) > u16::MAX,
        },
{
    let n = groups.len();
    let mut out: Vec<u16> = Vec::new();
    let mut i: usize = 0;
    while i < n
        invariant
            n == groups@.len(),
            i <= n,
            out@.len() == i,
            forall|k: int| 0 <= k < i ==> #[trigger] out@[k] == tab_width_of(groups@[k]@.name),
        decreases n - i,
    {
        match tab_width(str_width(groups[i].name.as_str())) {
            Some(w) => out.push(w),
            None => {
                assert(tab_width_of(groups@[i as int]@.name) > u16::MAX);
                return None;
            },
        }
        i = i + 1;
    }
    Some(out)
}

/// The sum of the first `n` widths.
pub open spec fn width_sum(w: Seq<u16>, n: int) -> int
    decreases n,
{
    if n <= 0 {
        0
    } else {
        width_sum(w, n - 1) + w[n - 1]
    }
}

/// The width of all tabs with a separator between neighbours.
pub open spec fn tabs_total(w: Seq<u16>, sep: u16) -> int {
    width_sum(w, w.len() as int) + sep * (if w.len() > 0 {
        w.len() - 1
    } else {
        0
    })
}

proof fn lemma_width_sum_monotone(w: Seq<u16>, i: int, n: int)
    requires
        0 <= i <= n <= w.len(),
    ensures
        0 <= width_sum(w, i) <= width_sum(w, n),
    decreases n,
{
    if n > 0 {
        if i < n {
            lemma_width_sum_monotone(w, i, n - 1);
        } else {
            lemma_width_sum_monotone(w, n - 1, n - 1);
        }
    }
}

/// The group tabs the tab bar shows in `width` columns: all of them when
/// they fit, else the window around the selected tab that fits in two
/// columns less (room for the arrows).
pub fn tab_bar_range(tab_widths: &[u16], selected: usize, sep_w: u16, width: u16) -> (r: (
    usize,
    usize,
))
    requires
        tabs_total(tab_widths@, sep_w) <= u16::MAX,
        tabs_total(tab_widths@, sep_w) > width ==> selected < tab_widths@.len(),
    ensures
        tabs_total(tab_widths@, sep_w) <= width ==> r == (0usize, tab_widths@.len() as usize),
        tabs_total(tab_widths@, sep_w) > width ==> (r.0 as int, r.1 as int) == tab_window_from(
            tab_widths@,
            selected as int,
            selected + 1,
            tab_widths@[selected as int] as int,
            sep_w,
            if width >= 2 {
                (width - 2) as u16
            } else {
                0u16
            },
        ),
{
    let n = tab_widths.len();
    let mut sum: u32 = 0;
    let mut i: usize = 0;
    while i < n
        invariant
            n == tab_widths@.len(),
            i <= n,
            sum == width_sum(tab_widths@, i as int),
            tabs_total(tab_widths@, sep_w) <= u16::MAX,
        decreases n - i,
    {
        proof {
            lemma_width_sum_monotone(tab_widths@, i + 1, n as int);
            assert(sep_w * (if n > 0 { n - 1 } else { 0 }) >= 0) by (nonlinear_arith);
        }
        sum = sum + tab_widths[i] as u32;
        i = i + 1;
    }
    let gaps: u128 = if n > 0 {
        (n - 1) as u128
    } else {
        0
    };
    assert(sep_w as u128 * gaps <= 65535u128 * 18446744073709551615u128) by (nonlinear_arith)
        requires
            sep_w <= 65535,
            gaps <= 18446744073709551615u128,
    ;
    let total: u128 = sum as u128 + sep_w as u128 * gaps;
    if total <= width as u128 {
        (0, n)
    } else {
        let max_width: u16 = if width >= 2 {
            width - 2
        } else {
            0
        };
        tab_window(tab_widths, selected, sep_w, max_width)
    }
}

/// The columns the tabs `start..end` take with a separator of `sep`
/// columns between neighbours.
pub open spec fn span_width(widths: Seq<u16>, start: int, end: int, sep: u16) -> int
    decreases end - start,
{
    if end <= start {
        0
    } else if end == start + 1 {
        widths[start] as int
    } else {
        span_width(widths, start, end - 1, sep) + sep + widths[end - 1]
    }
}

proof fn lemma_span_width_left(widths: Seq<u16>, start: int, end: int, sep: u16)
    requires
        1 <= start < end,
    ensures
        span_width(widths, start - 1, end, sep) == widths[start - 1] + sep + span_width(
            widths,
            start,
            end,
            sep,
        ),
    decreases end - start,
{
    if end > start + 1 {
        lemma_span_width_left(widths, start, end - 1, sep);
        assert(span_width(widths, start - 1, end, sep) == span_width(widths, start - 1, end - 1, sep)
            + sep + widths[end - 1]);
    } else {
        assert(span_width(widths, start - 1, start, sep) == widths[start - 1]);
        assert(span_width(widths, start - 1, end, sep) == span_width(widths, start - 1, start, sep)
            + sep + widths[start]);
    }
}

proof fn lemma_span_width_nonneg(widths: Seq<u16>, start: int, end: int, sep: u16)
    ensures
        span_width(widths, start, end, sep) >= 0,
    decreases end - start,
{
    if end > start + 1 {
        lemma_span_width_nonneg(widths, start, end - 1, sep);
    }
}

/// `x` cut at the largest 16-bit value.
pub open spec fn cap16(x: int) -> int {
    if x > u16::MAX {
        u16::MAX as int
    } else {
        x
    }
}

proof fn lemma_tab_window_from(
    widths: Seq<u16>,
    start: int,
    end: int,
    width: int,
    sep: u16,
    max_width: u16,
)
    requires
        0 <= start < end <= widths.len(),
        width == cap16(span_width(widths, start, end, sep)),
        end - start == 1 || width <= max_width,
    ensures
        ({
            let (s, e) = tab_window_from(widths, start, end, width, sep, max_width);
            &&& 0 <= s <= start
            &&& end <= e <= widths.len()
            &&& (e - s == 1 || cap16(span_width(widths, s, e, sep)) <= max_width)
            &&& (e == widths.len() || span_width(widths, s, e + 1, sep) > max_width)
            &&& (s == 0 || span_width(widths, s - 1, e, sep) > max_width)
        }),
    decreases widths.len() - (end - start),
{
    lemma_span_width_nonneg(widths, start, end, sep);
    if end < widths.len() {
        let grown = sat_add16(width, sat_add16(widths[end] as int, sep as int));
        assert(span_width(widths, start, end + 1, sep) == span_width(widths, start, end, sep) + sep
            + widths[end as int]);
        assert(grown == cap16(span_width(widths, start, end + 1, sep)));
        if grown <= max_width {
            lemma_tab_window_from(widths, start, end + 1, grown, sep, max_width);
            return;
        }
    }
    if start > 0 {
        let grown = sat_add16(width, sat_add16(widths[start - 1] as int, sep as int));
        lemma_span_width_left(widths, start, end, sep);
        assert(grown == cap16(span_width(widths, start - 1, end, sep)));
        if grown <= max_width {
            lemma_tab_window_from(widths, start - 1, end, grown, sep, max_width);
            return;
        }
    }
}

/// Which group tabs to show when they do not all fit: the selected tab and
/// as many neighbours as fit, preferring those on its right. The window
/// holds the selected tab; it fits in `max_width` columns unless it is that
/// tab alone (with `max_width` at the largest 16-bit width every window
/// counts as fitting, the widths being added up to that bound); and it can
/// grow neither right nor left without passing `max_width`.
pub fn tab_window(tab_widths: &[u16], selected: usize, sep_w: u16, max_width: u16) -> (r: (
    usize,
    usize,
))
    requires
        selected < tab_widths@.len(),
    ensures
        (r.0 as int, r.1 as int) == tab_window_from(
            tab_widths@,
            selected as int,
            selected + 1,
            tab_widths@[selected as int] as int,
            sep_w,
            max_width,
        ),
        r.0 <= selected < r.1 <= tab_widths@.len(),
        r.1 - r.0 == 1 || max_width == u16::MAX || span_width(tab_widths@, r.0 as int, r.1 as int, sep_w)
            <= max_width,
        r.1 == tab_widths@.len() || span_width(tab_widths@, r.0 as int, r.1 + 1, sep_w) > max_width,
        r.0 == 0 || span_width(tab_widths@, r.0 - 1, r.1 as int, sep_w) > max_width,
{
    let n = tab_widths.len();
    let mut start = selected;
    let mut end = selected + 1;
    let mut width = tab_widths[selected];
    loop
        invariant
            n == tab_widths@.len(),
            start <= selected < end <= n,
            tab_window_from(
                tab_widths@,
                start as int,
                end as int,
                width as int,
                sep_w,
                max_width,
            ) == tab_window_from(
                tab_widths@,
                selected as int,
                selected + 1,
                tab_widths@[selected as int] as int,
                sep_w,
                max_width,
            ),
        decreases n - (end - start),
    {
        let can_left = start > 0;
        let can_right = end < n;
        let left_cost = if can_left {
            tab_widths[start - 1].saturating_add(sep_w)
        } else {
            u16::MAX
        };
        let right_cost = if can_right {
            tab_widths[end].saturating_add(sep_w)
        } else {
            u16::MAX
        };
        if can_right && width.saturating_add(right_cost) <= max_width {
            width = width.saturating_add(right_cost);
            end = end + 1;
        } else if can_left && width.saturating_add(left_cost) <= max_width {
            width = width.saturating_add(left_cost);
            start = start - 1;
        } else {
            proof {
                lemma_tab_window_from(
                    tab_widths@,
                    selected as int,
                    selected + 1,
                    tab_widths@[selected as int] as int,
                    sep_w,
                    max_width,
                );
            }
            return (start, end);
        }
    }
}

// ---------------------------------------------------------------------------
// Wrapping notes.
// ---------------------------------------------------------------------------

/// What `UnicodeWidthChar::width` returns for a character: the columns it
/// takes on a terminal, `None` for a control character.
pub uninterp spec fn char_display_width(c: char) -> Option<usize>;

/// Calls `unicode_width::UnicodeWidthChar::width`. Its result is named
/// `char_display_width`; beyond the name, the contract states what the
/// crate's source decides: no width exceeds 3 columns.
#[verifier::external_body]
fn char_width(c: char) -> (r: Option<usize>)
    ensures
        r == char_display_width(c),
        r matches Some(w) ==> w <= 3,
{
    unicode_width::UnicodeWidthChar::width(c)
}

/// The columns a character takes when notes are wrapped: its display width,
/// 0 for a control character.
pub open spec fn wrap_width(c: char) -> int {
    match char_display_width(c) {
        Some(w) => w as int,
        None => 0,
    }
}

/// The columns each character of `text` takes.
pub open spec fn char_widths(text: Seq<char>) -> Seq<int> {
    Seq::new(text.len(), |i: int| wrap_width(text[i]))
}

/// Character widths as wrapping counts them: a missing width counts as 0.
pub open spec fn widths_view(ws: Seq<Option<usize>>) -> Seq<int> {
    Seq::new(
        ws.len(),
        |i: int|
            match ws[i] {
                Some(w) => w as int,
                None => 0,
            },
    )
}

/// Wrapping state after the characters of `text`, the character at `i`
/// taking `ws[i]` columns: the finished lines, the line being filled, and
/// its width. A newline ends the line; a character that would make the line
/// wider than `w` starts a new one.
pub open spec fn wrap_state(text: Seq<char>, ws: Seq<int>, w: int) -> (Seq<Seq<char>>, Seq<char>, int)
    decreases text.len(),
{
    if text.len() == 0 {
        (Seq::empty(), Seq::empty(), 0)
    } else {
        let (lines, cur, cw) = wrap_state(text.drop_last(), ws.drop_last(), w);
        let c = text.last();
        let cwidth = ws.last();
        if c == '\n' {
            (lines.push(cur), Seq::empty(), 0)
        } else if cw + cwidth > w {
            (lines.push(cur), seq![c], cwidth)
        } else {
            (lines, cur.push(c), cw + cwidth)
        }
    }
}

/// The lines of `text` wrapped to `w` columns, its characters taking `ws`
/// columns.
pub open spec fn wrapped_lines(text: Seq<char>, ws: Seq<int>, w: int) -> Seq<Seq<char>> {
    let (lines, cur, _) = wrap_state(text, ws, w);
    lines.push(cur)
}

proof fn lemma_wrap_width_bound(text: Seq<char>, ws: Seq<int>, w: int)
    requires
        w >= 0,
        ws.len() == text.len(),
        forall|i: int| 0 <= i < ws.len() ==> 0 <= #[trigger] ws[i] <= 3,
    ensures
        0 <= wrap_state(text, ws, w).2 <= if w > 3 {
            w
        } else {
            3
        },
    decreases text.len(),
{
    if text.len() > 0 {
        let ws0 = ws.drop_last();
        assert forall|i: int| 0 <= i < ws0.len() implies 0 <= #[trigger] ws0[i] <= 3 by {
            assert(ws0[i] == ws[i]);
        }
        lemma_wrap_width_bound(text.drop_last(), ws0, w);
        assert(0 <= ws[ws.len() - 1] <= 3);
    }
}

/// Notes split into lines that fit in `panel_width` columns.
pub fn wrap_text(text: &str, panel_width: u16) -> (r: Vec<String>)
    ensures
        r@.map_values(|s: String| s@) == wrapped_lines(text@, char_widths(text@), panel_width as int),
{
    let chars = chars_of(text);
    let n = chars.len();
    let mut widths: Vec<Option<usize>> = Vec::new();
    let mut i: usize = 0;
    while i < n
        invariant
            n == chars@.len(),
            i <= n,
            widths@.len() == i,
            forall|k: int| 0 <= k < i ==> #[trigger] widths@[k] == char_display_width(chars@[k]),
            forall|k: int| 0 <= k < i ==> (#[trigger] widths@[k] matches Some(x) ==> x <= 3),
        decreases n - i,
    {
        widths.push(char_width(chars[i]));
        i = i + 1;
    }
    assert(widths_view(widths@) =~= char_widths(chars@));
    wrap_chars(&chars, &widths, panel_width)
}

/// The characters `chars` split into lines that fit in `panel_width`
/// columns, the character at `i` taking `widths[i]` columns (0 when
/// missing).
pub fn wrap_chars(chars: &Vec<char>, widths: &Vec<Option<usize>>, panel_width: u16) -> (r: Vec<
    String,
>)
    requires
        widths@.len() == chars@.len(),
        forall|k: int| 0 <= k < widths@.len() ==> (#[trigger] widths@[k] matches Some(x) ==> x <= 3),
    ensures
        r@.map_values(|s: String| s@) == wrapped_lines(chars@, widths_view(widths@), panel_width as int),
{
    let ghost ws = widths_view(widths@);
    let n = chars.len();
    let mut lines: Vec<String> = Vec::new();
    let mut cur: Vec<char> = Vec::new();
    let mut cw: u32 = 0;
    let mut i: usize = 0;
    while i < n
        invariant
            n == chars@.len(),
            n == widths@.len(),
            ws == widths_view(widths@),
            forall|k: int| 0 <= k < widths@.len() ==> (#[trigger] widths@[k] matches Some(x) ==> x <= 3),
            i <= n,
            ({
                let (ls, c, w) = wrap_state(chars@.take(i as int), ws.take(i as int), panel_width as int);
                lines@.map_values(|s: String| s@) == ls && cur@ == c && cw as int == w
            }),
            cw <= 65535 + 3,
        decreases n - i,
    {
        let c = chars[i];
        proof {
            assert(chars@.take(i + 1).drop_last() =~= chars@.take(i as int));
            assert(ws.take(i + 1).drop_last() =~= ws.take(i as int));
            assert forall|k: int| 0 <= k < ws.take(i as int).len() implies 0 <= #[trigger] ws.take(
                i as int,
            )[k] <= 3 by {
                assert(ws.take(i as int)[k] == ws[k]);
                assert(widths@[k] matches Some(x) ==> x <= 3);
            }
            lemma_wrap_width_bound(chars@.take(i as int), ws.take(i as int), panel_width as int);
        }
        let ghost lines_before = lines@;
        if c == '\n' {
            lines.push(string_from(&cur));
            cur = Vec::new();
            cw = 0;
        } else {
            let w: u32 = match widths[i] {
                Some(x) => x as u32,
                None => 0,
            };
            assert(w == ws[i as int]);
            assert(ws.take(i + 1).last() == ws[i as int]);
            if cw + w > panel_width as u32 {
                lines.push(string_from(&cur));
                cur = Vec::new();
                cur.push(c);
                cw = w;
            } else {
                cur.push(c);
                cw = cw + w;
            }
        }
        proof {
            let (ls, cc, ww) = wrap_state(chars@.take(i + 1), ws.take(i + 1), panel_width as int);
            assert(lines@.map_values(|s: String| s@) =~= ls);
            assert(cur@ =~= cc);
        }
        i = i + 1;
    }
    lines.push(string_from(&cur));
    assert(chars@.take(n as int) =~= chars@);
    assert(ws.take(n as int) =~= ws);
    assert(lines@.map_values(|s: String| s@) =~= wrapped_lines(chars@, ws, panel_width as int));
    lines
}

// ---------------------------------------------------------------------------
// Pomodoro marks and the dashboard focus.
// ---------------------------------------------------------------------------

/// The marks after a todo's title for its pomodoros: none for zero, a star
/// each up to six, `*x` and the count beyond; two spaces in front.
pub open spec fn pomodoro_marks_text(count: u8) -> Option<Seq<char>> {
    if count == 0 {
        None
    } else if count <= 6 {
        Some(seq![' ', ' '] + Seq::new(count as nat, |i: int| '*'))
    } else {
        Some(seq![' ', ' ', '*', 'x'] + crate::text::decimal(count as nat))
    }
}

pub fn pomodoro_marks(count: u8) -> (r: Option<String>)
    ensures
        match pomodoro_marks_text(count) {
            Some(t) => r matches Some(s) && s@ == t,
            None => r is None,
        },
{
    if count == 0 {
        return None;
    }
    let mut out: Vec<char> = Vec::new();
    out.push(' ');
    out.push(' ');
    if count <= 6 {
        let mut i: u8 = 0;
        while i < count
            invariant
                i <= count,
                out@ == seq![' ', ' '] + Seq::new(i as nat, |k: int| '*'),
            decreases count - i,
        {
            out.push('*');
            i = i + 1;
            assert(out@ =~= seq![' ', ' '] + Seq::new(i as nat, |k: int| '*'));
        }
    } else {
        out.push('*');
        out.push('x');
        crate::text::push_decimal(&mut out, count as u128);
        assert(out@ =~= seq![' ', ' ', '*', 'x'] + crate::text::decimal(count as nat));
    }
    Some(string_from(&out))
}

/// The first todo of `todos` that is in progress.
pub open spec fn first_in_progress(todos: Seq<TodoView>, n: int) -> Option<int>
    decreases n,
{
    if n <= 0 {
        None
    } else {
        match first_in_progress(todos, n - 1) {
            Some(k) => Some(k),
            None => if todos[n - 1].status == TodoStatus::InProgress {
                Some(n - 1)
            } else {
                None
            },
        }
    }
}

impl AppView {
    /// What the dashboard shows as the focus: the timer's todo, else the
    /// first todo in progress of the selected group.
    pub open spec fn dashboard_focus(self) -> Option<(GroupView, TodoView)> {
        match self.active_timer_todo() {
            Some(x) => Some(x),
            None => if self.selected_group < self.groups.len() {
                let g = self.groups[self.selected_group as int];
                match first_in_progress(g.todos, g.todos.len() as int) {
                    Some(k) => Some((g, g.todos[k])),
                    None => None,
                }
            } else {
                None
            },
        }
    }
}

proof fn lemma_first_in_progress(todos: Seq<TodoView>, n: int)
    requires
        0 <= n <= todos.len(),
    ensures
        first_in_progress(todos, n) matches Some(k) ==> 0 <= k < n && todos[k].status
            == TodoStatus::InProgress,
        first_in_progress(todos, n) is None ==> forall|j: int|
            0 <= j < n ==> todos[j].status != TodoStatus::InProgress,
    decreases n,
{
    if n > 0 {
        lemma_first_in_progress(todos, n - 1);
    }
}

pub fn dashboard_focus(app: &App) -> (r: Option<(&Group, &TodoItem)>)
    ensures
        match app@.dashboard_focus() {
            Some((g, t)) => r matches Some((rg, rt)) && rg@ == g && rt@ == t,
            None => r is None,
        },
{
    match app.active_timer_todo() {
        Some(x) => return Some(x),
        None => {},
    }
    if app.selected_group >= app.groups.len() {
        return None;
    }
    let g = &app.groups[app.selected_group];
    let n = g.todos.len();
    let mut i: usize = 0;
    while i < n
        invariant
            n == g.todos@.len(),
            i <= n,
            app@.active_timer_todo() is None,
            app.selected_group < app.groups@.len(),
            g == app.groups@[app.selected_group as int],
            first_in_progress(g@.todos, i as int) is None,
        decreases n - i,
    {
        assert(g@.todos[i as int] == g.todos@[i as int]@);
        if g.todos[i].status == TodoStatus::InProgress {
            assert(first_in_progress(g@.todos, i + 1) == Some(i as int));
            proof {
                lemma_first_in_progress_prefix(g@.todos, i + 1, n as int);
            }
            return Some((g, &g.todos[i]));
        }
        i = i + 1;
    }
    None
}

proof fn lemma_first_in_progress_prefix(todos: Seq<TodoView>, k: int, n: int)
    requires
        0 <= k <= n,
        first_in_progress(todos, k) is Some,
    ensures
        first_in_progress(todos, n) == first_in_progress(todos, k),
    decreases n - k,
{
    if k < n {
        lemma_first_in_progress_prefix(todos, k, n - 1);
    }
}


// ---------------------------------------------------------------------------
// Header, dashboard and list rows.
// ---------------------------------------------------------------------------

/// The state of the pomodoro timer as the header, dashboard and Zen view
/// show it.
#[derive(Debug, Clone, Copy, PartialEq, Eq, Structural)]
pub enum TimerState {
    Ready,
    Running,
    Paused,
}

pub open spec fn timer_state_of(t: Option<TimerView>) -> TimerState {
    match t {
        None => TimerState::Ready,
        Some(tm) => if tm.running {
            TimerState::Running
        } else {
            TimerState::Paused
        },
    }
}

/// The full name of a timer state.
pub open spec fn state_label_text(s: TimerState) -> Seq<char> {
    match s {
        TimerState::Ready => seq!['R', 'E', 'A', 'D', 'Y'],
        TimerState::Running => seq!['R', 'U', 'N', 'N', 'I', 'N', 'G'],
        TimerState::Paused => seq!['P', 'A', 'U', 'S', 'E', 'D'],
    }
}

/// The short name of a timer state, for a narrow header.
pub open spec fn compact_label_text(s: TimerState) -> Seq<char> {
    match s {
        TimerState::Ready => seq!['R', 'E', 'A', 'D', 'Y'],
        TimerState::Running => seq!['R', 'U', 'N'],
        TimerState::Paused => seq!['P', 'A', 'U', 'S', 'E'],
    }
}

/// The state of a timer: ready when there is none, else running or paused.
pub fn timer_state(timer: &Option<PomodoroTimer>) -> (r: TimerState)
    ensures
        r == timer_state_of(timer_view(*timer)),
{
    match timer {
        None => TimerState::Ready,
        Some(tm) => if tm.running {
            TimerState::Running
        } else {
            TimerState::Paused
        },
    }
}

impl TimerState {
    pub fn label(self) -> (r: &'static str)
        ensures
            r@ == state_label_text(self),
    {
        match self {
            TimerState::Ready => {
                proof {
                    reveal_strlit("READY");
                }
                "READY"
            },
            TimerState::Running => {
                proof {
                    reveal_strlit("RUNNING");
                }
                "RUNNING"
            },
            TimerState::Paused => {
                proof {
                    reveal_strlit("PAUSED");
                }
                "PAUSED"
            },
        }
    }

    pub fn compact_label(self) -> (r: &'static str)
        ensures
            r@ == compact_label_text(self),
    {
        match self {
            TimerState::Ready => {
                proof {
                    reveal_strlit("READY");
                }
                "READY"
            },
            TimerState::Running => {
                proof {
                    reveal_strlit("RUN");
                }
                "RUN"
            },
            TimerState::Paused => {
                proof {
                    reveal_strlit("PAUSE");
                }
                "PAUSE"
            },
        }
    }
}

/// The clock the header and dashboard show: the timer's remaining time, or
/// a whole pomodoro when no timer runs.
pub open spec fn timer_clock_text(t: Option<TimerView>) -> Seq<char> {
    match t {
        Some(tm) => clock_text(tm.remaining),
        None => clock_text(pomodoro_nanos()),
    }
}

pub fn timer_clock(timer: &Option<PomodoroTimer>) -> (r: String)
    ensures
        r@ == timer_clock_text(timer_view(*timer)),
{
    match timer {
        Some(tm) => tm.display_remaining(),
        None => clock_string(pomodoro_duration().nanos),
    }
}

/// The right part of the header for an inner width `width`: from 48
/// columns the state's icon (none when ready or when the icon is empty),
/// the clock and the state's name; from 28 columns the clock and the short
/// name; nothing below.
pub open spec fn header_timer_text(
    timer: Option<TimerView>,
    running_icon: Seq<char>,
    paused_icon: Seq<char>,
    width: u16,
) -> Seq<char> {
    let st = timer_state_of(timer);
    let time = timer_clock_text(timer);
    let marker = match st {
        TimerState::Running => running_icon,
        TimerState::Paused => paused_icon,
        TimerState::Ready => Seq::empty(),
    };
    if width >= 48 {
        if marker.len() == 0 {
            time + seq![' '] + state_label_text(st) + seq![' ']
        } else {
            marker + seq![' '] + time + seq![' '] + state_label_text(st) + seq![' ']
        }
    } else if width >= 28 {
        time + seq![' '] + compact_label_text(st) + seq![' ']
    } else {
        Seq::empty()
    }
}

pub fn header_timer(
    timer: &Option<PomodoroTimer>,
    running_icon: &str,
    paused_icon: &str,
    width: u16,
) -> (r: String)
    ensures
        r@ == header_timer_text(timer_view(*timer), running_icon@, paused_icon@, width),
{
    let st = timer_state(timer);
    let mut out: Vec<char> = Vec::new();
    if width >= 48 {
        let marker: &str = match st {
            TimerState::Running => running_icon,
            TimerState::Paused => paused_icon,
            TimerState::Ready => {
                proof {
                    reveal_strlit("");
                }
                ""
            },
        };
        if marker.unicode_len() > 0 {
            push_str_chars(&mut out, marker);
            out.push(' ');
        }
        push_str_chars(&mut out, timer_clock(timer).as_str());
        out.push(' ');
        push_str_chars(&mut out, st.label());
        out.push(' ');
    } else if width >= 28 {
        push_str_chars(&mut out, timer_clock(timer).as_str());
        out.push(' ');
        push_str_chars(&mut out, st.compact_label());
        out.push(' ');
    }
    let ghost expect = header_timer_text(timer_view(*timer), running_icon@, paused_icon@, width);
    assert(out@ =~= expect);
    string_from(&out)
}

/// What the header calls a missing group.
pub open spec fn no_group_label() -> Seq<char> {
    seq!['그', '룹', ' ', '없', '음']
}

/// The left part of the header for an inner width `width`: the group icon
/// and the shown group's name, and from 48 columns how many of its todos
/// are done out of how many.
pub open spec fn header_left_text(a: AppView, group_icon: Seq<char>, width: u16) -> Seq<char> {
    let shown = a.selected_group < a.groups.len();
    let name = if shown {
        a.groups[a.selected_group as int].name
    } else {
        no_group_label()
    };
    let todos = if shown {
        a.groups[a.selected_group as int].todos
    } else {
        Seq::empty()
    };
    let base = seq![' '] + group_icon + seq![' '] + name;
    if width >= 48 {
        base + seq![' ', '·', ' '] + decimal(done_count(todos, todos.len() as int) as nat) + seq!['/']
            + decimal(todos.len()) + seq![' ', 'D', 'O', 'N', 'E']
    } else {
        base
    }
}

pub fn header_left(app: &App, group_icon: &str, width: u16) -> (r: String)
    ensures
        r@ == header_left_text(app@, group_icon@, width),
{
    let mut out: Vec<char> = Vec::new();
    out.push(' ');
    push_str_chars(&mut out, group_icon);
    out.push(' ');
    let (done, total): (usize, usize) = if app.selected_group < app.groups.len() {
        let g = &app.groups[app.selected_group];
        push_str_chars(&mut out, g.name.as_str());
        (g.done_count(), g.todos.len())
    } else {
        proof {
            reveal_strlit("그룹 없음");
        }
        push_str_chars(&mut out, "그룹 없음");
        (0, 0)
    };
    if width >= 48 {
        out.push(' ');
        out.push('·');
        out.push(' ');
        push_decimal(&mut out, done as u128);
        out.push('/');
        push_decimal(&mut out, total as u128);
        out.push(' ');
        out.push('D');
        out.push('O');
        out.push('N');
        out.push('E');
    }
    let ghost expect = header_left_text(app@, group_icon@, width);
    assert(out@ =~= expect);
    string_from(&out)
}

/// The group the dashboard reports on: the timer's group when its todo
/// exists, else the shown group.
pub open spec fn dashboard_group_of(a: AppView) -> Option<GroupView> {
    match a.active_timer_todo() {
        Some((g, _)) => Some(g),
        None => if a.selected_group < a.groups.len() {
            Some(a.groups[a.selected_group as int])
        } else {
            None
        },
    }
}

pub fn dashboard_group(app: &App) -> (r: Option<&Group>)
    ensures
        match dashboard_group_of(app@) {
            Some(g) => r matches Some(rg) && rg@ == g,
            None => r is None,
        },
{
    match app.active_timer_todo() {
        Some((g, _)) => Some(g),
        None => if app.selected_group < app.groups.len() {
            Some(&app.groups[app.selected_group])
        } else {
            None
        },
    }
}

/// The box a row shows for a status.
pub open spec fn checkbox_text(s: TodoStatus) -> Seq<char> {
    match s {
        TodoStatus::Todo => seq!['[', ' ', ']', ' '],
        TodoStatus::InProgress => seq!['[', '>', ']', ' '],
        TodoStatus::Done => seq!['[', '✓', ']', ' '],
    }
}

pub fn status_checkbox(s: TodoStatus) -> (r: &'static str)
    ensures
        r@ == checkbox_text(s),
{
    match s {
        TodoStatus::Todo => {
            proof {
                reveal_strlit("[ ] ");
            }
            "[ ] "
        },
        TodoStatus::InProgress => {
            proof {
                reveal_strlit("[>] ");
            }
            "[>] "
        },
        TodoStatus::Done => {
            proof {
                reveal_strlit("[✓] ");
            }
            "[✓] "
        },
    }
}

/// The fold mark in front of a todo: blank without subtasks, a right
/// triangle when folded, a down triangle when unfolded.
pub open spec fn fold_text(t: TodoView) -> Seq<char> {
    if t.subtasks.len() == 0 {
        seq![' ', ' ']
    } else if t.collapsed {
        seq!['▸', ' ']
    } else {
        seq!['▾', ' ']
    }
}

pub fn fold_marker(t: &TodoItem) -> (r: &'static str)
    ensures
        r@ == fold_text(t@),
{
    if t.subtasks.len() == 0 {
        proof {
            reveal_strlit("  ");
        }
        "  "
    } else if t.collapsed {
        proof {
            reveal_strlit("▸ ");
        }
        "▸ "
    } else {
        proof {
            reveal_strlit("▾ ");
        }
        "▾ "
    }
}

/// The badge after a todo's title for its priority: none for low.
pub open spec fn badge_text(p: Priority) -> Option<Seq<char>> {
    match p {
        Priority::High => Some(seq![' ', ' ', '!', '!']),
        Priority::Medium => Some(seq![' ', ' ', '!', ' ']),
        Priority::Low => None,
    }
}

pub fn priority_badge(p: &Priority) -> (r: Option<&'static str>)
    ensures
        match badge_text(*p) {
            Some(t) => r matches Some(s) && s@ == t,
            None => r is None,
        },
{
    match p {
        Priority::High => {
            proof {
                reveal_strlit("  !!");
            }
            Some("  !!")
        },
        Priority::Medium => {
            proof {
                reveal_strlit("  ! ");
            }
            Some("  ! ")
        },
        Priority::Low => None,
    }
}

/// How far a todo's subtasks are, as ` (done/total)`; nothing without
/// subtasks.
pub open spec fn progress_text(t: TodoView) -> Option<Seq<char>> {
    if t.subtasks.len() == 0 {
        None
    } else {
        Some(
            seq![' ', '('] + decimal(done_subtasks(t.subtasks, t.subtasks.len() as int) as nat)
                + seq!['/'] + decimal(t.subtasks.len()) + seq![')'],
        )
    }
}

pub fn subtask_progress(t: &TodoItem) -> (r: Option<String>)
    ensures
        match progress_text(t@) {
            Some(x) => r matches Some(s) && s@ == x,
            None => r is None,
        },
{
    if t.subtasks.len() == 0 {
        return None;
    }
    let done = t.done_subtask_count();
    let mut out: Vec<char> = Vec::new();
    out.push(' ');
    out.push('(');
    push_decimal(&mut out, done as u128);
    out.push('/');
    push_decimal(&mut out, t.subtasks.len() as u128);
    out.push(')');
    let ghost expect = progress_text(t@)->0;
    assert(out@ =~= expect);
    Some(string_from(&out))
}


// ---------------------------------------------------------------------------
// Zen view, dashboard focus and search results.
// ---------------------------------------------------------------------------

/// The separator between the parts of a path.
pub open spec fn path_sep() -> Seq<char> {
    seq![' ', ' ', '›', ' ', ' ']
}

/// The Zen view's status line: the timer's state and the todo's pomodoros.
pub open spec fn zen_status_text(st: TimerState, pomodoros: u8) -> Seq<char> {
    state_label_text(st) + seq![' ', ' ', '·', ' ', ' ', 'P', 'O', 'M', 'O', ' '] + decimal(
        pomodoros as nat,
    )
}

pub fn zen_status_line(st: TimerState, pomodoros: u8) -> (r: String)
    ensures
        r@ == zen_status_text(st, pomodoros),
{
    let mut out: Vec<char> = Vec::new();
    push_str_chars(&mut out, st.label());
    out.push(' ');
    out.push(' ');
    out.push('·');
    out.push(' ');
    out.push(' ');
    out.push('P');
    out.push('O');
    out.push('M');
    out.push('O');
    out.push(' ');
    push_decimal(&mut out, pomodoros as u128);
    assert(out@ =~= zen_status_text(st, pomodoros));
    string_from(&out)
}

/// The line naming the todo in focus: its group and its title.
pub open spec fn zen_focus_text(group_name: Seq<char>, title: Seq<char>) -> Seq<char> {
    seq!['[', '>', ']', ' '] + group_name + seq![' ', '/', ' '] + title
}

pub fn zen_focus_line(group: &Group, todo: &TodoItem) -> (r: String)
    ensures
        r@ == zen_focus_text(group@.name, todo@.title),
{
    let mut out: Vec<char> = Vec::new();
    out.push('[');
    out.push('>');
    out.push(']');
    out.push(' ');
    push_str_chars(&mut out, group.name.as_str());
    out.push(' ');
    out.push('/');
    out.push(' ');
    push_str_chars(&mut out, todo.title.as_str());
    assert(out@ =~= zen_focus_text(group@.name, todo@.title));
    string_from(&out)
}

/// The dashboard's focus line: the focused todo's title, or a note that
/// nothing is in progress.
pub open spec fn dashboard_focus_text(a: AppView) -> Seq<char> {
    match a.dashboard_focus() {
        Some((_, t)) => seq!['[', '>', ']', ' '] + t.title,
        None => seq!['대', '기', ' ', '중'],
    }
}

pub fn dashboard_focus_title(app: &App) -> (r: String)
    ensures
        r@ == dashboard_focus_text(app@),
{
    let mut out: Vec<char> = Vec::new();
    match dashboard_focus(app) {
        Some((_, t)) => {
            out.push('[');
            out.push('>');
            out.push(']');
            out.push(' ');
            push_str_chars(&mut out, t.title.as_str());
        },
        None => {
            proof {
                reveal_strlit("대기 중");
            }
            push_str_chars(&mut out, "대기 중");
        },
    }
    assert(out@ =~= dashboard_focus_text(app@));
    string_from(&out)
}

/// The title of the search results: all items for a blank query, results
/// of the search otherwise, with their count.
pub open spec fn search_title_text(icon: Seq<char>, query: Seq<char>, count: nat) -> Seq<char> {
    if trimmed(query).len() == 0 {
        seq![' '] + icon + seq![' ', '전', '체', ' ', '항', '목', ' ', '·', ' '] + decimal(count)
            + seq!['개', ' ']
    } else {
        seq![' '] + icon + seq![' ', '전', '체', ' ', '그', '룹', ' ', '검', '색', ' ', '·', ' ']
            + decimal(count) + seq!['개', ' ', '결', '과', ' ']
    }
}

pub fn search_title(icon: &str, query: &str, count: usize) -> (r: String)
    ensures
        r@ == search_title_text(icon@, query@, count as nat),
{
    let mut out: Vec<char> = Vec::new();
    out.push(' ');
    push_str_chars(&mut out, icon);
    if trim(query).unicode_len() == 0 {
        proof {
            reveal_strlit(" 전체 항목 · ");
        }
        push_str_chars(&mut out, " 전체 항목 · ");
        push_decimal(&mut out, count as u128);
        out.push('개');
        out.push(' ');
    } else {
        proof {
            reveal_strlit(" 전체 그룹 검색 · ");
        }
        push_str_chars(&mut out, " 전체 그룹 검색 · ");
        push_decimal(&mut out, count as u128);
        proof {
            reveal_strlit("개 결과 ");
        }
        push_str_chars(&mut out, "개 결과 ");
    }
    assert(out@ =~= search_title_text(icon@, query@, count as nat));
    string_from(&out)
}

/// A search result as the list shows it: the path of groups and todos
/// above it, its status and its title.
pub struct HitLine {
    pub path: String,
    pub status: TodoStatus,
    pub title: String,
}

/// The path, status and title shown for hit `h`; none when it names no
/// existing todo or subtask.
pub open spec fn hit_line_of(a: AppView, h: SearchHit) -> Option<(Seq<char>, TodoStatus, Seq<char>)> {
    if h.group >= a.groups.len() {
        None
    } else {
        let g = a.groups[h.group as int];
        match h.row {
            RowRef::Todo(i) => if i < g.todos.len() {
                let t = g.todos[i as int];
                Some((g.name + path_sep(), t.status, t.title))
            } else {
                None
            },
            RowRef::Sub(i, j) => if i < g.todos.len() && j < g.todos[i as int].subtasks.len() {
                let t = g.todos[i as int];
                let st = t.subtasks[j as int];
                Some((g.name + path_sep() + t.title + path_sep(), st.status, st.title))
            } else {
                None
            },
        }
    }
}

fn push_path_sep(out: &mut Vec<char>)
    ensures
        final(out)@ == old(out)@ + path_sep(),
{
    out.push(' ');
    out.push(' ');
    out.push('›');
    out.push(' ');
    out.push(' ');
    assert(out@ =~= old(out)@ + path_sep());
}

pub fn search_hit_line(app: &App, hit: SearchHit) -> (r: Option<HitLine>)
    ensures
        match hit_line_of(app@, hit) {
            Some((p, st, t)) => r matches Some(l) && l.path@ == p && l.status == st && l.title@ == t,
            None => r is None,
        },
{
    if hit.group >= app.groups.len() {
        return None;
    }
    let g = &app.groups[hit.group];
    let mut path: Vec<char> = Vec::new();
    push_str_chars(&mut path, g.name.as_str());
    push_path_sep(&mut path);
    match hit.row {
        RowRef::Todo(i) => {
            if i >= g.todos.len() {
                return None;
            }
            let t = &g.todos[i];
            assert(g@.todos[i as int] == t@);
            Some(HitLine { path: string_from(&path), status: t.status, title: t.title.clone() })
        },
        RowRef::Sub(i, j) => {
            if i >= g.todos.len() {
                return None;
            }
            let t = &g.todos[i];
            assert(g@.todos[i as int] == t@);
            if j >= t.subtasks.len() {
                return None;
            }
            let st = &t.subtasks[j];
            assert(t@.subtasks[j as int] == st@);
            push_str_chars(&mut path, t.title.as_str());
            push_path_sep(&mut path);
            Some(HitLine { path: string_from(&path), status: st.status, title: st.title.clone() })
        },
    }
}

} // verus!
