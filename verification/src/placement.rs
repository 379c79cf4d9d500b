//! Hyprland placement and dispatch command generation.
//!
//! The reconciliation engine decides which target belongs to which current
//! window.  This module translates that plan into monitor, workspace, geometry
//! and state operations.

use crate::hyprctl::{HyprClient, HyprClientView, HyprMonitor, HyprMonitorView};
use crate::session::{Monitor, MonitorView, SessionClient, SessionClientView};
use crate::text;
use vstd::prelude::*;

verus! {

// ── Monitors ───────────────────────────────────────────────────────────────

/// The first monitor with a name, up to case; none has an empty name.
pub open spec fn monitor_named(
    monitors: Seq<HyprMonitorView>,
    name: Seq<char>,
) -> Option<HyprMonitorView>
    decreases monitors.len(),
{
    if name.len() == 0 || monitors.len() == 0 {
        None
    } else if text::same_ignoring_case(monitors[0].name, name) {
        Some(monitors[0])
    } else {
        monitor_named(monitors.drop_first(), name)
    }
}

/// Finds a monitor by its name.
pub fn find_monitor_by_name<'a>(monitors: &'a [HyprMonitor], name: &str) -> (r: Option<
    &'a HyprMonitor,
>)
    ensures
        match r {
            Some(monitor) => monitor_named(monitors.deep_view(), name@) == Some(monitor@),
            None => monitor_named(monitors.deep_view(), name@) is None,
        },
{
    if name.is_empty() {
        return None;
    }
    let ghost all = monitors.deep_view();
    let mut i: usize = 0;
    assert(all.skip(0) =~= all);
    while i < monitors.len()
        invariant
            i <= monitors.len(),
            name@.len() > 0,
            all == monitors.deep_view(),
            monitor_named(all, name@) == monitor_named(all.skip(i as int), name@),
        decreases monitors.len() - i,
    {
        assert(all.skip(i as int)[0] == monitors[i as int]@);
        if text::eq_ignore_case(monitors[i].name.as_str(), name) {
            return Some(&monitors[i]);
        }
        assert(all.skip(i as int).drop_first() =~= all.skip(i + 1));
        i += 1;
    }
    None
}

/// The monitor that a window was saved on still exists, or none was saved.
pub open spec fn monitor_is_available(monitors: Seq<HyprMonitorView>, name: Seq<char>) -> bool {
    name.len() == 0 || monitor_named(monitors, name) is Some
}

/// Tells whether the monitor that a window was saved on still exists.
pub fn target_monitor_is_available(monitors: &[HyprMonitor], name: &str) -> (r: bool)
    ensures
        r == monitor_is_available(monitors.deep_view(), name@),
{
    name.is_empty() || find_monitor_by_name(monitors, name).is_some()
}

/// The first saved monitor with a name, up to case.
pub open spec fn saved_monitor_named(
    monitors: Seq<MonitorView>,
    name: Seq<char>,
) -> Option<MonitorView>
    decreases monitors.len(),
{
    if monitors.len() == 0 {
        None
    } else if text::same_ignoring_case(monitors[0].name, name) {
        Some(monitors[0])
    } else {
        saved_monitor_named(monitors.drop_first(), name)
    }
}

fn find_saved_monitor<'a>(monitors: &'a [Monitor], name: &str) -> (r: Option<&'a Monitor>)
    ensures
        match r {
            Some(monitor) => saved_monitor_named(monitors.deep_view(), name@) == Some(monitor@),
            None => saved_monitor_named(monitors.deep_view(), name@) is None,
        },
{
    let ghost all = monitors.deep_view();
    let mut i: usize = 0;
    assert(all.skip(0) =~= all);
    while i < monitors.len()
        invariant
            i <= monitors.len(),
            all == monitors.deep_view(),
            saved_monitor_named(all, name@) == saved_monitor_named(all.skip(i as int), name@),
        decreases monitors.len() - i,
    {
        assert(all.skip(i as int)[0] == monitors[i as int]@);
        if text::eq_ignore_case(monitors[i].name.as_str(), name) {
            return Some(&monitors[i]);
        }
        assert(all.skip(i as int).drop_first() =~= all.skip(i + 1));
        i += 1;
    }
    None
}

// ── Geometry ───────────────────────────────────────────────────────────────

/// The larger of two numbers.
pub open spec fn max(a: int, b: int) -> int {
    if a >= b {
        a
    } else {
        b
    }
}

/// A number brought into a range; the upper end wins over a number above it.
pub open spec fn clamped(n: int, low: int, high: int) -> int {
    if n < low {
        low
    } else if n > high {
        high
    } else {
        n
    }
}

/// A number brought into 32 bits.
pub open spec fn narrowed(n: int) -> int {
    clamped(n, i32::MIN as int, i32::MAX as int)
}

/// The integer nearest to `value * numerator / denominator`, with halves away
/// from zero.
pub open spec fn rounded_ratio(value: int, numerator: int, denominator: int) -> int {
    let product = value * numerator;
    if product < 0 {
        -((-product + denominator / 2) / denominator)
    } else {
        (product + denominator / 2) / denominator
    }
}

/// A length in pixels scaled to another monitor: at least one pixel and at
/// most the monitor.
pub open spec fn scaled_length(value: int, numerator: int, denominator: int) -> int {
    clamped(
        rounded_ratio(max(value, 1), numerator, denominator),
        1,
        max(1, clamped(numerator, 0, i32::MAX as int)),
    )
}

/// A place brought onto a monitor so that a window of some length fits, as far
/// as it can.
pub open spec fn fitted(place: int, origin: int, extent: int, length: int) -> int {
    narrowed(clamped(place, origin, max(origin + clamped(extent, 0, i32::MAX as int) - length, origin)))
}

/// A rectangle: a corner and two lengths.
pub ghost struct Rect {
    pub x: int,
    pub y: int,
    pub width: int,
    pub height: int,
}

/// A rectangle on a rotated monitor as it would stand without the rotation.
/// `base_width` and `base_height` belong to the monitor without rotation.
pub open spec fn unrotated(r: Rect, base_width: int, base_height: int, transform: u32) -> Rect {
    if transform == 1 {
        Rect { x: r.y, y: base_height - r.x - r.width, width: r.height, height: r.width }
    } else if transform == 2 {
        Rect {
            x: base_width - r.x - r.width,
            y: base_height - r.y - r.height,
            width: r.width,
            height: r.height,
        }
    } else if transform == 3 {
        Rect { x: base_width - r.y - r.height, y: r.x, width: r.height, height: r.width }
    } else {
        r
    }
}

/// A rectangle brought onto a rotated monitor.
pub open spec fn rotated(r: Rect, base_width: int, base_height: int, transform: u32) -> Rect {
    if transform == 1 {
        Rect { x: base_height - r.y - r.height, y: r.x, width: r.height, height: r.width }
    } else if transform == 2 {
        Rect {
            x: base_width - r.x - r.width,
            y: base_height - r.y - r.height,
            width: r.width,
            height: r.height,
        }
    } else if transform == 3 {
        Rect { x: r.y, y: base_width - r.x - r.width, width: r.height, height: r.width }
    } else {
        r
    }
}

/// The rectangle of a window relative to its saved monitor, scaled to the
/// current one.  A rotation that is none of the four turns is not followed.
pub open spec fn carried_over(r: Rect, saved: MonitorView, current: HyprMonitorView) -> Rect {
    let turns = saved.transform < 4 && current.transform < 4;
    let plain = if turns {
        unrotated(r, saved.width as int, saved.height as int, saved.transform)
    } else {
        r
    };
    let scaled = Rect {
        x: rounded_ratio(plain.x, current.width as int, saved.width as int),
        y: rounded_ratio(plain.y, current.height as int, saved.height as int),
        width: scaled_length(plain.width, current.width as int, saved.width as int),
        height: scaled_length(plain.height, current.height as int, saved.height as int),
    };
    if turns {
        rotated(scaled, current.width as int, current.height as int, current.transform)
    } else {
        scaled
    }
}

/// The width and height that a monitor shows.
pub open spec fn displayed(monitor: HyprMonitorView) -> (int, int) {
    if monitor.transform % 2 == 1 {
        (monitor.height as int, monitor.width as int)
    } else {
        (monitor.width as int, monitor.height as int)
    }
}

/// A monitor whose place and extent are known.
pub open spec fn saved_is_usable(monitor: MonitorView) -> bool {
    monitor.x is Some && monitor.y is Some && monitor.width != 0 && monitor.height != 0
}

/// A monitor whose place and extent are known.
pub open spec fn current_is_usable(monitor: HyprMonitorView) -> bool {
    monitor.x is Some && monitor.y is Some && monitor.width != 0 && monitor.height != 0
}

/// The rectangle of a saved window relative to its monitor; a length is at
/// least one pixel.
pub open spec fn relative_rect(target: SessionClientView, saved: MonitorView) -> Rect {
    Rect {
        x: target.at.0 - saved.x->0,
        y: target.at.1 - saved.y->0,
        width: max(target.size.0, 1),
        height: max(target.size.1, 1),
    }
}

/// Where a window goes on a monitor whose place, extent or rotation changed.
pub open spec fn adapted_to(
    target: SessionClientView,
    saved: MonitorView,
    current: HyprMonitorView,
) -> SessionClientView {
    let r = carried_over(relative_rect(target, saved), saved, current);
    let shown = displayed(current);
    SessionClientView {
        at: (
            fitted(current.x->0 + r.x, current.x->0 as int, shown.0, r.width),
            fitted(current.y->0 + r.y, current.y->0 as int, shown.1, r.height),
        ),
        size: (r.width, r.height),
        ..target
    }
}

/// The window with its geometry adapted, where both monitors are known.
pub open spec fn adapted(
    target: SessionClientView,
    saved_monitors: Seq<MonitorView>,
    current_monitor: Option<HyprMonitorView>,
) -> SessionClientView {
    match (saved_monitor_named(saved_monitors, target.monitor), current_monitor) {
        (Some(saved), Some(current)) => if saved_is_usable(saved) && current_is_usable(current) {
            adapted_to(target, saved, current)
        } else {
            target
        },
        _ => target,
    }
}

fn clamp_wide(n: i128, low: i128, high: i128) -> (r: i128)
    ensures
        r == clamped(n as int, low as int, high as int),
{
    if n < low {
        low
    } else if n > high {
        high
    } else {
        n
    }
}

fn to_i32(n: i128) -> (r: i32)
    ensures
        r == narrowed(n as int),
{
    clamp_wide(n, i32::MIN as i128, i32::MAX as i128) as i32
}

fn at_least_one(n: i32) -> (r: i32)
    ensures
        r == max(n as int, 1),
{
    if n > 1 {
        n
    } else {
        1
    }
}

proof fn lemma_ratio_bound(product: int, denominator: int, bound: int)
    requires
        0 <= product <= bound,
        denominator >= 1,
    ensures
        0 <= (product + denominator / 2) / denominator <= bound + denominator,
{
    assert(0 <= (product + denominator / 2) / denominator <= product + denominator)
        by (nonlinear_arith)
        requires
            0 <= product,
            denominator >= 1,
    ;
}

/// `value * numerator / denominator`, rounded.
fn round_ratio(value: i128, numerator: u32, denominator: u32) -> (r: i128)
    requires
        denominator > 0,
        -0x10_0000_0000 <= value <= 0x10_0000_0000,
    ensures
        r == rounded_ratio(value as int, numerator as int, denominator as int),
        -0x20_0000_0000_0000_0000 <= r <= 0x20_0000_0000_0000_0000,
{
    let n = numerator as i128;
    let d = denominator as i128;
    proof {
        assert(-0x10_0000_0000_0000_0000 <= value * n <= 0x10_0000_0000_0000_0000)
            by (nonlinear_arith)
            requires
                -0x10_0000_0000 <= value <= 0x10_0000_0000,
                0 <= n <= 0x1_0000_0000,
        ;
    }
    let product: i128 = value * n;
    if product < 0 {
        proof {
            lemma_ratio_bound(-product, d as int, 0x10_0000_0000_0000_0000);
        }
        -((-product + d / 2) / d)
    } else {
        proof {
            lemma_ratio_bound(product as int, d as int, 0x10_0000_0000_0000_0000);
        }
        (product + d / 2) / d
    }
}

fn scaled_extent(value: i32, numerator: u32, denominator: u32) -> (r: i32)
    requires
        denominator > 0,
        numerator > 0,
    ensures
        r == scaled_length(value as int, numerator as int, denominator as int),
        1 <= r,
{
    let scaled = round_ratio(at_least_one(value) as i128, numerator, denominator);
    let limit: i128 = if numerator > 0x7fff_ffff {
        0x7fff_ffff
    } else {
        numerator as i128
    };
    clamp_wide(scaled, 1, limit) as i32
}

fn clamp_coordinate(place: i128, origin: i32, extent: u32, length: i32) -> (r: i32)
    ensures
        r == fitted(place as int, origin as int, extent as int, length as int),
{
    let shown: i128 = if extent > 0x7fff_ffff {
        0x7fff_ffff
    } else {
        extent as i128
    };
    let low = origin as i128;
    let end = low + shown - length as i128;
    let high = if end >= low {
        end
    } else {
        low
    };
    to_i32(clamp_wide(place, low, high))
}

fn displayed_monitor_dimensions(monitor: &HyprMonitor) -> (r: (u32, u32))
    ensures
        (r.0 as int, r.1 as int) == displayed(monitor@),
{
    if monitor.transform % 2 == 1 {
        (monitor.height, monitor.width)
    } else {
        (monitor.width, monitor.height)
    }
}

/// A rectangle with a wide corner.
struct WideRect {
    x: i128,
    y: i128,
    width: i32,
    height: i32,
}

spec fn rect_of(r: WideRect) -> Rect {
    Rect { x: r.x as int, y: r.y as int, width: r.width as int, height: r.height as int }
}

spec fn is_small(r: WideRect, bound: int) -> bool {
    -bound <= r.x <= bound && -bound <= r.y <= bound && r.width >= 1 && r.height >= 1
}

fn rotate_rect_to_canonical(
    r: WideRect,
    base_width: u32,
    base_height: u32,
    transform: u32,
) -> (out: WideRect)
    requires
        is_small(r, 0x2_0000_0000),
    ensures
        rect_of(out) == unrotated(rect_of(r), base_width as int, base_height as int, transform),
        is_small(out, 0x10_0000_0000),
{
    if transform == 1 {
        WideRect {
            x: r.y,
            y: base_height as i128 - r.x - r.width as i128,
            width: r.height,
            height: r.width,
        }
    } else if transform == 2 {
        WideRect {
            x: base_width as i128 - r.x - r.width as i128,
            y: base_height as i128 - r.y - r.height as i128,
            width: r.width,
            height: r.height,
        }
    } else if transform == 3 {
        WideRect {
            x: base_width as i128 - r.y - r.height as i128,
            y: r.x,
            width: r.height,
            height: r.width,
        }
    } else {
        r
    }
}

fn rotate_rect_from_canonical(
    r: WideRect,
    base_width: u32,
    base_height: u32,
    transform: u32,
) -> (out: WideRect)
    requires
        is_small(r, 0x20_0000_0000_0000_0000),
    ensures
        rect_of(out) == rotated(rect_of(r), base_width as int, base_height as int, transform),
        is_small(out, 0x40_0000_0000_0000_0000),
{
    let across = base_width as i128 - r.x - r.width as i128;
    let down = base_height as i128 - r.y - r.height as i128;
    if transform == 1 {
        WideRect { x: down, y: r.x, width: r.height, height: r.width }
    } else if transform == 2 {
        WideRect { x: across, y: down, width: r.width, height: r.height }
    } else if transform == 3 {
        WideRect { x: r.y, y: across, width: r.height, height: r.width }
    } else {
        r
    }
}

/// Adapt captured absolute coordinates to a monitor whose origin or
/// resolution changed since the snapshot. Older sessions have no monitor
/// origins and keep their original geometry.
pub fn adapt_client_geometry(
    target: &SessionClient,
    saved_monitors: &[Monitor],
    current_monitor: Option<&HyprMonitor>,
) -> (r: SessionClient)
    ensures
        r@ == adapted(
            target@,
            saved_monitors.deep_view(),
            match current_monitor {
                Some(monitor) => Some(monitor@),
                None => None,
            },
        ),
{
    let current = match current_monitor {
        Some(monitor) => monitor,
        None => {
            return target.clone();
        },
    };
    let saved = match find_saved_monitor(saved_monitors, target.monitor.as_str()) {
        Some(monitor) => monitor,
        None => {
            return target.clone();
        },
    };
    let (saved_x, saved_y) = match (saved.x, saved.y) {
        (Some(x), Some(y)) => (x, y),
        _ => {
            return target.clone();
        },
    };
    let (current_x, current_y) = match (current.x, current.y) {
        (Some(x), Some(y)) => (x, y),
        _ => {
            return target.clone();
        },
    };
    if saved.width == 0 || saved.height == 0 || current.width == 0 || current.height == 0 {
        return target.clone();
    }
    let relative = WideRect {
        x: target.at[0] as i128 - saved_x as i128,
        y: target.at[1] as i128 - saved_y as i128,
        width: at_least_one(target.size[0]),
        height: at_least_one(target.size[1]),
    };
    assert(rect_of(relative) == relative_rect(target@, saved@));
    let turns = saved.transform < 4 && current.transform < 4;
    let plain = if turns {
        rotate_rect_to_canonical(relative, saved.width, saved.height, saved.transform)
    } else {
        relative
    };
    let scaled = WideRect {
        x: round_ratio(plain.x, current.width, saved.width),
        y: round_ratio(plain.y, current.height, saved.height),
        width: scaled_extent(plain.width, current.width, saved.width),
        height: scaled_extent(plain.height, current.height, saved.height),
    };
    let placed = if turns {
        rotate_rect_from_canonical(scaled, current.width, current.height, current.transform)
    } else {
        scaled
    };
    assert(rect_of(placed) == carried_over(relative_rect(target@, saved@), saved@, current@));
    let (shown_width, shown_height) = displayed_monitor_dimensions(current);
    let x = clamp_coordinate(current_x as i128 + placed.x, current_x, shown_width, placed.width);
    let y = clamp_coordinate(current_y as i128 + placed.y, current_y, shown_height, placed.height);
    let mut adapted_client = target.clone();
    adapted_client.at = [x, y];
    adapted_client.size = [placed.width, placed.height];
    adapted_client
}

// ── Workspaces ─────────────────────────────────────────────────────────────

/// The saved workspace is told by its number, not by a name.
pub open spec fn is_numbered(workspace_name: Seq<char>) -> bool {
    let name = text::trimmed(workspace_name);
    name.len() == 0 || text::is_i32_text(name)
}

/// A name without the prefix that marks it as one.
pub open spec fn plain_name(name: Seq<char>) -> Seq<char> {
    if text::starts_with_ignoring_case(name, "name:"@) {
        name.skip("name:"@.len() as int)
    } else {
        name
    }
}

/// Two workspace names that mean the same: special workspaces by their whole
/// name, others without a `name:` in front.
pub open spec fn same_workspace_name(saved: Seq<char>, current: Seq<char>) -> bool {
    if text::starts_with_ignoring_case(saved, "special:"@) || text::starts_with_ignoring_case(
        current,
        "special:"@,
    ) {
        text::same_ignoring_case(saved, current)
    } else {
        text::same_ignoring_case(plain_name(saved), plain_name(current))
    }
}

/// A window stands on the workspace it was saved on.
pub open spec fn on_saved_workspace(target: SessionClientView, current: HyprClientView) -> bool {
    if is_numbered(target.workspace_name) {
        target.workspace == current.workspace.id
    } else {
        same_workspace_name(
            text::trimmed(target.workspace_name),
            text::trimmed(current.workspace.name),
        )
    }
}

fn strip_workspace_prefix(value: &str) -> (r: String)
    ensures
        r@ == plain_name(value@),
{
    if text::has_prefix_ignoring_case(value, "name:") {
        text::rest(value, "name:".unicode_len())
    } else {
        value.to_owned()
    }
}

fn workspace_names_match(saved_name: &str, current_name: &str) -> (r: bool)
    ensures
        r == same_workspace_name(saved_name@, current_name@),
{
    if text::has_prefix_ignoring_case(saved_name, "special:") || text::has_prefix_ignoring_case(
        current_name,
        "special:",
    ) {
        return text::eq_ignore_case(saved_name, current_name);
    }
    let saved = strip_workspace_prefix(saved_name);
    let current = strip_workspace_prefix(current_name);
    text::eq_ignore_case(saved.as_str(), current.as_str())
}

/// Tells whether a window stands on the workspace it was saved on.
pub fn workspace_matches(target: &SessionClient, current: &HyprClient) -> (r: bool)
    ensures
        r == on_saved_workspace(target@, current@),
{
    let saved_name = text::trim(target.workspace_name.as_str());
    if saved_name.as_str().is_empty() || text::is_i32(saved_name.as_str()) {
        return target.workspace == current.workspace.id;
    }
    let current_name = text::trim(current.workspace.name.as_str());
    workspace_names_match(saved_name.as_str(), current_name.as_str())
}

/// How a dispatcher is told the workspace of a saved window.
pub open spec fn selector(target: SessionClientView) -> Seq<char> {
    let name = text::trimmed(target.workspace_name);
    if is_numbered(target.workspace_name) {
        text::decimal(target.workspace)
    } else if text::starts_with_ignoring_case(name, "special:"@)
        || text::starts_with_ignoring_case(name, "name:"@) {
        name
    } else {
        "name:"@ + name
    }
}

/// The workspace of a saved window, for a dispatcher.
pub fn workspace_selector(target: &SessionClient) -> (r: String)
    ensures
        r@ == selector(target@),
{
    let saved_name = text::trim(target.workspace_name.as_str());
    if saved_name.as_str().is_empty() || text::is_i32(saved_name.as_str()) {
        text::number_text(target.workspace as i64)
    } else if text::has_prefix_ignoring_case(saved_name.as_str(), "special:")
        || text::has_prefix_ignoring_case(saved_name.as_str(), "name:") {
        saved_name
    } else {
        "name:".to_owned().concat(saved_name.as_str())
    }
}

// ── Commands ───────────────────────────────────────────────────────────────

/// A character that reads as itself in dispatch arguments.
pub open spec fn is_plain(c: char) -> bool {
    !text::is_space(c) && c != '\'' && c != '"' && c != '\\'
}

/// Every character reads as itself.
pub open spec fn all_plain(s: Seq<char>) -> bool {
    forall|i: int| 0 <= i < s.len() ==> is_plain(#[trigger] s[i])
}

/// A text written so that it reads as one argument.
pub open spec fn quoted(s: Seq<char>) -> Seq<char> {
    if all_plain(s) {
        s
    } else {
        seq!['\''] + text::replaced(
            text::replaced(s, seq!['\\'], seq!['\\', '\\']),
            seq!['\''],
            seq!['\'', '\\', '\'', '\''],
        ) + seq!['\'']
    }
}

fn is_all_plain(s: &str) -> (r: bool)
    ensures
        r == all_plain(s@),
{
    let x = text::chars_of(s);
    let mut i: usize = 0;
    while i < x.len()
        invariant
            x@ == s@,
            i <= x.len(),
            forall|k: int| 0 <= k < i ==> is_plain(#[trigger] s@[k]),
        decreases x.len() - i,
    {
        let c = x[i];
        assert(s@[i as int] == c);
        if text::char_is_space(c) || c == '\'' || c == '"' || c == '\\' {
            assert(!is_plain(s@[i as int]));
            return false;
        }
        i += 1;
    }
    true
}

/// Quotes a text for a dispatcher, if it needs quotes.
pub fn quote_dispatch_token(value: &str) -> (r: String)
    ensures
        r@ == quoted(value@),
{
    if is_all_plain(value) {
        return value.to_owned();
    }
    proof {
        reveal_strlit("\\");
        reveal_strlit("\\\\");
        reveal_strlit("'");
        reveal_strlit("'\\''");
        assert("\\"@ =~= seq!['\\']);
        assert("\\\\"@ =~= seq!['\\', '\\']);
        assert("'"@ =~= seq!['\'']);
        assert("'\\''"@ =~= seq!['\'', '\\', '\'', '\'']);
    }
    let slashes = text::replace(value, "\\", "\\\\");
    let quotes = text::replace(slashes.as_str(), "'", "'\\''");
    "'".to_owned().concat(quotes.as_str()).concat("'")
}

/// The commands that bring a window to a monitor: it is focused first, since
/// the dispatcher moves the active window.
pub open spec fn monitor_moves(monitor: Seq<char>, address: Seq<char>) -> Seq<Seq<char>> {
    seq![
        "focuswindow address:"@ + address,
        "movewindow "@ + quoted("mon:"@ + monitor) + " silent"@,
    ]
}

/// The commands that bring a window to a monitor.
pub fn monitor_move_commands(monitor: &str, address: &str) -> (r: Vec<String>)
    ensures
        r.deep_view() == monitor_moves(monitor@, address@),
{
    let mut commands: Vec<String> = Vec::new();
    commands.push("focuswindow address:".to_owned().concat(address));
    let name = "mon:".to_owned().concat(monitor);
    let token = quote_dispatch_token(name.as_str());
    commands.push("movewindow ".to_owned().concat(token.as_str()).concat(" silent"));
    assert(commands.deep_view() =~= monitor_moves(monitor@, address@));
    commands
}

/// Geometry inputs for a reconciliation dispatch plan.
#[derive(Debug, Clone, Copy)]
pub struct ReconcileGeometry {
    /// Where the window belongs.
    pub desired_at: [i32; 2],
    /// The size it should have.
    pub desired_size: [i32; 2],
    /// The monitor it was saved on exists.
    pub target_monitor_available: bool,
}

#[verifier::ext_equal]
pub ghost struct ReconcileGeometryView {
    pub desired_at: (int, int),
    pub desired_size: (int, int),
    pub target_monitor_available: bool,
}

impl View for ReconcileGeometry {
    type V = ReconcileGeometryView;

    open spec fn view(&self) -> ReconcileGeometryView {
        ReconcileGeometryView {
            desired_at: (self.desired_at@[0] as int, self.desired_at@[1] as int),
            desired_size: (self.desired_size@[0] as int, self.desired_size@[1] as int),
            target_monitor_available: self.target_monitor_available,
        }
    }
}

impl ReconcileGeometry {
    /// Geometry with a place and a size.
    pub fn new(
        desired_at: [i32; 2],
        desired_size: [i32; 2],
        target_monitor_available: bool,
    ) -> (r: Self)
        ensures
            r@ == (ReconcileGeometryView {
                desired_at: (desired_at@[0] as int, desired_at@[1] as int),
                desired_size: (desired_size@[0] as int, desired_size@[1] as int),
                target_monitor_available,
            }),
    {
        ReconcileGeometry { desired_at, desired_size, target_monitor_available }
    }
}

/// Some commands under a condition.
pub open spec fn when(condition: bool, commands: Seq<Seq<char>>) -> Seq<Seq<char>> {
    if condition {
        commands
    } else {
        seq![]
    }
}

/// A window stands on another monitor than the one it was saved on.
pub open spec fn on_other_monitor(
    target: SessionClientView,
    current_monitor: Option<Seq<char>>,
    available: bool,
) -> bool {
    &&& available
    &&& target.monitor.len() > 0
    &&& current_monitor is Some
    &&& !text::same_ignoring_case(current_monitor->0, target.monitor)
}

/// Absolute coordinates apply: the window is not fullscreen, and its monitor
/// is there if one was saved.
pub open spec fn has_geometry(target: SessionClientView, available: bool) -> bool {
    target.fullscreen == 0 && (target.monitor.len() == 0 || available)
}

/// A command on the window at an address.
pub open spec fn on_window(start: Seq<char>, current: HyprClientView) -> Seq<char> {
    start + ("address:"@ + current.address)
}

/// A command that gives the window two numbers.
pub open spec fn in_pixels(
    start: Seq<char>,
    numbers: (int, int),
    current: HyprClientView,
) -> Seq<char> {
    start + text::decimal(numbers.0) + " "@ + text::decimal(numbers.1) + ","@ + ("address:"@
        + current.address)
}

/// Unpins a window that was not saved pinned.
pub open spec fn unpin_part(target: SessionClientView, current: HyprClientView) -> Seq<Seq<char>> {
    when(current.pinned && !target.pinned, seq![on_window("pin "@, current)])
}

/// Takes a window out of fullscreen.
pub open spec fn leave_fullscreen_part(
    target: SessionClientView,
    current: HyprClientView,
) -> Seq<Seq<char>> {
    when(
        current.fullscreen > 0 && target.fullscreen == 0,
        seq![on_window("focuswindow "@, current), "fullscreenstate 0 0"@],
    )
}

/// Brings a window to its workspace.
pub open spec fn workspace_part(
    target: SessionClientView,
    current: HyprClientView,
) -> Seq<Seq<char>> {
    when(
        !on_saved_workspace(target, current),
        seq![on_window("movetoworkspacesilent "@ + quoted(selector(target)) + ","@, current)],
    )
}

/// Brings a window to its monitor.
pub open spec fn monitor_part(
    target: SessionClientView,
    current: HyprClientView,
    current_monitor: Option<Seq<char>>,
    available: bool,
) -> Seq<Seq<char>> {
    when(
        on_other_monitor(target, current_monitor, available),
        monitor_moves(target.monitor, current.address),
    )
}

/// Makes a window float or stop floating.
pub open spec fn floating_part(
    target: SessionClientView,
    current: HyprClientView,
) -> Seq<Seq<char>> {
    when(current.floating != target.floating, seq![on_window("togglefloating "@, current)])
}

/// Gives a window its size.
pub open spec fn size_part(
    target: SessionClientView,
    current: HyprClientView,
    geometry: ReconcileGeometryView,
) -> Seq<Seq<char>> {
    when(
        has_geometry(target, geometry.target_monitor_available) && current.size
            != geometry.desired_size,
        seq![in_pixels("resizewindowpixel exact "@, geometry.desired_size, current)],
    )
}

/// Brings a window to its place.
pub open spec fn place_part(
    target: SessionClientView,
    current: HyprClientView,
    geometry: ReconcileGeometryView,
) -> Seq<Seq<char>> {
    when(
        has_geometry(target, geometry.target_monitor_available) && current.at
            != geometry.desired_at,
        seq![in_pixels("movewindowpixel exact "@, geometry.desired_at, current)],
    )
}

/// Brings a window into its fullscreen state.
pub open spec fn enter_fullscreen_part(
    target: SessionClientView,
    current: HyprClientView,
) -> Seq<Seq<char>> {
    when(
        target.fullscreen > 0 && current.fullscreen != target.fullscreen,
        seq![
            on_window("focuswindow "@, current),
            "fullscreenstate "@ + text::decimal(target.fullscreen as int) + " "@ + text::decimal(
                target.fullscreen as int,
            ),
        ],
    )
}

/// Pins a window that was saved pinned.
pub open spec fn pin_part(target: SessionClientView, current: HyprClientView) -> Seq<Seq<char>> {
    when(!current.pinned && target.pinned, seq![on_window("pin "@, current)])
}

/// The operations that make an open window agree with its saved placement, in
/// the order in which they are sent.  Workspace bindings can move a window to
/// their preferred monitor, so the monitor comes after the workspace.
pub open spec fn reconcile_commands(
    target: SessionClientView,
    current: HyprClientView,
    current_monitor: Option<Seq<char>>,
    geometry: ReconcileGeometryView,
) -> Seq<Seq<char>> {
    unpin_part(target, current) + leave_fullscreen_part(target, current) + workspace_part(
        target,
        current,
    ) + monitor_part(target, current, current_monitor, geometry.target_monitor_available)
        + floating_part(target, current) + size_part(target, current, geometry) + place_part(
        target,
        current,
        geometry,
    ) + enter_fullscreen_part(target, current) + pin_part(target, current)
}

/// Return only the compositor operations needed to make an existing window
/// agree with the saved placement.
///
/// An empty result is the important fast path:
/// it means the window is already correct and should be left alone.
pub fn build_reconcile_dispatch_commands(
    target: &SessionClient,
    current: &HyprClient,
    current_monitor: Option<&str>,
) -> (r: Vec<String>)
    ensures
        r.deep_view() == reconcile_commands(
            target@,
            current@,
            match current_monitor {
                Some(monitor) => Some(monitor@),
                None => None,
            },
            (ReconcileGeometryView {
                desired_at: target@.at,
                desired_size: target@.size,
                target_monitor_available: true,
            }),
        ),
{
    build_reconcile_dispatch_commands_with_geometry(
        target,
        current,
        current_monitor,
        ReconcileGeometry::new(target.at, target.size, true),
    )
}

fn push_command(commands: &mut Vec<String>, command: String)
    ensures
        final(commands).deep_view() == old(commands).deep_view().push(command@),
{
    let ghost before = commands.deep_view();
    let ghost added = command@;
    commands.push(command);
    assert(commands.deep_view() =~= before.push(added));
}

fn with_address(start: &str, current: &HyprClient) -> (r: String)
    ensures
        r@ == on_window(start@, current@),
{
    let here = "address:".to_owned().concat(current.address.as_str());
    start.to_owned().concat(here.as_str())
}

fn pixel_command(start: &str, first: i32, second: i32, current: &HyprClient) -> (r: String)
    ensures
        r@ == in_pixels(start@, (first as int, second as int), current@),
{
    let a = text::number_text(first as i64);
    let b = text::number_text(second as i64);
    let here = "address:".to_owned().concat(current.address.as_str());
    start.to_owned().concat(a.as_str()).concat(" ").concat(b.as_str()).concat(",").concat(
        here.as_str(),
    )
}

fn push_unpin(commands: &mut Vec<String>, target: &SessionClient, current: &HyprClient)
    ensures
        final(commands).deep_view() == old(commands).deep_view() + unpin_part(target@, current@),
{
    if current.pinned && !target.pinned {
        push_command(commands, with_address("pin ", current));
    }
    assert(commands.deep_view() =~= old(commands).deep_view() + unpin_part(target@, current@));
}

fn push_leave_fullscreen(commands: &mut Vec<String>, target: &SessionClient, current: &HyprClient)
    ensures
        final(commands).deep_view() == old(commands).deep_view() + leave_fullscreen_part(
            target@,
            current@,
        ),
{
    if current.fullscreen > 0 && target.fullscreen == 0 {
        push_command(commands, with_address("focuswindow ", current));
        push_command(commands, "fullscreenstate 0 0".to_owned());
    }
    assert(commands.deep_view() =~= old(commands).deep_view() + leave_fullscreen_part(
        target@,
        current@,
    ));
}

fn push_workspace(commands: &mut Vec<String>, target: &SessionClient, current: &HyprClient)
    ensures
        final(commands).deep_view() == old(commands).deep_view() + workspace_part(
            target@,
            current@,
        ),
{
    if !workspace_matches(target, current) {
        let chosen = workspace_selector(target);
        let token = quote_dispatch_token(chosen.as_str());
        let start = "movetoworkspacesilent ".to_owned().concat(token.as_str()).concat(",");
        push_command(commands, with_address(start.as_str(), current));
    }
    assert(commands.deep_view() =~= old(commands).deep_view() + workspace_part(target@, current@));
}

fn push_monitor(
    commands: &mut Vec<String>,
    target: &SessionClient,
    current: &HyprClient,
    current_monitor: Option<&str>,
    available: bool,
)
    ensures
        final(commands).deep_view() == old(commands).deep_view() + monitor_part(
            target@,
            current@,
            match current_monitor {
                Some(monitor) => Some(monitor@),
                None => None,
            },
            available,
        ),
{
    let ghost monitor_view = match current_monitor {
        Some(monitor) => Some(monitor@),
        None => None,
    };
    let mismatch = available && !target.monitor.as_str().is_empty() && match current_monitor {
        Some(monitor) => !text::eq_ignore_case(monitor, target.monitor.as_str()),
        None => false,
    };
    if mismatch {
        let mut more = monitor_move_commands(target.monitor.as_str(), current.address.as_str());
        let ghost before = commands.deep_view();
        let ghost added = more.deep_view();
        commands.append(&mut more);
        assert(commands.deep_view() =~= before + added);
    }
    assert(commands.deep_view() =~= old(commands).deep_view() + monitor_part(
        target@,
        current@,
        monitor_view,
        available,
    ));
}

fn push_floating(commands: &mut Vec<String>, target: &SessionClient, current: &HyprClient)
    ensures
        final(commands).deep_view() == old(commands).deep_view() + floating_part(target@, current@),
{
    if current.floating != target.floating {
        push_command(commands, with_address("togglefloating ", current));
    }
    assert(commands.deep_view() =~= old(commands).deep_view() + floating_part(target@, current@));
}

fn geometry_applies(target: &SessionClient, available: bool) -> (r: bool)
    ensures
        r == has_geometry(target@, available),
{
    target.fullscreen == 0 && (target.monitor.as_str().is_empty() || available)
}

fn push_size(
    commands: &mut Vec<String>,
    target: &SessionClient,
    current: &HyprClient,
    geometry: ReconcileGeometry,
)
    ensures
        final(commands).deep_view() == old(commands).deep_view() + size_part(
            target@,
            current@,
            geometry@,
        ),
{
    let wanted = geometry.desired_size;
    if geometry_applies(target, geometry.target_monitor_available) && (current.size[0] != wanted[0]
        || current.size[1] != wanted[1]) {
        push_command(
            commands,
            pixel_command("resizewindowpixel exact ", wanted[0], wanted[1], current),
        );
    }
    assert(commands.deep_view() =~= old(commands).deep_view() + size_part(
        target@,
        current@,
        geometry@,
    ));
}

fn push_place(
    commands: &mut Vec<String>,
    target: &SessionClient,
    current: &HyprClient,
    geometry: ReconcileGeometry,
)
    ensures
        final(commands).deep_view() == old(commands).deep_view() + place_part(
            target@,
            current@,
            geometry@,
        ),
{
    let wanted = geometry.desired_at;
    if geometry_applies(target, geometry.target_monitor_available) && (current.at[0] != wanted[0]
        || current.at[1] != wanted[1]) {
        push_command(
            commands,
            pixel_command("movewindowpixel exact ", wanted[0], wanted[1], current),
        );
    }
    assert(commands.deep_view() =~= old(commands).deep_view() + place_part(
        target@,
        current@,
        geometry@,
    ));
}

fn push_enter_fullscreen(commands: &mut Vec<String>, target: &SessionClient, current: &HyprClient)
    ensures
        final(commands).deep_view() == old(commands).deep_view() + enter_fullscreen_part(
            target@,
            current@,
        ),
{
    if target.fullscreen > 0 && current.fullscreen != target.fullscreen {
        push_command(commands, with_address("focuswindow ", current));
        let state = text::number_text(target.fullscreen as i64);
        push_command(
            commands,
            "fullscreenstate ".to_owned().concat(state.as_str()).concat(" ").concat(state.as_str()),
        );
    }
    assert(commands.deep_view() =~= old(commands).deep_view() + enter_fullscreen_part(
        target@,
        current@,
    ));
}

fn push_pin(commands: &mut Vec<String>, target: &SessionClient, current: &HyprClient)
    ensures
        final(commands).deep_view() == old(commands).deep_view() + pin_part(target@, current@),
{
    if !current.pinned && target.pinned {
        push_command(commands, with_address("pin ", current));
    }
    assert(commands.deep_view() =~= old(commands).deep_view() + pin_part(target@, current@));
}

/// The operations for a given place and size.
pub fn build_reconcile_dispatch_commands_with_geometry(
    target: &SessionClient,
    current: &HyprClient,
    current_monitor: Option<&str>,
    geometry: ReconcileGeometry,
) -> (r: Vec<String>)
    ensures
        r.deep_view() == reconcile_commands(
            target@,
            current@,
            match current_monitor {
                Some(monitor) => Some(monitor@),
                None => None,
            },
            geometry@,
        ),
{
    let mut commands: Vec<String> = Vec::new();
    assert(commands.deep_view() + unpin_part(target@, current@) =~= unpin_part(target@, current@));
    push_unpin(&mut commands, target, current);
    push_leave_fullscreen(&mut commands, target, current);
    push_workspace(&mut commands, target, current);
    push_monitor(
        &mut commands,
        target,
        current,
        current_monitor,
        geometry.target_monitor_available,
    );
    push_floating(&mut commands, target, current);
    push_size(&mut commands, target, current, geometry);
    push_place(&mut commands, target, current, geometry);
    push_enter_fullscreen(&mut commands, target, current);
    push_pin(&mut commands, target, current);
    commands
}

} // verus!
