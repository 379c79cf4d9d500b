//! Windows that move between monitors stay on them.

use crate::hyprctl::HyprMonitorView;
use crate::placement;
use crate::placement::Rect;
use crate::session::{MonitorView, SessionClientView};
use crate::text;
use vstd::prelude::*;

verus! {

/// Taking a rotation away and applying it again gives the same rectangle, and
/// the other way round.
pub proof fn law_rotation_is_undone(r: Rect, width: int, height: int, transform: u32)
    ensures
        placement::rotated(
            placement::unrotated(r, width, height, transform),
            width,
            height,
            transform,
        ) == r,
        placement::unrotated(
            placement::rotated(r, width, height, transform),
            width,
            height,
            transform,
        ) == r,
{
}

proof fn lemma_ratio_of_one(value: int, d: int)
    requires
        d >= 1,
    ensures
        placement::rounded_ratio(value, d, d) == value,
{
    let product = value * d;
    assert(product < 0 <==> value < 0) by (nonlinear_arith)
        requires
            d >= 1,
            product == value * d,
    ;
    if product < 0 {
        assert((-product + d / 2) / d == -value) by (nonlinear_arith)
            requires
                d >= 1,
                product == value * d,
        ;
    } else {
        assert((product + d / 2) / d == value) by (nonlinear_arith)
            requires
                d >= 1,
                product == value * d,
        ;
    }
}

/// The current monitor is the saved one, in the same place.
pub open spec fn is_unchanged(saved: MonitorView, current: HyprMonitorView) -> bool {
    &&& saved.width == current.width
    &&& saved.height == current.height
    &&& saved.transform == current.transform
    &&& saved.x == current.x
    &&& saved.y == current.y
}

/// A window lies on a monitor.
pub open spec fn lies_on(window: SessionClientView, monitor: HyprMonitorView) -> bool {
    let shown = placement::displayed(monitor);
    &&& monitor.x is Some && monitor.y is Some
    &&& window.size.0 >= 1 && window.size.1 >= 1
    &&& monitor.x->0 <= window.at.0
    &&& window.at.0 + window.size.0 <= monitor.x->0 + shown.0
    &&& monitor.y->0 <= window.at.1
    &&& window.at.1 + window.size.1 <= monitor.y->0 + shown.1
}

/// The rotation of a monitor is followed, or a window is no longer than the
/// monitor without any rotation.
pub open spec fn keeps_extent(window: SessionClientView, monitor: HyprMonitorView) -> bool {
    monitor.transform < 4 || (window.size.0 <= monitor.width && window.size.1 <= monitor.height)
}

/// The far edges of a monitor have coordinates of 32 bits.
pub open spec fn is_in_range(monitor: HyprMonitorView) -> bool {
    let shown = placement::displayed(monitor);
    &&& shown.0 <= i32::MAX
    &&& shown.1 <= i32::MAX
    &&& monitor.x->0 + shown.0 <= i32::MAX
    &&& monitor.y->0 + shown.1 <= i32::MAX
}

/// On an unchanged monitor a window that lies on it keeps its geometry.  Where
/// the rotation is none of the four turns, it must not be longer than the
/// unturned monitor.
pub proof fn law_unchanged_monitor_keeps_geometry(
    target: SessionClientView,
    saved: MonitorView,
    current: HyprMonitorView,
)
    requires
        placement::saved_is_usable(saved),
        placement::current_is_usable(current),
        is_unchanged(saved, current),
        is_in_range(current),
        lies_on(target, current),
        keeps_extent(target, current),
    ensures
        placement::adapted_to(target, saved, current) == target,
{
    let r = placement::relative_rect(target, saved);
    let w = current.width as int;
    let h = current.height as int;
    let plain = if saved.transform < 4 {
        placement::unrotated(r, w, h, saved.transform)
    } else {
        r
    };
    lemma_ratio_of_one(plain.x, w);
    lemma_ratio_of_one(plain.y, h);
    lemma_ratio_of_one(plain.width, w);
    lemma_ratio_of_one(plain.height, h);
    law_rotation_is_undone(r, w, h, saved.transform);
    assert(placement::carried_over(r, saved, current) == r);
}

/// A window that is adapted to a monitor lies on it.  Where a rotation is none
/// of the four turns and swaps the sides of the monitor, the adapted window
/// must not be longer than what the monitor shows.
pub proof fn law_adapted_window_lies_on_the_monitor(
    target: SessionClientView,
    saved: MonitorView,
    current: HyprMonitorView,
)
    requires
        placement::saved_is_usable(saved),
        placement::current_is_usable(current),
        is_in_range(current),
        (saved.transform < 4 && current.transform < 4) || current.transform % 2 == 0 || {
            let size = placement::adapted_to(target, saved, current).size;
            let shown = placement::displayed(current);
            size.0 <= shown.0 && size.1 <= shown.1
        },
    ensures
        lies_on(placement::adapted_to(target, saved, current), current),
{
    let r = placement::relative_rect(target, saved);
    let turns = saved.transform < 4 && current.transform < 4;
    let placed = placement::carried_over(r, saved, current);
    let shown = placement::displayed(current);
    assert(1 <= placed.width <= shown.0);
    assert(1 <= placed.height <= shown.1);
}

/// Geometry is the only thing that adapting changes.
pub proof fn law_adapting_changes_geometry_only(
    target: SessionClientView,
    saved_monitors: Seq<MonitorView>,
    current: Option<HyprMonitorView>,
)
    ensures
        ({
            let r = placement::adapted(target, saved_monitors, current);
            r == SessionClientView { at: r.at, size: r.size, ..target }
        }),
{
}

// ── Scale ──────────────────────────────────────────────────────────────────

/// The saved monitor of a window: the first with its name, up to case.
pub open spec fn is_saved_monitor(
    monitors: Seq<MonitorView>,
    name: Seq<char>,
    i: int,
) -> bool {
    &&& 0 <= i < monitors.len()
    &&& text::same_ignoring_case(monitors[i].name, name)
    &&& forall|k: int|
        0 <= k < i ==> !text::same_ignoring_case(#[trigger] monitors[k].name, name)
}

proof fn lemma_saved_monitor(monitors: Seq<MonitorView>, name: Seq<char>, i: int)
    requires
        is_saved_monitor(monitors, name, i),
    ensures
        placement::saved_monitor_named(monitors, name) == Some(monitors[i]),
    decreases monitors.len(),
{
    if i > 0 {
        let rest = monitors.drop_first();
        assert(!text::same_ignoring_case(monitors[0].name, name));
        assert(rest[i - 1] == monitors[i]);
        assert forall|k: int| 0 <= k < i - 1 implies !text::same_ignoring_case(
            #[trigger] rest[k].name,
            name,
        ) by {
            assert(rest[k] == monitors[k + 1]);
        }
        lemma_saved_monitor(rest, name, i - 1);
    }
}

/// The distance of two numbers.
pub open spec fn apart(a: int, b: int) -> int {
    if a >= b {
        a - b
    } else {
        b - a
    }
}

/// A number scaled by a ratio is the nearest integer: off by half a unit at
/// most.
pub proof fn law_scaling_rounds_to_the_nearest(value: int, numerator: int, denominator: int)
    requires
        denominator >= 1,
    ensures
        2 * apart(
            placement::rounded_ratio(value, numerator, denominator) * denominator,
            value * numerator,
        ) <= denominator,
{
    let product = value * numerator;
    let d = denominator;
    let q = placement::rounded_ratio(value, numerator, d);
    if product < 0 {
        let n = -product + d / 2;
        let m = n / d;
        assert(n == d * m + n % d && 0 <= n % d < d) by (nonlinear_arith)
            requires
                d >= 1,
                m == n / d,
        ;
        assert(q * d == -(d * m)) by (nonlinear_arith)
            requires
                q == -m,
        ;
    } else {
        let n = product + d / 2;
        let m = n / d;
        assert(n == d * m + n % d && 0 <= n % d < d) by (nonlinear_arith)
            requires
                d >= 1,
                m == n / d,
        ;
        assert(q * d == d * m) by (nonlinear_arith)
            requires
                q == m,
        ;
    }
}

/// Along one axis: a place and a length, saved on an extent and fitted into
/// another one.
proof fn lemma_axis(
    place: int,
    length: int,
    before: int,
    origin: int,
    after: int,
    new_place: int,
    new_length: int,
)
    requires
        before >= 1,
        after >= 1,
        length >= 1,
        i32::MIN <= origin,
        origin + after <= i32::MAX,
        after <= i32::MAX,
        new_length == placement::scaled_length(length, after, before),
        new_place == placement::fitted(
            origin + placement::rounded_ratio(place, after, before),
            origin,
            after,
            new_length,
        ),
    ensures
        1 <= new_length <= after,
        origin <= new_place,
        new_place + new_length <= origin + after,
        new_length == after || (new_length == 1 && length * after <= before) || 2 * apart(
            new_length * before,
            length * after,
        ) <= before,
        length <= before ==> (new_length == 1 && length * after <= before) || 2 * apart(
            new_length * before,
            length * after,
        ) <= before,
        origin < new_place && new_place + new_length < origin + after ==> 2 * apart(
            (new_place - origin) * before,
            place * after,
        ) <= before,
        0 <= place && place + length <= before ==> 2 * apart(
            (new_place - origin) * before,
            place * after,
        ) <= 3 * before,
        before == after && length <= before ==> new_length == length,
        before == after && 0 <= place && place + length <= before ==> new_place - origin == place
            && new_length == length,
{
    let q = placement::rounded_ratio(place, after, before);
    let l = placement::rounded_ratio(length, after, before);
    law_scaling_rounds_to_the_nearest(place, after, before);
    law_scaling_rounds_to_the_nearest(length, after, before);
    assert(l * before >= 0 ==> l >= 0) by (nonlinear_arith)
        requires
            before >= 1,
    ;
    assert(length * after >= 1) by (nonlinear_arith)
        requires
            length >= 1,
            after >= 1,
    ;
    if l < 1 {
        assert(l * before <= 0) by (nonlinear_arith)
            requires
                l <= 0,
                before >= 1,
        ;
        assert(length * after <= before);
    }
    if length <= before && l > after {
        assert(l * before >= after * before + before) by (nonlinear_arith)
            requires
                l >= after + 1,
                before >= 1,
        ;
        assert(length * after <= before * after) by (nonlinear_arith)
            requires
                length <= before,
                after >= 1,
        ;
        assert(after * before == before * after) by (nonlinear_arith);
    }
    if 0 <= place && place + length <= before {
        assert(place * after >= 0) by (nonlinear_arith)
            requires
                place >= 0,
                after >= 1,
        ;
        if q < 0 {
            assert(q * before <= -before) by (nonlinear_arith)
                requires
                    q <= -1,
                    before >= 1,
            ;
        }
        assert(q >= 0);
        assert((place + length) * after <= before * after) by (nonlinear_arith)
            requires
                place + length <= before,
                after >= 1,
        ;
        assert((place + length) * after == place * after + length * after) by (nonlinear_arith);
        let high = placement::max(after - new_length, 0);
        if q > high {
            lemma_far_edge(place, length, before, after, q, l, new_length);
        }
    }
    if before == after {
        lemma_ratio_of_one(place, before);
        lemma_ratio_of_one(length, before);
    }
}

/// Rounding pushes a window over the far edge by one pixel at most.
proof fn lemma_far_edge(
    place: int,
    length: int,
    before: int,
    after: int,
    q: int,
    l: int,
    new_length: int,
)
    requires
        before >= 1,
        after >= 1,
        length >= 1,
        place >= 0,
        place + length <= before,
        place * after + length * after <= before * after,
        2 * apart(q * before, place * after) <= before,
        2 * apart(l * before, length * after) <= before,
        1 <= new_length <= after,
        new_length == placement::clamped(l, 1, placement::max(1, after)),
        q > after - new_length,
    ensures
        2 * apart((after - new_length) * before, place * after) <= 3 * before,
{
    let high = after - new_length;
    assert(high * before == after * before - new_length * before) by (nonlinear_arith)
        requires
            high == after - new_length,
    ;
    assert(after * before == before * after) by (nonlinear_arith);
    assert(high * before <= q * before - before) by (nonlinear_arith)
        requires
            high <= q - 1,
            before >= 1,
    ;
    // From below: the place is at most what the length leaves.
    if new_length == l {
        assert(new_length * before == l * before) by (nonlinear_arith)
            requires
                new_length == l,
        ;
        assert(2 * (place * after) <= 2 * (high * before) + before);
    } else if l < 1 {
        assert(new_length == 1);
        assert(new_length * before == before) by (nonlinear_arith)
            requires
                new_length == 1,
        ;
        assert(length * after >= 0) by (nonlinear_arith)
            requires
                length >= 1,
                after >= 1,
        ;
        assert(place * after <= high * before + before);
    } else {
        assert(new_length == after);
        assert(l * before >= after * before + before) by (nonlinear_arith)
            requires
                l >= after + 1,
                before >= 1,
        ;
        assert(length * after <= before * after);
    }
    // From above: the fitted place lies before the scaled one.
    assert(2 * (high * before) <= 2 * (place * after) + before);
}

/// Between monitors that are not rotated each axis is scaled by its own ratio,
/// widths by the widths of the monitors and heights by their heights.  The
/// distance of a window from the edge of its monitor, and its length, are the
/// nearest pixels to the scaled ones, as far as the monitor has room.
pub proof fn law_each_axis_is_scaled_by_its_own_ratio(
    target: SessionClientView,
    saved_monitors: Seq<MonitorView>,
    i: int,
    current: HyprMonitorView,
)
    requires
        is_saved_monitor(saved_monitors, target.monitor, i),
        placement::saved_is_usable(saved_monitors[i]),
        placement::current_is_usable(current),
        saved_monitors[i].transform == 0,
        current.transform == 0,
        is_in_range(current),
        target.size.0 >= 1,
        target.size.1 >= 1,
    ensures
        ({
            let saved = saved_monitors[i];
            let r = placement::adapted(target, saved_monitors, Some(current));
            let x = target.at.0 - saved.x->0;
            let y = target.at.1 - saved.y->0;
            let new_x = r.at.0 - current.x->0;
            let new_y = r.at.1 - current.y->0;
            let (w, h) = (saved.width as int, saved.height as int);
            let (new_w, new_h) = (current.width as int, current.height as int);
            &&& 0 < new_x && new_x + r.size.0 < new_w ==> 2 * apart(new_x * w, x * new_w) <= w
            &&& 0 < new_y && new_y + r.size.1 < new_h ==> 2 * apart(new_y * h, y * new_h) <= h
            &&& 0 <= x && x + target.size.0 <= w ==> 2 * apart(new_x * w, x * new_w) <= 3 * w
            &&& 0 <= y && y + target.size.1 <= h ==> 2 * apart(new_y * h, y * new_h) <= 3 * h
            &&& target.size.0 <= w ==> (r.size.0 == 1 && target.size.0 * new_w <= w) || 2 * apart(
                r.size.0 * w,
                target.size.0 * new_w,
            ) <= w
            &&& target.size.1 <= h ==> (r.size.1 == 1 && target.size.1 * new_h <= h) || 2 * apart(
                r.size.1 * h,
                target.size.1 * new_h,
            ) <= h
        }),
{
    let saved = saved_monitors[i];
    lemma_saved_monitor(saved_monitors, target.monitor, i);
    let r = placement::adapted(target, saved_monitors, Some(current));
    assert(r == placement::adapted_to(target, saved, current));
    lemma_axis(
        target.at.0 - saved.x->0,
        target.size.0,
        saved.width as int,
        current.x->0 as int,
        current.width as int,
        r.at.0,
        r.size.0,
    );
    lemma_axis(
        target.at.1 - saved.y->0,
        target.size.1,
        saved.height as int,
        current.y->0 as int,
        current.height as int,
        r.at.1,
        r.size.1,
    );
}

/// Monitors of one height keep the height of a window and its distance from
/// the upper edge, whatever their widths; monitors of one width keep its width
/// and its distance from the left edge.
pub proof fn law_equal_extents_keep_their_axis(
    target: SessionClientView,
    saved_monitors: Seq<MonitorView>,
    i: int,
    current: HyprMonitorView,
)
    requires
        is_saved_monitor(saved_monitors, target.monitor, i),
        placement::saved_is_usable(saved_monitors[i]),
        placement::current_is_usable(current),
        saved_monitors[i].transform == 0,
        current.transform == 0,
        is_in_range(current),
        target.size.0 >= 1,
        target.size.1 >= 1,
    ensures
        ({
            let saved = saved_monitors[i];
            let r = placement::adapted(target, saved_monitors, Some(current));
            let x = target.at.0 - saved.x->0;
            let y = target.at.1 - saved.y->0;
            &&& saved.width == current.width && 0 <= x && x + target.size.0 <= saved.width ==> r.at.0
                - current.x->0 == x && r.size.0 == target.size.0
            &&& saved.height == current.height && 0 <= y && y + target.size.1 <= saved.height
                ==> r.at.1 - current.y->0 == y && r.size.1 == target.size.1
        }),
{
    let saved = saved_monitors[i];
    lemma_saved_monitor(saved_monitors, target.monitor, i);
    let r = placement::adapted(target, saved_monitors, Some(current));
    assert(r == placement::adapted_to(target, saved, current));
    lemma_axis(
        target.at.0 - saved.x->0,
        target.size.0,
        saved.width as int,
        current.x->0 as int,
        current.width as int,
        r.at.0,
        r.size.0,
    );
    lemma_axis(
        target.at.1 - saved.y->0,
        target.size.1,
        saved.height as int,
        current.y->0 as int,
        current.height as int,
        r.at.1,
        r.size.1,
    );
}

// ── Rotation ───────────────────────────────────────────────────────────────

/// A quarter turn of the monitor brings its left edge to the top: what stood
/// at a distance from the left stands at that distance from the top, and what
/// stood at a distance from the top stands at that distance from the right.
/// Two quarter turns make a half turn, and three make the last transform.
pub proof fn law_turns_of_a_monitor(r: Rect, width: int, height: int)
    ensures
        ({
            let turned = placement::rotated(r, width, height, 1);
            &&& turned.y == r.x
            &&& height - (turned.x + turned.width) == r.y
            &&& turned.width == r.height
            &&& turned.height == r.width
            &&& placement::rotated(turned, height, width, 1) == placement::rotated(
                r,
                width,
                height,
                2,
            )
            &&& placement::rotated(placement::rotated(turned, height, width, 1), width, height, 1)
                == placement::rotated(r, width, height, 3)
            &&& placement::rotated(r, width, height, 0) == r
        }),
{
}

/// A monitor that is turned takes its windows along: on a monitor that keeps
/// its own extent and place, a quarter turn brings a window as far from the
/// right edge as it was from the upper one and as far from the top as it was
/// from the left, with its sides exchanged; a half turn brings it as far from
/// the far edges as it was from the near ones; a turn back undoes the first.
pub proof fn law_turned_monitor_takes_windows_along(
    target: SessionClientView,
    saved_monitors: Seq<MonitorView>,
    i: int,
    current: HyprMonitorView,
)
    requires
        is_saved_monitor(saved_monitors, target.monitor, i),
        placement::saved_is_usable(saved_monitors[i]),
        placement::current_is_usable(current),
        saved_monitors[i].width == current.width,
        saved_monitors[i].height == current.height,
        is_in_range(current),
        target.size.0 >= 1,
        target.size.1 >= 1,
        saved_monitors[i].x->0 <= target.at.0,
        saved_monitors[i].y->0 <= target.at.1,
    ensures
        ({
            let saved = saved_monitors[i];
            let r = placement::adapted(target, saved_monitors, Some(current));
            let (w, h) = (current.width as int, current.height as int);
            let left = target.at.0 - saved.x->0;
            let top = target.at.1 - saved.y->0;
            let new_left = r.at.0 - current.x->0;
            let new_top = r.at.1 - current.y->0;
            &&& saved.transform == 0 && current.transform == 1 && left + target.size.0 <= w && top
                + target.size.1 <= h ==> {
                &&& r.size == (target.size.1, target.size.0)
                &&& new_top == left
                &&& h - (new_left + r.size.0) == top
            }
            &&& saved.transform == 0 && current.transform == 2 && left + target.size.0 <= w && top
                + target.size.1 <= h ==> {
                &&& r.size == target.size
                &&& w - (new_left + r.size.0) == left
                &&& h - (new_top + r.size.1) == top
            }
            &&& saved.transform == 0 && current.transform == 3 && left + target.size.0 <= w && top
                + target.size.1 <= h ==> {
                &&& r.size == (target.size.1, target.size.0)
                &&& new_left == top
                &&& w - (new_top + r.size.1) == left
            }
            &&& saved.transform == 1 && current.transform == 0 && left + target.size.0 <= h && top
                + target.size.1 <= w ==> {
                &&& r.size == (target.size.1, target.size.0)
                &&& new_left == top
                &&& h - (new_top + r.size.1) == left
            }
            &&& saved.transform == 3 && current.transform == 0 && left + target.size.0 <= h && top
                + target.size.1 <= w ==> {
                &&& r.size == (target.size.1, target.size.0)
                &&& new_top == left
                &&& w - (new_left + r.size.0) == top
            }
        }),
{
    let saved = saved_monitors[i];
    lemma_saved_monitor(saved_monitors, target.monitor, i);
    let w = current.width as int;
    let h = current.height as int;
    let rect = placement::relative_rect(target, saved);
    let plain = placement::unrotated(rect, w, h, saved.transform);
    lemma_ratio_of_one(plain.x, w);
    lemma_ratio_of_one(plain.y, h);
    lemma_ratio_of_one(plain.width, w);
    lemma_ratio_of_one(plain.height, h);
}

/// A window whose monitor was not saved, is gone, or has no known extent keeps
/// its geometry.
pub proof fn law_unknown_monitors_change_nothing(
    target: SessionClientView,
    saved_monitors: Seq<MonitorView>,
    current: Option<HyprMonitorView>,
)
    requires
        current is None || current->0.x is None || current->0.y is None || current->0.width == 0
            || current->0.height == 0 || forall|k: int|
            0 <= k < saved_monitors.len() ==> !text::same_ignoring_case(
                #[trigger] saved_monitors[k].name,
                target.monitor,
            ),
    ensures
        placement::adapted(target, saved_monitors, current) == target,
{
    lemma_no_saved_monitor(saved_monitors, target.monitor);
}

proof fn lemma_no_saved_monitor(monitors: Seq<MonitorView>, name: Seq<char>)
    ensures
        (forall|k: int|
            0 <= k < monitors.len() ==> !text::same_ignoring_case(
                #[trigger] monitors[k].name,
                name,
            )) ==> placement::saved_monitor_named(monitors, name) is None,
    decreases monitors.len(),
{
    if monitors.len() > 0 {
        let rest = monitors.drop_first();
        lemma_no_saved_monitor(rest, name);
        if forall|k: int|
            0 <= k < monitors.len() ==> !text::same_ignoring_case(
                #[trigger] monitors[k].name,
                name,
            ) {
            assert(!text::same_ignoring_case(monitors[0].name, name));
            assert forall|k: int| 0 <= k < rest.len() implies !text::same_ignoring_case(
                #[trigger] rest[k].name,
                name,
            ) by {
                assert(rest[k] == monitors[k + 1]);
            }
        }
    }
}

} // verus!
