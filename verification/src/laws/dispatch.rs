//! What is written for a dispatcher is read back as it was meant.

use crate::hyprctl;
use crate::hyprctl::{HyprClientView, HyprctlError, Reader};
use crate::placement;
use crate::placement::ReconcileGeometryView;
use crate::restore::launched;
use crate::session::SessionClientView;
use crate::text;
use vstd::prelude::*;

verus! {

pub(crate) proof fn lemma_read_concat(reader: Reader, a: Seq<char>, b: Seq<char>)
    ensures
        hyprctl::read_text(reader, a + b) == hyprctl::read_text(hyprctl::read_text(reader, a), b),
    decreases b.len(),
{
    if b.len() == 0 {
        assert(a + b =~= a);
    } else {
        assert((a + b).drop_last() =~= a + b.drop_last());
        lemma_read_concat(reader, a, b.drop_last());
    }
}

pub(crate) proof fn lemma_read_one(reader: Reader, c: char)
    ensures
        hyprctl::read_text(reader, seq![c]) == hyprctl::read_char(reader, c),
{
    assert(seq![c].drop_last() =~= Seq::<char>::empty());
    assert(hyprctl::read_text(reader, Seq::<char>::empty()) == reader);
}

pub(crate) proof fn lemma_read_plain(reader: Reader, s: Seq<char>)
    requires
        !reader.escaped,
        reader.quote is None,
        placement::all_plain(s),
    ensures
        hyprctl::read_text(reader, s) == (Reader {
            current: reader.current + s,
            started: reader.started || s.len() > 0,
            ..reader
        }),
    decreases s.len(),
{
    if s.len() == 0 {
        assert(reader.current + s =~= reader.current);
    } else {
        assert(placement::all_plain(s.drop_last())) by {
            assert forall|i: int| 0 <= i < s.drop_last().len() implies placement::is_plain(
                #[trigger] s.drop_last()[i],
            ) by {
                assert(placement::is_plain(s[i]));
            }
        }
        lemma_read_plain(reader, s.drop_last());
        assert(placement::is_plain(s[s.len() - 1]));
        assert((reader.current + s.drop_last()).push(s.last()) =~= reader.current + s);
    }
}

// ── Replacing one character ────────────────────────────────────────────────

spec fn instead(c: char, from: char, to: Seq<char>) -> Seq<char> {
    if c == from {
        to
    } else {
        seq![c]
    }
}

proof fn lemma_replaced_step(s: Seq<char>, from: char, to: Seq<char>)
    requires
        s.len() > 0,
    ensures
        text::replaced(s, seq![from], to) == instead(s[0], from, to) + text::replaced(
            s.drop_first(),
            seq![from],
            to,
        ),
{
    assert(s.subrange(0, 1) =~= seq![s[0]]);
    assert(s.skip(1) =~= s.drop_first());
    assert(text::occurs_at(s, seq![from], 0) <==> s[0] == from) by {
        assert(seq![from][0] == from);
        assert(s.subrange(0, 1)[0] == s[0]);
    }
}

proof fn lemma_replaced_concat(a: Seq<char>, b: Seq<char>, from: char, to: Seq<char>)
    ensures
        text::replaced(a + b, seq![from], to) == text::replaced(a, seq![from], to)
            + text::replaced(b, seq![from], to),
    decreases a.len(),
{
    if a.len() == 0 {
        assert(a + b =~= b);
        assert(text::replaced(a, seq![from], to) =~= Seq::<char>::empty());
        assert(Seq::<char>::empty() + text::replaced(b, seq![from], to) =~= text::replaced(
            b,
            seq![from],
            to,
        ));
    } else {
        lemma_replaced_step(a + b, from, to);
        lemma_replaced_step(a, from, to);
        assert((a + b).drop_first() =~= a.drop_first() + b);
        lemma_replaced_concat(a.drop_first(), b, from, to);
        assert(instead(a[0], from, to) + (text::replaced(a.drop_first(), seq![from], to)
            + text::replaced(b, seq![from], to)) =~= (instead(a[0], from, to) + text::replaced(
            a.drop_first(),
            seq![from],
            to,
        )) + text::replaced(b, seq![from], to));
    }
}

/// What stands between the quotes of a quoted text.
spec fn inside_quotes(s: Seq<char>) -> Seq<char> {
    text::replaced(
        text::replaced(s, seq!['\\'], seq!['\\', '\\']),
        seq!['\''],
        seq!['\'', '\\', '\'', '\''],
    )
}

spec fn written(c: char) -> Seq<char> {
    if c == '\\' {
        seq!['\\', '\\']
    } else if c == '\'' {
        seq!['\'', '\\', '\'', '\'']
    } else {
        seq![c]
    }
}

proof fn lemma_replaced_char(c: char, from: char, to: Seq<char>)
    ensures
        text::replaced(seq![c], seq![from], to) == instead(c, from, to),
{
    lemma_replaced_step(seq![c], from, to);
    assert(seq![c].drop_first() =~= Seq::<char>::empty());
    assert(instead(c, from, to) + Seq::<char>::empty() =~= instead(c, from, to));
}

proof fn lemma_inside_step(s: Seq<char>)
    requires
        s.len() > 0,
    ensures
        inside_quotes(s) == written(s[0]) + inside_quotes(s.drop_first()),
{
    let double = seq!['\\', '\\'];
    let close = seq!['\'', '\\', '\'', '\''];
    lemma_replaced_step(s, '\\', double);
    let head = instead(s[0], '\\', double);
    lemma_replaced_concat(head, text::replaced(s.drop_first(), seq!['\\'], double), '\'', close);
    if s[0] == '\\' {
        assert(double =~= seq!['\\'] + seq!['\\']);
        lemma_replaced_concat(seq!['\\'], seq!['\\'], '\'', close);
        lemma_replaced_char('\\', '\'', close);
        assert(text::replaced(double, seq!['\''], close) =~= double);
    } else {
        lemma_replaced_char(s[0], '\'', close);
    }
}

proof fn lemma_read_written(reader: Reader, c: char)
    requires
        !reader.escaped,
        reader.quote == Some('\''),
    ensures
        hyprctl::read_text(reader, written(c)) == (Reader {
            current: reader.current.push(c),
            started: true,
            ..reader
        }),
{
    if c == '\\' {
        assert(written(c) =~= seq!['\\'] + seq!['\\']);
        lemma_read_concat(reader, seq!['\\'], seq!['\\']);
        lemma_read_one(reader, '\\');
        lemma_read_one(hyprctl::read_char(reader, '\\'), '\\');
    } else if c == '\'' {
        let r1 = hyprctl::read_char(reader, '\'');
        let r2 = hyprctl::read_char(r1, '\\');
        let r3 = hyprctl::read_char(r2, '\'');
        assert(written(c) =~= seq!['\''] + (seq!['\\'] + (seq!['\''] + seq!['\''])));
        lemma_read_concat(reader, seq!['\''], seq!['\\'] + (seq!['\''] + seq!['\'']));
        lemma_read_concat(r1, seq!['\\'], seq!['\''] + seq!['\'']);
        lemma_read_concat(r2, seq!['\''], seq!['\'']);
        lemma_read_one(reader, '\'');
        lemma_read_one(r1, '\\');
        lemma_read_one(r2, '\'');
        lemma_read_one(r3, '\'');
    } else {
        lemma_read_one(reader, c);
    }
}

proof fn lemma_read_inside(reader: Reader, s: Seq<char>)
    requires
        !reader.escaped,
        reader.quote == Some('\''),
        reader.started,
    ensures
        hyprctl::read_text(reader, inside_quotes(s)) == (Reader {
            current: reader.current + s,
            ..reader
        }),
    decreases s.len(),
{
    if s.len() == 0 {
        assert(inside_quotes(s) =~= Seq::<char>::empty());
        assert(reader.current + s =~= reader.current);
    } else {
        lemma_inside_step(s);
        lemma_read_concat(reader, written(s[0]), inside_quotes(s.drop_first()));
        lemma_read_written(reader, s[0]);
        let next = Reader { current: reader.current.push(s[0]), started: true, ..reader };
        lemma_read_inside(next, s.drop_first());
        assert(reader.current.push(s[0]) + s.drop_first() =~= reader.current + s);
    }
}

/// Reading a quoted text outside of quotes adds it to the current argument.
pub(crate) proof fn lemma_read_quoted(reader: Reader, s: Seq<char>)
    requires
        !reader.escaped,
        reader.quote is None,
    ensures
        hyprctl::read_text(reader, placement::quoted(s)) == (Reader {
            current: reader.current + s,
            started: reader.started || s.len() > 0,
            ..reader
        }),
{
    if placement::all_plain(s) {
        lemma_read_plain(reader, s);
    } else {
        let q = seq!['\''];
        let r1 = hyprctl::read_char(reader, '\'');
        assert(placement::quoted(s) =~= q + (inside_quotes(s) + q));
        lemma_read_concat(reader, q, inside_quotes(s) + q);
        lemma_read_one(reader, '\'');
        lemma_read_concat(r1, inside_quotes(s), q);
        lemma_read_inside(r1, s);
        lemma_read_one(Reader { current: reader.current + s, ..r1 }, '\'');
    }
}

/// A quoted text is read back as one argument, the text itself.  The empty
/// text is written as nothing and read as no argument.
pub proof fn law_quoted_text_reads_as_one_argument(s: Seq<char>)
    requires
        s.len() > 0,
    ensures
        hyprctl::dispatch_args(placement::quoted(s)) == Ok::<Seq<Seq<char>>, Seq<char>>(seq![s]),
{
    lemma_read_quoted(hyprctl::blank_reader(), s);
    assert(Seq::<char>::empty() + s =~= s);
    assert(Seq::<Seq<char>>::empty().push(s) =~= seq![s]);
}

// ── Well-formed commands ───────────────────────────────────────────────────

/// Neither a quote nor a backslash.
pub open spec fn is_harmless(s: Seq<char>) -> bool {
    forall|i: int|
        0 <= i < s.len() ==> #[trigger] s[i] != '\'' && s[i] != '"' && s[i] != '\\'
}

spec fn is_closed(reader: Reader) -> bool {
    !reader.escaped && reader.quote is None
}

/// A text that leaves no quote and no escape open.
spec fn stays_closed(s: Seq<char>) -> bool {
    forall|reader: Reader|
        is_closed(reader) ==> is_closed(#[trigger] hyprctl::read_text(reader, s))
}

proof fn lemma_harmless_read(reader: Reader, s: Seq<char>)
    requires
        is_harmless(s),
        is_closed(reader),
    ensures
        is_closed(hyprctl::read_text(reader, s)),
    decreases s.len(),
{
    if s.len() > 0 {
        assert(is_harmless(s.drop_last())) by {
            assert forall|i: int| 0 <= i < s.drop_last().len() implies #[trigger] s.drop_last()[i]
                != '\'' && s.drop_last()[i] != '"' && s.drop_last()[i] != '\\' by {
                assert(s.drop_last()[i] == s[i]);
            }
        }
        lemma_harmless_read(reader, s.drop_last());
        assert(s[s.len() - 1] == s.last());
    }
}

proof fn lemma_harmless(s: Seq<char>)
    requires
        is_harmless(s),
    ensures
        stays_closed(s),
{
    assert forall|reader: Reader| is_closed(reader) implies is_closed(
        #[trigger] hyprctl::read_text(reader, s),
    ) by {
        lemma_harmless_read(reader, s);
    }
}

proof fn lemma_closed_concat(a: Seq<char>, b: Seq<char>)
    requires
        stays_closed(a),
        stays_closed(b),
    ensures
        stays_closed(a + b),
{
    assert forall|reader: Reader| is_closed(reader) implies is_closed(
        #[trigger] hyprctl::read_text(reader, a + b),
    ) by {
        lemma_read_concat(reader, a, b);
        assert(is_closed(hyprctl::read_text(reader, a)));
        assert(is_closed(hyprctl::read_text(hyprctl::read_text(reader, a), b)));
    }
}

proof fn lemma_quoted_closed(s: Seq<char>)
    ensures
        stays_closed(placement::quoted(s)),
{
    assert forall|reader: Reader| is_closed(reader) implies is_closed(
        #[trigger] hyprctl::read_text(reader, placement::quoted(s)),
    ) by {
        lemma_read_quoted(reader, s);
    }
}

proof fn lemma_closed_parses(s: Seq<char>)
    requires
        stays_closed(s),
    ensures
        hyprctl::dispatch_args(s) is Ok,
{
    assert(is_closed(hyprctl::blank_reader()));
    assert(is_closed(hyprctl::read_text(hyprctl::blank_reader(), s)));
}

proof fn lemma_digits_harmless(n: nat)
    ensures
        is_harmless(text::digits(n)),
    decreases n,
{
    if n >= 10 {
        lemma_digits_harmless(n / 10);
        let c = (48 + n % 10) as char;
        assert(c as int == 48 + n % 10);
    } else {
        let c = (48 + n) as char;
        assert(c as int == 48 + n);
    }
}

proof fn lemma_decimal_closed(n: int)
    ensures
        stays_closed(text::decimal(n)),
{
    if n < 0 {
        lemma_digits_harmless((-n) as nat);
    } else {
        lemma_digits_harmless(n as nat);
    }
    lemma_harmless(text::decimal(n));
}

proof fn lemma_literals_closed()
    ensures
        stays_closed("pin "@),
        stays_closed("address:"@),
        stays_closed("focuswindow "@),
        stays_closed("focuswindow address:"@),
        stays_closed("fullscreenstate 0 0"@),
        stays_closed("fullscreenstate "@),
        stays_closed("movetoworkspacesilent "@),
        stays_closed(","@),
        stays_closed(" "@),
        stays_closed("movewindow "@),
        stays_closed(" silent"@),
        stays_closed("togglefloating "@),
        stays_closed("resizewindowpixel exact "@),
        stays_closed("movewindowpixel exact "@),
{
    reveal_strlit("pin ");
    reveal_strlit("address:");
    reveal_strlit("focuswindow ");
    reveal_strlit("focuswindow address:");
    reveal_strlit("fullscreenstate 0 0");
    reveal_strlit("fullscreenstate ");
    reveal_strlit("movetoworkspacesilent ");
    reveal_strlit(",");
    reveal_strlit(" ");
    reveal_strlit("movewindow ");
    reveal_strlit(" silent");
    reveal_strlit("togglefloating ");
    reveal_strlit("resizewindowpixel exact ");
    reveal_strlit("movewindowpixel exact ");
    lemma_harmless("pin "@);
    lemma_harmless("address:"@);
    lemma_harmless("focuswindow "@);
    lemma_harmless("focuswindow address:"@);
    lemma_harmless("fullscreenstate 0 0"@);
    lemma_harmless("fullscreenstate "@);
    lemma_harmless("movetoworkspacesilent "@);
    lemma_harmless(","@);
    lemma_harmless(" "@);
    lemma_harmless("movewindow "@);
    lemma_harmless(" silent"@);
    lemma_harmless("togglefloating "@);
    lemma_harmless("resizewindowpixel exact "@);
    lemma_harmless("movewindowpixel exact "@);
}

proof fn lemma_on_window_closed(start: Seq<char>, current: HyprClientView)
    requires
        stays_closed(start),
        is_harmless(current.address),
    ensures
        stays_closed(placement::on_window(start, current)),
{
    lemma_literals_closed();
    lemma_harmless(current.address);
    lemma_closed_concat("address:"@, current.address);
    lemma_closed_concat(start, "address:"@ + current.address);
}

proof fn lemma_in_pixels_closed(start: Seq<char>, numbers: (int, int), current: HyprClientView)
    requires
        stays_closed(start),
        is_harmless(current.address),
    ensures
        stays_closed(placement::in_pixels(start, numbers, current)),
{
    lemma_literals_closed();
    lemma_harmless(current.address);
    lemma_decimal_closed(numbers.0);
    lemma_decimal_closed(numbers.1);
    let a = start + text::decimal(numbers.0);
    lemma_closed_concat(start, text::decimal(numbers.0));
    lemma_closed_concat(a, " "@);
    lemma_closed_concat(a + " "@, text::decimal(numbers.1));
    lemma_closed_concat(a + " "@ + text::decimal(numbers.1), ","@);
    lemma_closed_concat("address:"@, current.address);
    lemma_closed_concat(
        a + " "@ + text::decimal(numbers.1) + ","@,
        "address:"@ + current.address,
    );
}

/// All commands of a list are valid dispatch syntax.
pub open spec fn all_valid(commands: Seq<Seq<char>>) -> bool {
    forall|i: int|
        0 <= i < commands.len() ==> hyprctl::dispatch_args(#[trigger] commands[i]) is Ok
}

proof fn lemma_valid_concat(a: Seq<Seq<char>>, b: Seq<Seq<char>>)
    requires
        all_valid(a),
        all_valid(b),
    ensures
        all_valid(a + b),
{
    assert forall|i: int| 0 <= i < (a + b).len() implies hyprctl::dispatch_args(
        #[trigger] (a + b)[i],
    ) is Ok by {
        if i < a.len() {
            assert((a + b)[i] == a[i]);
        } else {
            assert((a + b)[i] == b[i - a.len()]);
        }
    }
}

proof fn lemma_moves_valid(monitor: Seq<char>, address: Seq<char>)
    requires
        is_harmless(address),
    ensures
        all_valid(placement::monitor_moves(monitor, address)),
{
    lemma_literals_closed();
    lemma_harmless(address);
    lemma_closed_concat("focuswindow address:"@, address);
    lemma_closed_parses("focuswindow address:"@ + address);
    let token = placement::quoted("mon:"@ + monitor);
    lemma_quoted_closed("mon:"@ + monitor);
    lemma_closed_concat("movewindow "@, token);
    lemma_closed_concat("movewindow "@ + token, " silent"@);
    lemma_closed_parses("movewindow "@ + token + " silent"@);
}

/// Every command for an open window is valid dispatch syntax, whatever the
/// names of its workspace and monitor, as long as its address holds neither a
/// quote nor a backslash.
pub proof fn law_reconcile_commands_are_valid(
    target: SessionClientView,
    current: HyprClientView,
    current_monitor: Option<Seq<char>>,
    geometry: ReconcileGeometryView,
)
    requires
        is_harmless(current.address),
    ensures
        all_valid(placement::reconcile_commands(target, current, current_monitor, geometry)),
{
    lemma_literals_closed();
    lemma_on_window_closed("pin "@, current);
    lemma_closed_parses(placement::on_window("pin "@, current));
    lemma_on_window_closed("focuswindow "@, current);
    lemma_closed_parses(placement::on_window("focuswindow "@, current));
    lemma_closed_parses("fullscreenstate 0 0"@);
    let p1 = placement::unpin_part(target, current);
    let p2 = placement::leave_fullscreen_part(target, current);
    let start = "movetoworkspacesilent "@ + placement::quoted(placement::selector(target));
    lemma_quoted_closed(placement::selector(target));
    lemma_closed_concat(
        "movetoworkspacesilent "@,
        placement::quoted(placement::selector(target)),
    );
    lemma_closed_concat(start, ","@);
    lemma_on_window_closed(start + ","@, current);
    lemma_closed_parses(placement::on_window(start + ","@, current));
    let p3 = placement::workspace_part(target, current);
    lemma_moves_valid(target.monitor, current.address);
    let p4 = placement::monitor_part(
        target,
        current,
        current_monitor,
        geometry.target_monitor_available,
    );
    lemma_on_window_closed("togglefloating "@, current);
    lemma_closed_parses(placement::on_window("togglefloating "@, current));
    let p5 = placement::floating_part(target, current);
    lemma_in_pixels_closed("resizewindowpixel exact "@, geometry.desired_size, current);
    lemma_closed_parses(
        placement::in_pixels("resizewindowpixel exact "@, geometry.desired_size, current),
    );
    let p6 = placement::size_part(target, current, geometry);
    lemma_in_pixels_closed("movewindowpixel exact "@, geometry.desired_at, current);
    lemma_closed_parses(
        placement::in_pixels("movewindowpixel exact "@, geometry.desired_at, current),
    );
    let p7 = placement::place_part(target, current, geometry);
    let state = text::decimal(target.fullscreen as int);
    lemma_decimal_closed(target.fullscreen as int);
    lemma_closed_concat("fullscreenstate "@, state);
    lemma_closed_concat("fullscreenstate "@ + state, " "@);
    lemma_closed_concat("fullscreenstate "@ + state + " "@, state);
    lemma_closed_parses("fullscreenstate "@ + state + " "@ + state);
    let p8 = placement::enter_fullscreen_part(target, current);
    let p9 = placement::pin_part(target, current);
    assert(all_valid(p1));
    assert(all_valid(p2));
    assert(all_valid(p3));
    assert(all_valid(p4));
    assert(all_valid(p5));
    assert(all_valid(p6));
    assert(all_valid(p7));
    assert(all_valid(p8));
    assert(all_valid(p9));
    lemma_valid_concat(p1, p2);
    lemma_valid_concat(p1 + p2, p3);
    lemma_valid_concat(p1 + p2 + p3, p4);
    lemma_valid_concat(p1 + p2 + p3 + p4, p5);
    lemma_valid_concat(p1 + p2 + p3 + p4 + p5, p6);
    lemma_valid_concat(p1 + p2 + p3 + p4 + p5 + p6, p7);
    lemma_valid_concat(p1 + p2 + p3 + p4 + p5 + p6 + p7, p8);
    lemma_valid_concat(p1 + p2 + p3 + p4 + p5 + p6 + p7 + p8, p9);
}

/// A batch of valid commands is built; one malformed command refuses it.
pub proof fn law_batch_needs_valid_commands(commands: Seq<Seq<char>>)
    ensures
        hyprctl::first_malformed(commands, 0) == commands.len() <==> all_valid(commands),
{
    lemma_first_malformed(commands, 0);
}

proof fn lemma_first_malformed(commands: Seq<Seq<char>>, i: int)
    requires
        0 <= i <= commands.len(),
    ensures
        i <= hyprctl::first_malformed(commands, i) <= commands.len(),
        forall|k: int|
            i <= k < hyprctl::first_malformed(commands, i) ==> hyprctl::dispatch_args(
                #[trigger] commands[k],
            ) is Ok,
        hyprctl::first_malformed(commands, i) < commands.len() ==> hyprctl::dispatch_args(
            commands[hyprctl::first_malformed(commands, i)],
        ) is Err,
    decreases commands.len() - i,
{
    if i < commands.len() && hyprctl::dispatch_args(commands[i]) is Ok {
        lemma_first_malformed(commands, i + 1);
    }
}

// ── Nothing to do ──────────────────────────────────────────────────────────

/// An open window agrees with its saved placement.
pub open spec fn is_in_place(
    target: SessionClientView,
    current: HyprClientView,
    current_monitor: Option<Seq<char>>,
    geometry: ReconcileGeometryView,
) -> bool {
    &&& current.pinned == target.pinned
    &&& current.fullscreen == target.fullscreen
    &&& current.floating == target.floating
    &&& placement::on_saved_workspace(target, current)
    &&& !placement::on_other_monitor(target, current_monitor, geometry.target_monitor_available)
    &&& placement::has_geometry(target, geometry.target_monitor_available) ==> {
        &&& current.size == geometry.desired_size
        &&& current.at == geometry.desired_at
    }
}

/// A window that stands where it was saved gets no command, and only such a
/// window gets none.
pub proof fn law_window_in_place_is_left_alone(
    target: SessionClientView,
    current: HyprClientView,
    current_monitor: Option<Seq<char>>,
    geometry: ReconcileGeometryView,
)
    ensures
        placement::reconcile_commands(target, current, current_monitor, geometry).len() == 0
            <==> is_in_place(target, current, current_monitor, geometry),
{
}

// ── Only the window at hand ────────────────────────────────────────────────

/// A command that names the window, or one on the focused window right behind
/// the command that focuses it.
pub open spec fn concerns(commands: Seq<Seq<char>>, i: int, address: Seq<char>) -> bool {
    ||| exists|start: Seq<char>| #[trigger] (start + ("address:"@ + address)) == commands[i]
    ||| i > 0 && commands[i - 1] == "focuswindow "@ + ("address:"@ + address)
}

spec fn all_concern(commands: Seq<Seq<char>>, address: Seq<char>) -> bool {
    forall|i: int| 0 <= i < commands.len() ==> #[trigger] concerns(commands, i, address)
}

proof fn lemma_concern_concat(a: Seq<Seq<char>>, b: Seq<Seq<char>>, address: Seq<char>)
    requires
        all_concern(a, address),
        all_concern(b, address),
    ensures
        all_concern(a + b, address),
{
    let c = a + b;
    assert forall|i: int| 0 <= i < c.len() implies #[trigger] concerns(c, i, address) by {
        if i < a.len() {
            assert(concerns(a, i, address));
            assert(c[i] == a[i]);
            if i > 0 {
                assert(c[i - 1] == a[i - 1]);
            }
        } else {
            let k = i - a.len();
            assert(concerns(b, k, address));
            assert(c[i] == b[k]);
            if k > 0 {
                assert(c[i - 1] == b[k - 1]);
            }
        }
    }
}

proof fn lemma_names(commands: Seq<Seq<char>>, i: int, start: Seq<char>, address: Seq<char>)
    requires
        commands[i] == start + ("address:"@ + address),
    ensures
        concerns(commands, i, address),
{
}

/// Every command for an open window concerns that window: it names its
/// address, or follows the command that focuses it.
pub proof fn law_reconcile_commands_concern_the_window(
    target: SessionClientView,
    current: HyprClientView,
    current_monitor: Option<Seq<char>>,
    geometry: ReconcileGeometryView,
    i: int,
)
    requires
        0 <= i < placement::reconcile_commands(target, current, current_monitor, geometry).len(),
    ensures
        concerns(
            placement::reconcile_commands(target, current, current_monitor, geometry),
            i,
            current.address,
        ),
{
    let address = current.address;
    let p1 = placement::unpin_part(target, current);
    let p2 = placement::leave_fullscreen_part(target, current);
    let p3 = placement::workspace_part(target, current);
    let p4 = placement::monitor_part(
        target,
        current,
        current_monitor,
        geometry.target_monitor_available,
    );
    let p5 = placement::floating_part(target, current);
    let p6 = placement::size_part(target, current, geometry);
    let p7 = placement::place_part(target, current, geometry);
    let p8 = placement::enter_fullscreen_part(target, current);
    let p9 = placement::pin_part(target, current);
    if p1.len() > 0 {
        lemma_names(p1, 0, "pin "@, address);
    }
    if p2.len() > 0 {
        lemma_names(p2, 0, "focuswindow "@, address);
        assert(concerns(p2, 1, address));
    }
    if p3.len() > 0 {
        lemma_names(
            p3,
            0,
            "movetoworkspacesilent "@ + placement::quoted(placement::selector(target)) + ","@,
            address,
        );
    }
    if p4.len() > 0 {
        reveal_strlit("focuswindow address:");
        reveal_strlit("focuswindow ");
        reveal_strlit("address:");
        assert("focuswindow address:"@ =~= "focuswindow "@ + "address:"@);
        assert("focuswindow address:"@ + address =~= "focuswindow "@ + ("address:"@ + address));
        lemma_names(p4, 0, "focuswindow "@, address);
        assert(concerns(p4, 1, address));
    }
    if p5.len() > 0 {
        lemma_names(p5, 0, "togglefloating "@, address);
    }
    if p6.len() > 0 {
        lemma_names(
            p6,
            0,
            "resizewindowpixel exact "@ + text::decimal(geometry.desired_size.0) + " "@
                + text::decimal(geometry.desired_size.1) + ","@,
            address,
        );
    }
    if p7.len() > 0 {
        lemma_names(
            p7,
            0,
            "movewindowpixel exact "@ + text::decimal(geometry.desired_at.0) + " "@
                + text::decimal(geometry.desired_at.1) + ","@,
            address,
        );
    }
    if p8.len() > 0 {
        lemma_names(p8, 0, "focuswindow "@, address);
        assert(concerns(p8, 1, address));
    }
    if p9.len() > 0 {
        lemma_names(p9, 0, "pin "@, address);
    }
    lemma_concern_concat(p1, p2, address);
    lemma_concern_concat(p1 + p2, p3, address);
    lemma_concern_concat(p1 + p2 + p3, p4, address);
    lemma_concern_concat(p1 + p2 + p3 + p4, p5, address);
    lemma_concern_concat(p1 + p2 + p3 + p4 + p5, p6, address);
    lemma_concern_concat(p1 + p2 + p3 + p4 + p5 + p6, p7, address);
    lemma_concern_concat(p1 + p2 + p3 + p4 + p5 + p6 + p7, p8, address);
    lemma_concern_concat(p1 + p2 + p3 + p4 + p5 + p6 + p7 + p8, p9, address);
}

// ── Nothing is closed ──────────────────────────────────────────────────────

/// A command that closes a window.
pub open spec fn closes(command: Seq<char>) -> bool {
    text::starts_with(command, "closewindow"@)
}

/// No command of a list closes a window.
pub open spec fn closes_nothing(commands: Seq<Seq<char>>) -> bool {
    forall|i: int| 0 <= i < commands.len() ==> !#[trigger] closes(commands[i])
}

proof fn lemma_other_letter(command: Seq<char>)
    requires
        command.len() > 0,
        command[0] != 'c',
    ensures
        !closes(command),
{
    reveal_strlit("closewindow");
    if closes(command) {
        assert(command.take("closewindow"@.len() as int)[0] == command[0]);
    }
}

proof fn lemma_all_other_letters(commands: Seq<Seq<char>>)
    requires
        forall|i: int| 0 <= i < commands.len() ==> (#[trigger] commands[i]).len() > 0 && commands[i][0] != 'c',
    ensures
        closes_nothing(commands),
{
    assert forall|i: int| 0 <= i < commands.len() implies !#[trigger] closes(commands[i]) by {
        lemma_other_letter(commands[i]);
    }
}

proof fn lemma_closes_concat(a: Seq<Seq<char>>, b: Seq<Seq<char>>)
    requires
        closes_nothing(a),
        closes_nothing(b),
    ensures
        closes_nothing(a + b),
{
    let c = a + b;
    assert forall|i: int| 0 <= i < c.len() implies !#[trigger] closes(c[i]) by {
        if i < a.len() {
            assert(c[i] == a[i]);
        } else {
            assert(c[i] == b[i - a.len()]);
        }
    }
}

proof fn lemma_moves_close_nothing(monitor: Seq<char>, address: Seq<char>)
    ensures
        closes_nothing(placement::monitor_moves(monitor, address)),
{
    reveal_strlit("focuswindow address:");
    reveal_strlit("movewindow ");
    lemma_all_other_letters(placement::monitor_moves(monitor, address));
}

/// Nothing that is sent to bring a window to its place closes a window.
pub proof fn law_reconciling_closes_nothing(
    target: SessionClientView,
    current: HyprClientView,
    current_monitor: Option<Seq<char>>,
    geometry: ReconcileGeometryView,
)
    ensures
        closes_nothing(
            placement::reconcile_commands(target, current, current_monitor, geometry),
        ),
{
    let p1 = placement::unpin_part(target, current);
    let p2 = placement::leave_fullscreen_part(target, current);
    let p3 = placement::workspace_part(target, current);
    let p4 = placement::monitor_part(
        target,
        current,
        current_monitor,
        geometry.target_monitor_available,
    );
    let p5 = placement::floating_part(target, current);
    let p6 = placement::size_part(target, current, geometry);
    let p7 = placement::place_part(target, current, geometry);
    let p8 = placement::enter_fullscreen_part(target, current);
    let p9 = placement::pin_part(target, current);
    assert(closes_nothing(p1) && closes_nothing(p9)) by {
        reveal_strlit("pin ");
        lemma_all_other_letters(p1);
        lemma_all_other_letters(p9);
    }
    assert(closes_nothing(p2) && closes_nothing(p8)) by {
        reveal_strlit("focuswindow ");
        reveal_strlit("fullscreenstate 0 0");
        reveal_strlit("fullscreenstate ");
        lemma_all_other_letters(p2);
        lemma_all_other_letters(p8);
    }
    assert(closes_nothing(p3)) by {
        reveal_strlit("movetoworkspacesilent ");
        lemma_all_other_letters(p3);
    }
    lemma_moves_close_nothing(target.monitor, current.address);
    assert(closes_nothing(p5)) by {
        reveal_strlit("togglefloating ");
        lemma_all_other_letters(p5);
    }
    assert(closes_nothing(p6) && closes_nothing(p7)) by {
        reveal_strlit("resizewindowpixel exact ");
        reveal_strlit("movewindowpixel exact ");
        lemma_all_other_letters(p6);
        lemma_all_other_letters(p7);
    }
    lemma_closes_concat(p1, p2);
    lemma_closes_concat(p1 + p2, p3);
    lemma_closes_concat(p1 + p2 + p3, p4);
    lemma_closes_concat(p1 + p2 + p3 + p4, p5);
    lemma_closes_concat(p1 + p2 + p3 + p4 + p5, p6);
    lemma_closes_concat(p1 + p2 + p3 + p4 + p5 + p6, p7);
    lemma_closes_concat(p1 + p2 + p3 + p4 + p5 + p6 + p7, p8);
    lemma_closes_concat(p1 + p2 + p3 + p4 + p5 + p6 + p7 + p8, p9);
}

proof fn lemma_behind_workspace(commands: Seq<Seq<char>>, i: int)
    requires
        0 <= i,
    ensures
        0 <= launched::behind_workspace(commands, i) <= commands.len(),
    decreases commands.len() - i,
{
    if i < commands.len() {
        lemma_behind_workspace(commands, i + 1);
    }
}

/// Nothing that is sent to place the window of a launch closes a window.
pub proof fn law_placing_launches_closes_nothing(
    target: SessionClientView,
    window: HyprClientView,
    monitor_available: bool,
)
    ensures
        closes_nothing(launched::launch_commands(target, window, monitor_available)),
{
    let geometry = ReconcileGeometryView {
        desired_at: target.at,
        desired_size: target.size,
        target_monitor_available: monitor_available,
    };
    let commands = placement::reconcile_commands(target, window, None, geometry);
    law_reconciling_closes_nothing(target, window, None, geometry);
    lemma_moves_close_nothing(target.monitor, window.address);
    let moves = placement::monitor_moves(target.monitor, window.address);
    let i = launched::behind_workspace(commands, 0);
    lemma_behind_workspace(commands, 0);
    assert forall|k: int| 0 <= k < i implies !#[trigger] closes(commands.take(i)[k]) by {
        assert(commands.take(i)[k] == commands[k]);
    }
    assert forall|k: int| 0 <= k < commands.len() - i implies !#[trigger] closes(
        commands.skip(i)[k],
    ) by {
        assert(commands.skip(i)[k] == commands[i + k]);
    }
    lemma_closes_concat(commands.take(i), moves);
    lemma_closes_concat(commands.take(i) + moves, commands.skip(i));
}

// ── Malformed commands ─────────────────────────────────────────────────────

/// A text in double quotes is one argument, though it holds white space and
/// single quotes, even an empty one; a quote that is not closed, and a
/// backslash at the end, make the command malformed.
pub proof fn law_quotes_and_escapes(s: Seq<char>)
    requires
        forall|i: int| 0 <= i < s.len() ==> #[trigger] s[i] != '"' && s[i] != '\\',
    ensures
        hyprctl::dispatch_args(seq!['"'] + s + seq!['"']) == Ok::<Seq<Seq<char>>, Seq<char>>(
            seq![s],
        ),
        hyprctl::dispatch_args(seq!['"'] + s) is Err,
        hyprctl::dispatch_args(seq!['"'] + s + seq!['"'] + seq!['\\']) is Err,
{
    let blank = hyprctl::blank_reader();
    let q = seq!['"'];
    let r1 = hyprctl::read_char(blank, '"');
    lemma_read_one(blank, '"');
    lemma_read_concat(blank, q, s);
    lemma_read_double_quoted(r1, s);
    let r2 = hyprctl::read_text(blank, q + s);
    lemma_read_concat(blank, q + s, q);
    lemma_read_one(r2, '"');
    let r3 = hyprctl::read_text(blank, q + s + q);
    lemma_read_concat(blank, q + s + q, seq!['\\']);
    lemma_read_one(r3, '\\');
    assert(blank.current + s =~= s);
    assert(Seq::<Seq<char>>::empty().push(s) =~= seq![s]);
}

proof fn lemma_read_double_quoted(reader: Reader, s: Seq<char>)
    requires
        !reader.escaped,
        reader.quote == Some('"'),
        reader.started,
        forall|i: int| 0 <= i < s.len() ==> #[trigger] s[i] != '"' && s[i] != '\\',
    ensures
        hyprctl::read_text(reader, s) == (Reader { current: reader.current + s, ..reader }),
    decreases s.len(),
{
    if s.len() == 0 {
        assert(reader.current + s =~= reader.current);
    } else {
        let front = s.drop_last();
        assert forall|i: int| 0 <= i < front.len() implies #[trigger] front[i] != '"' && front[i]
            != '\\' by {
            assert(front[i] == s[i]);
        }
        lemma_read_double_quoted(reader, front);
        assert(s.last() == s[s.len() - 1]);
        assert((reader.current + front).push(s.last()) =~= reader.current + s);
    }
}

/// A backslash lets any character stand for itself, so that white space and
/// quotes join a word.
pub proof fn law_escaped_characters_join_a_word(before: Seq<char>, c: char, after: Seq<char>)
    requires
        placement::all_plain(before),
        placement::all_plain(after),
    ensures
        hyprctl::dispatch_args(before + seq!['\\', c] + after) == Ok::<Seq<Seq<char>>, Seq<char>>(
            seq![before + seq![c] + after],
        ),
{
    let blank = hyprctl::blank_reader();
    lemma_read_plain(blank, before);
    let r1 = hyprctl::read_text(blank, before);
    assert(seq!['\\', c] =~= seq!['\\'] + seq![c]);
    lemma_read_concat(blank, before, seq!['\\', c]);
    lemma_read_concat(r1, seq!['\\'], seq![c]);
    lemma_read_one(r1, '\\');
    let r2 = hyprctl::read_char(r1, '\\');
    lemma_read_one(r2, c);
    let r3 = hyprctl::read_text(blank, before + seq!['\\', c]);
    lemma_read_concat(blank, before + seq!['\\', c], after);
    lemma_read_plain(r3, after);
    let word = before + seq![c] + after;
    assert(blank.current + before =~= before);
    assert(before.push(c) + after =~= word);
    assert(Seq::<Seq<char>>::empty().push(word) =~= seq![word]);
}

// ── Sending ────────────────────────────────────────────────────────────────

/// Commands that are sent one after the other succeed where each is answered
/// without a failure; a command that fails ends them with its failure, when
/// those before it were accepted.
pub proof fn law_first_failure_ends_a_batch(
    gives: spec_fn(Seq<char>, Result<(), HyprctlError>) -> bool,
    commands: Seq<Seq<char>>,
    r: Result<(), HyprctlError>,
    i: int,
    error: HyprctlError,
)
    requires
        hyprctl::sends_in_turn(gives, commands, r),
    ensures
        (forall|k: int, a: Result<(), HyprctlError>|
            0 <= k < commands.len() && #[trigger] gives(commands[k], a) ==> a is Ok) ==> r is Ok,
        0 <= i < commands.len() && (forall|a: Result<(), HyprctlError>|
            #[trigger] gives(commands[i], a) ==> a == Err::<(), HyprctlError>(error)) && (forall|
            k: int,
            a: Result<(), HyprctlError>,
        |
            0 <= k < i && #[trigger] gives(commands[k], a) ==> a is Ok) ==> r == Err::<
            (),
            HyprctlError,
        >(error),
{
    if r is Ok && 0 <= i < commands.len() {
        assert(hyprctl::is_accepted(gives, commands[i]));
    }
    if r is Err {
        let j = choose|j: int|
            {
                &&& 0 <= j < commands.len()
                &&& gives(#[trigger] commands[j], r)
                &&& forall|k: int|
                    0 <= k < j ==> hyprctl::is_accepted(gives, #[trigger] commands[k])
            };
        assert(gives(commands[j], r));
        if 0 <= i < j {
            assert(hyprctl::is_accepted(gives, commands[i]));
        }
    }
}

} // verus!
