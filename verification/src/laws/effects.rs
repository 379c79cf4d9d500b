//! What the commands for a window do to it, read as the compositor reads
//! them: carried out one after the other, they leave the window as it was
//! saved.

use crate::hyprctl;
use crate::hyprctl::{HyprClientView, HyprWorkspaceView, Reader};
use crate::laws::dispatch;
use crate::placement;
use crate::placement::ReconcileGeometryView;
use crate::restore::launch;
use crate::restore::launched;
use crate::restore::replace;
use crate::session::SessionClientView;
use crate::text;
use vstd::prelude::*;

verus! {

// ── Numbers ────────────────────────────────────────────────────────────────

/// The number that a row of decimal digits stands for.
pub open spec fn tally(s: Seq<char>) -> int
    decreases s.len(),
{
    if s.len() == 0 {
        0
    } else {
        10 * tally(s.drop_last()) + (s.last() as int - '0' as int)
    }
}

/// The number that a text stands for, with a minus sign or without.
pub open spec fn number(s: Seq<char>) -> int {
    if s.len() > 0 && s[0] == '-' {
        -tally(s.drop_first())
    } else {
        tally(s)
    }
}

proof fn lemma_digits(n: nat)
    ensures
        tally(text::digits(n)) == n,
        text::digits(n).len() > 0,
        forall|i: int|
            0 <= i < text::digits(n).len() ==> '0' <= #[trigger] text::digits(n)[i] && text::digits(
                n,
            )[i] <= '9',
    decreases n,
{
    let d = text::digits(n);
    if n >= 10 {
        lemma_digits(n / 10);
        let c = (48 + n % 10) as char;
        assert(c as int == 48 + n % 10);
        assert(d.drop_last() =~= text::digits(n / 10));
        assert(d.last() == c);
        assert(tally(d) == 10 * (n / 10) + n % 10);
    } else {
        let c = (48 + n) as char;
        assert(c as int == 48 + n);
        assert(d.drop_last() =~= Seq::<char>::empty());
        assert(d.last() == c);
        assert(tally(d.drop_last()) == 0);
    }
}

/// The decimal text of a number stands for that number, and needs no quotes.
pub proof fn law_decimal_text_reads_back(n: int)
    ensures
        number(text::decimal(n)) == n,
        text::decimal(n).len() > 0,
        placement::all_plain(text::decimal(n)),
{
    let t = text::decimal(n);
    if n < 0 {
        lemma_digits((-n) as nat);
        assert(t.drop_first() =~= text::digits((-n) as nat));
        assert forall|i: int| 0 <= i < t.len() implies placement::is_plain(#[trigger] t[i]) by {
            if i > 0 {
                assert(t[i] == text::digits((-n) as nat)[i - 1]);
            }
        }
    } else {
        lemma_digits(n as nat);
        assert('0' <= t[0]);
    }
}

// ── Reading commands ───────────────────────────────────────────────────────

spec fn is_closed(reader: Reader) -> bool {
    !reader.escaped && reader.quote is None
}

/// Outside of quotes, the written form adds the word to the argument that is
/// being read.
spec fn reads_as(form: Seq<char>, word: Seq<char>) -> bool {
    forall|reader: Reader|
        is_closed(reader) ==> #[trigger] hyprctl::read_text(reader, form) == (Reader {
            current: reader.current + word,
            started: reader.started || word.len() > 0,
            ..reader
        })
}

proof fn lemma_plain_reads(s: Seq<char>)
    requires
        placement::all_plain(s),
    ensures
        reads_as(s, s),
{
    assert forall|reader: Reader| is_closed(reader) implies #[trigger] hyprctl::read_text(
        reader,
        s,
    ) == (Reader {
        current: reader.current + s,
        started: reader.started || s.len() > 0,
        ..reader
    }) by {
        dispatch::lemma_read_plain(reader, s);
    }
}

proof fn lemma_quoted_reads(s: Seq<char>)
    ensures
        reads_as(placement::quoted(s), s),
{
    assert forall|reader: Reader| is_closed(reader) implies #[trigger] hyprctl::read_text(
        reader,
        placement::quoted(s),
    ) == (Reader {
        current: reader.current + s,
        started: reader.started || s.len() > 0,
        ..reader
    }) by {
        dispatch::lemma_read_quoted(reader, s);
    }
}

proof fn lemma_reads_concat(f: Seq<char>, v: Seq<char>, g: Seq<char>, w: Seq<char>)
    requires
        reads_as(f, v),
        reads_as(g, w),
    ensures
        reads_as(f + g, v + w),
{
    assert forall|reader: Reader| is_closed(reader) implies #[trigger] hyprctl::read_text(
        reader,
        f + g,
    ) == (Reader {
        current: reader.current + (v + w),
        started: reader.started || (v + w).len() > 0,
        ..reader
    }) by {
        dispatch::lemma_read_concat(reader, f, g);
        let middle = hyprctl::read_text(reader, f);
        assert(is_closed(middle));
        assert(hyprctl::read_text(middle, g).current == middle.current + w);
        assert(reader.current + v + w =~= reader.current + (v + w));
    }
}

/// Words with one blank between them.
spec fn spoken(forms: Seq<Seq<char>>) -> Seq<char>
    decreases forms.len(),
{
    if forms.len() == 0 {
        seq![]
    } else if forms.len() == 1 {
        forms[0]
    } else {
        spoken(forms.drop_last()) + seq![' '] + forms.last()
    }
}

proof fn lemma_spoken(forms: Seq<Seq<char>>, words: Seq<Seq<char>>)
    requires
        forms.len() == words.len() > 0,
        forall|i: int|
            0 <= i < forms.len() ==> reads_as(#[trigger] forms[i], words[i]) && words[i].len() > 0,
    ensures
        hyprctl::read_text(hyprctl::blank_reader(), spoken(forms)) == (Reader {
            args: words.drop_last(),
            current: words.last(),
            quote: None,
            escaped: false,
            started: true,
        }),
        hyprctl::dispatch_args(spoken(forms)) == Ok::<Seq<Seq<char>>, Seq<char>>(words),
    decreases forms.len(),
{
    let blank = hyprctl::blank_reader();
    let last = forms.len() - 1;
    assert(reads_as(forms[last], words[last]) && words[last].len() > 0);
    if forms.len() == 1 {
        assert(is_closed(blank));
        assert(hyprctl::read_text(blank, forms[0]).current == blank.current + words[0]);
        assert(blank.current + words[0] =~= words[0]);
        assert(words.drop_last() =~= Seq::<Seq<char>>::empty());
    } else {
        let before = spoken(forms.drop_last());
        assert forall|i: int| 0 <= i < forms.drop_last().len() implies reads_as(
            #[trigger] forms.drop_last()[i],
            words.drop_last()[i],
        ) && words.drop_last()[i].len() > 0 by {
            assert(reads_as(forms[i], words[i]));
        }
        lemma_spoken(forms.drop_last(), words.drop_last());
        let r1 = hyprctl::read_text(blank, before);
        let r2 = hyprctl::read_char(r1, ' ');
        dispatch::lemma_read_concat(blank, before, seq![' ']);
        dispatch::lemma_read_one(r1, ' ');
        dispatch::lemma_read_concat(blank, before + seq![' '], forms.last());
        assert(words.drop_last().drop_last().push(words.drop_last().last()) =~= words.drop_last());
        assert(is_closed(r2));
        assert(hyprctl::read_text(r2, forms[last]).current == r2.current + words[last]);
        assert(r2.current + words[last] =~= words[last]);
    }
    assert(words.drop_last().push(words.last()) =~= words);
}

proof fn lemma_two_words(f: (Seq<char>, Seq<char>), w: (Seq<char>, Seq<char>))
    requires
        reads_as(f.0, w.0),
        reads_as(f.1, w.1),
        w.0.len() > 0,
        w.1.len() > 0,
    ensures
        hyprctl::dispatch_args(f.0 + seq![' '] + f.1) == Ok::<Seq<Seq<char>>, Seq<char>>(
            seq![w.0, w.1],
        ),
{
    let forms = seq![f.0, f.1];
    lemma_spoken(forms, seq![w.0, w.1]);
    assert(forms.drop_last() =~= seq![f.0]);
    assert(spoken(forms.drop_last()) == f.0);
}

proof fn lemma_three_words(
    f: (Seq<char>, Seq<char>, Seq<char>),
    w: (Seq<char>, Seq<char>, Seq<char>),
)
    requires
        reads_as(f.0, w.0),
        reads_as(f.1, w.1),
        reads_as(f.2, w.2),
        w.0.len() > 0,
        w.1.len() > 0,
        w.2.len() > 0,
    ensures
        hyprctl::dispatch_args(f.0 + seq![' '] + f.1 + seq![' '] + f.2) == Ok::<
            Seq<Seq<char>>,
            Seq<char>,
        >(seq![w.0, w.1, w.2]),
{
    let forms = seq![f.0, f.1, f.2];
    lemma_spoken(forms, seq![w.0, w.1, w.2]);
    assert(forms.drop_last() =~= seq![f.0, f.1]);
    assert(forms.drop_last().drop_last() =~= seq![f.0]);
    assert(spoken(forms.drop_last().drop_last()) == f.0);
    assert(spoken(forms.drop_last()) == f.0 + seq![' '] + f.1);
}

proof fn lemma_four_words(
    f: (Seq<char>, Seq<char>, Seq<char>, Seq<char>),
    w: (Seq<char>, Seq<char>, Seq<char>, Seq<char>),
)
    requires
        reads_as(f.0, w.0),
        reads_as(f.1, w.1),
        reads_as(f.2, w.2),
        reads_as(f.3, w.3),
        w.0.len() > 0,
        w.1.len() > 0,
        w.2.len() > 0,
        w.3.len() > 0,
    ensures
        hyprctl::dispatch_args(f.0 + seq![' '] + f.1 + seq![' '] + f.2 + seq![' '] + f.3) == Ok::<
            Seq<Seq<char>>,
            Seq<char>,
        >(seq![w.0, w.1, w.2, w.3]),
{
    let forms = seq![f.0, f.1, f.2, f.3];
    lemma_spoken(forms, seq![w.0, w.1, w.2, w.3]);
    assert(forms.drop_last() =~= seq![f.0, f.1, f.2]);
    assert(forms.drop_last().drop_last() =~= seq![f.0, f.1]);
    assert(forms.drop_last().drop_last().drop_last() =~= seq![f.0]);
    assert(spoken(forms.drop_last().drop_last().drop_last()) == f.0);
    assert(spoken(forms.drop_last().drop_last()) == f.0 + seq![' '] + f.1);
    assert(spoken(forms.drop_last()) == f.0 + seq![' '] + f.1 + seq![' '] + f.2);
}

// ── Carrying commands out ──────────────────────────────────────────────────

/// A window on the desktop, as far as commands can change it.
#[verifier::ext_equal]
pub ghost struct Desk {
    /// The window.
    pub window: HyprClientView,
    /// The monitor it stands on, where it is known.
    pub monitor: Option<Seq<char>>,
    /// The window has the focus.
    pub focused: bool,
    /// The monitor to which the workspace that the window is moved to is
    /// bound, if it is bound to one.
    pub binding: Option<Seq<char>>,
}

/// A text ends with another.
pub open spec fn ends_with(s: Seq<char>, end: Seq<char>) -> bool {
    s.len() >= end.len() && s.skip(s.len() - end.len()) == end
}

/// A text without so many characters at its end.
pub open spec fn cut(s: Seq<char>, n: nat) -> Seq<char> {
    s.take(s.len() - n)
}

/// The workspace that a selector names: `name:` stands before the name of an
/// ordinary workspace, a special one is named with its mark, and anything else
/// is a number.
pub open spec fn selected(before: HyprWorkspaceView, selector: Seq<char>) -> HyprWorkspaceView {
    if text::starts_with_ignoring_case(selector, "name:"@) {
        HyprWorkspaceView { name: selector.skip("name:"@.len() as int), ..before }
    } else if text::starts_with_ignoring_case(selector, "special:"@) {
        HyprWorkspaceView { name: selector, ..before }
    } else {
        HyprWorkspaceView { id: number(selector), name: selector }
    }
}

/// What the compositor does with the words of one command.  Coordinates mean
/// nothing to a window that is fullscreen.
pub open spec fn carried_out(desk: Desk, words: Seq<Seq<char>>) -> Desk {
    let here = "address:"@ + desk.window.address;
    let behind = ","@ + here;
    if words.len() == 2 && words[0] == "pin"@ && words[1] == here {
        Desk { window: HyprClientView { pinned: !desk.window.pinned, ..desk.window }, ..desk }
    } else if words.len() == 2 && words[0] == "togglefloating"@ && words[1] == here {
        Desk { window: HyprClientView { floating: !desk.window.floating, ..desk.window }, ..desk }
    } else if words.len() == 2 && words[0] == "focuswindow"@ {
        Desk { focused: words[1] == here, ..desk }
    } else if words.len() == 3 && words[0] == "fullscreenstate"@ && words[1] == words[2]
        && desk.focused {
        Desk {
            window: HyprClientView { fullscreen: number(words[1]) as u8, ..desk.window },
            ..desk
        }
    } else if words.len() == 4 && words[0] == "resizewindowpixel"@ && words[1] == "exact"@
        && ends_with(words[3], behind) && desk.window.fullscreen == 0 {
        Desk {
            window: HyprClientView {
                size: (number(words[2]), number(cut(words[3], behind.len()))),
                ..desk.window
            },
            ..desk
        }
    } else if words.len() == 4 && words[0] == "movewindowpixel"@ && words[1] == "exact"@
        && ends_with(words[3], behind) && desk.window.fullscreen == 0 {
        Desk {
            window: HyprClientView {
                at: (number(words[2]), number(cut(words[3], behind.len()))),
                ..desk.window
            },
            ..desk
        }
    } else if words.len() == 2 && words[0] == "movetoworkspacesilent"@ && ends_with(
        words[1],
        behind,
    ) {
        Desk {
            window: HyprClientView {
                workspace: selected(desk.window.workspace, cut(words[1], behind.len())),
                ..desk.window
            },
            monitor: if desk.binding is Some {
                desk.binding
            } else {
                desk.monitor
            },
            ..desk
        }
    } else if words.len() == 3 && words[0] == "movewindow"@ && words[1].len() > "mon:"@.len()
        && words[1].take("mon:"@.len() as int) == "mon:"@ && words[2] == "silent"@
        && desk.focused {
        Desk { monitor: Some(words[1].skip("mon:"@.len() as int)), ..desk }
    } else {
        desk
    }
}

/// What one command does: one that cannot be read does nothing.
pub open spec fn effect(desk: Desk, command: Seq<char>) -> Desk {
    match hyprctl::dispatch_args(command) {
        Ok(words) => carried_out(desk, words),
        Err(_) => desk,
    }
}

/// What commands do one after the other.
pub open spec fn effects(desk: Desk, commands: Seq<Seq<char>>) -> Desk
    decreases commands.len(),
{
    if commands.len() == 0 {
        desk
    } else {
        effect(effects(desk, commands.drop_last()), commands.last())
    }
}

proof fn lemma_effects_concat(desk: Desk, a: Seq<Seq<char>>, b: Seq<Seq<char>>)
    ensures
        effects(desk, a + b) == effects(effects(desk, a), b),
    decreases b.len(),
{
    if b.len() == 0 {
        assert(a + b =~= a);
    } else {
        assert((a + b).drop_last() =~= a + b.drop_last());
        lemma_effects_concat(desk, a, b.drop_last());
    }
}

proof fn lemma_effects_one(desk: Desk, command: Seq<char>)
    ensures
        effects(desk, seq![command]) == effect(desk, command),
{
    assert(seq![command].drop_last() =~= Seq::<Seq<char>>::empty());
    assert(effects(desk, seq![command].drop_last()) == desk);
}

proof fn lemma_effects_two(desk: Desk, a: Seq<char>, b: Seq<char>)
    ensures
        effects(desk, seq![a, b]) == effect(effect(desk, a), b),
{
    assert(seq![a, b].drop_last() =~= seq![a]);
    lemma_effects_one(desk, a);
}

proof fn lemma_here(address: Seq<char>)
    requires
        placement::all_plain(address),
    ensures
        reads_as("address:"@ + address, "address:"@ + address),
        ("address:"@ + address).len() > 0,
{
    reveal_strlit("address:");
    lemma_plain_reads("address:"@);
    lemma_plain_reads(address);
    lemma_reads_concat("address:"@, "address:"@, address, address);
}

proof fn lemma_pin(desk: Desk)
    requires
        placement::all_plain(desk.window.address),
    ensures
        effect(desk, placement::on_window("pin "@, desk.window)) == (Desk {
            window: HyprClientView { pinned: !desk.window.pinned, ..desk.window },
            ..desk
        }),
{
    let here = "address:"@ + desk.window.address;
    reveal_strlit("pin");
    reveal_strlit("pin ");
    lemma_here(desk.window.address);
    lemma_plain_reads("pin"@);
    lemma_two_words(("pin"@, here), ("pin"@, here));
    assert(placement::on_window("pin "@, desk.window) =~= "pin"@ + seq![' '] + here);
}

proof fn lemma_toggle(desk: Desk)
    requires
        placement::all_plain(desk.window.address),
    ensures
        effect(desk, placement::on_window("togglefloating "@, desk.window)) == (Desk {
            window: HyprClientView { floating: !desk.window.floating, ..desk.window },
            ..desk
        }),
{
    let here = "address:"@ + desk.window.address;
    reveal_strlit("pin");
    reveal_strlit("togglefloating");
    reveal_strlit("togglefloating ");
    lemma_here(desk.window.address);
    lemma_plain_reads("togglefloating"@);
    lemma_two_words(("togglefloating"@, here), ("togglefloating"@, here));
    assert(placement::on_window("togglefloating "@, desk.window) =~= "togglefloating"@ + seq![' ']
        + here);
}

proof fn lemma_focus(desk: Desk)
    requires
        placement::all_plain(desk.window.address),
    ensures
        effect(desk, placement::on_window("focuswindow "@, desk.window)) == (Desk {
            focused: true,
            ..desk
        }),
        effect(desk, "focuswindow address:"@ + desk.window.address) == (Desk {
            focused: true,
            ..desk
        }),
{
    let here = "address:"@ + desk.window.address;
    reveal_strlit("pin");
    reveal_strlit("togglefloating");
    reveal_strlit("focuswindow");
    reveal_strlit("focuswindow ");
    reveal_strlit("address:");
    reveal_strlit("focuswindow address:");
    lemma_here(desk.window.address);
    lemma_plain_reads("focuswindow"@);
    lemma_two_words(("focuswindow"@, here), ("focuswindow"@, here));
    assert(placement::on_window("focuswindow "@, desk.window) =~= "focuswindow"@ + seq![' ']
        + here);
    assert("focuswindow address:"@ + desk.window.address =~= "focuswindow"@ + seq![' '] + here);
}

proof fn lemma_state(desk: Desk, n: u8)
    requires
        desk.focused,
    ensures
        effect(
            desk,
            "fullscreenstate "@ + text::decimal(n as int) + " "@ + text::decimal(n as int),
        ) == (Desk { window: HyprClientView { fullscreen: n, ..desk.window }, ..desk }),
{
    let digits = text::decimal(n as int);
    reveal_strlit("fullscreenstate");
    reveal_strlit("fullscreenstate ");
    reveal_strlit(" ");
    law_decimal_text_reads_back(n as int);
    lemma_plain_reads("fullscreenstate"@);
    lemma_plain_reads(digits);
    lemma_three_words(("fullscreenstate"@, digits, digits), ("fullscreenstate"@, digits, digits));
    assert("fullscreenstate "@ + digits + " "@ + digits =~= "fullscreenstate"@ + seq![' '] + digits
        + seq![' '] + digits);
}

proof fn lemma_state_off(desk: Desk)
    requires
        desk.focused,
    ensures
        effect(desk, "fullscreenstate 0 0"@) == (Desk {
            window: HyprClientView { fullscreen: 0, ..desk.window },
            ..desk
        }),
{
    reveal_strlit("fullscreenstate 0 0");
    reveal_strlit("fullscreenstate ");
    reveal_strlit(" ");
    assert(text::decimal(0) =~= seq!['0']);
    assert("fullscreenstate 0 0"@ =~= "fullscreenstate "@ + text::decimal(0) + " "@
        + text::decimal(0));
    lemma_state(desk, 0);
}

/// The last word of a command with two numbers.
proof fn lemma_second_number(address: Seq<char>, n: int)
    requires
        placement::all_plain(address),
    ensures
        reads_as(
            text::decimal(n) + (","@ + ("address:"@ + address)),
            text::decimal(n) + (","@ + ("address:"@ + address)),
        ),
        ends_with(
            text::decimal(n) + (","@ + ("address:"@ + address)),
            ","@ + ("address:"@ + address),
        ),
        cut(
            text::decimal(n) + (","@ + ("address:"@ + address)),
            (","@ + ("address:"@ + address)).len(),
        ) == text::decimal(n),
{
    let here = "address:"@ + address;
    let behind = ","@ + here;
    reveal_strlit(",");
    lemma_here(address);
    lemma_plain_reads(","@);
    lemma_reads_concat(","@, ","@, here, here);
    law_decimal_text_reads_back(n);
    lemma_plain_reads(text::decimal(n));
    lemma_reads_concat(text::decimal(n), text::decimal(n), behind, behind);
    let word = text::decimal(n) + behind;
    assert(word.skip(word.len() - behind.len()) =~= behind);
    assert(word.take(word.len() - behind.len()) =~= text::decimal(n));
}

proof fn lemma_resize(desk: Desk, numbers: (int, int))
    requires
        placement::all_plain(desk.window.address),
        desk.window.fullscreen == 0,
    ensures
        effect(desk, placement::in_pixels("resizewindowpixel exact "@, numbers, desk.window)) == (
        Desk { window: HyprClientView { size: numbers, ..desk.window }, ..desk }),
{
    let here = "address:"@ + desk.window.address;
    let first = text::decimal(numbers.0);
    let second = text::decimal(numbers.1) + (","@ + here);
    reveal_strlit("resizewindowpixel");
    reveal_strlit("exact");
    reveal_strlit("resizewindowpixel exact ");
    reveal_strlit(" ");
    law_decimal_text_reads_back(numbers.0);
    law_decimal_text_reads_back(numbers.1);
    lemma_second_number(desk.window.address, numbers.1);
    lemma_plain_reads("resizewindowpixel"@);
    lemma_plain_reads("exact"@);
    lemma_plain_reads(first);
    lemma_four_words(
        ("resizewindowpixel"@, "exact"@, first, second),
        ("resizewindowpixel"@, "exact"@, first, second),
    );
    assert(placement::in_pixels("resizewindowpixel exact "@, numbers, desk.window)
        =~= "resizewindowpixel"@ + seq![' '] + "exact"@ + seq![' '] + first + seq![' '] + second);
}

proof fn lemma_move(desk: Desk, numbers: (int, int))
    requires
        placement::all_plain(desk.window.address),
        desk.window.fullscreen == 0,
    ensures
        effect(desk, placement::in_pixels("movewindowpixel exact "@, numbers, desk.window)) == (
        Desk { window: HyprClientView { at: numbers, ..desk.window }, ..desk }),
{
    let here = "address:"@ + desk.window.address;
    let first = text::decimal(numbers.0);
    let second = text::decimal(numbers.1) + (","@ + here);
    reveal_strlit("resizewindowpixel");
    reveal_strlit("movewindowpixel");
    reveal_strlit("exact");
    reveal_strlit("movewindowpixel exact ");
    reveal_strlit(" ");
    law_decimal_text_reads_back(numbers.0);
    law_decimal_text_reads_back(numbers.1);
    lemma_second_number(desk.window.address, numbers.1);
    lemma_plain_reads("movewindowpixel"@);
    lemma_plain_reads("exact"@);
    lemma_plain_reads(first);
    lemma_four_words(
        ("movewindowpixel"@, "exact"@, first, second),
        ("movewindowpixel"@, "exact"@, first, second),
    );
    assert(placement::in_pixels("movewindowpixel exact "@, numbers, desk.window)
        =~= "movewindowpixel"@ + seq![' '] + "exact"@ + seq![' '] + first + seq![' '] + second);
}

proof fn lemma_to_workspace(desk: Desk, selector: Seq<char>)
    requires
        placement::all_plain(desk.window.address),
    ensures
        effect(
            desk,
            placement::on_window(
                "movetoworkspacesilent "@ + placement::quoted(selector) + ","@,
                desk.window,
            ),
        ) == (Desk {
            window: HyprClientView {
                workspace: selected(desk.window.workspace, selector),
                ..desk.window
            },
            monitor: if desk.binding is Some {
                desk.binding
            } else {
                desk.monitor
            },
            ..desk
        }),
{
    let here = "address:"@ + desk.window.address;
    let behind = ","@ + here;
    let form = placement::quoted(selector) + behind;
    let word = selector + behind;
    reveal_strlit("pin");
    reveal_strlit("togglefloating");
    reveal_strlit("focuswindow");
    reveal_strlit(",");
    reveal_strlit("movetoworkspacesilent");
    reveal_strlit("movetoworkspacesilent ");
    lemma_here(desk.window.address);
    lemma_plain_reads(","@);
    lemma_reads_concat(","@, ","@, here, here);
    lemma_quoted_reads(selector);
    lemma_reads_concat(placement::quoted(selector), selector, behind, behind);
    lemma_plain_reads("movetoworkspacesilent"@);
    lemma_two_words(("movetoworkspacesilent"@, form), ("movetoworkspacesilent"@, word));
    assert(word.skip(word.len() - behind.len()) =~= behind);
    assert(word.take(word.len() - behind.len()) =~= selector);
    assert(placement::on_window(
        "movetoworkspacesilent "@ + placement::quoted(selector) + ","@,
        desk.window,
    ) =~= "movetoworkspacesilent"@ + seq![' '] + form);
}

proof fn lemma_to_monitor(desk: Desk, monitor: Seq<char>)
    requires
        desk.focused,
        monitor.len() > 0,
    ensures
        effect(desk, "movewindow "@ + placement::quoted("mon:"@ + monitor) + " silent"@) == (
        Desk { monitor: Some(monitor), ..desk }),
{
    let word = "mon:"@ + monitor;
    reveal_strlit("fullscreenstate");
    reveal_strlit("movewindow");
    reveal_strlit("movewindow ");
    reveal_strlit("mon:");
    reveal_strlit("silent");
    reveal_strlit(" silent");
    lemma_quoted_reads(word);
    lemma_plain_reads("movewindow"@);
    lemma_plain_reads("silent"@);
    lemma_three_words(
        ("movewindow"@, placement::quoted(word), "silent"@),
        ("movewindow"@, word, "silent"@),
    );
    assert(word.take("mon:"@.len() as int) =~= "mon:"@);
    assert(word.skip("mon:"@.len() as int) =~= monitor);
    assert("movewindow "@ + placement::quoted(word) + " silent"@ =~= "movewindow"@ + seq![' ']
        + placement::quoted(word) + seq![' '] + "silent"@);
}

// ── Reconciling ────────────────────────────────────────────────────────────

proof fn lemma_nothing(desk: Desk)
    ensures
        effects(desk, Seq::<Seq<char>>::empty()) == desk,
{
}

/// Unpinning, leaving fullscreen and changing the workspace.
proof fn lemma_first_half(target: SessionClientView, desk: Desk)
    requires
        placement::all_plain(desk.window.address),
    ensures
        ({
            let current = desk.window;
            let after = effects(
                desk,
                placement::unpin_part(target, current) + placement::leave_fullscreen_part(
                    target,
                    current,
                ) + placement::workspace_part(target, current),
            );
            let stays = placement::on_saved_workspace(target, current);
            &&& after.window == HyprClientView {
                pinned: current.pinned && target.pinned,
                fullscreen: if target.fullscreen == 0 {
                    0
                } else {
                    current.fullscreen
                },
                workspace: if stays {
                    current.workspace
                } else {
                    selected(current.workspace, placement::selector(target))
                },
                ..current
            }
            &&& after.monitor == if !stays && desk.binding is Some {
                desk.binding
            } else {
                desk.monitor
            }
            &&& after.binding == desk.binding
        }),
{
    let current = desk.window;
    let p1 = placement::unpin_part(target, current);
    let p2 = placement::leave_fullscreen_part(target, current);
    let p3 = placement::workspace_part(target, current);
    let d1 = effects(desk, p1);
    lemma_nothing(desk);
    lemma_effects_one(desk, placement::on_window("pin "@, current));
    lemma_pin(desk);
    let d2 = effects(d1, p2);
    lemma_nothing(d1);
    lemma_focus(d1);
    lemma_effects_two(d1, placement::on_window("focuswindow "@, current), "fullscreenstate 0 0"@);
    lemma_state_off(effect(d1, placement::on_window("focuswindow "@, current)));
    lemma_nothing(d2);
    lemma_effects_one(
        d2,
        placement::on_window(
            "movetoworkspacesilent "@ + placement::quoted(placement::selector(target)) + ","@,
            current,
        ),
    );
    lemma_to_workspace(d2, placement::selector(target));
    lemma_effects_concat(desk, p1, p2);
    lemma_effects_concat(desk, p1 + p2, p3);
}

/// Changing the monitor.
proof fn lemma_monitor_moves(desk: Desk, monitor: Seq<char>)
    requires
        placement::all_plain(desk.window.address),
        monitor.len() > 0,
    ensures
        effects(desk, placement::monitor_moves(monitor, desk.window.address)) == (Desk {
            monitor: Some(monitor),
            focused: true,
            ..desk
        }),
{
    let a = "focuswindow address:"@ + desk.window.address;
    lemma_effects_two(
        desk,
        a,
        "movewindow "@ + placement::quoted("mon:"@ + monitor) + " silent"@,
    );
    lemma_focus(desk);
    lemma_to_monitor(effect(desk, a), monitor);
}

/// Floating, size, place, entering fullscreen and pinning.
spec fn second_half(
    target: SessionClientView,
    current: HyprClientView,
    geometry: ReconcileGeometryView,
) -> Seq<Seq<char>> {
    placement::floating_part(target, current) + (placement::size_part(target, current, geometry) + (
    placement::place_part(target, current, geometry) + (placement::enter_fullscreen_part(
        target,
        current,
    ) + placement::pin_part(target, current))))
}

proof fn lemma_second_half(
    target: SessionClientView,
    current: HyprClientView,
    desk: Desk,
    geometry: ReconcileGeometryView,
)
    requires
        placement::all_plain(current.address),
        desk.window == (HyprClientView {
            pinned: current.pinned && target.pinned,
            fullscreen: if target.fullscreen == 0 {
                0
            } else {
                current.fullscreen
            },
            workspace: desk.window.workspace,
            ..current
        }),
    ensures
        ({
            let after = effects(desk, second_half(target, current, geometry));
            let placed = target.fullscreen == 0 && (target.monitor.len() == 0
                || geometry.target_monitor_available);
            &&& after.window == HyprClientView {
                pinned: target.pinned,
                floating: target.floating,
                fullscreen: target.fullscreen,
                size: if placed {
                    geometry.desired_size
                } else {
                    current.size
                },
                at: if placed {
                    geometry.desired_at
                } else {
                    current.at
                },
                ..desk.window
            }
            &&& after.monitor == desk.monitor
            &&& after.binding == desk.binding
        }),
{
    let p5 = placement::floating_part(target, current);
    let p6 = placement::size_part(target, current, geometry);
    let p7 = placement::place_part(target, current, geometry);
    let p8 = placement::enter_fullscreen_part(target, current);
    let p9 = placement::pin_part(target, current);
    lemma_effects_concat(desk, p5, p6 + (p7 + (p8 + p9)));
    let d5 = effects(desk, p5);
    lemma_nothing(desk);
    lemma_effects_one(desk, placement::on_window("togglefloating "@, current));
    lemma_toggle(desk);
    lemma_effects_concat(d5, p6, p7 + (p8 + p9));
    let d6 = effects(d5, p6);
    lemma_nothing(d5);
    lemma_effects_one(
        d5,
        placement::in_pixels("resizewindowpixel exact "@, geometry.desired_size, current),
    );
    if target.fullscreen == 0 {
        lemma_resize(d5, geometry.desired_size);
    }
    lemma_effects_concat(d6, p7, p8 + p9);
    let d7 = effects(d6, p7);
    lemma_nothing(d6);
    lemma_effects_one(
        d6,
        placement::in_pixels("movewindowpixel exact "@, geometry.desired_at, current),
    );
    if target.fullscreen == 0 {
        lemma_move(d6, geometry.desired_at);
    }
    lemma_effects_concat(d7, p8, p9);
    let d8 = effects(d7, p8);
    lemma_nothing(d7);
    lemma_focus(d7);
    let n = target.fullscreen as int;
    lemma_effects_two(
        d7,
        placement::on_window("focuswindow "@, current),
        "fullscreenstate "@ + text::decimal(n) + " "@ + text::decimal(n),
    );
    lemma_state(effect(d7, placement::on_window("focuswindow "@, current)), target.fullscreen);
    lemma_nothing(d8);
    lemma_effects_one(d8, placement::on_window("pin "@, current));
    lemma_pin(d8);
}

proof fn lemma_marks_differ(s: Seq<char>)
    ensures
        !(text::starts_with_ignoring_case(s, "name:"@) && text::starts_with_ignoring_case(
            s,
            "special:"@,
        )),
{
    reveal_strlit("name:");
    reveal_strlit("special:");
    if text::starts_with_ignoring_case(s, "name:"@) && text::starts_with_ignoring_case(
        s,
        "special:"@,
    ) {
        assert(text::lowered(s.take(5))[0] == text::lowered("name:"@)[0]);
        assert(text::lowered(s.take(8))[0] == text::lowered("special:"@)[0]);
        assert(s.take(5)[0] == s[0]);
        assert(s.take(8)[0] == s[0]);
    }
}

proof fn lemma_number_is_unmarked(n: int)
    ensures
        !text::starts_with_ignoring_case(text::decimal(n), "name:"@),
        !text::starts_with_ignoring_case(text::decimal(n), "special:"@),
{
    let t = text::decimal(n);
    reveal_strlit("name:");
    reveal_strlit("special:");
    if n < 0 {
        assert(t[0] == '-');
    } else {
        lemma_digits(n as nat);
        assert('0' <= t[0] && t[0] <= '9');
    }
    assert(text::lower(t[0]) == t[0]);
    if text::starts_with_ignoring_case(t, "name:"@) {
        assert(text::lowered(t.take(5))[0] == text::lowered("name:"@)[0]);
        assert(t.take(5)[0] == t[0]);
    }
    if text::starts_with_ignoring_case(t, "special:"@) {
        assert(text::lowered(t.take(8))[0] == text::lowered("special:"@)[0]);
        assert(t.take(8)[0] == t[0]);
    }
}

proof fn lemma_trimmed_end(s: Seq<char>)
    ensures
        text::trimmed_end(s).len() <= s.len(),
        text::trimmed_end(s).len() == 0 || !text::is_space(text::trimmed_end(s).last()),
        text::trimmed_end(s).len() > 0 ==> text::trimmed_end(s)[0] == s[0],
    decreases s.len(),
{
    if s.len() > 0 && text::is_space(s.last()) {
        lemma_trimmed_end(s.drop_last());
    }
}

proof fn lemma_trimmed_start(s: Seq<char>)
    ensures
        text::trimmed_start(s).len() == 0 || !text::is_space(text::trimmed_start(s)[0]),
    decreases s.len(),
{
    if s.len() > 0 && text::is_space(s[0]) {
        lemma_trimmed_start(s.drop_first());
    }
}

/// A text without white space around it has none to remove.
pub proof fn law_trimming_twice_is_trimming_once(s: Seq<char>)
    ensures
        text::trimmed(text::trimmed(s)) == text::trimmed(s),
{
    lemma_trimmed_start(s);
    lemma_trimmed_end(text::trimmed_start(s));
}

/// A name behind one mark: nothing to trim and no further mark.
pub open spec fn is_simple_name(name: Seq<char>) -> bool {
    &&& text::trimmed(name) == name
    &&& !text::starts_with_ignoring_case(name, "name:"@)
    &&& !text::starts_with_ignoring_case(name, "special:"@)
}

/// The workspace that the selector of a saved window leads to.
proof fn lemma_selected(target: SessionClientView, before: HyprWorkspaceView)
    ensures
        ({
            let saved = text::trimmed(target.workspace_name);
            let after = selected(before, placement::selector(target));
            if saved.len() == 0 || text::is_i32_text(saved) {
                after.id == target.workspace
            } else if text::starts_with_ignoring_case(saved, "name:"@) {
                after.name == saved.skip("name:"@.len() as int)
            } else {
                after.name == saved
            }
        }),
{
    let saved = text::trimmed(target.workspace_name);
    reveal_strlit("name:");
    lemma_marks_differ(saved);
    if saved.len() == 0 || text::is_i32_text(saved) {
        lemma_number_is_unmarked(target.workspace);
        law_decimal_text_reads_back(target.workspace);
    } else if !text::starts_with_ignoring_case(saved, "special:"@)
        && !text::starts_with_ignoring_case(saved, "name:"@) {
        let marked = "name:"@ + saved;
        assert(marked.take(5) =~= "name:"@);
        assert(marked.skip(5) =~= saved);
    }
}

/// Workspace names: what stands on the saved workspace bears its name.
proof fn lemma_named_alike(saved: Seq<char>, name: Seq<char>)
    requires
        placement::same_workspace_name(saved, name),
    ensures
        text::starts_with_ignoring_case(saved, "special:"@) ==> text::same_ignoring_case(
            name,
            saved,
        ),
        text::starts_with_ignoring_case(saved, "name:"@) ==> text::same_ignoring_case(name, saved)
            || text::same_ignoring_case(name, saved.skip("name:"@.len() as int)),
        !text::starts_with_ignoring_case(saved, "special:"@) && !text::starts_with_ignoring_case(
            saved,
            "name:"@,
        ) ==> text::same_ignoring_case(name, saved) || text::same_ignoring_case(
            name,
            "name:"@ + saved,
        ),
{
    reveal_strlit("name:");
    lemma_marks_differ(saved);
    let bare = placement::plain_name(saved);
    if text::starts_with_ignoring_case(name, "name:"@) {
        lemma_lowered_concat(name.take(5), name.skip(5));
        assert(name.take(5) + name.skip(5) =~= name);
        lemma_lowered_concat("name:"@, bare);
        if text::starts_with_ignoring_case(saved, "name:"@) {
            lemma_lowered_concat(saved.take(5), saved.skip(5));
            assert(saved.take(5) + saved.skip(5) =~= saved);
        }
    }
}

proof fn lemma_lowered_concat(a: Seq<char>, b: Seq<char>)
    ensures
        text::lowered(a + b) == text::lowered(a) + text::lowered(b),
{
    assert(text::lowered(a + b) =~= text::lowered(a) + text::lowered(b));
}

/// The commands for an open window, carried out, leave it as it was saved: it
/// is pinned, floats and is fullscreen as then, it has the wanted size and
/// place where coordinates apply, and it stands on its workspace and on its
/// monitor, unless it stood there and a workspace that is bound to another
/// monitor took it away.  Nothing else of it changes, and once it is in place
/// there is nothing left to do.
pub proof fn law_reconciling_puts_the_window_in_place(
    target: SessionClientView,
    desk: Desk,
    geometry: ReconcileGeometryView,
)
    requires
        placement::all_plain(desk.window.address),
    ensures
        ({
            let current = desk.window;
            let commands = placement::reconcile_commands(target, current, desk.monitor, geometry);
            let after = effects(desk, commands);
            let window = after.window;
            let saved = text::trimmed(target.workspace_name);
            let name = text::trimmed(window.workspace.name);
            let rest = saved.skip("name:"@.len() as int);
            let numbered = saved.len() == 0 || text::is_i32_text(saved);
            let special = text::starts_with_ignoring_case(saved, "special:"@);
            let marked = text::starts_with_ignoring_case(saved, "name:"@);
            let available = geometry.target_monitor_available;
            let placed = target.fullscreen == 0 && (target.monitor.len() == 0 || available);
            let settled = desk.binding is None || (desk.monitor is Some
                && !text::same_ignoring_case(desk.monitor->0, target.monitor));
            &&& window.pinned == target.pinned
            &&& window.floating == target.floating
            &&& window.fullscreen == target.fullscreen
            &&& placed ==> window.size == geometry.desired_size && window.at == geometry.desired_at
            &&& !placed ==> window.size == current.size && window.at == current.at
            &&& numbered ==> window.workspace.id == target.workspace
            &&& !numbered && special ==> text::same_ignoring_case(name, saved)
            &&& !numbered && marked && is_simple_name(rest) ==> text::same_ignoring_case(name, saved)
                || text::same_ignoring_case(name, rest)
            &&& !numbered && !special && !marked ==> text::same_ignoring_case(name, saved)
                || text::same_ignoring_case(name, "name:"@ + saved)
            &&& available && target.monitor.len() > 0 && desk.monitor is Some && settled ==> {
                &&& after.monitor is Some
                &&& text::same_ignoring_case(after.monitor->0, target.monitor)
            }
            &&& desk.binding is None && (!available || target.monitor.len() == 0) ==> after.monitor
                == desk.monitor
            &&& window == HyprClientView {
                workspace: window.workspace,
                at: window.at,
                size: window.size,
                floating: window.floating,
                fullscreen: window.fullscreen,
                pinned: window.pinned,
                ..current
            }
            &&& desk.binding is None && (marked ==> is_simple_name(rest))
                ==> placement::reconcile_commands(target, window, after.monitor, geometry).len() == 0
        }),
{
    let current = desk.window;
    let commands = placement::reconcile_commands(target, current, desk.monitor, geometry);
    let after = effects(desk, commands);
    lemma_reconciled(target, desk, desk.monitor, geometry);
    lemma_arrived(target, current.workspace, after.window.workspace);
    let saved = text::trimmed(target.workspace_name);
    let marked = text::starts_with_ignoring_case(saved, "name:"@);
    if desk.binding is None && (marked ==> is_simple_name(saved.skip("name:"@.len() as int))) {
        assert(placement::on_saved_workspace(target, after.window));
        lemma_nothing_left(target, after.window, after.monitor, geometry);
    }
}

proof fn lemma_nothing_left(
    target: SessionClientView,
    window: HyprClientView,
    monitor: Option<Seq<char>>,
    geometry: ReconcileGeometryView,
)
    requires
        dispatch::is_in_place(target, window, monitor, geometry),
    ensures
        placement::reconcile_commands(target, window, monitor, geometry).len() == 0,
{
    dispatch::law_window_in_place_is_left_alone(target, window, monitor, geometry);
}

proof fn lemma_regroup(p: (Seq<Seq<char>>, Seq<Seq<char>>, Seq<Seq<char>>, Seq<Seq<char>>), q: (
    Seq<Seq<char>>,
    Seq<Seq<char>>,
    Seq<Seq<char>>,
    Seq<Seq<char>>,
    Seq<Seq<char>>,
))
    ensures
        p.0 + p.1 + p.2 + p.3 + q.0 + q.1 + q.2 + q.3 + q.4 == (p.0 + p.1 + p.2) + p.3 + (q.0 + (q.1
            + (q.2 + (q.3 + q.4)))),
{
    assert(p.0 + p.1 + p.2 + p.3 + q.0 + q.1 + q.2 + q.3 + q.4 =~= (p.0 + p.1 + p.2) + p.3 + (q.0
        + (q.1 + (q.2 + (q.3 + q.4)))));
}

/// The commands for an open window, in three parts.
proof fn lemma_three_parts(
    target: SessionClientView,
    current: HyprClientView,
    monitor: Option<Seq<char>>,
    geometry: ReconcileGeometryView,
)
    ensures
        placement::reconcile_commands(target, current, monitor, geometry) == (placement::unpin_part(
            target,
            current,
        ) + placement::leave_fullscreen_part(target, current) + placement::workspace_part(
            target,
            current,
        )) + placement::monitor_part(target, current, monitor, geometry.target_monitor_available)
            + second_half(target, current, geometry),
{
    lemma_regroup(
        (
            placement::unpin_part(target, current),
            placement::leave_fullscreen_part(target, current),
            placement::workspace_part(target, current),
            placement::monitor_part(target, current, monitor, geometry.target_monitor_available),
        ),
        (
            placement::floating_part(target, current),
            placement::size_part(target, current, geometry),
            placement::place_part(target, current, geometry),
            placement::enter_fullscreen_part(target, current),
            placement::pin_part(target, current),
        ),
    );
}

/// Everything that the commands for an open window do.
proof fn lemma_reconciled(
    target: SessionClientView,
    desk: Desk,
    monitor: Option<Seq<char>>,
    geometry: ReconcileGeometryView,
)
    requires
        placement::all_plain(desk.window.address),
    ensures
        ({
            let current = desk.window;
            let after = effects(
                desk,
                placement::reconcile_commands(target, current, monitor, geometry),
            );
            let available = geometry.target_monitor_available;
            let placed = target.fullscreen == 0 && (target.monitor.len() == 0 || available);
            let stays = placement::on_saved_workspace(target, current);
            &&& after.window == HyprClientView {
                pinned: target.pinned,
                floating: target.floating,
                fullscreen: target.fullscreen,
                size: if placed {
                    geometry.desired_size
                } else {
                    current.size
                },
                at: if placed {
                    geometry.desired_at
                } else {
                    current.at
                },
                workspace: if stays {
                    current.workspace
                } else {
                    selected(current.workspace, placement::selector(target))
                },
                ..current
            }
            &&& after.monitor == if placement::on_other_monitor(target, monitor, available) {
                Some(target.monitor)
            } else if !stays && desk.binding is Some {
                desk.binding
            } else {
                desk.monitor
            }
        }),
{
    let current = desk.window;
    let head = placement::unpin_part(target, current) + placement::leave_fullscreen_part(
        target,
        current,
    ) + placement::workspace_part(target, current);
    let moves = placement::monitor_part(
        target,
        current,
        monitor,
        geometry.target_monitor_available,
    );
    let tail = second_half(target, current, geometry);
    lemma_three_parts(target, current, monitor, geometry);
    lemma_effects_concat(desk, head, moves);
    lemma_effects_concat(desk, head + moves, tail);
    lemma_first_half(target, desk);
    let d1 = effects(desk, head);
    lemma_nothing(d1);
    if target.monitor.len() > 0 {
        lemma_monitor_moves(d1, target.monitor);
    }
    let d2 = effects(d1, moves);
    lemma_second_half(target, current, d2, geometry);
}

/// What a workspace is like on which a saved window stands, or to which its
/// selector led.
proof fn lemma_arrived(
    target: SessionClientView,
    before: HyprWorkspaceView,
    after: HyprWorkspaceView,
)
    requires
        after == if (if placement::is_numbered(target.workspace_name) {
            target.workspace == before.id
        } else {
            placement::same_workspace_name(
                text::trimmed(target.workspace_name),
                text::trimmed(before.name),
            )
        }) {
            before
        } else {
            selected(before, placement::selector(target))
        },
    ensures
        ({
            let saved = text::trimmed(target.workspace_name);
            let name = text::trimmed(after.name);
            let rest = saved.skip("name:"@.len() as int);
            let numbered = saved.len() == 0 || text::is_i32_text(saved);
            let special = text::starts_with_ignoring_case(saved, "special:"@);
            let marked = text::starts_with_ignoring_case(saved, "name:"@);
            &&& numbered ==> after.id == target.workspace
            &&& !numbered && special ==> text::same_ignoring_case(name, saved)
            &&& !numbered && marked && is_simple_name(rest) ==> text::same_ignoring_case(name, saved)
                || text::same_ignoring_case(name, rest)
            &&& !numbered && !special && !marked ==> text::same_ignoring_case(name, saved)
                || text::same_ignoring_case(name, "name:"@ + saved)
            &&& !numbered && (marked ==> is_simple_name(rest)) ==> placement::same_workspace_name(
                saved,
                name,
            )
        }),
{
    let saved = text::trimmed(target.workspace_name);
    law_trimming_twice_is_trimming_once(target.workspace_name);
    lemma_selected(target, before);
    lemma_marks_differ(saved);
    if placement::same_workspace_name(saved, text::trimmed(before.name)) {
        lemma_named_alike(saved, text::trimmed(before.name));
    }
}

// ── Launched windows ───────────────────────────────────────────────────────

proof fn lemma_behind_none(commands: Seq<Seq<char>>, i: int)
    requires
        0 <= i,
        forall|k: int|
            i <= k < commands.len() ==> !text::starts_with(
                #[trigger] commands[k],
                "movetoworkspacesilent "@,
            ),
    ensures
        launched::behind_workspace(commands, i) == 0,
    decreases commands.len() - i,
{
    if i < commands.len() {
        lemma_behind_none(commands, i + 1);
    }
}

proof fn lemma_behind_at(commands: Seq<Seq<char>>, i: int, at: int)
    requires
        0 <= i <= at < commands.len(),
        forall|k: int|
            i <= k < at ==> !text::starts_with(
                #[trigger] commands[k],
                "movetoworkspacesilent "@,
            ),
        text::starts_with(commands[at], "movetoworkspacesilent "@),
    ensures
        launched::behind_workspace(commands, i) == at + 1,
    decreases at - i,
{
    if i < at {
        assert(!text::starts_with(commands[i], "movetoworkspacesilent "@));
        lemma_behind_at(commands, i + 1, at);
    }
}

/// No command of the list brings a window to a workspace.
spec fn leaves_workspace(commands: Seq<Seq<char>>) -> bool {
    forall|k: int|
        0 <= k < commands.len() ==> !text::starts_with(
            #[trigger] commands[k],
            "movetoworkspacesilent "@,
        )
}

proof fn lemma_leaves_concat(a: Seq<Seq<char>>, b: Seq<Seq<char>>)
    requires
        leaves_workspace(a),
        leaves_workspace(b),
    ensures
        leaves_workspace(a + b),
{
    assert forall|k: int| 0 <= k < (a + b).len() implies !text::starts_with(
        #[trigger] (a + b)[k],
        "movetoworkspacesilent "@,
    ) by {
        if k < a.len() {
            assert((a + b)[k] == a[k]);
        } else {
            assert((a + b)[k] == b[k - a.len()]);
        }
    }
}

/// A text with another character at some place starts otherwise.
proof fn lemma_starts_otherwise(s: Seq<char>, p: Seq<char>, i: int)
    requires
        0 <= i < p.len(),
        i < s.len(),
        s[i] != p[i],
    ensures
        !text::starts_with(s, p),
{
    if text::starts_with(s, p) {
        assert(s.take(p.len() as int)[i] == s[i]);
    }
}

proof fn lemma_parts_leave_workspace(
    target: SessionClientView,
    current: HyprClientView,
    geometry: ReconcileGeometryView,
)
    ensures
        leaves_workspace(
            placement::unpin_part(target, current) + placement::leave_fullscreen_part(
                target,
                current,
            ),
        ),
        leaves_workspace(second_half(target, current, geometry)),
{
    let w = "movetoworkspacesilent "@;
    reveal_strlit("movetoworkspacesilent ");
    reveal_strlit("pin ");
    reveal_strlit("focuswindow ");
    reveal_strlit("fullscreenstate 0 0");
    reveal_strlit("fullscreenstate ");
    reveal_strlit("togglefloating ");
    reveal_strlit("resizewindowpixel exact ");
    reveal_strlit("movewindowpixel exact ");
    let n = text::decimal(target.fullscreen as int);
    lemma_starts_otherwise(placement::on_window("pin "@, current), w, 0);
    lemma_starts_otherwise(placement::on_window("focuswindow "@, current), w, 0);
    lemma_starts_otherwise("fullscreenstate 0 0"@, w, 0);
    lemma_starts_otherwise("fullscreenstate "@ + n + " "@ + n, w, 0);
    lemma_starts_otherwise(placement::on_window("togglefloating "@, current), w, 0);
    lemma_starts_otherwise(
        placement::in_pixels("resizewindowpixel exact "@, geometry.desired_size, current),
        w,
        0,
    );
    lemma_starts_otherwise(
        placement::in_pixels("movewindowpixel exact "@, geometry.desired_at, current),
        w,
        4,
    );
    let p1 = placement::unpin_part(target, current);
    let p2 = placement::leave_fullscreen_part(target, current);
    assert(leaves_workspace(p1));
    assert(leaves_workspace(p2));
    lemma_leaves_concat(p1, p2);
    let p5 = placement::floating_part(target, current);
    let p6 = placement::size_part(target, current, geometry);
    let p7 = placement::place_part(target, current, geometry);
    let p8 = placement::enter_fullscreen_part(target, current);
    let p9 = placement::pin_part(target, current);
    assert(leaves_workspace(p5));
    assert(leaves_workspace(p6));
    assert(leaves_workspace(p7));
    assert(leaves_workspace(p8));
    assert(leaves_workspace(p9));
    lemma_leaves_concat(p8, p9);
    lemma_leaves_concat(p7, p8 + p9);
    lemma_leaves_concat(p6, p7 + (p8 + p9));
    lemma_leaves_concat(p5, p6 + (p7 + (p8 + p9)));
}

/// The commands for the window of a launch: those for an open window, with
/// the moves to its monitor where the window stands on its workspace.
proof fn lemma_launch_parts(
    target: SessionClientView,
    current: HyprClientView,
    geometry: ReconcileGeometryView,
)
    ensures
        ({
            let commands = placement::reconcile_commands(target, current, None, geometry);
            let k = launched::behind_workspace(commands, 0);
            let head = placement::unpin_part(target, current) + placement::leave_fullscreen_part(
                target,
                current,
            ) + placement::workspace_part(target, current);
            if placement::on_saved_workspace(target, current) {
                &&& commands.take(k) == Seq::<Seq<char>>::empty()
                &&& commands.skip(k) == commands
            } else {
                &&& commands.take(k) == head
                &&& commands.skip(k) == second_half(target, current, geometry)
            }
        }),
{
    let commands = placement::reconcile_commands(target, current, None, geometry);
    let p = placement::unpin_part(target, current) + placement::leave_fullscreen_part(
        target,
        current,
    );
    let p3 = placement::workspace_part(target, current);
    let tail = second_half(target, current, geometry);
    let none = placement::monitor_part(target, current, None, geometry.target_monitor_available);
    lemma_three_parts(target, current, None, geometry);
    assert(none =~= Seq::<Seq<char>>::empty());
    assert(p + p3 + none =~= p + p3);
    assert(commands == p + p3 + tail);
    lemma_parts_leave_workspace(target, current, geometry);
    if placement::on_saved_workspace(target, current) {
        assert(p + p3 =~= p);
        lemma_leaves_concat(p, tail);
        lemma_behind_none(commands, 0);
        assert(commands.take(0) =~= Seq::<Seq<char>>::empty());
        assert(commands.skip(0) =~= commands);
    } else {
        let at = p.len() as int;
        let command = placement::on_window(
            "movetoworkspacesilent "@ + placement::quoted(placement::selector(target)) + ","@,
            current,
        );
        let w = "movetoworkspacesilent "@;
        assert(commands[at] == command);
        assert(command.take(w.len() as int) =~= w);
        assert forall|k: int| 0 <= k < at implies !text::starts_with(#[trigger] commands[k], w) by {
            assert(commands[k] == p[k]);
        }
        lemma_behind_at(commands, 0, at);
        assert(commands.take(at + 1) =~= p + p3);
        assert(commands.skip(at + 1) =~= tail);
    }
}

/// The commands for the window of a launch, carried out, leave it as it was
/// saved: pinned, floating, fullscreen, on its workspace, with its size and
/// at its place where coordinates apply, and on its monitor, also where the
/// workspace is bound to another one.
pub proof fn law_placing_a_launch_puts_the_window_in_place(
    target: SessionClientView,
    desk: Desk,
    monitor_available: bool,
)
    requires
        placement::all_plain(desk.window.address),
    ensures
        ({
            let current = desk.window;
            let commands = launched::launch_commands(target, current, monitor_available);
            let after = effects(desk, commands);
            let window = after.window;
            let saved = text::trimmed(target.workspace_name);
            let name = text::trimmed(window.workspace.name);
            let rest = saved.skip("name:"@.len() as int);
            let numbered = saved.len() == 0 || text::is_i32_text(saved);
            let special = text::starts_with_ignoring_case(saved, "special:"@);
            let marked = text::starts_with_ignoring_case(saved, "name:"@);
            let placed = target.fullscreen == 0 && (target.monitor.len() == 0
                || monitor_available);
            &&& window.pinned == target.pinned
            &&& window.floating == target.floating
            &&& window.fullscreen == target.fullscreen
            &&& placed ==> window.size == target.size && window.at == target.at
            &&& !placed ==> window.size == current.size && window.at == current.at
            &&& numbered ==> window.workspace.id == target.workspace
            &&& !numbered && special ==> text::same_ignoring_case(name, saved)
            &&& !numbered && marked && is_simple_name(rest) ==> text::same_ignoring_case(name, saved)
                || text::same_ignoring_case(name, rest)
            &&& !numbered && !special && !marked ==> text::same_ignoring_case(name, saved)
                || text::same_ignoring_case(name, "name:"@ + saved)
            &&& monitor_available && target.monitor.len() > 0 ==> after.monitor == Some(
                target.monitor,
            )
            &&& desk.binding is None && (!monitor_available || target.monitor.len() == 0)
                ==> after.monitor == desk.monitor
            &&& window == HyprClientView {
                workspace: window.workspace,
                at: window.at,
                size: window.size,
                floating: window.floating,
                fullscreen: window.fullscreen,
                pinned: window.pinned,
                ..current
            }
        }),
{
    let current = desk.window;
    let geometry = ReconcileGeometryView {
        desired_at: target.at,
        desired_size: target.size,
        target_monitor_available: monitor_available,
    };
    let commands = placement::reconcile_commands(target, current, None, geometry);
    let after = effects(desk, launched::launch_commands(target, current, monitor_available));
    if monitor_available && target.monitor.len() > 0 {
        let k = launched::behind_workspace(commands, 0);
        let moves = placement::monitor_moves(target.monitor, current.address);
        lemma_launch_parts(target, current, geometry);
        lemma_effects_concat(desk, commands.take(k), moves);
        lemma_effects_concat(desk, commands.take(k) + moves, commands.skip(k));
        let d1 = effects(desk, commands.take(k));
        lemma_nothing(desk);
        if placement::on_saved_workspace(target, current) {
            lemma_monitor_moves(d1, target.monitor);
            lemma_reconciled(target, effects(d1, moves), None, geometry);
        } else {
            lemma_first_half(target, desk);
            lemma_monitor_moves(d1, target.monitor);
            lemma_second_half(target, current, effects(d1, moves), geometry);
        }
    } else {
        lemma_reconciled(target, desk, None, geometry);
    }
    lemma_arrived(target, current.workspace, after.window.workspace);
}

// ── Announced operations ───────────────────────────────────────────────────

/// Reading on leaves the words that are complete.
proof fn lemma_words_stay(reader: Reader, s: Seq<char>)
    requires
        reader.args.len() > 0,
    ensures
        hyprctl::read_text(reader, s).args.len() > 0,
        hyprctl::read_text(reader, s).args[0] == reader.args[0],
    decreases s.len(),
{
    if s.len() > 0 {
        lemma_words_stay(reader, s.drop_last());
    }
}

/// Starting a program leaves the windows that are open.
proof fn lemma_exec(desk: Desk, command: Seq<char>)
    ensures
        effect(desk, "exec "@ + command) == desk,
{
    let blank = hyprctl::blank_reader();
    reveal_strlit("exec");
    reveal_strlit("exec ");
    reveal_strlit("pin");
    reveal_strlit("togglefloating");
    reveal_strlit("focuswindow");
    reveal_strlit("fullscreenstate");
    reveal_strlit("resizewindowpixel");
    reveal_strlit("movewindowpixel");
    reveal_strlit("movetoworkspacesilent");
    reveal_strlit("movewindow");
    lemma_plain_reads("exec"@);
    assert("exec "@ =~= "exec"@ + seq![' ']);
    dispatch::lemma_read_concat(blank, "exec"@, seq![' ']);
    let r1 = hyprctl::read_text(blank, "exec"@);
    assert(is_closed(blank));
    assert(r1.current =~= "exec"@);
    dispatch::lemma_read_one(r1, ' ');
    let r2 = hyprctl::read_text(blank, "exec "@);
    assert(r2.args[0] == "exec"@);
    lemma_words_stay(r2, command);
    dispatch::lemma_read_concat(blank, "exec "@, command);
    match hyprctl::dispatch_args("exec "@ + command) {
        Ok(words) => {
            assert(words[0] == "exec"@);
        },
        Err(_) => {},
    }
}

/// The operations that are announced for a window that is opened anew, carried
/// out on a new window that is neither pinned nor floating nor fullscreen,
/// make it the saved one.
pub proof fn law_announced_operations_place_a_new_window(
    client: SessionClientView,
    desk: Desk,
    available: bool,
)
    requires
        desk.window.address == "0xNEW"@,
        !desk.window.pinned,
        !desk.window.floating,
        desk.window.fullscreen == 0,
    ensures
        ({
            let after = effects(desk, launch::dispatch_plan(client, available));
            let window = after.window;
            let saved = text::trimmed(client.workspace_name);
            let name = window.workspace.name;
            let rest = saved.skip("name:"@.len() as int);
            let numbered = saved.len() == 0 || text::is_i32_text(saved);
            let marked = text::starts_with_ignoring_case(saved, "name:"@);
            let placed = client.monitor.len() == 0 || available;
            &&& window.pinned == client.pinned
            &&& window.floating == client.floating
            &&& window.fullscreen == client.fullscreen
            &&& placed ==> window.size == client.size && window.at == client.at
            &&& !placed ==> window.size == desk.window.size && window.at == desk.window.at
            &&& numbered ==> window.workspace.id == client.workspace
            &&& !numbered && marked ==> name == rest
            &&& !numbered && !marked ==> name == saved
            &&& available && client.monitor.len() > 0 ==> after.monitor == Some(client.monitor)
        }),
{
    let address = "0xNEW"@;
    let here = "address:0xNEW"@;
    reveal_strlit("0xNEW");
    reveal_strlit("address:");
    reveal_strlit("address:0xNEW");
    assert(here =~= "address:"@ + address);
    assert(placement::all_plain(address));
    let window = desk.window;
    let d0 = seq!["exec "@ + text::joined(launch::command_of(client), " "@)];
    let d1 = seq![
        "movetoworkspacesilent "@ + placement::quoted(placement::selector(client)) + ","@ + here,
    ];
    let d2 = placement::when(
        available && client.monitor.len() > 0,
        placement::monitor_moves(client.monitor, address),
    );
    let resize = "resizewindowpixel exact "@ + text::decimal(client.size.0) + " "@ + text::decimal(
        client.size.1,
    ) + ","@ + here;
    let shift = "movewindowpixel exact "@ + text::decimal(client.at.0) + " "@ + text::decimal(
        client.at.1,
    ) + ","@ + here;
    let d3 = placement::when(client.monitor.len() == 0 || available, seq![resize, shift]);
    let d4 = placement::when(client.floating, seq!["togglefloating "@ + here]);
    let n = client.fullscreen as int;
    let state = "fullscreenstate "@ + text::decimal(n) + " "@ + text::decimal(n);
    let d5 = placement::when(client.fullscreen > 0, seq!["focuswindow "@ + here, state]);
    let d6 = placement::when(client.pinned, seq!["pin "@ + here]);
    lemma_effects_concat(desk, d0, d1);
    lemma_effects_concat(desk, d0 + d1, d2);
    lemma_effects_concat(desk, d0 + d1 + d2, d3);
    lemma_effects_concat(desk, d0 + d1 + d2 + d3, d4);
    lemma_effects_concat(desk, d0 + d1 + d2 + d3 + d4, d5);
    lemma_effects_concat(desk, d0 + d1 + d2 + d3 + d4 + d5, d6);
    lemma_effects_one(desk, d0[0]);
    lemma_exec(desk, text::joined(launch::command_of(client), " "@));
    assert(effects(desk, d0) == desk);
    lemma_effects_one(desk, d1[0]);
    lemma_to_workspace(desk, placement::selector(client));
    assert(d1[0] == placement::on_window(
        "movetoworkspacesilent "@ + placement::quoted(placement::selector(client)) + ","@,
        window,
    ));
    lemma_selected(client, window.workspace);
    let e1 = effects(desk, d1);
    lemma_nothing(e1);
    if client.monitor.len() > 0 {
        lemma_monitor_moves(e1, client.monitor);
    }
    let e2 = effects(e1, d2);
    lemma_nothing(e2);
    lemma_effects_two(e2, resize, shift);
    lemma_resize(e2, client.size);
    assert(resize == placement::in_pixels("resizewindowpixel exact "@, client.size, e2.window));
    lemma_move(effect(e2, resize), client.at);
    assert(shift == placement::in_pixels("movewindowpixel exact "@, client.at, e2.window));
    let e3 = effects(e2, d3);
    lemma_nothing(e3);
    lemma_effects_one(e3, "togglefloating "@ + here);
    lemma_toggle(e3);
    assert("togglefloating "@ + here == placement::on_window("togglefloating "@, e3.window));
    let e4 = effects(e3, d4);
    lemma_nothing(e4);
    lemma_effects_two(e4, "focuswindow "@ + here, state);
    lemma_focus(e4);
    assert("focuswindow "@ + here == placement::on_window("focuswindow "@, e4.window));
    lemma_state(effect(e4, "focuswindow "@ + here), client.fullscreen);
    let e5 = effects(e4, d5);
    lemma_nothing(e5);
    lemma_effects_one(e5, "pin "@ + here);
    lemma_pin(e5);
    assert("pin "@ + here == placement::on_window("pin "@, e5.window));
}

// ── Closing ────────────────────────────────────────────────────────────────

/// The window that a command closes.
pub open spec fn closed_by(command: Seq<char>) -> Option<Seq<char>> {
    match hyprctl::dispatch_args(command) {
        Ok(words) => if words.len() == 2 && words[0] == "closewindow"@ && words[1].len()
            >= "address:"@.len() && words[1].take("address:"@.len() as int) == "address:"@ {
            Some(words[1].skip("address:"@.len() as int))
        } else {
            None
        },
        Err(_) => None,
    }
}

/// The command that closes a window closes that one.
pub proof fn law_close_command_closes_its_window(address: Seq<char>)
    requires
        placement::all_plain(address),
    ensures
        closed_by(replace::close_command(address)) == Some(address),
{
    let here = "address:"@ + address;
    reveal_strlit("closewindow");
    reveal_strlit("closewindow address:");
    reveal_strlit("address:");
    lemma_here(address);
    lemma_plain_reads("closewindow"@);
    lemma_two_words(("closewindow"@, here), ("closewindow"@, here));
    assert(replace::close_command(address) =~= "closewindow"@ + seq![' '] + here);
    assert(here.take("address:"@.len() as int) =~= "address:"@);
    assert(here.skip("address:"@.len() as int) =~= address);
}

// ── As saved ───────────────────────────────────────────────────────────────

/// A window that is as it was saved gets no command: it is pinned, floats and
/// is fullscreen as then, it has its size and place where coordinates apply,
/// and its workspace and monitor bear the saved names up to case, with a mark
/// before the name of the workspace or without.
pub proof fn law_window_as_saved_gets_no_command(
    target: SessionClientView,
    current: HyprClientView,
    monitor: Option<Seq<char>>,
    geometry: ReconcileGeometryView,
)
    requires
        current.pinned == target.pinned,
        current.floating == target.floating,
        current.fullscreen == target.fullscreen,
        target.fullscreen == 0 && (target.monitor.len() == 0 || geometry.target_monitor_available)
            ==> current.size == geometry.desired_size && current.at == geometry.desired_at,
        monitor is None || target.monitor.len() == 0 || !geometry.target_monitor_available
            || text::same_ignoring_case(monitor->0, target.monitor),
        ({
            let saved = text::trimmed(target.workspace_name);
            let name = text::trimmed(current.workspace.name);
            if saved.len() == 0 || text::is_i32_text(saved) {
                current.workspace.id == target.workspace
            } else if text::starts_with_ignoring_case(saved, "special:"@) {
                text::same_ignoring_case(name, saved)
            } else {
                &&& is_simple_name(saved)
                &&& text::same_ignoring_case(name, saved) || name == "name:"@ + saved
            }
        }),
    ensures
        placement::reconcile_commands(target, current, monitor, geometry).len() == 0,
{
    reveal_strlit("name:");
    reveal_strlit("special:");
    let saved = text::trimmed(target.workspace_name);
    let name = text::trimmed(current.workspace.name);
    if !(saved.len() == 0 || text::is_i32_text(saved)) {
        if text::starts_with_ignoring_case(saved, "special:"@) {
        } else if name == "name:"@ + saved {
            assert(name.take(5) =~= "name:"@);
            assert(name.skip(5) =~= saved);
            lemma_marks_differ(name);
        } else {
            lemma_same_start(saved, name, "name:"@);
            lemma_same_start(saved, name, "special:"@);
        }
    }
    assert(placement::on_saved_workspace(target, current));
    dispatch::law_window_in_place_is_left_alone(target, current, monitor, geometry);
}

proof fn lemma_same_start(a: Seq<char>, b: Seq<char>, p: Seq<char>)
    requires
        text::same_ignoring_case(a, b),
    ensures
        text::starts_with_ignoring_case(a, p) == text::starts_with_ignoring_case(b, p),
{
    let n = p.len() as int;
    assert(text::lowered(a).len() == a.len());
    assert(text::lowered(b).len() == b.len());
    if n <= a.len() {
        assert(text::lowered(a.take(n)) =~= text::lowered(a).take(n));
        assert(text::lowered(b.take(n)) =~= text::lowered(b).take(n));
    }
}

} // verus!
