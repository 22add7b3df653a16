//! The computational parts of the terminal front end: wrapping selection
//! counters, centring message areas, and the dispatch of the event loop.
//! Drawing itself stays outside the library.

use vstd::prelude::*;

verus! {

/// A rectangle of terminal cells.
#[derive(Clone, Copy, PartialEq, Eq, Structural, Debug)]
pub struct ScreenRect {
    pub x: u16,
    pub y: u16,
    pub width: u16,
    pub height: u16,
}

/// Moves a selection counter one step up or down, wrapping at `len`.
pub fn update_counter(counter: &mut usize, up: bool, len: usize)
    requires
        len > 0,
        *old(counter) < len,
    ensures
        up ==> *final(counter) == (*old(counter) + len - 1) % (len as int),
        !up ==> *final(counter) == (*old(counter) + 1) % (len as int),
{
    if up {
        if *counter == 0 {
            *counter = len - 1;
            proof {
                vstd::arithmetic::div_mod::lemma_small_mod((len - 1) as nat, len as nat);
            }
        } else {
            *counter = *counter - 1;
            proof {
                vstd::arithmetic::div_mod::lemma_mod_multiples_vanish(
                    1,
                    *old(counter) - 1,
                    len as int,
                );
                vstd::arithmetic::div_mod::lemma_small_mod(
                    (*old(counter) - 1) as nat,
                    len as nat,
                );
                assert(*old(counter) + len - 1 == (len as int) * 1 + (*old(counter) - 1));
            }
        }
    } else {
        if *counter + 1 == len {
            *counter = 0;
            proof {
                vstd::arithmetic::div_mod::lemma_mod_multiples_vanish(1, 0, len as int);
                vstd::arithmetic::div_mod::lemma_small_mod(0, len as nat);
            }
        } else {
            *counter = *counter + 1;
            proof {
                vstd::arithmetic::div_mod::lemma_small_mod((*old(counter) + 1) as nat, len as nat);
            }
        }
    }
}

/// The three vertical or horizontal lengths that centre a span of `target`
/// cells in `available`: margin, the span itself, margin again.
pub fn centre(target: u16, available: u16) -> (r: (u16, u16, u16))
    ensures
        r.1 == if target < available {
            target
        } else {
            available
        },
        r.0 == (available - r.1) / 2,
        r.2 == r.0,
{
    let actual = if target < available {
        target
    } else {
        available
    };
    let margin = (available - actual) / 2;
    (margin, actual, margin)
}

/// The centred sub-rectangle of `area` that is `width` by `height` cells,
/// clipped to the area.
pub fn centre_area(area: ScreenRect, width: u16, height: u16) -> (r: ScreenRect)
    requires
        area.x + area.width <= u16::MAX,
        area.y + area.height <= u16::MAX,
    ensures
        r.height == if height < area.height {
            height
        } else {
            area.height
        },
        r.width == if width < area.width {
            width
        } else {
            area.width
        },
        r.y == area.y + (area.height - r.height) / 2,
        r.x == area.x + (area.width - r.width) / 2,
{
    let (vm, vh, _) = centre(height, area.height);
    let (hm, hw, _) = centre(width, area.width);
    ScreenRect { x: area.x + hm, y: area.y + vm, width: hw, height: vh }
}

/// Where popup messages go: an 80 by 25 box centred in the area.
pub fn message_area(area: ScreenRect) -> (r: ScreenRect)
    requires
        area.x + area.width <= u16::MAX,
        area.y + area.height <= u16::MAX,
    ensures
        r == centre_area_spec(area, 80, 25),
{
    centre_area(area, 80, 25)
}

/// What `centre_area` computes.
pub open spec fn centre_area_spec(area: ScreenRect, width: u16, height: u16) -> ScreenRect {
    let h = if height < area.height {
        height
    } else {
        area.height
    };
    let w = if width < area.width {
        width
    } else {
        area.width
    };
    ScreenRect {
        x: (area.x + (area.width - w) / 2) as u16,
        y: (area.y + (area.height - h) / 2) as u16,
        width: w,
        height: h,
    }
}

/// What reached the event loop of the terminal front end.
pub enum UiEvent {
    ProblemsAdded,
    Shutdown,
    ChannelClosed,
    KeyPressed,
    NoInput,
}

/// What the event loop does next.
#[derive(Clone, Copy, PartialEq, Eq, Structural, Debug)]
pub enum UiAction {
    /// Run the problems-added hook and redraw.
    ProcessNewProblems,
    /// Leave the loop.
    Finish,
    /// Hand the key to the problems screen and redraw.
    HandleKey,
    /// Poll again after a short wait.
    Poll,
}

/// The dispatch of the event loop: new problems are processed, a shutdown
/// or a closed channel ends the loop, a key is handled, and silence polls
/// again.
pub fn ui_step(event: &UiEvent) -> (r: UiAction)
    ensures
        match *event {
            UiEvent::ProblemsAdded => r == UiAction::ProcessNewProblems,
            UiEvent::Shutdown => r == UiAction::Finish,
            UiEvent::ChannelClosed => r == UiAction::Finish,
            UiEvent::KeyPressed => r == UiAction::HandleKey,
            UiEvent::NoInput => r == UiAction::Poll,
        },
{
    match event {
        UiEvent::ProblemsAdded => UiAction::ProcessNewProblems,
        UiEvent::Shutdown => UiAction::Finish,
        UiEvent::ChannelClosed => UiAction::Finish,
        UiEvent::KeyPressed => UiAction::HandleKey,
        UiEvent::NoInput => UiAction::Poll,
    }
}

/// `n` copies of one character.
pub open spec fn char_repeat(c: char, n: int) -> Seq<char>
    decreases n,
{
    if n <= 0 {
        Seq::empty()
    } else {
        char_repeat(c, n - 1).push(c)
    }
}

/// A key name padded with spaces to column 15, then its action.
pub open spec fn help_line_spec(key: Seq<char>, action: Seq<char>) -> Seq<char> {
    key + char_repeat(' ', 14 - key.len()) + seq![' '] + action
}

fn help_line(key: &str, action: &str) -> (r: String)
    ensures
        r@ == help_line_spec(key@, action@),
{
    let mut out = String::new();
    out.append(key);
    let klen = key.unicode_len();
    let mut j: usize = 0;
    let pad = if klen < 14 {
        14 - klen
    } else {
        0
    };
    proof {
        assert(out@ =~= key@ + char_repeat(' ', 0));
    }
    while j < pad
        invariant
            j <= pad,
            out@ == key@ + char_repeat(' ', j as int),
        decreases pad - j,
    {
        out.append(" ");
        proof {
            reveal_strlit(" ");
            assert(" "@ =~= seq![' ']);
            assert(out@ =~= key@ + char_repeat(' ', j + 1));
        }
        j = j + 1;
    }
    out.append(" ");
    out.append(action);
    proof {
        reveal_strlit(" ");
        assert(" "@ =~= seq![' ']);
        assert(pad as int == if key@.len() < 14 {
            14 - key@.len()
        } else {
            0int
        });
        assert(char_repeat(' ', pad as int) == char_repeat(' ', 14 - key@.len()));
        assert(out@ =~= help_line_spec(key@, action@));
    }
    out
}

/// The help screen for a mode of the problem screen: its own keys first,
/// then the keys every mode understands.
pub open spec fn help_lines_spec(mode: crate::problems_ui::Mode) -> Seq<Seq<char>> {
    let own = match mode {
        crate::problems_ui::Mode::SelectProblem => seq![
            help_line_spec("space/enter"@, "Show available edits for this problem"@),
            help_line_spec("up"@, "Select previous problem"@),
            help_line_spec("down"@, "Select next problem"@),
            help_line_spec("a"@, "Enable auto-apply for problems with only one edit"@),
        ],
        crate::problems_ui::Mode::SelectEdit => seq![
            help_line_spec("space/enter"@, "Apply this edit"@),
            help_line_spec("up"@, "Select previous edit"@),
            help_line_spec("down"@, "Select next edit"@),
        ],
        _ => Seq::empty(),
    };
    own + seq![
        help_line_spec("q"@, "Quit"@),
        help_line_spec("h/?"@, "Show mode-specific help"@),
    ]
}

/// Renders the help screen for a mode.
pub fn help_lines(mode: &crate::problems_ui::Mode) -> (r: Vec<String>)
    ensures
        r@.map_values(|s: String| s@) == help_lines_spec(*mode),
{
    let mut out: Vec<String> = Vec::new();
    match mode {
        crate::problems_ui::Mode::SelectProblem => {
            out.push(help_line("space/enter", "Show available edits for this problem"));
            out.push(help_line("up", "Select previous problem"));
            out.push(help_line("down", "Select next problem"));
            out.push(help_line("a", "Enable auto-apply for problems with only one edit"));
        },
        crate::problems_ui::Mode::SelectEdit => {
            out.push(help_line("space/enter", "Apply this edit"));
            out.push(help_line("up", "Select previous edit"));
            out.push(help_line("down", "Select next edit"));
        },
        _ => {},
    }
    out.push(help_line("q", "Quit"));
    out.push(help_line("h/?", "Show mode-specific help"));
    proof {
        assert(out@.map_values(|s: String| s@) =~= help_lines_spec(*mode));
    }
    out
}

} // verus!
