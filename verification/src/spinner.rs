//! Terminal activity indicators: the frames of each spinner style, the text
//! of one spinner tick, and the progress bar shown while tools run.
//!
//! Drawing on the terminal and the timer that drives the animation live with
//! the program; this module computes what is drawn.

use vstd::prelude::*;
use crate::text::{push_str, push_chars};

verus! {

broadcast use vstd::string::group_string_axioms;

/// The animation styles of the spinner.
#[derive(Clone, Copy, Debug, PartialEq, Eq, Structural)]
pub enum Style {
    Braille,
    Dots,
    Bounce,
}

impl Style {
    /// The frames of the style, in the order they are shown.
    pub open spec fn frame_list(self) -> Seq<Seq<char>> {
        match self {
            Style::Braille => seq![
                "⠋"@, "⠙"@, "⠹"@, "⠸"@, "⠼"@, "⠴"@, "⠦"@, "⠧"@, "⠇"@, "⠏"@,
            ],
            Style::Dots => seq!["   "@, ".  "@, ".. "@, "..."@, " .."@, "  ."@, "   "@],
            Style::Bounce => seq![
                "●∙∙∙∙"@, "∙●∙∙∙"@, "∙∙●∙∙"@, "∙∙∙●∙"@, "∙∙∙∙●"@, "∙∙∙●∙"@, "∙∙●∙∙"@,
                "∙●∙∙∙"@,
            ],
        }
    }

    /// Milliseconds between two frames.
    pub open spec fn interval(self) -> u64 {
        match self {
            Style::Braille => 80,
            Style::Dots => 300,
            Style::Bounce => 120,
        }
    }

    /// The frames of this style.
    pub fn frames(self) -> (r: Vec<&'static str>)
        ensures
            r@.len() == self.frame_list().len(),
            forall|i: int| 0 <= i < r@.len() ==> #[trigger] r@[i]@ == self.frame_list()[i],
    {
        match self {
            Style::Braille => vec!["⠋", "⠙", "⠹", "⠸", "⠼", "⠴", "⠦", "⠧", "⠇", "⠏"],
            Style::Dots => vec!["   ", ".  ", ".. ", "...", " ..", "  .", "   "],
            Style::Bounce => vec![
                "●∙∙∙∙",
                "∙●∙∙∙",
                "∙∙●∙∙",
                "∙∙∙●∙",
                "∙∙∙∙●",
                "∙∙∙●∙",
                "∙∙●∙∙",
                "∙●∙∙∙",
            ],
        }
    }

    /// Milliseconds between two frames of this style.
    pub fn interval_ms(self) -> (ms: u64)
        ensures
            ms == self.interval(),
    {
        match self {
            Style::Braille => 80,
            Style::Dots => 300,
            Style::Bounce => 120,
        }
    }
}

/// The frame shown at the `tick`-th step of the animation: the frames repeat
/// in a cycle.
pub open spec fn frame_at(style: Style, tick: nat) -> Seq<char> {
    style.frame_list()[(tick % style.frame_list().len()) as int]
}

/// The line the spinner draws at one step: return to the line start, a dim
/// colour, two spaces, the frame, a space, the message, reset and clear to the
/// end of the line.
pub open spec fn spinner_text(frame: Seq<char>, message: Seq<char>) -> Seq<char> {
    "\r\x1b[90m  "@ + frame + " "@ + message + "\x1b[0m\x1b[K"@
}

/// The text drawn at step `tick` of a spinner of `style` showing `message`.
pub fn spinner_line(style: Style, tick: usize, message: &str) -> (line: String)
    ensures
        line@ == spinner_text(frame_at(style, tick as nat), message@),
{
    let frames = style.frames();
    let frame = frames[tick % frames.len()];
    let mut line = String::new();
    push_str(&mut line, "\r\x1b[90m  ");
    push_str(&mut line, frame);
    push_str(&mut line, " ");
    push_str(&mut line, message);
    push_str(&mut line, "\x1b[0m\x1b[K");
    line
}

/// Width of the progress bar, in cells.
pub const BAR_WIDTH: usize = 20;

/// Number of filled cells after `completed` of `total` tools.
pub open spec fn filled_cells(completed: nat, total: nat) -> nat {
    (completed * 20) / total
}

/// `n` copies of the character `c`.
pub open spec fn repeat_char(c: char, n: nat) -> Seq<char> {
    Seq::new(n, |i: int| c)
}

/// The bar itself: `filled` full cells, then empty cells up to the width.
pub open spec fn bar_text(filled: nat) -> Seq<char> {
    repeat_char('█', filled) + repeat_char('░', (20 - filled) as nat)
}

/// Progress through a batch of tool calls.
pub struct ToolProgress {
    total: usize,
    completed: usize,
}

impl ToolProgress {
    /// Number of tools in the batch.
    pub closed spec fn total_spec(&self) -> nat {
        self.total as nat
    }

    /// Number of tools finished so far.
    pub closed spec fn completed_spec(&self) -> nat {
        self.completed as nat
    }

    /// A batch of `total` tools, none finished.
    pub fn new(total: usize) -> (p: Self)
        ensures
            p.total_spec() == total,
            p.completed_spec() == 0,
    {
        ToolProgress { total, completed: 0 }
    }

    /// Number of tools in the batch.
    pub fn total(&self) -> (n: usize)
        ensures
            n == self.total_spec(),
    {
        self.total
    }

    /// Number of tools finished so far.
    pub fn completed(&self) -> (n: usize)
        ensures
            n == self.completed_spec(),
    {
        self.completed
    }

    /// Records one more finished tool and returns the bar to draw.
    ///
    /// The bar has `20 * completed / total` full cells; the batch must not
    /// be overrun so far that the bar would exceed its width.
    pub fn tick(&mut self) -> (bar: String)
        requires
            old(self).total_spec() > 0,
            (old(self).completed_spec() + 1) * 20 < 21 * old(self).total_spec(),
            (old(self).completed_spec() + 1) * 20 <= usize::MAX,
        ensures
            final(self).total_spec() == old(self).total_spec(),
            final(self).completed_spec() == old(self).completed_spec() + 1,
            filled_cells(final(self).completed_spec(), final(self).total_spec()) <= 20,
            bar@ == bar_text(
                filled_cells(final(self).completed_spec(), final(self).total_spec()),
            ),
    {
        self.completed = self.completed + 1;
        let filled = (self.completed * 20) / self.total;
        proof {
            let c = self.completed as int;
            let t = self.total as int;
            assert(t > 0);
            assert(c * 20 < 21 * t);
            assert((c * 20) / t <= 20) by (nonlinear_arith)
                requires
                    t > 0,
                    c >= 0,
                    c * 20 < 21 * t,
            ;
        }
        let mut cells: Vec<char> = Vec::new();
        let mut i: usize = 0;
        while i < BAR_WIDTH
            invariant
                filled <= 20,
                i <= 20,
                cells@.len() == i,
                forall|k: int| 0 <= k < i ==> #[trigger] cells@[k] == (if k < filled {
                    '█'
                } else {
                    '░'
                }),
            decreases 20 - i,
        {
            if i < filled {
                cells.push('█');
            } else {
                cells.push('░');
            }
            i = i + 1;
        }
        let mut bar = String::new();
        push_chars(&mut bar, cells.as_slice());
        assert(bar@ =~= bar_text(filled as nat));
        bar
    }
}

} // verus!
