//! Ctrl+C: the first press asks the batch to stop, the second quits.

use crate::styled::{Line, Style};
use vstd::prelude::*;

verus! {

/// What a press of Ctrl+C must do.
#[derive(Clone, Copy, Debug, PartialEq, Eq, Structural)]
pub enum CtrlCAction {
    /// The batch stops when it next looks.
    GracefulStop,
    /// The process ends at once.
    QuitNow,
}

/// What was asked for so far.
#[derive(Debug)]
pub struct StopSignal {
    /// Whether the batch goes on.
    pub running: bool,
    /// How often Ctrl+C was pressed; the count wraps around.
    pub presses: u32,
}

impl StopSignal {
    /// Nothing was asked for yet.
    pub fn new() -> (r: Self)
        ensures
            r.running,
            r.presses == 0,
    {
        StopSignal { running: true, presses: 0 }
    }
}

/// What is shown for a press.
pub open spec fn press_line(first: bool) -> Seq<(Seq<char>, Style)> {
    if first {
        seq![
            ("✘"@, Style::RedBold),
            (" Received Ctrl+C, finishing current operation..."@, Style::Plain),
        ]
    } else {
        seq![
            ("✘"@, Style::RedBold),
            (" "@, Style::Plain),
            ("Ctrl+C"@, Style::RedBold),
            (" Quitting now."@, Style::Plain),
        ]
    }
}

/// The count of presses after one more, which wraps around at 32 bits.
pub open spec fn pressed_again(presses: u32) -> u32 {
    if presses == u32::MAX {
        0
    } else {
        (presses + 1) as u32
    }
}

/// Takes a press of Ctrl+C: the first asks the batch to stop, every further
/// one to quit at once, so that a long wait can always be aborted. Gives
/// what to do, and the line to show.
pub fn handle_ctrl_c(signal: &mut StopSignal) -> (r: (CtrlCAction, Line))
    ensures
        r.0 == (if old(signal).presses == 0 {
            CtrlCAction::GracefulStop
        } else {
            CtrlCAction::QuitNow
        }),
        r.1@ == press_line(old(signal).presses == 0),
        final(signal).presses == pressed_again(old(signal).presses),
        final(signal).running == (old(signal).running && old(signal).presses > 0),
{
    let mut line = Line::new();
    line.push("✘", Style::RedBold);
    let before: u32 = signal.presses;
    signal.presses = if before == u32::MAX {
        0
    } else {
        before + 1
    };
    if before == 0 {
        signal.running = false;
        line.push(" Received Ctrl+C, finishing current operation...", Style::Plain);
        assert(line@ =~= press_line(true));
        (CtrlCAction::GracefulStop, line)
    } else {
        line.push(" ", Style::Plain);
        line.push("Ctrl+C", Style::RedBold);
        line.push(" Quitting now.", Style::Plain);
        assert(line@ =~= press_line(false));
        (CtrlCAction::QuitNow, line)
    }
}

/// Presses are counted one by one, round and round at 32 bits; the line for
/// the first says that the run goes on to a good place, those for the others
/// that it ends.
pub proof fn presses_are_counted(presses: u32)
    ensures
        pressed_again(presses) == (presses + 1) % 0x1_0000_0000,
        press_line(true).last().0 == " Received Ctrl+C, finishing current operation..."@,
        press_line(false).last().0 == " Quitting now."@,
{
}

} // verus!
