//! The three panels of the board and what printing on one of them writes.
use vstd::prelude::*;
use vstd::string::StringSliceAdditionalSpecFns;
use crate::lcd::{lcd_print_line, print_line_ops, LcdOp, LcdTiming};

verus! {

/// One of the three panels; they share D4..D7 and each has its own RS and E.
#[derive(Clone, Copy, Debug, PartialEq, Eq, Structural)]
pub enum Panel {
    Lcd1,
    Lcd2,
    Lcd3,
}

/// Display 1 and 2 name the first two panels; any other number names the third.
pub open spec fn spec_select_panel(display: i64) -> Panel {
    if display == 1 {
        Panel::Lcd1
    } else if display == 2 {
        Panel::Lcd2
    } else {
        Panel::Lcd3
    }
}

/// The panel that a display number names.
pub fn select_panel(display: i64) -> (panel: Panel)
    ensures
        panel == spec_select_panel(display),
{
    match display {
        1 => Panel::Lcd1,
        2 => Panel::Lcd2,
        _ => Panel::Lcd3,
    }
}

/// Display numbers name panels by their number: 1 the first, 2 the
/// second, 3 and every other number the third.
pub proof fn law_panel_numbers(display: i64)
    ensures
        spec_select_panel(1) == Panel::Lcd1,
        spec_select_panel(2) == Panel::Lcd2,
        spec_select_panel(3) == Panel::Lcd3,
        display != 1 && display != 2 ==> spec_select_panel(display) == Panel::Lcd3,
{
}

/// A program to play on one panel's lines.
pub struct PrintJob {
    pub panel: Panel,
    pub ops: Vec<LcdOp>,
}

/// Print `text` to row 0 of the given display (1, 2, or 3): the panel, and
/// the program that writes the line there.
pub fn hw_print_str(timing: LcdTiming, display: i64, text: &str) -> (job: PrintJob)
    ensures
        job.panel == spec_select_panel(display),
        job.ops@ == print_line_ops(timing, 0, text.spec_bytes()),
{
    let panel = select_panel(display);
    let mut ops: Vec<LcdOp> = Vec::new();
    lcd_print_line(timing, &mut ops, 0, text);
    assert(ops@ =~= print_line_ops(timing, 0, text.spec_bytes()));
    PrintJob { panel, ops }
}

} // verus!
