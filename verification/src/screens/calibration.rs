//! The scale calibration wizard: what it says at each step, and where.

use ratatui::layout::{Constraint, Layout, Rect};
use ratatui::widgets::Block;
use vstd::prelude::*;

verus! {

/// Where the calibration wizard stands.
#[derive(Debug, Clone, Copy, PartialEq, Eq, Structural)]
pub enum CalibrationStep {
    ConfirmEmptyLeft,
    TaringLeft,
    ConfirmReferenceLeft,
    CalibratingLeft,
    ConfirmEmptyRight,
    TaringRight,
    ConfirmReferenceRight,
    CalibratingRight,
    Done { success: bool },
}

/// The colors that the wizard uses.
#[derive(Debug, Clone, Copy, PartialEq, Eq, Structural)]
pub enum WizardColor {
    Yellow,
    Green,
    Red,
    White,
    Gray,
}

/// What the wizard says: a title, the lines below it, and their color.
#[derive(Debug)]
pub struct WizardContent {
    pub title: &'static str,
    pub lines: Vec<&'static str>,
    pub color: WizardColor,
}

/// A rectangle of character cells.
#[derive(Debug, Clone, Copy, PartialEq, Eq, Structural)]
pub struct Area {
    pub x: u16,
    pub y: u16,
    pub width: u16,
    pub height: u16,
}

/// The wizard's screen: a frame with a title, and inside it the content's title above its lines.
#[derive(Debug)]
pub struct WizardScreen {
    pub frame_title: &'static str,
    pub frame_color: WizardColor,
    pub title_area: Area,
    pub body_area: Area,
    pub content: WizardContent,
}

/// The texts of a list of lines.
pub open spec fn texts(lines: Seq<&'static str>) -> Seq<Seq<char>> {
    lines.map_values(|line: &'static str| line@)
}

/// The title shown at a step.
pub open spec fn step_title(step: CalibrationStep) -> Seq<char> {
    match step {
        CalibrationStep::ConfirmEmptyLeft => "Left scale: zero point"@,
        CalibrationStep::TaringLeft => "Taring left cell..."@,
        CalibrationStep::ConfirmReferenceLeft => "Left scale: reference weight"@,
        CalibrationStep::CalibratingLeft => "Calibrating left cell..."@,
        CalibrationStep::ConfirmEmptyRight => "Right scale: zero point"@,
        CalibrationStep::TaringRight => "Taring right cell..."@,
        CalibrationStep::ConfirmReferenceRight => "Right scale: reference weight"@,
        CalibrationStep::CalibratingRight => "Calibrating right cell..."@,
        CalibrationStep::Done { success } => if success {
            "Done"@
        } else {
            "Failed"@
        },
    }
}

/// The lines shown at a step.
pub open spec fn step_lines(step: CalibrationStep) -> Seq<Seq<char>> {
    match step {
        CalibrationStep::ConfirmEmptyLeft => seq![
            ""@,
            "Remove everything from the left scale."@,
            ""@,
            "Short press: confirm & tare left cell"@,
            "Long press: cancel"@,
        ],
        CalibrationStep::TaringLeft => seq![""@, "Reading left zero point..."@],
        CalibrationStep::ConfirmReferenceLeft => seq![
            ""@,
            "Place a 500g reference weight on the left scale."@,
            ""@,
            "Short press: confirm & calibrate left cell"@,
            "Long press: cancel"@,
        ],
        CalibrationStep::CalibratingLeft => seq![""@, "Reading left reference weight..."@],
        CalibrationStep::ConfirmEmptyRight => seq![
            ""@,
            "Remove everything from the right scale."@,
            ""@,
            "Short press: confirm & tare right cell"@,
            "Long press: cancel"@,
        ],
        CalibrationStep::TaringRight => seq![""@, "Reading right zero point..."@],
        CalibrationStep::ConfirmReferenceRight => seq![
            ""@,
            "Place a 500g reference weight on the right scale."@,
            ""@,
            "Short press: confirm & calibrate right cell"@,
            "Long press: cancel"@,
        ],
        CalibrationStep::CalibratingRight => seq![""@, "Reading right reference weight..."@],
        CalibrationStep::Done { success } => if success {
            seq![""@, "Both scales calibrated successfully!"@, ""@, "Press button to continue"@]
        } else {
            seq![
                ""@,
                "No reading from one of the scales — check wiring."@,
                ""@,
                "Press button to continue"@,
            ]
        },
    }
}

/// The color of a step: white where it waits for the user, gray where it is busy, and the
/// outcome's own color at the end.
pub open spec fn step_color(step: CalibrationStep) -> WizardColor {
    match step {
        CalibrationStep::ConfirmEmptyLeft
        | CalibrationStep::ConfirmReferenceLeft
        | CalibrationStep::ConfirmEmptyRight
        | CalibrationStep::ConfirmReferenceRight => WizardColor::White,
        CalibrationStep::TaringLeft
        | CalibrationStep::CalibratingLeft
        | CalibrationStep::TaringRight
        | CalibrationStep::CalibratingRight => WizardColor::Gray,
        CalibrationStep::Done { success } => if success {
            WizardColor::Green
        } else {
            WizardColor::Red
        },
    }
}

/// What the wizard says at a step.
pub fn wizard_content(step: CalibrationStep) -> (res: WizardContent)
    ensures
        res.title@ == step_title(step),
        texts(res.lines@) == step_lines(step),
        res.color == step_color(step),
{
    let res: WizardContent = match step {
        CalibrationStep::ConfirmEmptyLeft => WizardContent {
            title: "Left scale: zero point",
            lines: vec![
                "",
                "Remove everything from the left scale.",
                "",
                "Short press: confirm & tare left cell",
                "Long press: cancel",
            ],
            color: WizardColor::White,
        },
        CalibrationStep::TaringLeft => WizardContent {
            title: "Taring left cell...",
            lines: vec!["", "Reading left zero point..."],
            color: WizardColor::Gray,
        },
        CalibrationStep::ConfirmReferenceLeft => WizardContent {
            title: "Left scale: reference weight",
            lines: vec![
                "",
                "Place a 500g reference weight on the left scale.",
                "",
                "Short press: confirm & calibrate left cell",
                "Long press: cancel",
            ],
            color: WizardColor::White,
        },
        CalibrationStep::CalibratingLeft => WizardContent {
            title: "Calibrating left cell...",
            lines: vec!["", "Reading left reference weight..."],
            color: WizardColor::Gray,
        },
        CalibrationStep::ConfirmEmptyRight => WizardContent {
            title: "Right scale: zero point",
            lines: vec![
                "",
                "Remove everything from the right scale.",
                "",
                "Short press: confirm & tare right cell",
                "Long press: cancel",
            ],
            color: WizardColor::White,
        },
        CalibrationStep::TaringRight => WizardContent {
            title: "Taring right cell...",
            lines: vec!["", "Reading right zero point..."],
            color: WizardColor::Gray,
        },
        CalibrationStep::ConfirmReferenceRight => WizardContent {
            title: "Right scale: reference weight",
            lines: vec![
                "",
                "Place a 500g reference weight on the right scale.",
                "",
                "Short press: confirm & calibrate right cell",
                "Long press: cancel",
            ],
            color: WizardColor::White,
        },
        CalibrationStep::CalibratingRight => WizardContent {
            title: "Calibrating right cell...",
            lines: vec!["", "Reading right reference weight..."],
            color: WizardColor::Gray,
        },
        CalibrationStep::Done { success } => if success {
            WizardContent {
                title: "Done",
                lines: vec![
                    "",
                    "Both scales calibrated successfully!",
                    "",
                    "Press button to continue",
                ],
                color: WizardColor::Green,
            }
        } else {
            WizardContent {
                title: "Failed",
                lines: vec![
                    "",
                    "No reading from one of the scales — check wiring.",
                    "",
                    "Press button to continue",
                ],
                color: WizardColor::Red,
            }
        },
    };
    assert(texts(res.lines@) =~= step_lines(step));
    res
}

/// A border of one cell taken off one side, as far as there is room: where the inside begins.
pub open spec fn past_border(start: u16, length: u16) -> u16 {
    if length == 0 || start == u16::MAX {
        start
    } else {
        (start + 1) as u16
    }
}

/// What is left of a length once a border has been taken off both ends.
pub open spec fn between_borders(length: u16) -> u16 {
    if length < 2 {
        0
    } else {
        (length - 2) as u16
    }
}

/// The inside of a frame around `area`.
pub open spec fn inside_frame(area: Area) -> Area {
    Area {
        x: past_border(area.x, area.width),
        y: past_border(area.y, area.height),
        width: between_borders(area.width),
        height: between_borders(area.height),
    }
}

/// The rows of `area` that lie within the coordinate range.
pub open spec fn rows_of(area: Area) -> int {
    if area.y + area.height > u16::MAX {
        u16::MAX - area.y
    } else {
        area.height as int
    }
}

/// The first `first` rows of `area`, as far as there are any.
pub open spec fn upper_rows(area: Area, first: u16) -> Area {
    Area { height: (if first < rows_of(area) { first as int } else { rows_of(area) }) as u16, ..area }
}

/// The rows of `area` below the first `first`.
pub open spec fn lower_rows(area: Area, first: u16) -> Area {
    let taken = upper_rows(area, first).height;
    Area { y: (area.y + taken) as u16, height: (rows_of(area) - taken) as u16, ..area }
}

/// Calls `Block::inner` on a bordered block with a title. By its source the borders take one
/// cell off each side, saturating where there is no room; a title on the top border takes
/// nothing more.
#[verifier::external_body]
fn block_inner(title: &'static str, area: Area) -> (res: Area)
    ensures
        res == inside_frame(area),
{
    let rect = Rect { x: area.x, y: area.y, width: area.width, height: area.height };
    let inner = Block::bordered().title(title).inner(rect);
    Area { x: inner.x, y: inner.y, width: inner.width, height: inner.height }
}

/// Calls `Layout::areas` on a vertical layout of a `Length` and a `Fill` constraint. By their
/// documentation `Length` gives its element that size, as far as the area reaches, and `Fill`
/// takes the space that is left; the area ends at its bottom coordinate, which saturates.
#[verifier::external_body]
fn split_rows(area: Area, first: u16) -> (res: (Area, Area))
    ensures
        res.0 == upper_rows(area, first),
        res.1 == lower_rows(area, first),
{
    let rect = Rect { x: area.x, y: area.y, width: area.width, height: area.height };
    let [a, b] = Layout::vertical([Constraint::Length(first), Constraint::Fill(1)]).areas(rect);
    (
        Area { x: a.x, y: a.y, width: a.width, height: a.height },
        Area { x: b.x, y: b.y, width: b.width, height: b.height },
    )
}

/// Full-screen step-by-step scale calibration wizard.
///
/// Shown whenever there is a calibration step. A short press confirms the current step; a long
/// press cancels.
#[derive(Debug, Default)]
pub struct CalibrationWizard;

/// Rows taken by the title.
pub const TITLE_ROWS: u16 = 1;

impl CalibrationWizard {
    /// What to draw in `area`: nothing unless a calibration is under way.
    pub fn render(step: Option<CalibrationStep>, area: Area) -> (res: Option<WizardScreen>)
        ensures
            res is Some <==> step is Some,
            step matches Some(at) ==> {
                let screen = res->0;
                let inner = inside_frame(area);
                &&& screen.frame_title@ == "Scale Calibration"@
                &&& screen.frame_color == WizardColor::Yellow
                &&& screen.title_area == upper_rows(inner, TITLE_ROWS)
                &&& screen.body_area == lower_rows(inner, TITLE_ROWS)
                &&& screen.content.title@ == step_title(at)
                &&& texts(screen.content.lines@) == step_lines(at)
                &&& screen.content.color == step_color(at)
            },
    {
        match step {
            None => None,
            Some(step) => {
                let frame_title: &'static str = "Scale Calibration";
                let inner: Area = block_inner(frame_title, area);
                let (title_area, body_area): (Area, Area) = split_rows(inner, TITLE_ROWS);
                Some(
                    WizardScreen {
                        frame_title,
                        frame_color: WizardColor::Yellow,
                        title_area,
                        body_area,
                        content: wizard_content(step),
                    },
                )
            },
        }
    }
}

} // verus!
