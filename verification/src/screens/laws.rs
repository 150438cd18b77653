//! What holds of the wizard's screen at every step and size.

use vstd::prelude::*;

use crate::scale::calibration::CALIBRATION_REFERENCE_G;
use crate::scale::cells::CalibrationTask;
use crate::screens::calibration::{
    inside_frame, lower_rows, step_color, step_lines, step_title, upper_rows, Area,
    CalibrationStep, WizardColor, TITLE_ROWS,
};

verus! {

/// Whether a cell lies in an area.
pub open spec fn covers(area: Area, x: int, y: int) -> bool {
    area.x <= x < area.x + area.width && area.y <= y < area.y + area.height
}

/// On an area within the coordinate range, title and text share out the inside of the frame:
/// every cell in there belongs to one of them, and to one only.
pub proof fn law_parts_share_out_the_frame(area: Area, x: int, y: int)
    requires
        area.x + area.width <= u16::MAX,
        area.y + area.height <= u16::MAX,
    ensures
        ({
            let inner = inside_frame(area);
            let (title, body) = (upper_rows(inner, TITLE_ROWS), lower_rows(inner, TITLE_ROWS));
            &&& covers(inner, x, y) <==> area.x < x < area.x + area.width - 1 && area.y < y < area.y
                + area.height - 1
            &&& covers(inner, x, y) <==> covers(title, x, y) || covers(body, x, y)
            &&& !(covers(title, x, y) && covers(body, x, y))
        }),
{
}

/// The title takes one row wherever there is any.
pub proof fn law_title_takes_one_row(area: Area)
    requires
        area.y + area.height <= u16::MAX,
    ensures
        upper_rows(inside_frame(area), TITLE_ROWS).height == 1 <==> area.height > 2,
        upper_rows(inside_frame(area), TITLE_ROWS).height == 0 <==> area.height <= 2,
{
}

/// The wizard is gray just while a cell is being read, and green or red only at the end.
pub proof fn law_color_tells_the_state(step: CalibrationStep)
    ensures
        step_color(step) == WizardColor::Gray <==> CalibrationTask::of_step(Some(step)) is Some,
        step_color(step) == WizardColor::Green <==> step == (CalibrationStep::Done { success: true }),
        step_color(step) == WizardColor::Red <==> step == (CalibrationStep::Done { success: false }),
{
}

/// A number in decimal.
pub open spec fn decimal_text(n: nat) -> Seq<char>
    decreases n,
{
    if n < 10 {
        seq![(0x30 + n) as char]
    } else {
        decimal_text(n / 10).push((0x30 + n % 10) as char)
    }
}

/// The wizard asks for the weight that it calibrates with.
pub proof fn law_wizard_asks_for_the_reference_weight()
    ensures
        step_lines(CalibrationStep::ConfirmReferenceLeft)[1] == "Place a "@ + decimal_text(
            CALIBRATION_REFERENCE_G as nat,
        ) + "g reference weight on the left scale."@,
        step_lines(CalibrationStep::ConfirmReferenceRight)[1] == "Place a "@ + decimal_text(
            CALIBRATION_REFERENCE_G as nat,
        ) + "g reference weight on the right scale."@,
{
    reveal_strlit("Place a ");
    reveal_strlit("g reference weight on the left scale.");
    reveal_strlit("g reference weight on the right scale.");
    reveal_strlit("Place a 500g reference weight on the left scale.");
    reveal_strlit("Place a 500g reference weight on the right scale.");
    assert(decimal_text(5) =~= seq!['5']);
    assert(decimal_text(50) =~= seq!['5', '0']);
    assert(decimal_text(500) =~= seq!['5', '0', '0']);
    assert("Place a 500g reference weight on the left scale."@ =~= "Place a "@ + decimal_text(500)
        + "g reference weight on the left scale."@);
    assert("Place a 500g reference weight on the right scale."@ =~= "Place a "@ + decimal_text(500)
        + "g reference weight on the right scale."@);
}

/// No two steps look alike.
pub proof fn law_steps_can_be_told_apart(first: CalibrationStep, second: CalibrationStep)
    requires
        step_title(first) == step_title(second),
    ensures
        first == second,
{
    reveal_strlit("Left scale: zero point");
    reveal_strlit("Taring left cell...");
    reveal_strlit("Left scale: reference weight");
    reveal_strlit("Calibrating left cell...");
    reveal_strlit("Right scale: zero point");
    reveal_strlit("Taring right cell...");
    reveal_strlit("Right scale: reference weight");
    reveal_strlit("Calibrating right cell...");
    reveal_strlit("Done");
    reveal_strlit("Failed");
    let (a, b) = (step_title(first), step_title(second));
    assert(a.len() == b.len());
    assert(a[0] == b[0] && a[1] == b[1] && a[2] == b[2] && a[3] == b[3]);
    assert(a.last() == b.last());
    if a.len() > 20 {
        assert(a[7] == b[7] && a[12] == b[12] && a[14] == b[14]);
    }
}

} // verus!
