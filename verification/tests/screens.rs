use maratui::scale::CALIBRATION_REFERENCE_G;
use maratui::screens::calibration::wizard_content;
use maratui::screens::{Area, CalibrationStep, CalibrationWizard, WizardColor};

fn area(x: u16, y: u16, width: u16, height: u16) -> Area {
    Area { x, y, width, height }
}

#[test]
fn nothing_is_drawn_without_a_calibration() {
    assert!(CalibrationWizard::render(None, area(0, 0, 40, 17)).is_none());
}

#[test]
fn the_wizard_has_a_frame_and_two_parts() {
    let screen = CalibrationWizard::render(Some(CalibrationStep::TaringLeft), area(3, 5, 40, 17)).unwrap();
    assert_eq!(screen.frame_title, "Scale Calibration");
    assert_eq!(screen.frame_color, WizardColor::Yellow);
    assert_eq!(screen.title_area, area(4, 6, 38, 1));
    assert_eq!(screen.body_area, area(4, 7, 38, 14));
    assert_eq!(screen.content.title, "Taring left cell...");
    assert_eq!(screen.content.lines, vec!["", "Reading left zero point..."]);
    assert_eq!(screen.content.color, WizardColor::Gray);
}

/// The parts of a frame, worked out by hand.
fn expected_parts(outer: Area) -> (Area, Area) {
    let x = if outer.width > 0 { outer.x.saturating_add(1) } else { outer.x };
    let y = if outer.height > 0 { outer.y.saturating_add(1) } else { outer.y };
    let width = outer.width.saturating_sub(2);
    let height = outer.height.saturating_sub(2);
    let rows = height.min(u16::MAX - y);
    let first = rows.min(1);
    (area(x, y, width, first), area(x, y + first, width, rows - first))
}

#[test]
fn parts_fit_areas_of_any_size() {
    for width in [0, 1, 2, 3, 40, 320, 65_535] {
        for height in [0, 1, 2, 3, 4, 5, 17, 100, 255, 1_000, 30_000, 65_535] {
            for (x, y) in [(0, 0), (1, 2), (17, 300), (40_000, 40_000), (65_530, 65_530), (65_535, 65_535)] {
                let outer = area(x, y, width, height);
                let screen = CalibrationWizard::render(Some(CalibrationStep::TaringRight), outer).unwrap();
                let (title_area, body_area) = expected_parts(outer);
                assert_eq!(screen.title_area, title_area, "{:?}", outer);
                assert_eq!(screen.body_area, body_area, "{:?}", outer);
            }
        }
    }
}

#[test]
fn parts_fit_every_small_height() {
    for height in 0..400 {
        for y in [0, 7, 123] {
            let outer = area(0, y, 40, height);
            let screen = CalibrationWizard::render(Some(CalibrationStep::TaringRight), outer).unwrap();
            assert_eq!((screen.title_area, screen.body_area), expected_parts(outer));
        }
    }
}

#[test]
fn confirmation_steps_say_what_to_do() {
    let content = wizard_content(CalibrationStep::ConfirmEmptyLeft);
    assert_eq!(content.title, "Left scale: zero point");
    assert_eq!(
        content.lines,
        vec![
            "",
            "Remove everything from the left scale.",
            "",
            "Short press: confirm & tare left cell",
            "Long press: cancel",
        ]
    );
    assert_eq!(content.color, WizardColor::White);
    let content = wizard_content(CalibrationStep::ConfirmEmptyRight);
    assert_eq!(content.title, "Right scale: zero point");
    assert_eq!(
        content.lines,
        vec![
            "",
            "Remove everything from the right scale.",
            "",
            "Short press: confirm & tare right cell",
            "Long press: cancel",
        ]
    );
    assert_eq!(content.color, WizardColor::White);
}

#[test]
fn reference_steps_name_the_reference_weight() {
    for (step, side, title) in [
        (CalibrationStep::ConfirmReferenceLeft, "left", "Left scale: reference weight"),
        (CalibrationStep::ConfirmReferenceRight, "right", "Right scale: reference weight"),
    ] {
        let content = wizard_content(step);
        assert_eq!(content.title, title);
        assert_eq!(content.lines.len(), 5);
        assert_eq!(content.lines[0], "");
        assert_eq!(
            content.lines[1],
            format!("Place a {}g reference weight on the {} scale.", CALIBRATION_REFERENCE_G, side)
        );
        assert_eq!(content.lines[2], "");
        assert_eq!(content.lines[3], format!("Short press: confirm & calibrate {} cell", side));
        assert_eq!(content.lines[4], "Long press: cancel");
        assert_eq!(content.color, WizardColor::White);
    }
}

#[test]
fn busy_steps_say_what_is_going_on() {
    for (step, title, line) in [
        (CalibrationStep::CalibratingLeft, "Calibrating left cell...", "Reading left reference weight..."),
        (CalibrationStep::TaringRight, "Taring right cell...", "Reading right zero point..."),
        (CalibrationStep::CalibratingRight, "Calibrating right cell...", "Reading right reference weight..."),
    ] {
        let content = wizard_content(step);
        assert_eq!(content.title, title);
        assert_eq!(content.lines, vec!["", line]);
        assert_eq!(content.color, WizardColor::Gray);
    }
}

#[test]
fn results_are_told() {
    let content = wizard_content(CalibrationStep::Done { success: true });
    assert_eq!(content.title, "Done");
    assert_eq!(
        content.lines,
        vec!["", "Both scales calibrated successfully!", "", "Press button to continue"]
    );
    assert_eq!(content.color, WizardColor::Green);
    let content = wizard_content(CalibrationStep::Done { success: false });
    assert_eq!(content.title, "Failed");
    assert_eq!(
        content.lines,
        vec![
            "",
            "No reading from one of the scales — check wiring.",
            "",
            "Press button to continue",
        ]
    );
    assert_eq!(content.color, WizardColor::Red);
}

#[test]
fn right_steps_mirror_left_ones() {
    let mirrored = |text: &str| text.replace("Left", "Right").replace("left", "right");
    for (left, right) in [
        (CalibrationStep::ConfirmEmptyLeft, CalibrationStep::ConfirmEmptyRight),
        (CalibrationStep::TaringLeft, CalibrationStep::TaringRight),
        (CalibrationStep::ConfirmReferenceLeft, CalibrationStep::ConfirmReferenceRight),
        (CalibrationStep::CalibratingLeft, CalibrationStep::CalibratingRight),
    ] {
        let (left, right) = (wizard_content(left), wizard_content(right));
        assert_eq!(right.title, mirrored(left.title));
        let lines: Vec<String> = left.lines.iter().map(|line| mirrored(line)).collect();
        assert_eq!(right.lines, lines);
        assert_eq!(right.color, left.color);
    }
}
