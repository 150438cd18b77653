//! The wizard says of the right cell what it says of the left one.

use vstd::prelude::*;

use crate::screens::calibration::{step_color, step_lines, step_title, CalibrationStep};

verus! {

/// Whether a text has the word "Left" or "left" at position `i`.
pub open spec fn left_at(text: Seq<char>, i: int) -> bool {
    &&& 0 <= i <= text.len() - 4
    &&& text[i] == 'L' || text[i] == 'l'
    &&& text[i + 1] == 'e'
    &&& text[i + 2] == 'f'
    &&& text[i + 3] == 't'
}

/// Whether a text has the word "Right" or "right" at position `i`.
pub open spec fn right_at(text: Seq<char>, i: int) -> bool {
    &&& 0 <= i <= text.len() - 5
    &&& text[i] == 'R' || text[i] == 'r'
    &&& text[i + 1] == 'i'
    &&& text[i + 2] == 'g'
    &&& text[i + 3] == 'h'
    &&& text[i + 4] == 't'
}

pub open spec fn says_left(text: Seq<char>) -> bool {
    exists|i: int| left_at(text, i)
}

pub open spec fn says_right(text: Seq<char>) -> bool {
    exists|i: int| right_at(text, i)
}

/// A text with every "Left" replaced by "Right" and every "left" by "right".
pub open spec fn for_right(text: Seq<char>) -> Seq<char>
    decreases text.len(),
{
    if text.len() == 0 {
        text
    } else if left_at(text, 0) {
        seq![
            if text[0] == 'L' {
                'R'
            } else {
                'r'
            },
            'i',
            'g',
            'h',
            't',
        ] + for_right(text.skip(4))
    } else {
        seq![text[0]] + for_right(text.skip(1))
    }
}

/// A text that does not say left stays as it is.
proof fn lemma_without_side(text: Seq<char>)
    requires
        !says_left(text),
    ensures
        for_right(text) == text,
    decreases text.len(),
{
    if text.len() > 0 {
        let rest = text.skip(1);
        assert forall|i: int| !left_at(rest, i) by {
            assert(!left_at(text, i + 1));
        }
        lemma_without_side(rest);
        assert(!left_at(text, 0));
        assert(seq![text[0]] + rest =~= text);
    }
}

/// A text that says left in one place has it replaced there.
proof fn lemma_with_side(left: Seq<char>, right: Seq<char>, at: int)
    requires
        left_at(left, at),
        right_at(right, at),
        left[at] == 'L' <==> right[at] == 'R',
        forall|i: int| i != at ==> !left_at(left, i),
        right == left.take(at) + right.subrange(at, at + 5) + left.skip(at + 4),
    ensures
        for_right(left) == right,
    decreases at,
{
    if at == 0 {
        let rest = left.skip(4);
        assert forall|i: int| !left_at(rest, i) by {
            if i >= 0 {
                assert(!left_at(left, i + 4));
            }
        }
        lemma_without_side(rest);
        assert(for_right(left) =~= right);
    } else {
        let (l, r) = (left.skip(1), right.skip(1));
        assert forall|i: int| i != at - 1 implies !left_at(l, i) by {
            assert(!left_at(left, i + 1));
        }
        assert(right[0] == left[0]);
        assert(r =~= l.take(at - 1) + r.subrange(at - 1, at + 4) + l.skip(at + 3));
        lemma_with_side(l, r, at - 1);
        assert(!left_at(left, 0));
        assert(for_right(left) =~= right);
    }
}

/// Whether `right` is `left` with the side replaced, each naming its own side only.
pub open spec fn mirrors(left: Seq<char>, right: Seq<char>) -> bool {
    right == for_right(left) && !says_right(left) && !says_left(right)
}

proof fn lemma_mirrors(left: Seq<char>, right: Seq<char>, at: int)
    requires
        left_at(left, at),
        right_at(right, at),
        left[at] == 'L' <==> right[at] == 'R',
        forall|i: int| i != at ==> !left_at(left, i),
        forall|i: int| !left_at(right, i),
        forall|i: int| !right_at(left, i),
        right.len() == left.len() + 1,
        forall|i: int| 0 <= i < at ==> #[trigger] right[i] == left[i],
        forall|i: int| at + 5 <= i < right.len() ==> #[trigger] right[i] == left[i - 1],
    ensures
        mirrors(left, right),
{
    assert(right =~= left.take(at) + right.subrange(at, at + 5) + left.skip(at + 4));
    lemma_with_side(left, right, at);
}

proof fn lemma_empty_steps()
    ensures
        mirrors("Left scale: zero point"@, "Right scale: zero point"@),
        mirrors(
            "Remove everything from the left scale."@,
            "Remove everything from the right scale."@,
        ),
        mirrors(
            "Short press: confirm & tare left cell"@,
            "Short press: confirm & tare right cell"@,
        ),
{
    assert(mirrors("Left scale: zero point"@, "Right scale: zero point"@)) by {
        reveal_strlit("Left scale: zero point");
        reveal_strlit("Right scale: zero point");
        lemma_mirrors("Left scale: zero point"@, "Right scale: zero point"@, 0);
    }
    assert(mirrors("Remove everything from the left scale."@, "Remove everything from the right scale."@)) by {
        reveal_strlit("Remove everything from the left scale.");
        reveal_strlit("Remove everything from the right scale.");
        lemma_mirrors("Remove everything from the left scale."@, "Remove everything from the right scale."@, 27);
    }
    assert(mirrors("Short press: confirm & tare left cell"@, "Short press: confirm & tare right cell"@)) by {
        reveal_strlit("Short press: confirm & tare left cell");
        reveal_strlit("Short press: confirm & tare right cell");
        lemma_mirrors("Short press: confirm & tare left cell"@, "Short press: confirm & tare right cell"@, 28);
    }
}

proof fn lemma_taring_steps()
    ensures
        mirrors("Taring left cell..."@, "Taring right cell..."@),
        mirrors("Reading left zero point..."@, "Reading right zero point..."@),
{
    assert(mirrors("Taring left cell..."@, "Taring right cell..."@)) by {
        reveal_strlit("Taring left cell...");
        reveal_strlit("Taring right cell...");
        lemma_mirrors("Taring left cell..."@, "Taring right cell..."@, 7);
    }
    assert(mirrors("Reading left zero point..."@, "Reading right zero point..."@)) by {
        reveal_strlit("Reading left zero point...");
        reveal_strlit("Reading right zero point...");
        lemma_mirrors("Reading left zero point..."@, "Reading right zero point..."@, 8);
    }
}

proof fn lemma_reference_steps()
    ensures
        mirrors("Left scale: reference weight"@, "Right scale: reference weight"@),
        mirrors(
            "Place a 500g reference weight on the left scale."@,
            "Place a 500g reference weight on the right scale."@,
        ),
        mirrors(
            "Short press: confirm & calibrate left cell"@,
            "Short press: confirm & calibrate right cell"@,
        ),
{
    assert(mirrors("Left scale: reference weight"@, "Right scale: reference weight"@)) by {
        reveal_strlit("Left scale: reference weight");
        reveal_strlit("Right scale: reference weight");
        lemma_mirrors("Left scale: reference weight"@, "Right scale: reference weight"@, 0);
    }
    assert(mirrors("Place a 500g reference weight on the left scale."@, "Place a 500g reference weight on the right scale."@)) by {
        reveal_strlit("Place a 500g reference weight on the left scale.");
        reveal_strlit("Place a 500g reference weight on the right scale.");
        lemma_mirrors("Place a 500g reference weight on the left scale."@, "Place a 500g reference weight on the right scale."@, 37);
    }
    assert(mirrors("Short press: confirm & calibrate left cell"@, "Short press: confirm & calibrate right cell"@)) by {
        reveal_strlit("Short press: confirm & calibrate left cell");
        reveal_strlit("Short press: confirm & calibrate right cell");
        lemma_mirrors("Short press: confirm & calibrate left cell"@, "Short press: confirm & calibrate right cell"@, 33);
    }
}

proof fn lemma_calibrating_steps()
    ensures
        mirrors("Calibrating left cell..."@, "Calibrating right cell..."@),
        mirrors(
            "Reading left reference weight..."@,
            "Reading right reference weight..."@,
        ),
{
    assert(mirrors("Calibrating left cell..."@, "Calibrating right cell..."@)) by {
        reveal_strlit("Calibrating left cell...");
        reveal_strlit("Calibrating right cell...");
        lemma_mirrors("Calibrating left cell..."@, "Calibrating right cell..."@, 12);
    }
    assert(mirrors("Reading left reference weight..."@, "Reading right reference weight..."@)) by {
        reveal_strlit("Reading left reference weight...");
        reveal_strlit("Reading right reference weight...");
        lemma_mirrors("Reading left reference weight..."@, "Reading right reference weight..."@, 8);
    }
}

/// Texts that name no side are the same for both.
proof fn lemma_common_texts()
    ensures
        mirrors(""@, ""@),
        mirrors("Long press: cancel"@, "Long press: cancel"@),
{
    reveal_strlit("");
    reveal_strlit("Long press: cancel");
    lemma_without_side(""@);
    lemma_without_side("Long press: cancel"@);
}

/// The right cell's counterpart of a step of the left cell.
pub open spec fn right_step(step: CalibrationStep) -> Option<CalibrationStep> {
    match step {
        CalibrationStep::ConfirmEmptyLeft => Some(CalibrationStep::ConfirmEmptyRight),
        CalibrationStep::TaringLeft => Some(CalibrationStep::TaringRight),
        CalibrationStep::ConfirmReferenceLeft => Some(CalibrationStep::ConfirmReferenceRight),
        CalibrationStep::CalibratingLeft => Some(CalibrationStep::CalibratingRight),
        _ => None,
    }
}

/// A step of the right cell looks like the left cell's with the side replaced in every text, and
/// neither names the other's side.
pub proof fn law_right_steps_mirror_left_ones(left: CalibrationStep, right: CalibrationStep)
    requires
        right_step(left) == Some(right),
    ensures
        mirrors(step_title(left), step_title(right)),
        step_lines(left).len() == step_lines(right).len(),
        forall|i: int|
            0 <= i < step_lines(left).len() ==> mirrors(
                #[trigger] step_lines(left)[i],
                step_lines(right)[i],
            ),
        step_color(left) == step_color(right),
{
    lemma_common_texts();
    match left {
        CalibrationStep::ConfirmEmptyLeft => lemma_empty_steps(),
        CalibrationStep::TaringLeft => lemma_taring_steps(),
        CalibrationStep::ConfirmReferenceLeft => lemma_reference_steps(),
        _ => lemma_calibrating_steps(),
    }
}

} // verus!
