//! Converting raw ADC counts to weights, and storing what the conversion needs.

use vstd::arithmetic::power2::{lemma_pow2_pos, lemma_pow2_strictly_increases};
use vstd::prelude::*;

use crate::binary32::laws::lemma_of_int;
use crate::binary32::model::{signed, Binary32};
use crate::binary32::ops::{above_epsilon, of_int, product, quotient, whole};

verus! {

/// Reference weight, in grams, used by the calibration wizard.
pub const CALIBRATION_REFERENCE_G: i32 = 500;

/// Converts raw HX711 counts into weight.
///
/// `offset` is the raw reading of the empty scale. `scale` is raw counts per gram above it.
#[derive(Clone, Copy, Debug)]
pub struct ScaleCalibration {
    pub offset: i32,
    pub scale: Binary32,
}

/// One calibration for each of the two load cells.
#[derive(Clone, Copy, Debug)]
pub struct DualScaleCalibration {
    pub left: ScaleCalibration,
    pub right: ScaleCalibration,
}

impl PartialEq for ScaleCalibration {
    fn eq(&self, other: &ScaleCalibration) -> (res: bool) {
        self.offset == other.offset && self.scale == other.scale
    }
}

impl vstd::std_specs::cmp::PartialEqSpecImpl for ScaleCalibration {
    open spec fn obeys_eq_spec() -> bool {
        true
    }

    open spec fn eq_spec(&self, other: &ScaleCalibration) -> bool {
        self.equals(*other)
    }
}

impl PartialEq for DualScaleCalibration {
    fn eq(&self, other: &DualScaleCalibration) -> (res: bool) {
        self.left == other.left && self.right == other.right
    }
}

impl vstd::std_specs::cmp::PartialEqSpecImpl for DualScaleCalibration {
    open spec fn obeys_eq_spec() -> bool {
        true
    }

    open spec fn eq_spec(&self, other: &DualScaleCalibration) -> bool {
        self.left.equals(other.left) && self.right.equals(other.right)
    }
}

/// The bits of `n` in two's complement.
pub open spec fn twos_complement(n: i32) -> u32 {
    (if n < 0 {
        n + 0x1_0000_0000
    } else {
        n as int
    }) as u32
}

/// The number whose two's complement bits are `bits`.
pub open spec fn from_twos_complement(bits: u32) -> i32 {
    (if bits >= 0x8000_0000 {
        bits - 0x1_0000_0000
    } else {
        bits as int
    }) as i32
}

/// The bytes of `x`, least significant first.
pub open spec fn le_bytes(x: u32) -> Seq<u8> {
    seq![
        (x % 0x100) as u8,
        (x / 0x100 % 0x100) as u8,
        (x / 0x1_0000 % 0x100) as u8,
        (x / 0x100_0000) as u8,
    ]
}

/// The number whose bytes, least significant first, are the four from position `at`.
pub open spec fn le_value(bytes: Seq<u8>, at: int) -> u32 {
    (bytes[at] + bytes[at + 1] * 0x100 + bytes[at + 2] * 0x1_0000 + bytes[at + 3] * 0x100_0000) as u32
}

impl ScaleCalibration {
    /// Equality of offsets and, by value, of factors.
    pub open spec fn equals(self, other: ScaleCalibration) -> bool {
        self.offset == other.offset && self.scale.equals(other.scale)
    }

    /// Whether the factor can produce meaningful readings: finite and above machine epsilon.
    pub open spec fn valid(self) -> bool {
        self.scale.finite() && above_epsilon(self.scale)
    }

    /// Whether `raw` lies close enough to the zero point for the difference to be an `i32`.
    pub open spec fn in_span(self, raw: int) -> bool {
        i32::MIN <= raw - self.offset <= i32::MAX
    }

    /// The weight of a raw reading, in tenths of a gram: the counts above the zero point,
    /// divided by the factor and multiplied by ten in single precision, then rounded.
    pub open spec fn decigrams(self, raw: int) -> int {
        whole(product(quotient(of_int(raw - self.offset), self.scale), of_int(10)))
    }

    /// The stored form: the offset, then the factor's bit pattern.
    pub open spec fn stored(self) -> Seq<u8> {
        le_bytes(twos_complement(self.offset)) + le_bytes(self.scale.bits)
    }

    /// The calibration stored in the eight bytes from position `at`.
    pub open spec fn restored(bytes: Seq<u8>, at: int) -> ScaleCalibration {
        ScaleCalibration {
            offset: from_twos_complement(le_value(bytes, at)),
            scale: Binary32 { bits: le_value(bytes, at + 4) },
        }
    }

    /// The calibration derived from a reading of a known weight.
    pub open spec fn calibrated(offset: i32, raw_with_reference: i32, reference_g: Binary32) -> ScaleCalibration {
        ScaleCalibration {
            offset,
            scale: if raw_with_reference != offset && above_epsilon(reference_g) {
                quotient(of_int(raw_with_reference - offset), reference_g)
            } else {
                signed(false, 0)
            },
        }
    }
}

impl Default for ScaleCalibration {
    /// Zero marks the scale as uncalibrated until it is tared and calibrated.
    fn default() -> (res: ScaleCalibration)
        ensures
            res.offset == 0,
            res.scale == signed(false, 0),
    {
        ScaleCalibration { offset: 0, scale: Binary32::from_bits(0) }
    }
}

impl ScaleCalibration {
    /// Whether the stored calibration can produce meaningful readings.
    pub fn is_valid(self) -> (res: bool)
        ensures
            res == self.valid(),
    {
        self.scale.is_finite() && self.scale.exceeds_epsilon()
    }

    /// Convert a raw ADC reading to tenths of a gram.
    pub fn raw_to_decigrams(&self, raw: i32) -> (res: i32)
        requires
            self.in_span(raw as int),
        ensures
            res == self.decigrams(raw as int),
    {
        let grams: Binary32 = Binary32::from_i32(raw - self.offset).over(self.scale);
        grams.times(Binary32::from_i32(10)).round_to_i32()
    }
}

/// Split a number into its bytes, least significant first.
fn to_le(x: u32) -> (res: (u8, u8, u8, u8))
    ensures
        seq![res.0, res.1, res.2, res.3] == le_bytes(x),
{
    (
        (x % 0x100) as u8,
        (x / 0x100 % 0x100) as u8,
        (x / 0x1_0000 % 0x100) as u8,
        (x / 0x100_0000) as u8,
    )
}

/// Join four bytes, least significant first.
fn from_le(a: u8, b: u8, c: u8, d: u8) -> (res: u32)
    ensures
        res == a + b * 0x100 + c * 0x1_0000 + d * 0x100_0000,
{
    a as u32 + b as u32 * 0x100 + c as u32 * 0x1_0000 + d as u32 * 0x100_0000
}

fn to_unsigned(n: i32) -> (res: u32)
    ensures
        res == twos_complement(n),
{
    if n < 0 {
        (n as i64 + 0x1_0000_0000) as u32
    } else {
        n as u32
    }
}

fn to_signed(bits: u32) -> (res: i32)
    ensures
        res == from_twos_complement(bits),
{
    if bits >= 0x8000_0000 {
        (bits as i64 - 0x1_0000_0000) as i32
    } else {
        bits as i32
    }
}

impl ScaleCalibration {
    /// Serialize to 8 bytes (offset, then factor, both least significant byte first).
    pub fn to_bytes(self) -> (res: [u8; 8])
        ensures
            res@ == self.stored(),
    {
        let (a, b, c, d): (u8, u8, u8, u8) = to_le(to_unsigned(self.offset));
        let (e, f, g, h): (u8, u8, u8, u8) = to_le(self.scale.to_bits());
        let res: [u8; 8] = [a, b, c, d, e, f, g, h];
        assert(res@ =~= seq![a, b, c, d] + seq![e, f, g, h]);
        res
    }

    /// Deserialize from 8 bytes produced by [`Self::to_bytes`].
    pub fn from_bytes(bytes: [u8; 8]) -> (res: ScaleCalibration)
        ensures
            res == ScaleCalibration::restored(bytes@, 0),
    {
        let offset: i32 = to_signed(from_le(bytes[0], bytes[1], bytes[2], bytes[3]));
        let scale: Binary32 = Binary32::from_bits(from_le(bytes[4], bytes[5], bytes[6], bytes[7]));
        ScaleCalibration { offset, scale }
    }
}

impl ScaleCalibration {
    /// Derive a new calibration from a raw reading taken with `reference_g` grams resting on the
    /// scale, given the current zero point `offset`.
    pub fn calibrate(offset: i32, raw_with_reference: i32, reference_g: Binary32) -> (res: ScaleCalibration)
        requires
            i32::MIN <= raw_with_reference - offset <= i32::MAX,
        ensures
            res == ScaleCalibration::calibrated(offset, raw_with_reference, reference_g),
    {
        let delta: Binary32 = Binary32::from_i32(raw_with_reference - offset);
        proof {
            lemma_of_int(raw_with_reference - offset);
            lemma_pow2_strictly_increases(126, 149);
            lemma_pow2_pos(126);
        }
        let scale: Binary32 = if delta.abs().exceeds_epsilon() && reference_g.exceeds_epsilon() {
            delta.over(reference_g)
        } else {
            Binary32::from_bits(0)
        };
        ScaleCalibration { offset, scale }
    }
}

impl DualScaleCalibration {
    /// The summed weight of a left and a right reading, in tenths of a gram.
    pub open spec fn decigrams(self, left_raw: int, right_raw: int) -> int {
        self.left.decigrams(left_raw) + self.right.decigrams(right_raw)
    }

    /// The stored form: the left calibration, then the right one.
    pub open spec fn stored(self) -> Seq<u8> {
        self.left.stored() + self.right.stored()
    }

    /// The pair of calibrations stored in sixteen bytes.
    pub open spec fn restored(bytes: Seq<u8>) -> DualScaleCalibration {
        DualScaleCalibration {
            left: ScaleCalibration::restored(bytes, 0),
            right: ScaleCalibration::restored(bytes, 8),
        }
    }

    /// Convert a left and right raw reading into the summed weight in decigrams.
    pub fn raw_to_decigrams(self, left_raw: i32, right_raw: i32) -> (res: i32)
        requires
            self.left.in_span(left_raw as int),
            self.right.in_span(right_raw as int),
            i32::MIN <= self.decigrams(left_raw as int, right_raw as int) <= i32::MAX,
        ensures
            res == self.decigrams(left_raw as int, right_raw as int),
            res == self.left.decigrams(left_raw as int) + self.right.decigrams(right_raw as int),
    {
        let left_weight_dg: i32 = self.left.raw_to_decigrams(left_raw);
        let right_weight_dg: i32 = self.right.raw_to_decigrams(right_raw);
        left_weight_dg + right_weight_dg
    }

    /// Serialize both calibrations for storage.
    pub fn to_bytes(self) -> (res: [u8; 16])
        ensures
            res@ == self.stored(),
    {
        let l: [u8; 8] = self.left.to_bytes();
        let r: [u8; 8] = self.right.to_bytes();
        let res: [u8; 16] = [
            l[0], l[1], l[2], l[3], l[4], l[5], l[6], l[7],
            r[0], r[1], r[2], r[3], r[4], r[5], r[6], r[7],
        ];
        assert(res@ =~= l@ + r@);
        res
    }

    /// Deserialize both calibrations from stored bytes.
    pub fn from_bytes(bytes: [u8; 16]) -> (res: DualScaleCalibration)
        ensures
            res == DualScaleCalibration::restored(bytes@),
    {
        let l: [u8; 8] = [
            bytes[0], bytes[1], bytes[2], bytes[3], bytes[4], bytes[5], bytes[6], bytes[7],
        ];
        let r: [u8; 8] = [
            bytes[8], bytes[9], bytes[10], bytes[11], bytes[12], bytes[13], bytes[14], bytes[15],
        ];
        DualScaleCalibration {
            left: ScaleCalibration::from_bytes(l),
            right: ScaleCalibration::from_bytes(r),
        }
    }
}

impl Default for DualScaleCalibration {
    fn default() -> (res: DualScaleCalibration)
        ensures
            res.left.offset == 0,
            res.left.scale == signed(false, 0),
            res.right == res.left,
    {
        DualScaleCalibration { left: ScaleCalibration::default(), right: ScaleCalibration::default() }
    }
}

} // verus!
