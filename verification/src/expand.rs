use vstd::prelude::*;

verus! {

/// A stored byte read as a two's-complement signed value.
pub open spec fn signed_code(value: u8) -> int {
    if value < 128 {
        value as int
    } else {
        value as int - 256
    }
}

/// Centre of the quantizer step for a positive code outside the linear
/// range: steps of 2, 4 and 8 above 16, 40 and 104.
pub open spec fn positive_level(s: int) -> int {
    if s < 40 {
        (s - 8) * 2 + 1
    } else if s < 104 {
        (s - 24) * 4 + 2
    } else {
        (s - 64) * 8 + 4
    }
}

/// The 10-bit level that the signed 8-bit code `s` stands for: identity
/// within -16..=15, step centres above, mirrored about -1/2 below.
pub open spec fn code_level(s: int) -> int {
    if -16 <= s <= 15 {
        s
    } else if s > 0 {
        positive_level(s)
    } else {
        -positive_level(-s - 1)
    }
}

/// The 10-bit level of a stored byte.
pub open spec fn expanded(value: u8) -> int {
    code_level(signed_code(value))
}

/// Expands a non-linear 8-bit Video8 PCM code to its 10-bit level.
pub fn expand_pcm_byte(value: u8) -> (level: i16)
    ensures
        level == expanded(value),
        128 <= value <= 239 ==> level == -expanded((255 - value) as u8),
    decreases (if value >= 128 { 1int } else { 0int }),
{
    let signed: i16 = if value < 128 {
        value as i16
    } else {
        value as i16 - 256
    };
    if -16 <= signed && signed <= 15 {
        return signed;
    }
    if signed > 0 {
        let (base, width): (i16, i16) = if signed < 40 {
            ((signed - 8) * 2, 2)
        } else if signed < 104 {
            ((signed - 24) * 4, 4)
        } else {
            ((signed - 64) * 8, 8)
        };
        return base + width / 2;
    }
    let mirrored = expand_pcm_byte(((-signed) - 1) as u8);
    -mirrored
}

/// Mirror law: below the linear range, code -s-1 stands for minus the
/// level of code s; within it, code -s-1 stands for itself.
pub proof fn lemma_expanded_mirror(v: u8)
    requires
        v <= 127,
    ensures
        signed_code((255 - v) as u8) == -(v as int) - 1,
        v >= 16 ==> expanded((255 - v) as u8) == -expanded(v),
        v < 16 ==> expanded((255 - v) as u8) == -(v as int) - 1,
{
}

/// The quantizer for positive codes: the identity up to 15, then steps of
/// 2 from 17 (codes 16..40), steps of 4 from 66 (codes 40..104) and steps of
/// 8 from 324 (codes 104..128).
pub proof fn lemma_expanded_positive_steps(v: u8)
    requires
        v <= 127,
    ensures
        v <= 15 ==> expanded(v) == v as int,
        expanded(16) == 17,
        expanded(40) == 66,
        expanded(104) == 324,
        16 <= v < 39 ==> expanded((v + 1) as u8) - expanded(v) == 2,
        40 <= v < 103 ==> expanded((v + 1) as u8) - expanded(v) == 4,
        104 <= v < 127 ==> expanded((v + 1) as u8) - expanded(v) == 8,
{
}

/// Every expanded level lies within -508..=508, so the 16-bit output
/// scaling by 64 never saturates.
pub proof fn lemma_expanded_range(value: u8)
    ensures
        -508 <= expanded(value) <= 508,
        -32768 <= 64 * expanded(value) <= 32767,
{
}

/// The expansion is strictly increasing in the signed code: distinct
/// codes give distinct levels, in the same order.
pub proof fn lemma_expanded_strictly_increasing(a: u8, b: u8)
    requires
        signed_code(a) < signed_code(b),
    ensures
        expanded(a) < expanded(b),
{
}

} // verus!
