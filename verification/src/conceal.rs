use vstd::prelude::*;

use crate::field::FieldAudio;
use crate::SAMPLES_PER_FIELD;

verus! {

/// How one sample slot of a channel is to be filled.
#[derive(Clone, Copy, Debug, PartialEq, Eq, Structural)]
pub enum Fill {
    /// The sample was decoded; leave it.
    Keep,
    /// The channel has no decoded sample at all; use silence.
    Zero,
    /// Repeat the decoded sample at this index (the slot lies before the
    /// first or after the last decoded sample).
    Copy(usize),
    /// Interpolate linearly between the nearest decoded samples on the
    /// left and on the right.
    Between(usize, usize),
}

/// The concealment plan for one channel of a field.
pub struct ConcealPlan {
    /// One fill per sample time.
    pub fills: Vec<Fill>,
    /// How many sample times of the channel were missing.
    pub missing: usize,
}

/// Channel `c` of sample time `i` was decoded.
pub open spec fn present(audio: FieldAudio, c: int, i: int) -> bool {
    audio@[i]@[c] is Some
}

/// The number of missing samples of channel `c` among sample times `0..n`.
pub open spec fn missing_before(audio: FieldAudio, c: int, n: int) -> nat
    decreases n,
{
    if n <= 0 {
        0
    } else {
        missing_before(audio, c, n - 1) + if present(audio, c, n - 1) {
            0nat
        } else {
            1nat
        }
    }
}

/// `fill` is the right way to fill channel `c` of sample time `i`:
/// decoded samples are kept; a channel without any decoded sample is
/// silenced; a gap before the first or after the last decoded sample
/// repeats that sample; any other gap lies between the nearest decoded
/// samples on either side.
pub open spec fn fill_correct(audio: FieldAudio, c: int, i: int, fill: Fill) -> bool {
    match fill {
        Fill::Keep => present(audio, c, i),
        Fill::Zero => !present(audio, c, i) && forall|k: int|
            0 <= k < 525 ==> !#[trigger] present(audio, c, k),
        Fill::Copy(j) => {
            &&& !present(audio, c, i)
            &&& j < 525
            &&& present(audio, c, j as int)
            &&& ((i < j && forall|k: int| 0 <= k < j ==> !#[trigger] present(audio, c, k)) || (j < i
                && forall|k: int| j < k < 525 ==> !#[trigger] present(audio, c, k)))
        },
        Fill::Between(l, r) => {
            &&& !present(audio, c, i)
            &&& l < i < r < 525
            &&& present(audio, c, l as int)
            &&& present(audio, c, r as int)
            &&& forall|k: int| l < k < r ==> !#[trigger] present(audio, c, k)
        },
    }
}

/// Plans the concealment of channel `channel`: how to fill each sample
/// time, and how many were missing.
pub fn conceal_plan(audio: &FieldAudio, channel: usize) -> (plan: ConcealPlan)
    requires
        channel < 2,
    ensures
        plan.fills@.len() == 525,
        plan.missing == missing_before(*audio, channel as int, 525),
        plan.missing <= 525,
        forall|i: int|
            0 <= i < 525 ==> fill_correct(*audio, channel as int, i, #[trigger] plan.fills@[i]),
{
    let ghost c = channel as int;
    // next[i]: the first decoded sample time at or after i.
    let mut next: Vec<Option<usize>> = Vec::new();
    let mut i: usize = 0;
    while i < SAMPLES_PER_FIELD
        invariant
            i <= 525,
            next@.len() == i,
        decreases 525 - i,
    {
        next.push(None);
        i = i + 1;
    }
    let mut upcoming: Option<usize> = None;
    let mut i: usize = SAMPLES_PER_FIELD;
    while i > 0
        invariant
            i <= 525,
            next@.len() == 525,
            channel < 2,
            c == channel as int,
            match upcoming {
                Some(r) => i <= r < 525 && present(*audio, c, r as int) && forall|k: int|
                    i <= k < r ==> !#[trigger] present(*audio, c, k),
                None => forall|k: int| i <= k < 525 ==> !#[trigger] present(*audio, c, k),
            },
            forall|j: int|
                i <= j < 525 ==> match #[trigger] next@[j] {
                    Some(r) => j <= r < 525 && present(*audio, c, r as int) && forall|k: int|
                        j <= k < r ==> !#[trigger] present(*audio, c, k),
                    None => forall|k: int| j <= k < 525 ==> !#[trigger] present(*audio, c, k),
                },
        decreases i,
    {
        i = i - 1;
        if audio[i][channel].is_some() {
            upcoming = Some(i);
        }
        next.set(i, upcoming);
    }
    let mut fills: Vec<Fill> = Vec::new();
    let mut missing: usize = 0;
    let mut previous: Option<usize> = None;
    let mut i: usize = 0;
    while i < SAMPLES_PER_FIELD
        invariant
            i <= 525,
            channel < 2,
            c == channel as int,
            next@.len() == 525,
            fills@.len() == i,
            missing == missing_before(*audio, c, i as int),
            missing <= i,
            match previous {
                Some(l) => l < i && present(*audio, c, l as int) && forall|k: int|
                    l < k < i ==> !#[trigger] present(*audio, c, k),
                None => forall|k: int| 0 <= k < i ==> !#[trigger] present(*audio, c, k),
            },
            forall|j: int|
                0 <= j < 525 ==> match #[trigger] next@[j] {
                    Some(r) => j <= r < 525 && present(*audio, c, r as int) && forall|k: int|
                        j <= k < r ==> !#[trigger] present(*audio, c, k),
                    None => forall|k: int| j <= k < 525 ==> !#[trigger] present(*audio, c, k),
                },
            forall|j: int| 0 <= j < i ==> fill_correct(*audio, c, j, #[trigger] fills@[j]),
        decreases 525 - i,
    {
        let fill = if audio[i][channel].is_some() {
            previous = Some(i);
            Fill::Keep
        } else {
            missing = missing + 1;
            match (previous, next[i]) {
                (None, None) => Fill::Zero,
                (None, Some(r)) => Fill::Copy(r),
                (Some(l), None) => Fill::Copy(l),
                (Some(l), Some(r)) => Fill::Between(l, r),
            }
        };
        fills.push(fill);
        i = i + 1;
    }
    ConcealPlan { fills, missing }
}

/// A missing sample has only one correct way to be filled.
pub proof fn lemma_fill_unique(audio: FieldAudio, c: int, i: int, f1: Fill, f2: Fill)
    requires
        0 <= i < 525,
        fill_correct(audio, c, i, f1),
        fill_correct(audio, c, i, f2),
    ensures
        f1 == f2,
{
    match f1 {
        Fill::Keep => {},
        Fill::Zero => {
            match f2 {
                Fill::Copy(j) => {
                    assert(present(audio, c, j as int));
                },
                Fill::Between(l, r) => {
                    assert(present(audio, c, l as int));
                },
                _ => {},
            }
        },
        Fill::Copy(j1) => {
            match f2 {
                Fill::Zero => {
                    assert(present(audio, c, j1 as int));
                },
                Fill::Copy(j2) => {
                    assert(present(audio, c, j1 as int));
                    assert(present(audio, c, j2 as int));
                },
                Fill::Between(l, r) => {
                    assert(present(audio, c, l as int));
                    assert(present(audio, c, r as int));
                },
                _ => {},
            }
        },
        Fill::Between(l1, r1) => {
            match f2 {
                Fill::Zero => {
                    assert(present(audio, c, l1 as int));
                },
                Fill::Copy(j) => {
                    assert(present(audio, c, l1 as int));
                    assert(present(audio, c, r1 as int));
                },
                Fill::Between(l2, r2) => {
                    assert(present(audio, c, l1 as int));
                    assert(present(audio, c, r1 as int));
                    assert(present(audio, c, l2 as int));
                    assert(present(audio, c, r2 as int));
                },
                _ => {},
            }
        },
    }
}

/// The value a slot holds after concealment with `fill`, where the
/// interpolation of a gap gave `interpolated`.
pub open spec fn concealed_slot(audio: FieldAudio, c: int, i: int, fill: Fill, interpolated: i16) -> Option<i16> {
    match fill {
        Fill::Keep => audio@[i]@[c],
        Fill::Zero => Some(0i16),
        Fill::Copy(j) => audio@[j as int]@[c],
        Fill::Between(_, _) => Some(interpolated),
    }
}

/// Fills every missing sample of both channels of a field and returns how
/// many were missing.  Decoded samples are kept; a channel without any
/// decoded sample becomes silence; gaps before the first or after the
/// last decoded sample repeat it; any other gap is filled by
/// `interpolate(a, b, k, n)`, where `a` and `b` are the nearest decoded
/// samples to the left and right, `n` their distance and `k` the gap's
/// distance from `a`.
pub fn conceal_field<F: Fn(i16, i16, usize, usize) -> i16>(
    audio: &mut FieldAudio,
    interpolate: F,
) -> (missing: usize)
    requires
        forall|a: i16, b: i16, k: usize, n: usize| #[trigger] call_requires(interpolate, (a, b, k, n)),
    ensures
        missing == missing_before(*old(audio), 0, 525) + missing_before(*old(audio), 1, 525),
        forall|s: int, c: int| 0 <= s < 525 && 0 <= c < 2 ==> (#[trigger] final(audio)@[s]@[c]) is Some,
        forall|s: int, c: int|
            0 <= s < 525 && 0 <= c < 2 && present(*old(audio), c, s) ==> #[trigger] final(audio)@[s]@[c]
                == old(audio)@[s]@[c],
        forall|s: int, c: int, f: Fill|
            0 <= s < 525 && 0 <= c < 2 && #[trigger] fill_correct(*old(audio), c, s, f) ==> match f {
                Fill::Between(l, r) => call_ensures(
                    interpolate,
                    (
                        old(audio)@[l as int]@[c]->0,
                        old(audio)@[r as int]@[c]->0,
                        (s - l) as usize,
                        (r - l) as usize,
                    ),
                    final(audio)@[s]@[c]->0,
                ),
                _ => final(audio)@[s]@[c] == concealed_slot(*old(audio), c, s, f, 0),
            },
{
    let ghost original = *audio;
    let mut missing_total: usize = 0;
    let mut channel: usize = 0;
    while channel < 2
        invariant
            channel <= 2,
            missing_total <= 525 * channel,
            forall|a: i16, b: i16, k: usize, n: usize| #[trigger] call_requires(interpolate, (a, b, k, n)),
            missing_total as int == if channel == 0 {
                0
            } else if channel == 1 {
                missing_before(original, 0, 525) as int
            } else {
                (missing_before(original, 0, 525) + missing_before(original, 1, 525)) as int
            },
            forall|s: int, c: int|
                0 <= s < 525 && channel <= c < 2 ==> #[trigger] audio@[s]@[c] == original@[s]@[c],
            forall|s: int, c: int| 0 <= s < 525 && 0 <= c < channel ==> (#[trigger] audio@[s]@[c]) is Some,
            forall|s: int, c: int|
                0 <= s < 525 && 0 <= c < channel && present(original, c, s) ==> #[trigger] audio@[s]@[c]
                    == original@[s]@[c],
            forall|s: int, c: int, f: Fill|
                0 <= s < 525 && 0 <= c < channel && #[trigger] fill_correct(original, c, s, f) ==> match f {
                    Fill::Between(l, r) => call_ensures(
                        interpolate,
                        (
                            original@[l as int]@[c]->0,
                            original@[r as int]@[c]->0,
                            (s - l) as usize,
                            (r - l) as usize,
                        ),
                        audio@[s]@[c]->0,
                    ),
                    _ => audio@[s]@[c] == concealed_slot(original, c, s, f, 0),
                },
        decreases 2 - channel,
    {
        let plan = conceal_plan(audio, channel);
        assert forall|k: int| 0 <= k < 525 implies #[trigger] present(*audio, channel as int, k) == present(original, channel as int, k) by {}
        assert forall|i: int, f: Fill| 0 <= i < 525 implies #[trigger] fill_correct(*audio, channel as int, i, f) == fill_correct(original, channel as int, i, f) by {
            lemma_fill_correct_same(*audio, original, channel as int, i, f);
        }
        assert(missing_before(*audio, channel as int, 525) == missing_before(original, channel as int, 525)) by {
            lemma_missing_same(*audio, original, channel as int, 525);
        }
        missing_total = missing_total + plan.missing;
        let ghost before = *audio;
        let mut i: usize = 0;
        while i < SAMPLES_PER_FIELD
            invariant
                i <= 525,
                channel < 2,
                plan.fills@.len() == 525,
                forall|a: i16, b: i16, k: usize, n: usize| #[trigger] call_requires(interpolate, (a, b, k, n)),
                forall|j: int| 0 <= j < 525 ==> fill_correct(original, channel as int, j, #[trigger] plan.fills@[j]),
                forall|s: int, c: int| 0 <= s < 525 && 0 <= c < 2 && c != channel ==> #[trigger] audio@[s]@[c] == before@[s]@[c],
                forall|s: int| i <= s < 525 ==> #[trigger] audio@[s]@[channel as int] == original@[s]@[channel as int],
                forall|s: int| 0 <= s < i ==> (#[trigger] audio@[s]@[channel as int]) is Some,
                forall|s: int|
                    0 <= s < i && present(original, channel as int, s) ==> #[trigger] audio@[s]@[channel as int]
                        == original@[s]@[channel as int],
                forall|s: int|
                    0 <= s < i ==> match #[trigger] plan.fills@[s] {
                        Fill::Between(l, r) => call_ensures(
                            interpolate,
                            (
                                original@[l as int]@[channel as int]->0,
                                original@[r as int]@[channel as int]->0,
                                (s - l) as usize,
                                (r - l) as usize,
                            ),
                            audio@[s]@[channel as int]->0,
                        ),
                        _ => audio@[s]@[channel as int] == concealed_slot(original, channel as int, s, plan.fills@[s], 0),
                    },
            decreases 525 - i,
        {
            let ghost prev = *audio;
            match plan.fills[i] {
                Fill::Keep => {},
                Fill::Zero => {
                    audio[i][channel] = Some(0);
                },
                Fill::Copy(j) => {
                    let value = audio[j][channel];
                    audio[i][channel] = value;
                },
                Fill::Between(l, r) => {
                    let a = match audio[l][channel] {
                        Some(v) => v,
                        None => 0,
                    };
                    let b = match audio[r][channel] {
                        Some(v) => v,
                        None => 0,
                    };
                    let value = interpolate(a, b, i - l, r - l);
                    audio[i][channel] = Some(value);
                },
            }
            assert forall|s: int, c: int| 0 <= s < 525 && 0 <= c < 2 && (s != i || c != channel) implies #[trigger] audio@[s]@[c] == prev@[s]@[c] by {}
            i = i + 1;
        }
        assert forall|s: int, c: int, f: Fill|
            0 <= s < 525 && 0 <= c < channel + 1 && #[trigger] fill_correct(original, c, s, f) implies match f {
                Fill::Between(l, r) => call_ensures(
                    interpolate,
                    (
                        original@[l as int]@[c]->0,
                        original@[r as int]@[c]->0,
                        (s - l) as usize,
                        (r - l) as usize,
                    ),
                    audio@[s]@[c]->0,
                ),
                _ => audio@[s]@[c] == concealed_slot(original, c, s, f, 0),
            } by {
            if c == channel {
                lemma_fill_unique(original, c, s, f, plan.fills@[s]);
            }
        }
        channel = channel + 1;
    }
    missing_total
}

/// Whether a fill is correct depends only on which samples of the channel
/// are present.
proof fn lemma_fill_correct_same(a: FieldAudio, b: FieldAudio, c: int, i: int, f: Fill)
    requires
        0 <= i < 525,
        forall|k: int| 0 <= k < 525 ==> #[trigger] present(a, c, k) == present(b, c, k),
    ensures
        fill_correct(a, c, i, f) == fill_correct(b, c, i, f),
{
    assert forall|k: int| 0 <= k < 525 implies #[trigger] present(b, c, k) == present(a, c, k) by {}
}

/// Missing counts depend only on which samples of the channel are present.
proof fn lemma_missing_same(a: FieldAudio, b: FieldAudio, c: int, n: int)
    requires
        n <= 525,
        forall|k: int| 0 <= k < 525 ==> present(a, c, k) == #[trigger] present(b, c, k),
    ensures
        missing_before(a, c, n) == missing_before(b, c, n),
    decreases n,
{
    if n > 0 {
        lemma_missing_same(a, b, c, n - 1);
    }
}

} // verus!
