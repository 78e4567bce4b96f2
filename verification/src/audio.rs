//! Audio input devices, device selection, and the sample-index logic of the
//! audio clean-up steps (silence trimming and padding).
use vstd::prelude::*;

verus! {

/// An audio input device as offered in the settings.
#[derive(Clone, Debug)]
pub struct AudioDevice {
    pub id: String,
    pub name: String,
}

/// The names that can be read, in order, from a list of devices whose name
/// may or may not be readable.
pub open spec fn readable_names(names: Seq<Option<String>>) -> Seq<Seq<char>>
    decreases names.len(),
{
    if names.len() == 0 {
        seq![]
    } else {
        let rest = readable_names(names.drop_last());
        match names.last() {
            Some(name) => rest.push(name@),
            None => rest,
        }
    }
}

/// Every device whose name can be read is listed, once, in order: appending
/// a readable name appends it to the list, appending an unreadable one
/// changes nothing, and the names of two lists one after the other are the
/// names of the first followed by those of the second.
pub proof fn lemma_readable_names_in_order(
    names: Seq<Option<String>>,
    more: Seq<Option<String>>,
    name: String,
)
    ensures
        readable_names(Seq::<Option<String>>::empty()) == Seq::<Seq<char>>::empty(),
        readable_names(names.push(Some(name))) == readable_names(names).push(name@),
        readable_names(names.push(None)) == readable_names(names),
        readable_names(names + more) == readable_names(names) + readable_names(more),
        readable_names(names).len() <= names.len(),
    decreases more.len(),
{
    assert(names.push(Some(name)).drop_last() =~= names);
    assert(names.push(None).drop_last() =~= names);
    lemma_readable_names_shorter(names);
    if more.len() == 0 {
        assert(names + more =~= names);
        assert(readable_names(names) + readable_names(more) =~= readable_names(names));
    } else {
        lemma_readable_names_in_order(names, more.drop_last(), name);
        assert((names + more).drop_last() =~= names + more.drop_last());
        assert((names + more).last() == more.last());
        match more.last() {
            Some(n) => {
                assert(readable_names(names) + readable_names(more.drop_last()).push(n@)
                    =~= (readable_names(names) + readable_names(more.drop_last())).push(n@));
            },
            None => {},
        }
    }
}

proof fn lemma_readable_names_shorter(names: Seq<Option<String>>)
    ensures
        readable_names(names).len() <= names.len(),
    decreases names.len(),
{
    if names.len() > 0 {
        lemma_readable_names_shorter(names.drop_last());
    }
}

/// The device list for the settings page. `enumerated` is what enumerating
/// the input devices gave: `None` when enumeration failed, else the name of
/// each device, `None` for a device whose name could not be read. Every
/// device with a readable name is listed, in order, with that name as both
/// id and display name; a failed enumeration gives an empty list.
pub fn list_input_devices(enumerated: Option<Vec<Option<String>>>) -> (devices: Vec<AudioDevice>)
    ensures
        enumerated is None ==> devices@.len() == 0,
        enumerated is Some ==> {
            let names = readable_names(enumerated->Some_0@);
            &&& devices@.len() == names.len()
            &&& forall|i: int|
                #![trigger devices@[i]]
                0 <= i < devices@.len() ==> devices@[i].id@ == names[i] && devices@[i].name@
                    == names[i]
        },
{
    let names = match enumerated {
        None => {
            return Vec::new();
        },
        Some(names) => names,
    };
    let mut devices: Vec<AudioDevice> = Vec::new();
    let mut i: usize = 0;
    while i < names.len()
        invariant
            i <= names@.len(),
            devices@.len() == readable_names(names@.take(i as int)).len(),
            forall|k: int|
                #![trigger devices@[k]]
                0 <= k < devices@.len() ==> devices@[k].id@ == readable_names(
                    names@.take(i as int),
                )[k] && devices@[k].name@ == readable_names(names@.take(i as int))[k],
        decreases names@.len() - i,
    {
        proof {
            assert(names@.take(i + 1).drop_last() =~= names@.take(i as int));
            assert(names@.take(i + 1).last() == names@[i as int]);
        }
        match &names[i] {
            Some(name) => {
                devices.push(AudioDevice { id: name.clone(), name: name.clone() });
            },
            None => {},
        }
        i = i + 1;
    }
    proof {
        assert(names@.take(names@.len() as int) =~= names@);
        assert(enumerated->Some_0@ == names@);
    }
    devices
}

/// The first device whose readable name is `wanted`, if any.
pub fn find_input_device(names: &[Option<String>], wanted: &str) -> (index: Option<usize>)
    ensures
        index is None ==> forall|i: int|
            0 <= i < names@.len() ==> #[trigger] names@[i] is None || names@[i]->Some_0@
                != wanted@,
        index is Some ==> {
            let k = index->Some_0 as int;
            &&& 0 <= k < names@.len()
            &&& names@[k] is Some
            &&& names@[k]->Some_0@ == wanted@
            &&& forall|i: int|
                0 <= i < k ==> #[trigger] names@[i] is None || names@[i]->Some_0@ != wanted@
        },
{
    let target = String::from_str(wanted);
    let mut i: usize = 0;
    while i < names.len()
        invariant
            i <= names@.len(),
            target@ == wanted@,
            forall|k: int|
                0 <= k < i ==> #[trigger] names@[k] is None || names@[k]->Some_0@ != wanted@,
        decreases names@.len() - i,
    {
        match &names[i] {
            Some(name) => {
                if *name == target {
                    return Some(i);
                }
            },
            None => {},
        }
        i = i + 1;
    }
    None
}

// ---------------------------------------------------------------------------
// Silence trimming (16 kHz audio)
// ---------------------------------------------------------------------------

/// Samples per analysis window: 10 ms at 16 kHz.
pub const TRIM_WINDOW: usize = 160;

/// Distance between consecutive windows: 5 ms at 16 kHz (50 % overlap).
pub const TRIM_STEP: usize = 80;

/// Audio shorter than two windows is never trimmed.
pub open spec fn too_short_to_trim(total: int) -> bool {
    total < 2 * TRIM_WINDOW
}

/// How many windows each scan looks at in audio of `total` samples.
pub open spec fn window_count(total: int) -> int {
    if total < TRIM_WINDOW {
        0
    } else {
        (total - TRIM_WINDOW) / (TRIM_STEP as int) + 1
    }
}

/// Start of the `k`-th window of the forward scan, which walks from the
/// beginning of the audio.
pub open spec fn forward_window(k: int) -> int {
    k * TRIM_STEP
}

/// Start of the `k`-th window of the backward scan, which walks from the end
/// of the audio.
pub open spec fn backward_window(total: int, k: int) -> int {
    total - TRIM_WINDOW - k * TRIM_STEP
}

/// The position of the first `true` in `s`, if any.
pub open spec fn first_true(s: Seq<bool>) -> Option<int>
    decreases s.len(),
{
    if s.len() == 0 {
        None
    } else if s[0] {
        Some(0)
    } else {
        match first_true(s.drop_first()) {
            Some(k) => Some(k + 1),
            None => None,
        }
    }
}

/// The part of `total` samples kept by silence trimming, as a range
/// `(start, end)`, given which windows of each scan hold speech. Short audio
/// is kept whole; audio with no speech in the forward scan is dropped
/// entirely; otherwise one window of margin is kept before the first and
/// after the last window with speech, and the whole audio is kept when
/// those margins do not leave a non-empty range.
pub open spec fn trim_range(total: int, forward: Seq<bool>, backward: Seq<bool>) -> (int, int) {
    if too_short_to_trim(total) {
        (0, total)
    } else {
        match first_true(forward) {
            None => (0, 0),
            Some(kf) => {
                let first = forward_window(kf);
                let start = if first >= TRIM_WINDOW { first - TRIM_WINDOW } else { 0 };
                let end = match first_true(backward) {
                    None => total,
                    Some(kb) => {
                        let last = backward_window(total, kb) + 2 * TRIM_WINDOW;
                        if last < total { last } else { total }
                    },
                };
                if start < end {
                    (start, end)
                } else {
                    (0, total)
                }
            },
        }
    }
}

/// Trimming keeps short audio whole, drops audio in which the forward scan
/// finds no speech, and otherwise keeps a non-empty part of the audio that
/// starts no later than the first window with speech.
pub proof fn lemma_trim_keeps_speech(total: int, forward: Seq<bool>, backward: Seq<bool>)
    requires
        total >= 0,
    ensures
        too_short_to_trim(total) ==> trim_range(total, forward, backward) == (0int, total),
        !too_short_to_trim(total) && first_true(forward) is None ==> trim_range(
            total,
            forward,
            backward,
        ) == (0int, 0int),
        !too_short_to_trim(total) && first_true(forward) is Some ==> {
            let (start, end) = trim_range(total, forward, backward);
            &&& 0 <= start < end <= total
            &&& start <= forward_window(first_true(forward)->Some_0)
        },
{
    lemma_first_true(forward);
    lemma_first_true(backward);
}

/// Where trimming cuts, in terms of the windows that hold speech. When the
/// audio is long enough to trim: if no forward window holds speech nothing is
/// kept; otherwise, with `kf` the first forward window with speech (starting
/// at sample `80·kf`) and `kb` the first backward window with speech
/// (starting at sample `total − 160 − 80·kb`), the kept part starts one
/// window (160 samples) before the first and ends one window after the end
/// of the last, clamped to the audio, or to its end when no backward window
/// holds speech; when those bounds leave nothing, the whole audio is kept.
pub proof fn lemma_trim_cuts_one_window_around_speech(
    total: int,
    forward: Seq<bool>,
    backward: Seq<bool>,
    kf: int,
    kb: int,
)
    requires
        total >= 320,
    ensures
        (forall|j: int| 0 <= j < forward.len() ==> !forward[j]) ==> trim_range(total, forward, backward)
            == (0int, 0int),
        0 <= kf < forward.len() && forward[kf] && (forall|j: int| 0 <= j < kf ==> !forward[j]) ==> {
            let start = if 80 * kf >= 160 { 80 * kf - 160 } else { 0 };
            &&& (forall|j: int| 0 <= j < backward.len() ==> !backward[j]) ==> trim_range(
                total,
                forward,
                backward,
            ) == (if start < total { (start, total) } else { (0, total) })
            &&& 0 <= kb < backward.len() && backward[kb] && (forall|j: int|
                0 <= j < kb ==> !backward[j]) ==> {
                let last_end = total - 160 - 80 * kb + 320;
                let end = if last_end < total { last_end } else { total };
                trim_range(total, forward, backward) == (if start < end { (start, end) } else { (0, total) })
            }
        },
{
    lemma_first_true(forward);
    lemma_first_true(backward);
    if 0 <= kf < forward.len() && forward[kf] && (forall|j: int| 0 <= j < kf ==> !forward[j]) {
        let k = first_true(forward)->Some_0;
        if k < kf {
            assert(!forward[k]);
        }
        if kf < k {
            assert(!forward[kf]);
        }
        if 0 <= kb < backward.len() && backward[kb] && (forall|j: int| 0 <= j < kb ==> !backward[j]) {
            let k2 = first_true(backward)->Some_0;
            if k2 < kb {
                assert(!backward[k2]);
            }
            if kb < k2 {
                assert(!backward[kb]);
            }
        }
    }
}

/// The windows that silence trimming inspects in audio of `total` samples:
/// the starts of the forward scan's windows and of the backward scan's
/// windows. Both lists are empty for audio too short to trim.
pub fn trim_windows(total: usize) -> (windows: (Vec<usize>, Vec<usize>))
    ensures
        too_short_to_trim(total as int) ==> windows.0@.len() == 0 && windows.1@.len() == 0,
        !too_short_to_trim(total as int) ==> {
            &&& windows.0@.len() == window_count(total as int)
            &&& windows.1@.len() == window_count(total as int)
            &&& forall|k: int|
                0 <= k < windows.0@.len() ==> #[trigger] windows.0@[k] == forward_window(k)
            &&& forall|k: int|
                0 <= k < windows.1@.len() ==> #[trigger] windows.1@[k] == backward_window(
                    total as int,
                    k,
                )
            &&& forall|k: int|
                0 <= k < windows.0@.len() ==> #[trigger] windows.0@[k] + TRIM_WINDOW <= total
            &&& forall|k: int|
                0 <= k < windows.1@.len() ==> 0 <= #[trigger] windows.1@[k] && windows.1@[k]
                    + TRIM_WINDOW <= total
        },
        total >= 320 ==> windows.0@.len() == (total - 160) / 80 + 1,
        total >= 320 ==> windows.1@.len() == (total - 160) / 80 + 1,
        total < 320 ==> windows.0@.len() == 0 && windows.1@.len() == 0,
        forall|k: int| 0 <= k < windows.0@.len() ==> #[trigger] windows.0@[k] == 80 * k,
        forall|k: int| 0 <= k < windows.1@.len() ==> #[trigger] windows.1@[k] == total - 160 - 80 * k,
{
    let mut forward: Vec<usize> = Vec::new();
    let mut backward: Vec<usize> = Vec::new();
    if total < 2 * TRIM_WINDOW {
        return (forward, backward);
    }
    let count = (total - TRIM_WINDOW) / TRIM_STEP + 1;
    let mut k: usize = 0;
    while k < count
        invariant
            total >= 2 * TRIM_WINDOW,
            count == window_count(total as int),
            k <= count,
            forward@.len() == k,
            backward@.len() == k,
            forall|m: int| 0 <= m < k ==> #[trigger] forward@[m] == forward_window(m),
            forall|m: int| 0 <= m < k ==> #[trigger] backward@[m] == backward_window(total as int, m),
            forall|m: int| 0 <= m < k ==> #[trigger] forward@[m] + TRIM_WINDOW <= total,
            forall|m: int|
                0 <= m < k ==> 0 <= #[trigger] backward@[m] && backward@[m] + TRIM_WINDOW <= total,
        decreases count - k,
    {
        assert(k * TRIM_STEP <= total - TRIM_WINDOW) by (nonlinear_arith)
            requires
                k < count,
                count == (total - TRIM_WINDOW) / (TRIM_STEP as int) + 1,
                total >= TRIM_WINDOW,
        ;
        forward.push(k * TRIM_STEP);
        backward.push(total - TRIM_WINDOW - k * TRIM_STEP);
        k = k + 1;
    }
    (forward, backward)
}

/// The first `true` of `s` lies inside `s`, and nothing before it is `true`.
pub proof fn lemma_first_true(s: Seq<bool>)
    ensures
        match first_true(s) {
            Some(k) => 0 <= k < s.len() && s[k] && forall|j: int| 0 <= j < k ==> !#[trigger] s[j],
            None => forall|j: int| 0 <= j < s.len() ==> !#[trigger] s[j],
        },
    decreases s.len(),
{
    if s.len() > 0 && !s[0] {
        lemma_first_true(s.drop_first());
        assert forall|j: int| 1 <= j < s.len() implies s[j] == s.drop_first()[j - 1] by {}
    }
}

/// `pos` moved `by` places further, if present.
pub open spec fn shifted(pos: Option<int>, by: int) -> Option<int> {
    match pos {
        Some(k) => Some(k + by),
        None => None,
    }
}

/// The position of the first `true` in `flags`, if any.
fn first_set(flags: &[bool]) -> (pos: Option<usize>)
    ensures
        match first_true(flags@) {
            Some(k) => pos == Some(k as usize),
            None => pos is None,
        },
{
    let mut i: usize = 0;
    proof {
        assert(flags@.skip(0) =~= flags@);
    }
    while i < flags.len()
        invariant
            i <= flags@.len(),
            first_true(flags@) == shifted(first_true(flags@.skip(i as int)), i as int),
        decreases flags@.len() - i,
    {
        proof {
            assert(flags@.skip(i as int).drop_first() =~= flags@.skip(i + 1));
        }
        if flags[i] {
            return Some(i);
        }
        i = i + 1;
    }
    None
}

/// The range of samples kept by silence trimming (see `trim_range`), given
/// for each window of `trim_windows(total)` whether it holds speech.
pub fn trim_silence_range(total: usize, forward_active: &[bool], backward_active: &[bool]) -> (range: (
    usize,
    usize,
))
    requires
        !too_short_to_trim(total as int) ==> forward_active@.len() == window_count(total as int)
            && backward_active@.len() == window_count(total as int),
    ensures
        (range.0 as int, range.1 as int) == trim_range(
            total as int,
            forward_active@,
            backward_active@,
        ),
        range.0 <= range.1 <= total,
{
    if total < 2 * TRIM_WINDOW {
        return (0, total);
    }
    let kf = match first_set(forward_active) {
        None => {
            return (0, 0);
        },
        Some(k) => k,
    };
    proof {
        lemma_first_true(forward_active@);
        lemma_first_true(backward_active@);
    }
    assert(kf < window_count(total as int));
    assert(kf * TRIM_STEP <= total - TRIM_WINDOW) by (nonlinear_arith)
        requires
            kf < (total - TRIM_WINDOW) / (TRIM_STEP as int) + 1,
            total >= TRIM_WINDOW,
    ;
    let first = kf * TRIM_STEP;
    let start = if first >= TRIM_WINDOW {
        first - TRIM_WINDOW
    } else {
        0
    };
    let end = match first_set(backward_active) {
        None => total,
        Some(kb) => {
            assert(kb < window_count(total as int));
            assert(kb * TRIM_STEP <= total - TRIM_WINDOW) by (nonlinear_arith)
                requires
                    kb < (total - TRIM_WINDOW) / (TRIM_STEP as int) + 1,
                    total >= TRIM_WINDOW,
            ;
            let last_window = total - TRIM_WINDOW - kb * TRIM_STEP;
            if last_window < total - 2 * TRIM_WINDOW {
                last_window + 2 * TRIM_WINDOW
            } else {
                total
            }
        },
    };
    if start < end {
        (start, end)
    } else {
        (0, total)
    }
}

// ---------------------------------------------------------------------------
// Padding
// ---------------------------------------------------------------------------

/// Samples per millisecond at 16 kHz.
pub const SAMPLES_PER_MS: usize = 16;

/// `samples` with `pad` copies of `silence` before and after.
pub open spec fn padded<T>(samples: Seq<T>, pad: int, silence: T) -> Seq<T> {
    Seq::new(pad as nat, |i: int| silence) + samples + Seq::new(pad as nat, |i: int| silence)
}

/// Pads 16 kHz audio with `pad_ms` milliseconds of `silence` on each side;
/// a short leading silence improves the recogniser's accuracy.
pub fn pad_audio<T: Copy>(samples: &[T], pad_ms: usize, silence: T) -> (out: Vec<T>)
    requires
        pad_ms * SAMPLES_PER_MS * 2 + samples@.len() <= usize::MAX,
    ensures
        out@ == padded(samples@, pad_ms * SAMPLES_PER_MS, silence),
        out@.len() == samples@.len() + 32 * pad_ms,
        forall|i: int| 0 <= i < 16 * pad_ms ==> #[trigger] out@[i] == silence,
        forall|i: int| 0 <= i < samples@.len() ==> #[trigger] out@[16 * pad_ms + i] == samples@[i],
        forall|i: int|
            16 * pad_ms + samples@.len() <= i < out@.len() ==> #[trigger] out@[i] == silence,
{
    let pad = pad_ms * SAMPLES_PER_MS;
    let mut out: Vec<T> = Vec::new();
    let mut i: usize = 0;
    while i < pad
        invariant
            i <= pad,
            out@ == Seq::new(i as nat, |k: int| silence),
        decreases pad - i,
    {
        out.push(silence);
        i = i + 1;
        proof {
            assert(out@ =~= Seq::new(i as nat, |k: int| silence));
        }
    }
    let mut j: usize = 0;
    while j < samples.len()
        invariant
            j <= samples@.len(),
            out@ == Seq::new(pad as nat, |k: int| silence) + samples@.take(j as int),
        decreases samples@.len() - j,
    {
        out.push(samples[j]);
        j = j + 1;
        proof {
            assert(out@ =~= Seq::new(pad as nat, |k: int| silence) + samples@.take(j as int));
        }
    }
    let ghost front = out@;
    let mut i: usize = 0;
    while i < pad
        invariant
            i <= pad,
            front == Seq::new(pad as nat, |k: int| silence) + samples@.take(samples@.len() as int),
            out@ == front + Seq::new(i as nat, |k: int| silence),
        decreases pad - i,
    {
        out.push(silence);
        i = i + 1;
        proof {
            assert(out@ =~= front + Seq::new(i as nat, |k: int| silence));
        }
    }
    proof {
        assert(samples@.take(samples@.len() as int) =~= samples@);
    }
    out
}

} // verus!
