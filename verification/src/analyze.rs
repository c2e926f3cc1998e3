//! Track analysis: the analyzer's settings and the search for where the music
//! of a track starts and where its outro begins.
//!
//! Loudness is measured by the caller; the searches here take, for each
//! energy window, whether it reaches the loudness threshold.
use vstd::prelude::*;

verus! {

/// Analyzes decoded tracks of a given sample rate and channel count.
pub struct Analyzer {
    sample_rate: u32,
    channels: usize,
}

impl Analyzer {
    /// The sample rate analyzed tracks have.
    pub closed spec fn rate(&self) -> u32 {
        self.sample_rate
    }

    /// The channel count analyzed tracks have.
    pub closed spec fn channel_count(&self) -> usize {
        self.channels
    }

    pub fn new(sample_rate: u32, channels: usize) -> (a: Self)
        ensures
            a.rate() == sample_rate,
            a.channel_count() == channels,
    {
        Analyzer { sample_rate, channels }
    }

    pub fn sample_rate(&self) -> (r: u32)
        ensures
            r == self.rate(),
    {
        self.sample_rate
    }

    pub fn channels(&self) -> (r: usize)
        ensures
            r == self.channel_count(),
    {
        self.channels
    }

    /// Samples per energy window: a tenth of a second.
    pub fn energy_window(&self) -> (r: usize)
        ensures
            r == self.rate() / 10,
    {
        self.sample_rate as usize / 10
    }

    /// Whether the channels are mixed down to one before analysis.
    pub fn downmixes(&self) -> (r: bool)
        ensures
            r == (self.channel_count() > 1),
    {
        self.channels > 1
    }
}

/// The first index whose flag is set, or the length where none is.
pub open spec fn first_set(flags: Seq<bool>) -> nat
    decreases flags.len(),
{
    if flags.len() == 0 {
        0
    } else if flags[0] {
        0
    } else {
        first_set(flags.drop_first()) + 1
    }
}

/// The last index at or after `from` whose flag is set.
pub open spec fn last_set_from(flags: Seq<bool>, from: nat) -> Option<nat>
    decreases flags.len(),
{
    if flags.len() <= from {
        None
    } else if flags.last() {
        Some((flags.len() - 1) as nat)
    } else {
        last_set_from(flags.drop_last(), from)
    }
}

/// The end of the intro: the first energy window that is loud enough, or the
/// number of windows where none is. `loud[i]` says whether window `i` reaches
/// the threshold.
pub fn intro_index(loud: &[bool]) -> (r: usize)
    ensures
        r == first_set(loud@),
        r <= loud@.len(),
        forall|j: int| 0 <= j < r ==> !loud@[j],
        r < loud@.len() ==> loud@[r as int],
{
    let n = loud.len();
    let mut i: usize = 0;
    assert(loud@.skip(0) =~= loud@);
    while i < n && !loud[i]
        invariant
            i <= n,
            n == loud@.len(),
            forall|j: int| 0 <= j < i ==> !loud@[j],
            first_set(loud@) == i + first_set(loud@.skip(i as int)),
        decreases n - i,
    {
        assert(loud@.skip(i as int).drop_first() =~= loud@.skip(i + 1));
        i = i + 1;
    }
    assert(first_set(loud@.skip(i as int)) == 0);
    i
}

/// The first window of the moving average that ends at window `i`.
pub fn outro_window_start(i: usize, window_len: usize) -> (r: usize)
    ensures
        r == if i >= window_len {
            i - window_len
        } else {
            0
        },
{
    i.saturating_sub(window_len)
}

/// The start of the outro: scanning back from the last window down to the
/// intro, the first window whose moving average is loud enough; the last
/// window where none is. `window_loud[i]` says whether the average over the
/// windows from `outro_window_start(i, ..)` to `i` reaches the threshold.
pub fn outro_index(window_loud: &[bool], intro: usize) -> (r: usize)
    ensures
        r == match last_set_from(window_loud@, intro as nat) {
            Some(i) => i,
            None => if window_loud@.len() == 0 {
                0
            } else {
                (window_loud@.len() - 1) as nat
            },
        },
        (exists|j: int| intro <= j < window_loud@.len() && window_loud@[j]) ==> {
            &&& intro <= r < window_loud@.len()
            &&& window_loud@[r as int]
            &&& forall|j: int| r < j < window_loud@.len() ==> !window_loud@[j]
        },
        !(exists|j: int| intro <= j < window_loud@.len() && window_loud@[j]) ==> r == if window_loud@.len()
            == 0 {
            0
        } else {
            (window_loud@.len() - 1) as nat
        },
{
    proof {
        lemma_last_set_from(window_loud@, intro as nat);
    }
    let n = window_loud.len();
    let mut i: usize = n;
    assert(window_loud@.take(n as int) =~= window_loud@);
    while i > intro
        invariant
            i <= n,
            n == window_loud@.len(),
            last_set_from(window_loud@, intro as nat) == last_set_from(
                window_loud@.take(i as int),
                intro as nat,
            ),
        decreases i,
    {
        let ghost t = window_loud@.take(i as int);
        assert(t.drop_last() =~= window_loud@.take(i - 1));
        if window_loud[i - 1] {
            proof {
                lemma_last_set_from(window_loud@, intro as nat);
            }
            return i - 1;
        }
        i = i - 1;
    }
    assert(last_set_from(window_loud@.take(i as int), intro as nat) is None);
    if n == 0 {
        0
    } else {
        n - 1
    }
}

/// The search from the end finds the last flag set at or after `from`: where
/// one is set, the index found is at or after `from`, its flag is set and no
/// later flag is; where none is found, no flag from `from` on is set.
pub proof fn lemma_last_set_from(flags: Seq<bool>, from: nat)
    ensures
        last_set_from(flags, from) matches Some(i) ==> {
            &&& from <= i < flags.len()
            &&& flags[i as int]
            &&& forall|j: int| i < j < flags.len() ==> !flags[j]
        },
        last_set_from(flags, from) is None ==> forall|j: int| from <= j < flags.len() ==> !flags[j],
    decreases flags.len(),
{
    if flags.len() > from && !flags.last() {
        lemma_last_set_from(flags.drop_last(), from);
        assert forall|j: int| from <= j < flags.len() - 1 implies flags.drop_last()[j] == flags[j] by {}
    }
}

/// The intro ends at the first loud window: every window before it is quiet,
/// and the window it names, where there is one, is loud.
pub proof fn lemma_first_set(flags: Seq<bool>)
    ensures
        first_set(flags) <= flags.len(),
        forall|j: int| 0 <= j < first_set(flags) ==> !flags[j],
        first_set(flags) < flags.len() ==> flags[first_set(flags) as int],
    decreases flags.len(),
{
    if flags.len() > 0 && !flags[0] {
        lemma_first_set(flags.drop_first());
        assert forall|j: int| 0 <= j < first_set(flags) implies !flags[j] by {
            if j > 0 {
                assert(flags.drop_first()[j - 1] == flags[j]);
            }
        }
    }
}

} // verus!
