//! The layout of a crossfade between two tracks: which sample of which
//! track each output sample is made of.
//!
//! The output is track A alone up to the start of the crossfade, then a
//! stretch where frames of A and of B are blended, then the rest of B alone.
//! The blend weights and gains are computed by the caller from the frame
//! numbers given here.
use vstd::prelude::*;

verus! {

/// Mixes two tracks into one with a crossfade.
pub struct Mixer;

/// Where the samples of a crossfade come from.
#[derive(Debug, Clone, Copy, PartialEq, Eq, Structural)]
pub struct MixLayout {
    /// Output samples before the crossfade, all from track A.
    pub start_a: usize,
    /// Frames in the crossfade.
    pub frame_count: usize,
    /// Samples per frame.
    pub channels: usize,
    /// Samples of track B.
    pub len_b: usize,
}

/// What one output sample is made of.
#[derive(Debug, Clone, Copy, PartialEq, Eq, Structural)]
pub enum MixSource {
    /// Sample `0` of track A, alone.
    SoloA(usize),
    /// A blend of sample `a` of track A and sample `b` of track B (or silence
    /// where B is too short), in crossfade frame `frame`.
    Blend { frame: usize, a: usize, b: Option<usize> },
    /// Sample `0` of track B, alone.
    SoloB(usize),
}

/// Samples of the crossfade.
pub open spec fn overlap_len(l: MixLayout) -> nat {
    (l.frame_count * l.channels) as nat
}

/// Samples of the whole output.
pub open spec fn output_len_spec(l: MixLayout) -> nat {
    let tail: nat = if l.len_b > overlap_len(l) {
        (l.len_b - overlap_len(l)) as nat
    } else {
        0
    };
    (l.start_a + overlap_len(l) + tail) as nat
}

/// What output sample `k` is made of.
pub open spec fn source_spec(l: MixLayout, k: nat) -> MixSource {
    if k < l.start_a {
        MixSource::SoloA(k as usize)
    } else if k < l.start_a + overlap_len(l) {
        let j = (k - l.start_a) as nat;
        MixSource::Blend {
            frame: (j / (l.channels as nat)) as usize,
            a: k as usize,
            b: if j < l.len_b {
                Some(j as usize)
            } else {
                None
            },
        }
    } else {
        MixSource::SoloB((k - l.start_a) as usize)
    }
}

/// The layout that mixing two tracks of `len_a` and `len_b` samples gives, with
/// the crossfade asked to start at sample `start` of A and last `fade` samples.
pub open spec fn layout_spec(len_a: nat, len_b: nat, start: nat, fade: nat, channels: nat) -> MixLayout {
    let start_a: nat = if start <= len_a {
        start
    } else {
        len_a
    };
    let room = (len_a - start_a) as nat;
    let fade_a: nat = if fade <= room {
        fade
    } else {
        room
    };
    MixLayout {
        start_a: start_a as usize,
        frame_count: (fade_a / channels) as usize,
        channels: channels as usize,
        len_b: len_b as usize,
    }
}

/// A layout fits track A: the crossfade ends inside it.
pub open spec fn fits(l: MixLayout, len_a: nat) -> bool {
    &&& l.channels > 0
    &&& l.start_a + overlap_len(l) <= len_a
    &&& output_len_spec(l) <= usize::MAX
}

impl Mixer {
    /// Places the crossfade: it starts at sample `start` of A but not past its
    /// end, lasts `fade` samples but not past the end of A, and is cut to whole
    /// frames of `channels` samples.
    pub fn layout(len_a: usize, len_b: usize, start: usize, fade: usize, channels: usize) -> (l:
        MixLayout)
        requires
            channels > 0,
            len_a + len_b <= usize::MAX,
        ensures
            l == layout_spec(len_a as nat, len_b as nat, start as nat, fade as nat, channels as nat),
            fits(l, len_a as nat),
    {
        let start_a = if start <= len_a {
            start
        } else {
            len_a
        };
        let room = len_a - start_a;
        let fade_a = if fade <= room {
            fade
        } else {
            room
        };
        let frame_count = fade_a / channels;
        proof {
            vstd::arithmetic::div_mod::lemma_fundamental_div_mod(fade_a as int, channels as int);
            assert(frame_count * channels <= fade_a) by (nonlinear_arith)
                requires
                    fade_a == channels * frame_count + fade_a % channels,
            ;
        }
        MixLayout { start_a, frame_count, channels, len_b }
    }
}

impl MixLayout {
    /// How many samples the mix holds.
    pub fn output_len(&self) -> (n: usize)
        requires
            output_len_spec(*self) <= usize::MAX,
            overlap_len(*self) <= usize::MAX,
        ensures
            n == output_len_spec(*self),
    {
        let overlap = self.frame_count * self.channels;
        let tail = if self.len_b > overlap {
            self.len_b - overlap
        } else {
            0
        };
        self.start_a + overlap + tail
    }

    /// What output sample `k` is made of.
    pub fn source(&self, k: usize) -> (s: MixSource)
        requires
            self.channels > 0,
            self.start_a + overlap_len(*self) <= usize::MAX,
        ensures
            s == source_spec(*self, k as nat),
            s matches MixSource::Blend { frame, a, b } ==> {
                &&& self.start_a <= k < self.start_a + overlap_len(*self)
                &&& frame * self.channels <= k - self.start_a < (frame + 1) * self.channels
                &&& frame < self.frame_count
                &&& a == k
            },
    {
        proof {
            if self.start_a <= k < self.start_a + overlap_len(*self) {
                lemma_blend_frame_span(*self, k as nat);
            }
        }
        let overlap = self.frame_count * self.channels;
        if k < self.start_a {
            MixSource::SoloA(k)
        } else if k < self.start_a + overlap {
            let j = k - self.start_a;
            let b = if j < self.len_b {
                Some(j)
            } else {
                None
            };
            MixSource::Blend { frame: j / self.channels, a: k, b }
        } else {
            MixSource::SoloB(k - self.start_a)
        }
    }
}

/// Track A plays from its first sample, in order, until the crossfade ends,
/// and every sample taken from it lies inside it.
pub proof fn lemma_track_a_in_order(l: MixLayout, len_a: nat, k: nat)
    requires
        fits(l, len_a),
        k < l.start_a + overlap_len(l),
    ensures
        source_spec(l, k) matches MixSource::SoloA(i) ==> i == k && i < len_a,
        source_spec(l, k) matches MixSource::Blend { a, .. } ==> a == k && a < len_a,
        !(source_spec(l, k) is SoloB),
{
}

/// Track B plays from its first sample, in order and to its end, from the
/// start of the crossfade on: output sample `k` takes sample `k - start_a` of B
/// wherever B has it.
pub proof fn lemma_track_b_in_order(l: MixLayout, k: nat)
    requires
        l.start_a <= k < output_len_spec(l),
    ensures
        source_spec(l, k) matches MixSource::Blend { b, .. } ==> (b == if k - l.start_a < l.len_b {
            Some((k - l.start_a) as usize)
        } else {
            None::<usize>
        }),
        source_spec(l, k) matches MixSource::SoloB(i) ==> i == k - l.start_a && i < l.len_b,
        !(source_spec(l, k) is SoloA),
{
}

/// The mix lasts until the later of the two ends: the end of the crossfade
/// and the end of track B.
pub proof fn lemma_output_len(l: MixLayout)
    ensures
        output_len_spec(l) == l.start_a + if l.len_b > overlap_len(l) {
            l.len_b as nat
        } else {
            overlap_len(l)
        },
{
}

/// A crossfade frame holds one sample of each channel: the blend at output
/// sample `k` belongs to frame `(k - start_a) / channels`, below the frame count.
pub proof fn lemma_blend_frames(l: MixLayout, k: nat)
    requires
        l.channels > 0,
        l.start_a <= k < l.start_a + overlap_len(l),
    ensures
        source_spec(l, k) matches MixSource::Blend { frame, .. } ==> frame < l.frame_count,
{
    let j = (k - l.start_a) as int;
    assert(j / (l.channels as int) < l.frame_count) by (nonlinear_arith)
        requires
            0 <= j < l.frame_count * l.channels,
            l.channels > 0,
    ;
}

/// Every output sample of the crossfade is a blend, and the frame it belongs
/// to is the run of `channels` samples that takes in `k - start_a`: frames
/// number the crossfade's samples in order, one frame every `channels`
/// samples, from frame 0 at `start_a` on.
pub proof fn lemma_blend_frame_span(l: MixLayout, k: nat)
    requires
        l.channels > 0,
        l.start_a <= k < l.start_a + overlap_len(l),
    ensures
        source_spec(l, k) is Blend,
        source_spec(l, k) matches MixSource::Blend { frame, .. } ==> {
            &&& frame * l.channels <= k - l.start_a < (frame + 1) * l.channels
            &&& frame < l.frame_count
        },
{
    let j = (k - l.start_a) as int;
    let c = l.channels as int;
    let f = j / c;
    assert(f < l.frame_count) by (nonlinear_arith)
        requires
            0 <= j < l.frame_count * c,
            c > 0,
            f == j / c,
    ;
    assert(f * c <= j < (f + 1) * c) by (nonlinear_arith)
        requires
            0 <= j,
            c > 0,
            f == j / c,
    ;
}

} // verus!
