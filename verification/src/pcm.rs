//! Layout of PCM sample buffers: splitting interleaved samples into one lane
//! per channel, joining lanes back, cutting processing windows out of lanes,
//! and feeding an output buffer from a play cursor.
//!
//! Everything here moves samples and never looks at their values, so it is
//! written for any sample type.
use vstd::prelude::*;

verus! {

/// How many samples of an interleaved buffer of `len` samples with `c`
/// channels belong to channel `ch`: the indices `f * c + ch` below `len`.
pub open spec fn lane_len(len: nat, c: nat, ch: nat) -> nat {
    if ch >= len {
        0
    } else {
        ((len - ch - 1) / (c as int) + 1) as nat
    }
}

/// Channel `ch` of the interleaved samples `s` with `c` channels, a partial
/// last frame included.
pub open spec fn lane<T>(s: Seq<T>, c: nat, ch: nat) -> Seq<T> {
    Seq::new(lane_len(s.len(), c, ch), |f: int| s[f * c + ch])
}

/// Channel `ch` of the interleaved samples `s` with `c` channels, whole frames only.
pub open spec fn frame_lane<T>(s: Seq<T>, c: nat, ch: nat) -> Seq<T> {
    Seq::new(s.len() / c, |f: int| s[f * c + ch])
}

/// The lanes of a planar buffer as sequences.
pub open spec fn planar_view<T>(p: Seq<Vec<T>>) -> Seq<Seq<T>> {
    p.map_values(|v: Vec<T>| v@)
}

/// Interleaves lanes: frame by frame, one sample of each channel in order,
/// for as many frames as the first lane holds.
pub open spec fn interleaved<T>(p: Seq<Seq<T>>) -> Seq<T> {
    let c = p.len();
    Seq::new(p[0].len() * c, |i: int| p[i % (c as int)][i / (c as int)])
}

/// Every lane is at least as long as the first.
pub open spec fn lanes_cover_first<T>(p: Seq<Seq<T>>) -> bool {
    p.len() > 0 && forall|ch: int| 0 <= ch < p.len() ==> (#[trigger] p[ch]).len() >= p[0].len()
}

/// Index `f * c + ch` belongs to channel `ch` and frame `f`.
pub proof fn lemma_frame_index(f: int, c: int, ch: int)
    requires
        0 <= ch < c,
        0 <= f,
    ensures
        (f * c + ch) / c == f,
        (f * c + ch) % c == ch,
{
    vstd::arithmetic::div_mod::lemma_fundamental_div_mod_converse(f * c + ch, c, f, ch);
}

/// The sample of channel `ch` in frame `f` exists exactly when `f` is below the lane's length.
pub proof fn lemma_lane_index(len: nat, c: nat, ch: nat, f: int)
    requires
        c > 0,
        ch < c,
        0 <= f,
    ensures
        f < lane_len(len, c, ch) <==> f * c + ch < len,
{
    if ch < len {
        let x = len - ch - 1;
        let q = x / (c as int);
        let r = x % (c as int);
        vstd::arithmetic::div_mod::lemma_fundamental_div_mod(x, c as int);
        assert(0 <= r < c);
        assert(x == q * c + r) by (nonlinear_arith)
            requires
                x == c * q + r,
        ;
        assert(q >= 0) by (nonlinear_arith)
            requires
                x >= 0,
                c > 0,
                x == q * c + r,
                r < c,
        ;
        assert(lane_len(len, c, ch) == q + 1);
        if f < q + 1 {
            assert(f * c <= q * c) by (nonlinear_arith)
                requires
                    f <= q,
                    c > 0,
            ;
            assert(f * c + ch < len);
        } else {
            assert(f * c >= q * c + c) by (nonlinear_arith)
                requires
                    f >= q + 1,
                    c > 0,
            ;
            assert(f * c + ch >= len);
        }
    } else {
        assert(f * c >= 0) by (nonlinear_arith)
            requires
                f >= 0,
                c > 0,
        ;
    }
}

/// Whole frames: the sample of channel `ch` in frame `f` lies inside the buffer.
pub proof fn lemma_frame_in_bounds(len: nat, c: nat, ch: nat, f: int)
    requires
        c > 0,
        ch < c,
        0 <= f < len / c,
    ensures
        f * c + ch < len,
{
    vstd::arithmetic::div_mod::lemma_fundamental_div_mod(len as int, c as int);
    assert(f * c + c <= (len / c) * c) by (nonlinear_arith)
        requires
            f + 1 <= len / c,
            c > 0,
    ;
}

/// Splits interleaved samples into one lane per channel; a partial last frame
/// gives its samples to the first channels.
pub fn deinterleave<T: Copy>(input: &[T], channels: usize) -> (planar: Vec<Vec<T>>)
    requires
        channels > 0,
    ensures
        planar@.len() == channels,
        forall|ch: int|
            0 <= ch < channels ==> (#[trigger] planar@[ch])@ == lane(
                input@,
                channels as nat,
                ch as nat,
            ),
{
    let len = input.len();
    let mut planar: Vec<Vec<T>> = Vec::new();
    for ch in 0..channels
        invariant
            len == input@.len(),
            channels > 0,
            planar@.len() == ch,
            forall|k: int|
                0 <= k < ch ==> (#[trigger] planar@[k])@ == lane(
                    input@,
                    channels as nat,
                    k as nat,
                ),
    {
        let count: usize = if ch >= len {
            0
        } else {
            (len - ch - 1) / channels + 1
        };
        assert(count == lane_len(len as nat, channels as nat, ch as nat));
        let mut v: Vec<T> = Vec::new();
        for f in 0..count
            invariant
                len == input@.len(),
                channels > 0,
                ch < channels,
                count == lane_len(len as nat, channels as nat, ch as nat),
                v@ =~= lane(input@, channels as nat, ch as nat).take(f as int),
        {
            proof {
                lemma_lane_index(len as nat, channels as nat, ch as nat, f as int);
            }
            assert(f * channels + ch < len) by (nonlinear_arith)
                requires
                    f * channels + ch < len,
            ;
            v.push(input[f * channels + ch]);
        }
        assert(v@ =~= lane(input@, channels as nat, ch as nat));
        planar.push(v);
    }
    planar
}

/// Splits interleaved samples into one lane per channel, whole frames only; a
/// partial last frame is dropped.
pub fn deinterleave_frames<T: Copy>(input: &[T], channels: usize) -> (planar: Vec<Vec<T>>)
    requires
        channels > 0,
    ensures
        planar@.len() == channels,
        forall|ch: int|
            0 <= ch < channels ==> (#[trigger] planar@[ch])@ == frame_lane(
                input@,
                channels as nat,
                ch as nat,
            ),
{
    let len = input.len();
    let frames = len / channels;
    let mut planar: Vec<Vec<T>> = Vec::new();
    for ch in 0..channels
        invariant
            len == input@.len(),
            channels > 0,
            frames == len / channels,
            planar@.len() == ch,
            forall|k: int|
                0 <= k < ch ==> (#[trigger] planar@[k])@ == frame_lane(
                    input@,
                    channels as nat,
                    k as nat,
                ),
    {
        let mut v: Vec<T> = Vec::new();
        for f in 0..frames
            invariant
                len == input@.len(),
                channels > 0,
                ch < channels,
                frames == len / channels,
                v@ =~= frame_lane(input@, channels as nat, ch as nat).take(f as int),
        {
            proof {
                lemma_frame_in_bounds(len as nat, channels as nat, ch as nat, f as int);
            }
            v.push(input[f * channels + ch]);
        }
        assert(v@ =~= frame_lane(input@, channels as nat, ch as nat));
        planar.push(v);
    }
    planar
}

/// Joins lanes into interleaved samples, for as many frames as the first lane holds.
pub fn interleave<T: Copy>(planar: &Vec<Vec<T>>) -> (out: Vec<T>)
    requires
        lanes_cover_first(planar_view(planar@)),
        planar@[0]@.len() * planar@.len() <= usize::MAX,
    ensures
        out@ == interleaved(planar_view(planar@)),
{
    let ghost p = planar_view(planar@);
    let channels = planar.len();
    let frames = planar[0].len();
    assert(forall|ch: int| 0 <= ch < channels ==> p[ch] == (#[trigger] planar@[ch])@);
    let mut out: Vec<T> = Vec::new();
    assert(0 * channels == 0) by (nonlinear_arith);
    for f in 0..frames
        invariant
            channels == planar@.len(),
            channels > 0,
            p == planar_view(planar@),
            lanes_cover_first(p),
            frames == p[0].len(),
            frames * channels <= usize::MAX,
            out@.len() == f * channels,
            forall|i: int| 0 <= i < out@.len() ==> out@[i] == #[trigger] p[i % (channels as int)][i / (channels as int)],
    {
        for ch in 0..channels
            invariant
                channels == planar@.len(),
                channels > 0,
                p == planar_view(planar@),
                lanes_cover_first(p),
                frames == p[0].len(),
                f < frames,
                frames * channels <= usize::MAX,
                out@.len() == f * channels + ch,
                forall|i: int| 0 <= i < out@.len() ==> out@[i] == #[trigger] p[i % (channels as int)][i / (channels as int)],
        {
            assert(f * channels + ch < frames * channels) by (nonlinear_arith)
                requires
                    f < frames,
                    ch < channels,
            ;
            proof {
                lemma_frame_index(f as int, channels as int, ch as int);
            }
            assert(planar@[ch as int]@ == p[ch as int]);
            out.push(planar[ch][f]);
        }
        assert((f + 1) * channels == f * channels + channels) by (nonlinear_arith);
    }
    assert(out@ =~= interleaved(p));
    out
}

/// Cuts the window `pos..pos + size` out of every lane.
pub fn lane_window<T: Copy>(planar: &Vec<Vec<T>>, pos: usize, size: usize) -> (w: Vec<Vec<T>>)
    requires
        forall|ch: int| 0 <= ch < planar@.len() ==> pos + size <= (#[trigger] planar@[ch])@.len(),
    ensures
        w@.len() == planar@.len(),
        forall|ch: int|
            0 <= ch < planar@.len() ==> (#[trigger] w@[ch])@ == planar@[ch]@.subrange(
                pos as int,
                pos + size,
            ),
{
    let mut w: Vec<Vec<T>> = Vec::new();
    for ch in 0..planar.len()
        invariant
            forall|c: int| 0 <= c < planar@.len() ==> pos + size <= (#[trigger] planar@[c])@.len(),
            w@.len() == ch,
            forall|c: int|
                0 <= c < ch ==> (#[trigger] w@[c])@ == planar@[c]@.subrange(pos as int, pos + size),
    {
        let lane_ref = &planar[ch];
        let n = lane_ref.len();
        let mut v: Vec<T> = Vec::new();
        for k in 0..size
            invariant
                n == lane_ref@.len(),
                pos + size <= lane_ref@.len(),
                v@ =~= lane_ref@.subrange(pos as int, pos + k),
        {
            v.push(lane_ref[pos + k]);
        }
        w.push(v);
    }
    w
}

/// Cuts everything from `pos` on out of every lane.
pub fn lane_tail<T: Copy>(planar: &Vec<Vec<T>>, pos: usize) -> (w: Vec<Vec<T>>)
    requires
        forall|ch: int| 0 <= ch < planar@.len() ==> pos <= (#[trigger] planar@[ch])@.len(),
    ensures
        w@.len() == planar@.len(),
        forall|ch: int|
            0 <= ch < planar@.len() ==> (#[trigger] w@[ch])@ == planar@[ch]@.subrange(
                pos as int,
                planar@[ch]@.len() as int,
            ),
{
    let mut w: Vec<Vec<T>> = Vec::new();
    for ch in 0..planar.len()
        invariant
            forall|c: int| 0 <= c < planar@.len() ==> pos <= (#[trigger] planar@[c])@.len(),
            w@.len() == ch,
            forall|c: int|
                0 <= c < ch ==> (#[trigger] w@[c])@ == planar@[c]@.subrange(
                    pos as int,
                    planar@[c]@.len() as int,
                ),
    {
        let lane_ref = &planar[ch];
        let n = lane_ref.len();
        let mut v: Vec<T> = Vec::new();
        for k in pos..n
            invariant
                pos <= n,
                n == lane_ref@.len(),
                v@ =~= lane_ref@.subrange(pos as int, k as int),
        {
            v.push(lane_ref[k]);
        }
        w.push(v);
    }
    w
}

/// How many samples an output buffer of `out_len` samples takes from a track
/// of `len` samples whose play cursor is at `pos`.
pub open spec fn fill_count(len: nat, pos: nat, out_len: nat) -> nat {
    let remaining = (len - pos) as nat;
    if remaining <= out_len {
        remaining
    } else {
        out_len
    }
}

/// Fills an output buffer from a track at play cursor `pos`: the next samples
/// of the track first, then `silence` past the end of the track. Gives the new
/// cursor.
pub fn fill_from<T: Copy>(out: &mut [T], samples: &[T], pos: usize, silence: T) -> (next: usize)
    requires
        pos <= samples@.len(),
    ensures
        next == pos + fill_count(samples@.len(), pos as nat, old(out)@.len()),
        final(out)@.len() == old(out)@.len(),
        final(out)@.subrange(0, (next - pos) as int) == samples@.subrange(pos as int, next as int),
        forall|i: int| next - pos <= i < final(out)@.len() ==> final(out)@[i] == silence,
{
    let remaining = samples.len() - pos;
    let to_copy = if remaining <= out.len() {
        remaining
    } else {
        out.len()
    };
    let n = out.len();
    let slen = samples.len();
    for k in 0..to_copy
        invariant
            slen == samples@.len(),
            to_copy <= n,
            n == out@.len(),
            pos + to_copy <= samples@.len(),
            forall|j: int| 0 <= j < k ==> out@[j] == samples@[pos + j],
    {
        out[k] = samples[pos + k];
    }
    for k in to_copy..n
        invariant
            slen == samples@.len(),
            pos + to_copy <= samples@.len(),
            to_copy <= n,
            n == out@.len(),
            forall|j: int| 0 <= j < to_copy ==> out@[j] == samples@[pos + j],
            forall|j: int| to_copy <= j < k ==> out@[j] == silence,
    {
        out[k] = silence;
    }
    assert(out@.subrange(0, to_copy as int) =~= samples@.subrange(
        pos as int,
        (pos + to_copy) as int,
    ));
    pos + to_copy
}

/// Splitting whole frames into lanes and joining them back gives the whole
/// frames of the original samples.
pub proof fn lemma_frames_round_trip<T>(s: Seq<T>, c: nat)
    requires
        c > 0,
    ensures
        interleaved(Seq::new(c, |ch: int| frame_lane(s, c, ch as nat))) == s.take(
            ((s.len() / c) * c) as int,
        ),
{
    let p = Seq::new(c, |ch: int| frame_lane(s, c, ch as nat));
    let frames = s.len() / c;
    assert(p[0].len() == frames);
    vstd::arithmetic::div_mod::lemma_fundamental_div_mod(s.len() as int, c as int);
    assert((frames * c) <= s.len()) by (nonlinear_arith)
        requires
            s.len() == c * frames + s.len() % c,
    ;
    assert forall|i: int| 0 <= i < frames * c implies #[trigger] interleaved(p)[i] == s[i] by {
        let f = i / (c as int);
        let ch = i % (c as int);
        vstd::arithmetic::div_mod::lemma_fundamental_div_mod(i, c as int);
        assert(0 <= ch < c);
        assert(f * c + ch == i) by (nonlinear_arith)
            requires
                i == c * f + ch,
        ;
        assert(f < frames) by (nonlinear_arith)
            requires
                f * c + ch < frames * c,
                0 <= ch,
                c > 0,
        ;
        assert(p[ch][f] == s[f * c + ch]);
    }
    assert(interleaved(p) =~= s.take((frames * c) as int));
}

/// For a buffer of whole frames, splitting into lanes (partial frames kept)
/// and joining back gives the buffer unchanged.
pub proof fn lemma_lanes_round_trip<T>(s: Seq<T>, c: nat)
    requires
        c > 0,
        s.len() % c == 0,
    ensures
        interleaved(Seq::new(c, |ch: int| lane(s, c, ch as nat))) == s,
{
    let p = Seq::new(c, |ch: int| lane(s, c, ch as nat));
    let frames = s.len() / c;
    vstd::arithmetic::div_mod::lemma_fundamental_div_mod(s.len() as int, c as int);
    assert(s.len() == frames * c) by (nonlinear_arith)
        requires
            s.len() == c * frames + 0,
    ;
    // The first lane holds exactly one sample per frame.
    assert(p[0].len() == frames) by {
        if frames > 0 {
            lemma_lane_index(s.len(), c, 0, frames - 1);
            assert((frames - 1) * c + 0 < s.len()) by (nonlinear_arith)
                requires
                    s.len() == frames * c,
                    frames > 0,
                    c > 0,
            ;
        }
        lemma_lane_index(s.len(), c, 0, frames as int);
    }
    assert forall|i: int| 0 <= i < s.len() implies #[trigger] interleaved(p)[i] == s[i] by {
        let f = i / (c as int);
        let ch = i % (c as int);
        vstd::arithmetic::div_mod::lemma_fundamental_div_mod(i, c as int);
        assert(f * c + ch == i) by (nonlinear_arith)
            requires
                i == c * f + ch,
        ;
        assert(f >= 0) by (nonlinear_arith)
            requires
                i >= 0,
                c > 0,
                f == i / (c as int),
        ;
        lemma_lane_index(s.len(), c, ch as nat, f);
        assert(p[ch][f] == s[f * c + ch]);
    }
    assert(interleaved(p) =~= s);
}

/// Two fills in a row take the track's samples in order, without gap or repeat:
/// the second starts where the first ended.
pub proof fn lemma_fills_continue(len: nat, pos: nat, a: nat, b: nat)
    requires
        pos <= len,
    ensures
        pos + fill_count(len, pos, a) <= len,
        fill_count(len, pos + fill_count(len, pos, a), b) + fill_count(len, pos, a) == fill_count(
            len,
            pos,
            a + b,
        ),
{
}

} // verus!
