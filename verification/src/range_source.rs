//! A byte source over HTTP range requests: the bookkeeping of position,
//! buffered window and total size, and the decisions of when to fetch.
//!
//! The network requests themselves are made by the caller: [`HttpRangeSource::read_step`]
//! says which byte range to ask for, and [`HttpRangeSource::accept_chunk`] takes
//! the server's answer.
use crate::decimal::{append_decimal, decimal_chars, parse_u64, parse_u64_spec};
use vstd::prelude::*;
use vstd::string::StringSliceAdditionalSpecFns;

verus! {

/// Size of the first range asked for when the source is opened.
pub const INITIAL_CHUNK_SIZE: u64 = 262144;

/// Size of each later range asked for.
pub const DEFAULT_CHUNK_SIZE: u64 = 262144;

/// The HTTP status of a successful range request.
pub const PARTIAL_CONTENT: u16 = 206;

/// Why a range source could not be opened or refilled.
#[derive(Debug, PartialEq, Eq, Structural)]
pub enum StreamError {
    /// The server answered with a status other than 206 Partial Content.
    BadStatus(u16),
    /// The answer had no `Content-Range` header.
    MissingTotalSize,
    /// The total size in `Content-Range` is not a number.
    InvalidTotalSize,
}

/// Where a seek is measured from, as `std::io::SeekFrom`.
#[derive(Debug, Clone, Copy, PartialEq, Eq, Structural)]
pub enum SeekTarget {
    Start(u64),
    End(i64),
    Current(i64),
}

/// A seek that would land before the first byte.
#[derive(Debug, PartialEq, Eq, Structural)]
pub enum SeekError {
    NegativePosition,
}

/// What a read has to do next.
#[derive(Debug, PartialEq, Eq, Structural)]
pub enum ReadStep {
    /// The position is at or past the end: a read gives 0 bytes.
    EndOfStream,
    /// The bytes `start..=end` have to be fetched first.
    Fetch { start: u64, end: u64 },
    /// The buffered window holds the position: a read can copy right away.
    Ready,
}

/// The model of a range source.
pub ghost struct RangeView {
    pub url: Seq<char>,
    pub total_size: nat,
    pub pos: nat,
    pub buffer: Seq<u8>,
    pub buffer_start: nat,
    pub chunk_size: nat,
}

/// A seekable byte source whose bytes come from HTTP range requests.
pub struct HttpRangeSource {
    url: String,
    total_size: u64,
    pos: u64,
    buffer: Vec<u8>,
    buffer_start: u64,
    chunk_size: u64,
}

impl View for HttpRangeSource {
    type V = RangeView;

    closed spec fn view(&self) -> RangeView {
        RangeView {
            url: self.url@,
            total_size: self.total_size as nat,
            pos: self.pos as nat,
            buffer: self.buffer@,
            buffer_start: self.buffer_start as nat,
            chunk_size: self.chunk_size as nat,
        }
    }
}

/// The bytes of `s` after its last `/`, or all of `s` where it has none;
/// what `str::rsplit('/').next()` gives.
pub open spec fn after_last_slash(s: Seq<u8>) -> Seq<u8>
    decreases s.len(),
{
    if s.len() == 0 {
        s
    } else if s.last() == 0x2f {
        Seq::empty()
    } else {
        after_last_slash(s.drop_last()).push(s.last())
    }
}

/// The total size that a `Content-Range` header value reports, or the error.
pub open spec fn total_size_spec(header: Option<Seq<u8>>) -> Result<u64, StreamError> {
    match header {
        None => Err(StreamError::MissingTotalSize),
        Some(v) => match parse_u64_spec(after_last_slash(v)) {
            Some(n) => Ok(n),
            None => Err(StreamError::InvalidTotalSize),
        },
    }
}

/// `x` read as a signed 64-bit number, as `x as i64` does.
pub open spec fn wrap_i64(x: nat) -> int {
    if x <= i64::MAX {
        x as int
    } else {
        x - 0x1_0000_0000_0000_0000
    }
}

/// The position that a seek aims at, before the check for a negative result.
pub open spec fn seek_aim(v: RangeView, target: SeekTarget) -> int {
    match target {
        SeekTarget::Start(p) => wrap_i64(p as nat),
        SeekTarget::End(o) => wrap_i64(v.total_size) + o,
        SeekTarget::Current(o) => wrap_i64(v.pos) + o,
    }
}

/// Whether the position lies inside the buffered window.
pub open spec fn has_data(v: RangeView) -> bool {
    v.buffer_start <= v.pos < v.buffer_start + v.buffer.len()
}

/// The last byte of the range fetched from the position: a chunk's worth,
/// but not past the end of the resource.
pub open spec fn fetch_end(v: RangeView) -> nat {
    let last: nat = if v.total_size == 0 {
        0
    } else {
        (v.total_size - 1) as nat
    };
    if v.pos + v.chunk_size - 1 <= last {
        (v.pos + v.chunk_size - 1) as nat
    } else {
        last
    }
}

/// What a read has to do next in state `v`.
pub open spec fn read_step_spec(v: RangeView) -> ReadStep {
    if v.pos >= v.total_size {
        ReadStep::EndOfStream
    } else if has_data(v) {
        ReadStep::Ready
    } else {
        ReadStep::Fetch {
            start: v.pos as u64,
            end: fetch_end(v) as u64,
        }
    }
}

/// Whether a read can copy from the buffer in state `v` without fetching.
pub open spec fn can_read(v: RangeView) -> bool {
    v.pos >= v.total_size || v.buffer_start <= v.pos <= v.buffer_start + v.buffer.len()
}

/// How many bytes a read into a buffer of `len` bytes gives in state `v`.
pub open spec fn read_count(v: RangeView, len: nat) -> nat {
    if v.pos >= v.total_size {
        0
    } else {
        let available = (v.buffer_start + v.buffer.len() - v.pos) as nat;
        if available <= len {
            available
        } else {
            len
        }
    }
}

/// The bytes that a read into a buffer of `len` bytes gives in state `v`.
pub open spec fn read_bytes(v: RangeView, len: nat) -> Seq<u8> {
    if v.pos >= v.total_size {
        Seq::empty()
    } else {
        let offset = v.pos - v.buffer_start;
        v.buffer.subrange(offset, offset + read_count(v, len))
    }
}

/// The buffered window holds the bytes of `content` at its place, and the
/// total size is the length of `content`.
pub open spec fn holds_content(v: RangeView, content: Seq<u8>) -> bool {
    &&& v.total_size == content.len()
    &&& v.buffer_start + v.buffer.len() <= content.len()
    &&& v.buffer == content.subrange(v.buffer_start as int, (v.buffer_start + v.buffer.len()) as int)
}

/// Reads the total size from a `Content-Range` header value such as
/// `bytes 0-262143/5000000`: the number after the last `/`.
pub fn total_size_from_content_range(header: Option<&str>) -> (r: Result<u64, StreamError>)
    ensures
        r == total_size_spec(
            match header {
                Some(h) => Some(h.spec_bytes()),
                None => None,
            },
        ),
{
    match header {
        None => Err(StreamError::MissingTotalSize),
        Some(h) => {
            let bytes = h.as_bytes();
            let seg = last_segment(bytes);
            match parse_u64(seg.as_slice()) {
                Some(n) => Ok(n),
                None => Err(StreamError::InvalidTotalSize),
            }
        },
    }
}

/// Checks the status of an answer to a range request: only 206 Partial
/// Content will do.
pub fn check_status(status: u16) -> (r: Result<(), StreamError>)
    ensures
        status == PARTIAL_CONTENT ==> r is Ok,
        status != PARTIAL_CONTENT ==> r == Err::<(), StreamError>(StreamError::BadStatus(status)),
{
    if status == PARTIAL_CONTENT {
        Ok(())
    } else {
        Err(StreamError::BadStatus(status))
    }
}

/// What the answer to the first range request says of the resource: an
/// error where its status is not 206, else its total size.
pub fn opening_total_size(status: u16, content_range: Option<&str>) -> (r: Result<u64, StreamError>)
    ensures
        status != PARTIAL_CONTENT ==> r == Err::<u64, StreamError>(StreamError::BadStatus(status)),
        status == PARTIAL_CONTENT ==> r == total_size_spec(
            match content_range {
                Some(h) => Some(h.spec_bytes()),
                None => None,
            },
        ),
{
    match check_status(status) {
        Err(e) => Err(e),
        Ok(()) => total_size_from_content_range(content_range),
    }
}

/// The bytes after the last `/`.
fn last_segment(s: &[u8]) -> (r: Vec<u8>)
    ensures
        r@ == after_last_slash(s@),
{
    let n = s.len();
    let mut k: usize = n;
    assert(s@.take(n as int) =~= s@);
    assert(s@.subrange(n as int, n as int) =~= Seq::<u8>::empty());
    // Walk back to just after the last slash.
    while k > 0 && s[k - 1] != 0x2f
        invariant
            k <= n,
            n == s@.len(),
            after_last_slash(s@) == after_last_slash(s@.take(k as int)) + s@.subrange(
                k as int,
                n as int,
            ),
        decreases k,
    {
        let ghost t = s@.take(k as int);
        assert(t.drop_last() =~= s@.take(k - 1));
        assert(s@.subrange(k - 1, n as int) =~= seq![s@[k - 1]] + s@.subrange(k as int, n as int));
        assert(after_last_slash(t) == after_last_slash(t.drop_last()).push(t.last()));
        k = k - 1;
        assert(after_last_slash(s@) =~= after_last_slash(s@.take(k as int)) + s@.subrange(
            k as int,
            n as int,
        ));
    }
    assert(after_last_slash(s@.take(k as int)) =~= Seq::<u8>::empty());
    let mut r: Vec<u8> = Vec::new();
    let mut j: usize = k;
    while j < n
        invariant
            k <= j <= n,
            n == s@.len(),
            r@ == s@.subrange(k as int, j as int),
        decreases n - j,
    {
        r.push(s[j]);
        j = j + 1;
        assert(r@ =~= s@.subrange(k as int, j as int));
    }
    assert(after_last_slash(s@) =~= r@);
    r
}

/// The value of the `Range` header that asks for the bytes `start..=end`.
pub fn range_header(start: u64, end: u64) -> (r: String)
    ensures
        r@ == "bytes="@ + decimal_chars(start as nat) + "-"@ + decimal_chars(end as nat),
{
    let mut r = String::new();
    r.append("bytes=");
    append_decimal(&mut r, start);
    r.append("-");
    append_decimal(&mut r, end);
    assert(r@ =~= "bytes="@ + decimal_chars(start as nat) + "-"@ + decimal_chars(end as nat));
    r
}

impl HttpRangeSource {
    #[verifier::type_invariant]
    closed spec fn inv(&self) -> bool {
        &&& self.buffer_start + self.buffer@.len() <= u64::MAX
        &&& self.chunk_size >= 1
    }

    /// The range that opening a source asks for first.
    pub fn initial_range() -> (r: (u64, u64))
        ensures
            r == (0u64, (INITIAL_CHUNK_SIZE - 1) as u64),
    {
        (0, INITIAL_CHUNK_SIZE - 1)
    }

    /// Opens a source over `url` whose resource has `total_size` bytes, with
    /// `body`, the answer to the first range request, as its buffered window.
    pub fn new(url: String, total_size: u64, body: Vec<u8>) -> (s: Self)
        ensures
            s@ == (RangeView {
                url: url@,
                total_size: total_size as nat,
                pos: 0,
                buffer: body@,
                buffer_start: 0,
                chunk_size: DEFAULT_CHUNK_SIZE as nat,
            }),
    {
        let blen = body.len();
        assert(blen as nat == body@.len());
        HttpRangeSource {
            url,
            total_size,
            pos: 0,
            buffer: body,
            buffer_start: 0,
            chunk_size: DEFAULT_CHUNK_SIZE,
        }
    }

    /// The address the bytes come from.
    pub fn url(&self) -> (r: &String)
        ensures
            r@ == self@.url,
    {
        &self.url
    }

    /// The position of the next read.
    pub fn position(&self) -> (r: u64)
        ensures
            r == self@.pos,
    {
        self.pos
    }

    /// Whether the source can seek: always.
    pub fn is_seekable(&self) -> (r: bool)
        ensures
            r,
    {
        true
    }

    /// The total length of the resource in bytes.
    pub fn byte_len(&self) -> (r: Option<u64>)
        ensures
            r == Some(self@.total_size as u64),
    {
        Some(self.total_size)
    }

    /// The range to fetch so that the position lies in the buffer, or `None`
    /// where it does already.
    pub fn ensure_buffered(&self) -> (r: Option<(u64, u64)>)
        requires
            !has_data(self@) ==> self@.pos + self@.chunk_size <= u64::MAX,
        ensures
            has_data(self@) ==> r is None,
            !has_data(self@) ==> r == Some((self@.pos as u64, fetch_end(self@) as u64)),
    {
        proof {
            use_type_invariant(self);
        }
        let have_data = self.pos >= self.buffer_start && self.pos < self.buffer_start
            + self.buffer.len() as u64;
        if have_data {
            return None;
        }
        let last = self.total_size.saturating_sub(1);
        let want = self.pos + self.chunk_size - 1;
        let end = if want <= last {
            want
        } else {
            last
        };
        Some((self.pos, end))
    }

    /// What a read has to do next: stop at the end, fetch a range, or copy.
    pub fn read_step(&self) -> (r: ReadStep)
        requires
            !has_data(self@) && self@.pos < self@.total_size ==> self@.pos + self@.chunk_size
                <= u64::MAX,
        ensures
            r == read_step_spec(self@),
    {
        if self.pos >= self.total_size {
            return ReadStep::EndOfStream;
        }
        match self.ensure_buffered() {
            None => ReadStep::Ready,
            Some((start, end)) => ReadStep::Fetch { start, end },
        }
    }

    /// Takes the body of a successful answer to the range request made at the
    /// current position: it becomes the buffered window.
    pub fn accept_chunk(&mut self, body: Vec<u8>)
        requires
            old(self)@.pos + body@.len() <= u64::MAX,
        ensures
            final(self)@ == (RangeView {
                buffer: body@,
                buffer_start: old(self)@.pos,
                ..old(self)@
            }),
    {
        proof {
            use_type_invariant(&*self);
        }
        self.buffer = Vec::new();
        self.buffer_start = self.pos;
        self.buffer = body;
    }

    /// Whether asking what to read next would overflow: a fetch is due at a
    /// position less than a chunk below the largest 64-bit number.
    pub fn fetch_overflows(&self) -> (r: bool)
        ensures
            r == (!has_data(self@) && self@.pos < self@.total_size && self@.pos + self@.chunk_size
                > u64::MAX),
    {
        proof {
            use_type_invariant(self);
        }
        let have_data = self.pos >= self.buffer_start && self.pos < self.buffer_start
            + self.buffer.len() as u64;
        !have_data && self.pos < self.total_size && self.pos > u64::MAX - self.chunk_size
    }

    /// Whether a seek to `target` would overflow a signed 64-bit position.
    pub fn seek_overflows(&self, target: SeekTarget) -> (r: bool)
        ensures
            r == !(i64::MIN <= seek_aim(self@, target) <= i64::MAX),
    {
        let aim: i128 = match target {
            SeekTarget::Start(p) => signed_of(p),
            SeekTarget::End(o) => signed_of(self.total_size) + o as i128,
            SeekTarget::Current(o) => signed_of(self.pos) + o as i128,
        };
        aim < i64::MIN as i128 || aim > i64::MAX as i128
    }

    /// Copies buffered bytes at the position into `buf` and moves past them.
    /// Gives 0 at the end of the resource.
    pub fn read(&mut self, buf: &mut [u8]) -> (n: usize)
        requires
            can_read(old(self)@),
        ensures
            n == read_count(old(self)@, old(buf)@.len()),
            final(buf)@.len() == old(buf)@.len(),
            final(buf)@.subrange(0, n as int) == read_bytes(old(self)@, old(buf)@.len()),
            final(buf)@.subrange(n as int, old(buf)@.len() as int) == old(buf)@.subrange(
                n as int,
                old(buf)@.len() as int,
            ),
            final(self)@ == (RangeView { pos: (old(self)@.pos + n) as nat, ..old(self)@ }),
    {
        proof {
            use_type_invariant(&*self);
        }
        if self.pos >= self.total_size {
            assert(final(buf)@.subrange(0, 0) =~= read_bytes(old(self)@, old(buf)@.len()));
            return 0;
        }
        let blen = self.buffer.len();
        assert(blen as nat == self.buffer@.len());
        let offset = (self.pos - self.buffer_start) as usize;
        let available = blen - offset;
        let to_copy = if available <= buf.len() {
            available
        } else {
            buf.len()
        };
        let ghost buf0 = buf@;
        let mut k: usize = 0;
        while k < to_copy
            invariant
                k <= to_copy,
                to_copy <= buf@.len(),
                offset + to_copy <= blen,
                blen == self.buffer@.len(),
                buf@.len() == buf0.len(),
                forall|j: int| 0 <= j < k ==> buf@[j] == self.buffer@[offset + j],
                forall|j: int| k <= j < buf@.len() ==> buf@[j] == buf0[j],
            decreases to_copy - k,
        {
            buf[k] = self.buffer[offset + k];
            k = k + 1;
        }
        self.pos = self.pos + to_copy as u64;
        assert(buf@.subrange(0, to_copy as int) =~= read_bytes(old(self)@, buf0.len()));
        assert(buf@.subrange(to_copy as int, buf0.len() as int) =~= buf0.subrange(
            to_copy as int,
            buf0.len() as int,
        ));
        to_copy
    }

    /// Moves the position as `std::io::Seek::seek` does and gives the new position.
    pub fn seek(&mut self, target: SeekTarget) -> (r: Result<u64, SeekError>)
        requires
            i64::MIN <= seek_aim(old(self)@, target) <= i64::MAX,
        ensures
            seek_aim(old(self)@, target) < 0 ==> r == Err::<u64, SeekError>(
                SeekError::NegativePosition,
            ) && final(self)@ == old(self)@,
            seek_aim(old(self)@, target) >= 0 ==> r == Ok::<u64, SeekError>(
                seek_aim(old(self)@, target) as u64,
            ) && final(self)@ == (RangeView {
                pos: seek_aim(old(self)@, target) as nat,
                ..old(self)@
            }),
            final(self)@.total_size == old(self)@.total_size,
            target matches SeekTarget::Start(p) ==> (p <= i64::MAX ==> r == Ok::<u64, SeekError>(p)
                && final(self)@.pos == p),
            target matches SeekTarget::Start(p) ==> (p > i64::MAX ==> r == Err::<u64, SeekError>(
                SeekError::NegativePosition,
            )),
            target matches SeekTarget::End(o) ==> (old(self)@.total_size <= i64::MAX
                && old(self)@.total_size + o >= 0 ==> r == Ok::<u64, SeekError>(
                (old(self)@.total_size + o) as u64,
            ) && final(self)@.pos == old(self)@.total_size + o),
            target matches SeekTarget::Current(o) ==> (old(self)@.pos <= i64::MAX && old(self)@.pos
                + o >= 0 ==> r == Ok::<u64, SeekError>((old(self)@.pos + o) as u64)
                && final(self)@.pos == old(self)@.pos + o),
            r is Err ==> final(self)@ == old(self)@,
    {
        proof {
            use_type_invariant(&*self);
            lemma_seek_lands(old(self)@, target);
        }
        let aim: i128 = match target {
            SeekTarget::Start(p) => signed_of(p),
            SeekTarget::End(o) => signed_of(self.total_size) + o as i128,
            SeekTarget::Current(o) => signed_of(self.pos) + o as i128,
        };
        if aim < 0 {
            return Err(SeekError::NegativePosition);
        }
        self.pos = aim as u64;
        Ok(self.pos)
    }
}

/// `x` read as a signed 64-bit number.
fn signed_of(x: u64) -> (r: i128)
    ensures
        r == wrap_i64(x as nat),
{
    if x <= i64::MAX as u64 {
        x as i128
    } else {
        x as i128 - 0x1_0000_0000_0000_0000i128
    }
}

/// Reads give back the resource: where the buffered window holds the bytes of
/// `content`, a read gives the bytes of `content` at the position.
pub proof fn lemma_read_gives_content(v: RangeView, content: Seq<u8>, len: nat)
    requires
        holds_content(v, content),
        can_read(v),
    ensures
        v.pos < v.total_size ==> read_bytes(v, len) == content.subrange(
            v.pos as int,
            (v.pos + read_count(v, len)) as int,
        ),
        v.pos >= v.total_size ==> read_bytes(v, len) == Seq::<u8>::empty(),
{
    if v.pos < v.total_size {
        assert(read_bytes(v, len) =~= content.subrange(
            v.pos as int,
            (v.pos + read_count(v, len)) as int,
        ));
    }
}

/// A chunk that holds the bytes of `content` from the position on keeps the
/// source faithful to `content`, and lets the next read copy right away.
pub proof fn lemma_accepted_chunk_holds_content(v: RangeView, content: Seq<u8>, body: Seq<u8>)
    requires
        v.total_size == content.len(),
        v.pos + body.len() <= content.len(),
        body == content.subrange(v.pos as int, (v.pos + body.len()) as int),
    ensures
        holds_content((RangeView { buffer: body, buffer_start: v.pos, ..v }), content),
        can_read((RangeView { buffer: body, buffer_start: v.pos, ..v })),
{
}

/// Two seeks from the current position add up: seeking by `a` and then by
/// `b` lands where seeking by `a + b` does.
pub proof fn lemma_seek_current_adds(v: RangeView, a: i64, b: i64)
    requires
        v.pos <= i64::MAX,
        0 <= v.pos + a <= i64::MAX,
        0 <= v.pos + a + b <= i64::MAX,
    ensures
        seek_aim(v, SeekTarget::Current(a)) == v.pos + a,
        seek_aim((RangeView { pos: (v.pos + a) as nat, ..v }), SeekTarget::Current(b)) == v.pos + a
            + b,
{
}

/// A read moves the position by exactly the number of bytes it gives, and
/// never past the end of the buffered window.
pub proof fn lemma_read_advances(v: RangeView, len: nat)
    requires
        can_read(v),
    ensures
        read_count(v, len) <= len,
        v.pos < v.total_size ==> v.pos + read_count(v, len) <= v.buffer_start + v.buffer.len(),
        v.pos >= v.total_size ==> read_count(v, len) == 0,
{
}

/// The range a read asks for starts at the position, lies inside the
/// resource, and is at most one chunk long.
pub proof fn lemma_fetch_range_bounds(v: RangeView)
    requires
        v.chunk_size >= 1,
        v.total_size <= u64::MAX,
    ensures
        read_step_spec(v) matches ReadStep::Fetch { start, end } ==> {
            &&& start == v.pos
            &&& start <= end < v.total_size
            &&& end - start + 1 <= v.chunk_size
        },
{
}

/// Reading makes progress: once a non-empty answer to the asked range is
/// taken, the next read copies right away.
pub proof fn lemma_fetch_then_ready(v: RangeView, body: Seq<u8>)
    requires
        v.pos < v.total_size,
        body.len() > 0,
    ensures
        read_step_spec((RangeView { buffer: body, buffer_start: v.pos, ..v })) == ReadStep::Ready,
        read_count((RangeView { buffer: body, buffer_start: v.pos, ..v }), 1) == 1,
{
}

/// The answer of a server that serves `content` faithfully to the range
/// that a read asks for in state `v`.
pub open spec fn faithful_answer(v: RangeView, content: Seq<u8>) -> Seq<u8> {
    content.subrange(v.pos as int, fetch_end(v) + 1int)
}

/// The state after the body of an answer is taken, as
/// [`HttpRangeSource::accept_chunk`] leaves it.
pub open spec fn with_chunk(v: RangeView, body: Seq<u8>) -> RangeView {
    RangeView { buffer: body, buffer_start: v.pos, ..v }
}

/// One read into a buffer of `len` bytes from state `v`, the server serving
/// `content` faithfully: the step [`HttpRangeSource::read_step`] asks for,
/// the fetch taken by [`HttpRangeSource::accept_chunk`] where one is due,
/// then [`HttpRangeSource::read`]. Gives the state after and the bytes read.
pub open spec fn read_call(v: RangeView, content: Seq<u8>, len: nat) -> (RangeView, Seq<u8>) {
    match read_step_spec(v) {
        ReadStep::EndOfStream => (v, Seq::empty()),
        ReadStep::Ready => (
            RangeView { pos: v.pos + read_count(v, len), ..v },
            read_bytes(v, len),
        ),
        ReadStep::Fetch { .. } => {
            let w = with_chunk(v, faithful_answer(v, content));
            (RangeView { pos: w.pos + read_count(w, len), ..w }, read_bytes(w, len))
        },
    }
}

/// Reads into buffers of the lengths `lens`, one after the other: the state
/// after all of them and the bytes they gave, one after the other.
pub open spec fn read_calls(v: RangeView, content: Seq<u8>, lens: Seq<nat>) -> (
    RangeView,
    Seq<u8>,
)
    decreases lens.len(),
{
    if lens.len() == 0 {
        (v, Seq::empty())
    } else {
        let (w, first) = read_call(v, content, lens[0]);
        let (end, rest) = read_calls(w, content, lens.drop_first());
        (end, first + rest)
    }
}

/// The states from which reads stay faithful to `content`.
pub open spec fn reads_faithfully(v: RangeView, content: Seq<u8>) -> bool {
    &&& holds_content(v, content)
    &&& v.pos <= v.total_size
    &&& v.chunk_size >= 1
}

/// One read gives the bytes of `content` at the position and moves past
/// them; it gives none exactly at the end.
pub proof fn lemma_read_call(v: RangeView, content: Seq<u8>, len: nat)
    requires
        reads_faithfully(v, content),
        len > 0,
    ensures
        reads_faithfully(read_call(v, content, len).0, content),
        v.pos <= read_call(v, content, len).0.pos,
        read_call(v, content, len).1 == content.subrange(
            v.pos as int,
            read_call(v, content, len).0.pos as int,
        ),
        read_call(v, content, len).1.len() == 0 <==> v.pos == v.total_size,
{
    match read_step_spec(v) {
        ReadStep::EndOfStream => {
            assert(content.subrange(v.pos as int, v.pos as int) =~= Seq::<u8>::empty());
        },
        ReadStep::Ready => {
            assert(read_bytes(v, len) =~= content.subrange(
                v.pos as int,
                (v.pos + read_count(v, len)) as int,
            ));
        },
        ReadStep::Fetch { .. } => {
            let body = faithful_answer(v, content);
            let w = with_chunk(v, body);
            assert(holds_content(w, content)) by {
                assert(w.buffer =~= content.subrange(
                    w.buffer_start as int,
                    (w.buffer_start + w.buffer.len()) as int,
                ));
            }
            assert(read_bytes(w, len) =~= content.subrange(
                v.pos as int,
                (v.pos + read_count(w, len)) as int,
            ));
        },
    }
}

/// Reading gives the resource: from a faithful state, reads into non-empty
/// buffers give the bytes of `content` from the first position on, each
/// once and in order, and a read gives nothing exactly when the end is
/// reached. So reading from position 0 until a read gives nothing gives all
/// of `content`.
pub proof fn lemma_reads_give_resource(v: RangeView, content: Seq<u8>, lens: Seq<nat>, len: nat)
    requires
        reads_faithfully(v, content),
        forall|k: int| 0 <= k < lens.len() ==> lens[k] > 0,
        len > 0,
    ensures
        reads_faithfully(read_calls(v, content, lens).0, content),
        v.pos <= read_calls(v, content, lens).0.pos,
        read_calls(v, content, lens).1 == content.subrange(
            v.pos as int,
            read_calls(v, content, lens).0.pos as int,
        ),
        read_call(read_calls(v, content, lens).0, content, len).1.len() == 0
            <==> read_calls(v, content, lens).0.pos == content.len(),
        read_call(read_calls(v, content, lens).0, content, len).1.len() == 0 ==> read_calls(
            v,
            content,
            lens,
        ).1 == content.subrange(v.pos as int, content.len() as int),
    decreases lens.len(),
{
    if lens.len() == 0 {
        assert(content.subrange(v.pos as int, v.pos as int) =~= Seq::<u8>::empty());
    } else {
        lemma_read_call(v, content, lens[0]);
        let (w, first) = read_call(v, content, lens[0]);
        let rest_lens = lens.drop_first();
        assert forall|k: int| 0 <= k < rest_lens.len() implies rest_lens[k] > 0 by {
            assert(rest_lens[k] == lens[k + 1]);
        }
        lemma_reads_give_resource(w, content, rest_lens, len);
        let (end, rest) = read_calls(w, content, rest_lens);
        assert(v.pos <= w.pos <= end.pos <= content.len());
        assert(first + rest =~= content.subrange(v.pos as int, end.pos as int));
    }
    let e = read_calls(v, content, lens).0;
    lemma_read_call(e, content, len);
}

/// Where a seek lands, for positions and sizes that are non-negative as
/// signed 64-bit numbers: `Start(p)` at `p`, `End(o)` at the total size plus
/// `o` whatever the position, `Current(o)` at the position plus `o`.
pub proof fn lemma_seek_lands(v: RangeView, target: SeekTarget)
    ensures
        target matches SeekTarget::Start(p) ==> (p <= i64::MAX ==> seek_aim(v, target) == p),
        target matches SeekTarget::Start(p) ==> (p > i64::MAX ==> seek_aim(v, target) < 0),
        target matches SeekTarget::End(o) ==> (v.total_size <= i64::MAX ==> seek_aim(v, target)
            == v.total_size + o),
        target matches SeekTarget::Current(o) ==> (v.pos <= i64::MAX ==> seek_aim(v, target) == v.pos
            + o),
        forall|p: nat|
            #![trigger seek_aim(RangeView { pos: p, ..v }, target)]
            target is End || target is Start ==> seek_aim(RangeView { pos: p, ..v }, target)
                == seek_aim(v, target),
{
}

} // verus!
