//! Bounded capture of a command's output: only the last `limit` bytes are
//! kept, and a notice marks text that lost its beginning. A tee copies
//! output to a live writer while capturing it, and keeps capturing after
//! the writer has gone away.
use std::collections::VecDeque;
use vstd::prelude::*;

use crate::text::chars_of;

verus! {

/// Most bytes of a command's output that are kept.
pub const MAX_CAPTURE_BYTES: usize = 1024 * 1024;

/// How long a landing command may run when its step sets no timeout: 30
/// minutes.
pub const DEFAULT_COMMAND_TIMEOUT_SECONDS: u64 = 30 * 60;

/// Put in front of captured output that lost its beginning.
pub const TRUNCATION_NOTICE: &'static str = "[... earlier output truncated by Knit ...]\n";

/// The last `n` items of `s` (all of `s` when it is not longer).
pub open spec fn tail<T>(s: Seq<T>, n: nat) -> Seq<T> {
    if s.len() > n {
        s.skip(s.len() - n)
    } else {
        s
    }
}

/// Keeping the last `n` bytes after each chunk keeps the last `n` bytes of
/// everything pushed: trimming early loses nothing that would be kept.
pub proof fn lemma_tail_of_tail(s: Seq<u8>, c: Seq<u8>, n: nat)
    ensures
        tail(tail(s, n) + c, n) == tail(s + c, n),
{
    let t = tail(s, n);
    assert(tail(t + c, n) =~= tail(s + c, n));
}

/// The name of what `String::from_utf8_lossy` makes of `bytes`: the text
/// they encode, with each invalid sequence replaced by U+FFFD.
pub uninterp spec fn utf8_lossy(bytes: Seq<u8>) -> Seq<char>;

/// Decodes bytes as UTF-8, replacing invalid sequences
/// (`String::from_utf8_lossy`, made an owned string). Its result is named
/// by `utf8_lossy`; of ASCII bytes, as its documentation shows, it is those
/// characters.
#[verifier::external_body]
fn lossy_string(bytes: &Vec<u8>) -> (out: String)
    ensures
        out@ == utf8_lossy(bytes@),
        all_ascii_bytes(bytes@) ==> out@ == ascii_text(bytes@),
{
    String::from_utf8_lossy(bytes.as_slice()).into_owned()
}

/// Every byte is ASCII.
pub open spec fn all_ascii_bytes(b: Seq<u8>) -> bool {
    forall|i: int| 0 <= i < b.len() ==> #[trigger] b[i] < 128
}

/// ASCII bytes read as text: one character per byte.
pub open spec fn ascii_text(b: Seq<u8>) -> Seq<char> {
    b.map_values(|x: u8| x as char)
}

/// The bytes of the truncation notice (it is ASCII).
pub open spec fn notice_bytes() -> Seq<u8> {
    TRUNCATION_NOTICE@.map_values(|c: char| c as u8)
}

/// What a capture reads as: the notice when output was dropped, then the
/// kept bytes.
pub open spec fn captured_bytes(kept: Seq<u8>, truncated: bool) -> Seq<u8> {
    if truncated {
        notice_bytes() + kept
    } else {
        kept
    }
}

/// The last `limit` bytes of a command's output.
pub struct BoundedCapture {
    bytes: VecDeque<u8>,
    limit: usize,
    truncated: bool,
}

impl BoundedCapture {
    /// The bytes kept.
    pub closed spec fn kept(&self) -> Seq<u8> {
        self.bytes@
    }

    /// Whether output was ever dropped.
    pub closed spec fn was_truncated(&self) -> bool {
        self.truncated
    }

    pub closed spec fn max_len(&self) -> nat {
        self.limit as nat
    }

    /// Never more than `limit` bytes are kept.
    pub closed spec fn wf(&self) -> bool {
        self.bytes@.len() <= self.limit
    }

    pub fn new(limit: usize) -> (c: BoundedCapture)
        ensures
            c.wf(),
            c.kept() == Seq::<u8>::empty(),
            !c.was_truncated(),
            c.max_len() == limit,
    {
        BoundedCapture { bytes: VecDeque::new(), limit, truncated: false }
    }

    /// Appends a chunk, dropping the oldest bytes beyond the limit. A chunk
    /// as long as the limit, or one that pushes out older bytes, marks the
    /// capture truncated.
    pub fn push(&mut self, chunk: &[u8])
        requires
            old(self).wf(),
        ensures
            final(self).wf(),
            final(self).max_len() == old(self).max_len(),
            final(self).kept() == tail(old(self).kept() + chunk@, old(self).max_len()),
            final(self).was_truncated() == (old(self).was_truncated() || chunk@.len() >= old(self).max_len()
                || old(self).kept().len() + chunk@.len() > old(self).max_len()),
    {
        let ghost before = self.bytes@;
        let ghost lim = self.limit;
        let ghost tr = self.truncated;
        if chunk.len() >= self.limit {
            self.bytes.clear();
            let start = chunk.len() - self.limit;
            let mut i: usize = start;
            while i < chunk.len()
                invariant
                    start <= i <= chunk@.len(),
                    start == chunk@.len() - self.limit,
                    self.bytes@ == chunk@.subrange(start as int, i as int),
                decreases chunk.len() - i,
            {
                self.bytes.push_back(chunk[i]);
                proof {
                    assert(chunk@.subrange(start as int, i + 1) =~= chunk@.subrange(start as int, i as int).push(chunk@[i as int]));
                }
                i += 1;
            }
            self.truncated = true;
            proof {
                assert(tail(before + chunk@, self.limit as nat) =~= chunk@.subrange(start as int, chunk@.len() as int));
            }
            return;
        }
        let room = self.limit - chunk.len();
        let excess = if self.bytes.len() > room {
            self.bytes.len() - room
        } else {
            0
        };
        let mut k: usize = 0;
        while k < excess
            invariant
                k <= excess,
                excess <= before.len(),
                self.bytes@ == before.skip(k as int),
                self.limit == lim,
                self.truncated == tr,
            decreases excess - k,
        {
            self.bytes.pop_front();
            proof {
                assert(before.skip(k as int).subrange(1, before.skip(k as int).len() as int) =~= before.skip(k + 1));
            }
            k += 1;
        }
        if excess > 0 {
            self.truncated = true;
        }
        let ghost kept = self.bytes@;
        assert(kept == before.skip(excess as int));
        let mut i: usize = 0;
        while i < chunk.len()
            invariant
                i <= chunk@.len(),
                self.bytes@ == kept + chunk@.take(i as int),
                self.limit == lim,
                self.truncated == (tr || excess > 0),
            decreases chunk.len() - i,
        {
            self.bytes.push_back(chunk[i]);
            proof {
                assert(chunk@.take(i + 1) =~= chunk@.take(i as int).push(chunk@[i as int]));
            }
            i += 1;
        }
        proof {
            assert(chunk@.take(chunk@.len() as int) =~= chunk@);
            assert(self.bytes@ =~= tail(before + chunk@, self.limit as nat));
        }
    }

    /// The captured text: the notice when output was dropped, then the kept
    /// bytes, decoded as UTF-8 with invalid sequences replaced.
    pub fn into_string(self) -> (out: String)
        ensures
            out@ == utf8_lossy(captured_bytes(self.kept(), self.was_truncated())),
            all_ascii_bytes(self.kept()) ==> out@ == ascii_text(captured_bytes(self.kept(), self.was_truncated())),
    {
        let mut bytes: Vec<u8> = Vec::new();
        if self.truncated {
            let notice = chars_of(TRUNCATION_NOTICE);
            let mut i: usize = 0;
            while i < notice.len()
                invariant
                    i <= notice@.len(),
                    notice@ == TRUNCATION_NOTICE@,
                    bytes@ == notice@.take(i as int).map_values(|c: char| c as u8),
                    all_ascii_bytes(bytes@),
                decreases notice.len() - i,
            {
                proof {
                    reveal_strlit("[... earlier output truncated by Knit ...]\n");
                    assert(notice@[i as int] as u32 <= 127);
                }
                bytes.push(notice[i] as u8);
                proof {
                    assert(notice@.take(i + 1).map_values(|c: char| c as u8) =~= notice@.take(i as int).map_values(|c: char| c as u8).push(notice@[i as int] as u8));
                }
                i += 1;
            }
            proof {
                assert(notice@.take(notice@.len() as int) =~= notice@);
            }
        }
        let ghost head = bytes@;
        let mut j: usize = 0;
        while j < self.bytes.len()
            invariant
                j <= self.bytes@.len(),
                bytes@ == head + self.bytes@.take(j as int),
                all_ascii_bytes(head),
            decreases self.bytes.len() - j,
        {
            bytes.push(self.bytes[j]);
            proof {
                assert(self.bytes@.take(j + 1) =~= self.bytes@.take(j as int).push(self.bytes@[j as int]));
            }
            j += 1;
        }
        proof {
            assert(self.bytes@.take(self.bytes@.len() as int) =~= self.bytes@);
            assert(bytes@ =~= captured_bytes(self.bytes@, self.truncated));
            if all_ascii_bytes(self.bytes@) {
                assert forall|k: int| 0 <= k < bytes@.len() implies #[trigger] bytes@[k] < 128 by {
                    if k >= head.len() {
                        assert(bytes@[k] == self.bytes@[k - head.len()]);
                    }
                }
            }
        }
        lossy_string(&bytes)
    }
}

/// Copying a command's output to a live writer while capturing it. Once
/// the live writer fails it gets nothing more, and capture goes on.
pub struct Tee {
    capture: BoundedCapture,
    live_open: bool,
}

impl Tee {
    pub closed spec fn capture(&self) -> BoundedCapture {
        self.capture
    }

    pub closed spec fn is_live(&self) -> bool {
        self.live_open
    }

    pub fn new(limit: usize) -> (t: Tee)
        ensures
            t.capture().wf(),
            t.capture().kept() == Seq::<u8>::empty(),
            !t.capture().was_truncated(),
            t.capture().max_len() == limit,
            t.is_live(),
    {
        Tee { capture: BoundedCapture::new(limit), live_open: true }
    }

    /// Captures a chunk read from the command; the result says whether to
    /// copy it to the live writer.
    pub fn take_chunk(&mut self, chunk: &[u8]) -> (forward: bool)
        requires
            old(self).capture().wf(),
        ensures
            final(self).capture().wf(),
            final(self).capture().max_len() == old(self).capture().max_len(),
            final(self).capture().kept() == tail(old(self).capture().kept() + chunk@, old(self).capture().max_len()),
            final(self).capture().was_truncated() == (old(self).capture().was_truncated() || chunk@.len()
                >= old(self).capture().max_len() || old(self).capture().kept().len() + chunk@.len()
                > old(self).capture().max_len()),
            final(self).is_live() == old(self).is_live(),
            forward == old(self).is_live(),
    {
        self.capture.push(chunk);
        self.live_open
    }

    /// The live writer failed: it gets nothing more.
    pub fn live_failed(&mut self)
        ensures
            final(self).capture() == old(self).capture(),
            !final(self).is_live(),
    {
        self.live_open = false;
    }

    pub fn finish(self) -> (out: String)
        ensures
            out@ == utf8_lossy(captured_bytes(self.capture().kept(), self.capture().was_truncated())),
            all_ascii_bytes(self.capture().kept()) ==> out@ == ascii_text(
                captured_bytes(self.capture().kept(), self.capture().was_truncated()),
            ),
    {
        self.capture.into_string()
    }
}

/// Where live output goes; `write_chunk` reports whether the chunk was
/// written (and flushed).
pub trait LiveOutput {
    fn write_chunk(&mut self, chunk: &[u8]) -> bool;
}

/// The capture state after pushing `chunks` in order into an empty capture
/// of `limit` bytes: the bytes kept and whether any were dropped.
pub open spec fn capture_after(chunks: Seq<Seq<u8>>, limit: nat) -> (Seq<u8>, bool)
    decreases chunks.len(),
{
    if chunks.len() == 0 {
        (Seq::empty(), false)
    } else {
        let (kept, truncated) = capture_after(chunks.drop_last(), limit);
        let c = chunks.last();
        (tail(kept + c, limit), truncated || c.len() >= limit || kept.len() + c.len() > limit)
    }
}

/// All the chunks, one after another.
pub open spec fn concat_chunks(chunks: Seq<Seq<u8>>) -> Seq<u8>
    decreases chunks.len(),
{
    if chunks.len() == 0 {
        Seq::empty()
    } else {
        concat_chunks(chunks.drop_last()) + chunks.last()
    }
}

/// Whatever the chunking, a capture keeps the last `limit` bytes of all
/// the output, and when nothing was dropped it holds all of it.
pub proof fn lemma_capture_keeps_tail(chunks: Seq<Seq<u8>>, limit: nat)
    ensures
        capture_after(chunks, limit).0 == tail(concat_chunks(chunks), limit),
        !capture_after(chunks, limit).1 ==> capture_after(chunks, limit).0 == concat_chunks(chunks),
    decreases chunks.len(),
{
    if chunks.len() > 0 {
        lemma_capture_keeps_tail(chunks.drop_last(), limit);
        lemma_tail_of_tail(concat_chunks(chunks.drop_last()), chunks.last(), limit);
    }
}

pub open spec fn chunk_views(chunks: Seq<Vec<u8>>) -> Seq<Seq<u8>> {
    chunks.map_values(|c: Vec<u8>| c@)
}

/// Copies `chunks`, as a command produced them, to `live` while capturing
/// up to `MAX_CAPTURE_BYTES` of them; `live` gets nothing after its first
/// failure. The result is the captured text.
pub fn tee_and_capture<W: LiveOutput>(chunks: &Vec<Vec<u8>>, live: &mut W) -> (out: String)
    ensures
        ({
            let (kept, truncated) = capture_after(chunk_views(chunks@), MAX_CAPTURE_BYTES as nat);
            &&& out@ == utf8_lossy(captured_bytes(kept, truncated))
            &&& all_ascii_bytes(kept) ==> out@ == ascii_text(captured_bytes(kept, truncated))
        }),
{
    let mut tee = Tee::new(MAX_CAPTURE_BYTES);
    let mut i: usize = 0;
    while i < chunks.len()
        invariant
            i <= chunks@.len(),
            tee.capture().wf(),
            tee.capture().max_len() == MAX_CAPTURE_BYTES,
            (tee.capture().kept(), tee.capture().was_truncated()) == capture_after(chunk_views(chunks@).take(i as int), MAX_CAPTURE_BYTES as nat),
        decreases chunks.len() - i,
    {
        proof {
            assert(chunk_views(chunks@).take(i + 1).drop_last() =~= chunk_views(chunks@).take(i as int));
            assert(chunk_views(chunks@).take(i + 1).last() == chunks@[i as int]@);
        }
        let chunk = chunks[i].as_slice();
        if tee.take_chunk(chunk) {
            if !live.write_chunk(chunk) {
                tee.live_failed();
            }
        }
        i += 1;
    }
    proof {
        assert(chunk_views(chunks@).take(chunks@.len() as int) =~= chunk_views(chunks@));
    }
    tee.finish()
}

} // verus!
