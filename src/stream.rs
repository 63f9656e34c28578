use vstd::prelude::*;
use vstd::arithmetic::div_mod::lemma_mod_sub_multiples_vanish;

verus! {

/// Default number of bytes read from the resource for one chunk.
pub const BUFSIZE: usize = 8192;

/// The decisions of a pull-based body stream over an inclusive byte interval
/// of a resource. The caller performs the I/O: it asks `next_read` where to
/// read and how much, reads, and hands what it read to `accept`, which
/// answers with the chunk to emit, or with nothing once the body is over.
#[derive(Clone, Copy, Debug)]
pub struct FileStreamer {
    /// Offset of the next byte to emit.
    pub next: u64,
    /// Offset of the last byte to emit (inclusive).
    pub last: u64,
    /// Number of bytes asked of each read.
    pub buffer_size: usize,
    /// Set once no chunk will follow.
    pub finished: bool,
}

/// Number of bytes in the inclusive interval `[start, end]`; `0` when it is
/// inverted.
pub open spec fn interval_len(start: u64, end: u64) -> nat {
    if start <= end {
        (end - start + 1) as nat
    } else {
        0
    }
}

/// The stream state that covers `[start, end]`.
pub open spec fn interval_stream(start: u64, end: u64, buffer_size: usize) -> FileStreamer {
    FileStreamer { next: start, last: end, buffer_size, finished: start > end }
}

/// The stream state that covers a whole resource of `size` bytes.
pub open spec fn whole_stream(size: u64, buffer_size: usize) -> FileStreamer {
    if size == 0 {
        FileStreamer { next: 0, last: 0, buffer_size, finished: true }
    } else {
        interval_stream(0, (size - 1) as u64, buffer_size)
    }
}

impl FileStreamer {
    /// A live stream's next offset lies within its interval.
    pub open spec fn wf(self) -> bool {
        self.finished || self.next <= self.last
    }

    /// Bytes still owed to the body.
    pub open spec fn remaining(self) -> nat {
        if self.finished || self.next > self.last {
            0
        } else {
            (self.last - self.next + 1) as nat
        }
    }

    /// How many of `n` freshly read bytes belong to the body.
    pub open spec fn take_len(self, n: nat) -> nat {
        if n < self.remaining() {
            n
        } else {
            self.remaining()
        }
    }

    /// The state after a read that returned `n` bytes.
    pub open spec fn after_read(self, n: nat) -> FileStreamer {
        if self.finished || n == 0 || n >= self.remaining() {
            FileStreamer { finished: true, ..self }
        } else {
            FileStreamer { next: (self.next + n) as u64, ..self }
        }
    }

    /// The chunk emitted for the bytes `data` that a read returned.
    pub open spec fn chunk_of(self, data: Seq<u8>) -> Option<Seq<u8>> {
        if self.finished || data.len() == 0 {
            None
        } else {
            Some(data.take(self.take_len(data.len()) as int))
        }
    }
}

/// A stream over the whole resource, starting at its first byte. For an empty
/// resource it is over from the start.
pub fn file_stream(file_size: u64, buffer_size: usize) -> (r: FileStreamer)
    ensures
        r == whole_stream(file_size, buffer_size),
{
    if file_size == 0 {
        FileStreamer { next: 0, last: 0, buffer_size, finished: true }
    } else {
        file_stream_partial(0, file_size - 1, buffer_size)
    }
}

/// A stream over the bytes `[start, end]` of the resource. An inverted
/// interval gives a stream that is over from the start.
pub fn file_stream_partial(start: u64, end: u64, buffer_size: usize) -> (r: FileStreamer)
    ensures
        r == interval_stream(start, end, buffer_size),
{
    FileStreamer { next: start, last: end, buffer_size, finished: start > end }
}

impl FileStreamer {
    /// Where to read next and how many bytes to ask for; `None` once the
    /// stream is over.
    pub fn next_read(&self) -> (r: Option<(u64, usize)>)
        ensures
            r == (if self.finished {
                None
            } else {
                Some((self.next, self.buffer_size))
            }),
    {
        if self.finished {
            None
        } else {
            Some((self.next, self.buffer_size))
        }
    }

    /// Takes the bytes that a read at `next_read`'s offset returned, and
    /// gives the chunk to emit: those bytes, cut where the interval ends. An
    /// empty read means the resource has ended, and ends the stream.
    pub fn accept(&mut self, data: Vec<u8>) -> (r: Option<Vec<u8>>)
        requires
            old(self).wf(),
        ensures
            final(self).wf(),
            r.is_some() == old(self).chunk_of(data@).is_some(),
            r.is_some() ==> r.unwrap()@ == old(self).chunk_of(data@).unwrap(),
            *final(self) == old(self).after_read(data@.len()),
    {
        if self.finished {
            return None;
        }
        if data.len() == 0 {
            self.finished = true;
            return None;
        }
        let room: u64 = self.last - self.next;
        let mut chunk = data;
        if chunk.len() as u64 > room {
            chunk.truncate((room + 1) as usize);
            self.finished = true;
        } else {
            self.next = self.next + chunk.len() as u64;
        }
        Some(chunk)
    }

    /// Ends the stream after a failed read or seek: no chunk follows an error.
    pub fn fail(&mut self)
        ensures
            *final(self) == (FileStreamer { finished: true, ..*old(self) }),
    {
        self.finished = true;
    }
}

/// What a read of up to `n` bytes at `offset` returns from a resource holding
/// `content`, where the read is served in full: the bytes from `offset` on,
/// stopped by `n` and by the end of the resource.
pub open spec fn read_at(content: Seq<u8>, offset: u64, n: usize) -> Seq<u8> {
    let from = if offset <= content.len() {
        offset as int
    } else {
        content.len() as int
    };
    let to = if offset + n <= content.len() {
        offset + n
    } else {
        content.len() as int
    };
    content.subrange(from, to)
}

/// The chunks that a stream emits, in order, when each of its reads is served
/// in full from a resource holding `content`.
pub open spec fn chunks(s: FileStreamer, content: Seq<u8>) -> Seq<Seq<u8>>
    decreases s.remaining(), (if s.finished {
        0int
    } else {
        1int
    }),
{
    if s.finished {
        Seq::empty()
    } else {
        let data = read_at(content, s.next, s.buffer_size);
        match s.chunk_of(data) {
            Some(c) => seq![c] + chunks(s.after_read(data.len()), content),
            None => Seq::empty(),
        }
    }
}

/// One step of `chunks` on a live stream whose interval lies in the resource.
proof fn lemma_chunks_step(s: FileStreamer, content: Seq<u8>)
    requires
        !s.finished,
        s.next <= s.last < content.len(),
        s.buffer_size > 0,
    ensures
        ({
            let n = if s.remaining() < s.buffer_size {
                s.remaining()
            } else {
                s.buffer_size as nat
            };
            let data = read_at(content, s.next, s.buffer_size);
            &&& data.len() > 0
            &&& s.take_len(data.len()) == n
            &&& s.chunk_of(data) == Some(content.subrange(s.next as int, s.next + n))
            &&& s.after_read(data.len()) == (if n == s.remaining() {
                FileStreamer { finished: true, ..s }
            } else {
                FileStreamer { next: (s.next + n) as u64, ..s }
            })
            &&& chunks(s, content) == seq![content.subrange(s.next as int, s.next + n)] + chunks(
                s.after_read(data.len()),
                content,
            )
        }),
{
    let data = read_at(content, s.next, s.buffer_size);
    let n = if s.remaining() < s.buffer_size {
        s.remaining()
    } else {
        s.buffer_size as nat
    };
    assert(data.take(n as int) =~= content.subrange(s.next as int, s.next + n));
}

/// The chunks of a live stream whose interval lies in the resource
/// concatenate to exactly the interval's bytes.
proof fn lemma_chunks_cover(s: FileStreamer, content: Seq<u8>)
    requires
        !s.finished,
        s.next <= s.last < content.len(),
        s.buffer_size > 0,
    ensures
        chunks(s, content).flatten() == content.subrange(s.next as int, s.last + 1),
    decreases s.remaining(),
{
    lemma_chunks_step(s, content);
    let data = read_at(content, s.next, s.buffer_size);
    let t = s.after_read(data.len());
    let c = content.subrange(s.next as int, s.next + s.take_len(data.len()));
    let cs = chunks(s, content);
    assert(cs.first() == c);
    assert(cs.drop_first() =~= chunks(t, content));
    if t.finished {
        assert(chunks(t, content) =~= Seq::<Seq<u8>>::empty());
        assert(cs.drop_first().flatten() =~= Seq::<u8>::empty());
        assert(cs.flatten() == c + cs.drop_first().flatten());
        assert(cs.flatten() =~= c);
    } else {
        lemma_chunks_cover(t, content);
        assert(cs.flatten() =~= content.subrange(s.next as int, s.last + 1));
    }
}

/// The chunk sizes of a live stream whose interval lies in the resource:
/// there is at least one chunk, none is empty, all but the last are
/// `buffer_size` long, and the last holds what is left of the interval.
proof fn lemma_chunk_sizes(s: FileStreamer, content: Seq<u8>)
    requires
        !s.finished,
        s.next <= s.last < content.len(),
        s.buffer_size > 0,
    ensures
        ({
            let cs = chunks(s, content);
            let rest = s.remaining() % (s.buffer_size as nat);
            &&& cs.len() > 0
            &&& forall|i: int| 0 <= i < cs.len() ==> #[trigger] cs[i].len() > 0
            &&& forall|i: int| 0 <= i < cs.len() - 1 ==> #[trigger] cs[i].len() == s.buffer_size
            &&& cs.last().len() == (if rest == 0 {
                s.buffer_size as nat
            } else {
                rest
            })
        }),
    decreases s.remaining(),
{
    lemma_chunks_step(s, content);
    let data = read_at(content, s.next, s.buffer_size);
    let t = s.after_read(data.len());
    let cs = chunks(s, content);
    let bs = s.buffer_size as int;
    let len = s.remaining() as int;
    assert(cs.drop_first() =~= chunks(t, content));
    if t.finished {
        assert(chunks(t, content) =~= Seq::<Seq<u8>>::empty());
        assert(cs.len() == 1);
        if len == bs {
            vstd::arithmetic::div_mod::lemma_mod_self_0(bs);
        } else {
            vstd::arithmetic::div_mod::lemma_small_mod(len as nat, bs as nat);
        }
    } else {
        lemma_chunk_sizes(t, content);
        assert(t.remaining() == len - bs);
        lemma_mod_sub_multiples_vanish(len, bs);
        assert forall|i: int| 0 <= i < cs.len() - 1 implies #[trigger] cs[i].len() == bs by {
            if i > 0 {
                assert(cs[i] == chunks(t, content)[i - 1]);
            }
        }
        assert forall|i: int| 0 <= i < cs.len() implies #[trigger] cs[i].len() > 0 by {
            if i > 0 {
                assert(cs[i] == chunks(t, content)[i - 1]);
            }
        }
        assert(cs.last() == chunks(t, content).last());
    }
}

/// Streaming a well-formed interval `[start, end]` of a resource, each read
/// served in full, emits chunks whose concatenation is exactly the resource's
/// bytes `start` through `end`: `end - start + 1` bytes, in order, with no gap
/// and no overlap.
pub proof fn law_chunks_cover_interval(
    start: u64,
    end: u64,
    buffer_size: usize,
    content: Seq<u8>,
)
    requires
        start <= end < content.len(),
        buffer_size > 0,
    ensures
        chunks(interval_stream(start, end, buffer_size), content).flatten() == content.subrange(
            start as int,
            end + 1,
        ),
        chunks(interval_stream(start, end, buffer_size), content).flatten().len() == end - start
            + 1,
{
    lemma_chunks_cover(interval_stream(start, end, buffer_size), content);
}

/// Streaming a well-formed interval `[start, end]` of a resource, each read
/// served in full, emits at least one chunk and no empty one; every chunk but
/// the last is `buffer_size` long, and the last is
/// `(end - start + 1) % buffer_size` long, or `buffer_size` where that is 0.
/// An inverted interval emits no chunk at all.
pub proof fn law_chunk_sizes(start: u64, end: u64, buffer_size: usize, content: Seq<u8>)
    requires
        end < content.len(),
        buffer_size > 0,
    ensures
        ({
            let cs = chunks(interval_stream(start, end, buffer_size), content);
            let rest = interval_len(start, end) % (buffer_size as nat);
            if start <= end {
                &&& cs.len() > 0
                &&& forall|i: int| 0 <= i < cs.len() ==> #[trigger] cs[i].len() > 0
                &&& forall|i: int| 0 <= i < cs.len() - 1 ==> #[trigger] cs[i].len() == buffer_size
                &&& cs.last().len() == (if rest == 0 {
                    buffer_size as nat
                } else {
                    rest
                })
            } else {
                cs.len() == 0
            }
        }),
{
    if start <= end {
        lemma_chunk_sizes(interval_stream(start, end, buffer_size), content);
    }
}

} // verus!
