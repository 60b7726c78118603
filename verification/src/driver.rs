//! The stream reader driver's decision logic: how many bytes to request
//! next, and how the plan's state advances after a read.

use crate::line::format_line;
use crate::line::line_spec;
use vstd::prelude::*;

verus! {

/// The size of the next bounded read: a full line's worth while the quota
/// is unbounded (negative) or still larger than one line, the whole
/// remaining quota otherwise. A spent quota yields a zero-size request.
pub open spec fn spec_request_size(quota: int, w: int) -> int {
    if quota < 0 {
        w
    } else if w < quota {
        w
    } else {
        quota
    }
}

/// How many bytes one iteration consumes when `data` is what the stream
/// still holds: the requested size, capped by what is available.
pub open spec fn spec_chunk_len(data: Seq<u8>, quota: int, w: int) -> int {
    if spec_request_size(quota, w) <= data.len() {
        spec_request_size(quota, w)
    } else {
        data.len() as int
    }
}

/// The whole dump of `data` (the bytes the stream holds from `offset` on):
/// one line per chunk until the stream or the quota is exhausted.
pub open spec fn dump_spec(data: Seq<u8>, offset: int, quota: int, w: int) -> Seq<u8>
    recommends
        0 < w,
        0 <= offset,
    decreases data.len(),
{
    let n = spec_chunk_len(data, quota, w);
    if n <= 0 {
        Seq::empty()
    } else {
        line_spec(data.take(n), offset as nat, w) + dump_spec(
            data.skip(n),
            offset + n,
            quota - n,
            w,
        )
    }
}

/// The total number of bytes a dump of `data` renders into lines: each
/// iteration's chunk length, summed until the stream or the quota is
/// exhausted. It mirrors `dump_spec` step for step.
pub open spec fn dump_consumed(data: Seq<u8>, quota: int, w: int) -> int
    decreases data.len(),
{
    let n = spec_chunk_len(data, quota, w);
    if n <= 0 {
        0
    } else {
        n + dump_consumed(data.skip(n), quota - n, w)
    }
}

/// The parameters of one dump run. `bytes_to_read` below zero means
/// unbounded; `bytes_per_line` must be positive.
#[derive(Clone, Copy, Debug, PartialEq, Eq, Structural)]
pub struct ReadPlan {
    /// Byte position within the stream at which the next chunk begins.
    pub offset: i64,
    /// Number of byte columns per output line.
    pub bytes_per_line: i64,
    /// Remaining read quota; any negative value means unbounded.
    pub bytes_to_read: i64,
}

impl ReadPlan {
    /// A usable plan: positive line width that fits a buffer length, and a
    /// non-negative starting offset.
    pub open spec fn wf(self) -> bool {
        0 < self.bytes_per_line <= usize::MAX && 0 <= self.offset
    }

    /// Builds the plan for one run, rejecting a non-positive or oversized
    /// line width and a negative starting offset as configuration errors.
    pub fn new(offset: i64, bytes_to_read: i64, bytes_per_line: i64) -> (r: Result<
        ReadPlan,
        ConfigError,
    >)
        ensures
            match r {
                Ok(p) => p == (ReadPlan { offset, bytes_per_line, bytes_to_read }) && p.wf(),
                Err(e) => match e {
                    ConfigError::InvalidLineWidth => !(0 < bytes_per_line <= usize::MAX),
                    ConfigError::NegativeOffset => 0 < bytes_per_line <= usize::MAX && offset < 0,
                },
            },
    {
        if bytes_per_line <= 0 || (bytes_per_line as u64) > (usize::MAX as u64) {
            Err(ConfigError::InvalidLineWidth)
        } else if offset < 0 {
            Err(ConfigError::NegativeOffset)
        } else {
            Ok(ReadPlan { offset, bytes_per_line, bytes_to_read })
        }
    }

    /// How many bytes the driver asks the stream for on the next read.
    pub fn request_size(&self) -> (r: usize)
        requires
            self.wf(),
        ensures
            r == spec_request_size(self.bytes_to_read as int, self.bytes_per_line as int),
    {
        let m: i64 = if self.bytes_to_read < 0 {
            self.bytes_per_line
        } else if self.bytes_per_line < self.bytes_to_read {
            self.bytes_per_line
        } else {
            self.bytes_to_read
        };
        m as usize
    }

    /// Advances the plan after a read that returned `num_bytes` bytes: the
    /// offset moves forward by that amount and the quota shrinks by it.
    pub fn advance(&mut self, num_bytes: usize)
        requires
            old(self).wf(),
            num_bytes <= spec_request_size(
                old(self).bytes_to_read as int,
                old(self).bytes_per_line as int,
            ),
            old(self).offset + num_bytes <= i64::MAX,
            i64::MIN + num_bytes <= old(self).bytes_to_read,
        ensures
            final(self).offset == old(self).offset + num_bytes,
            final(self).bytes_to_read == old(self).bytes_to_read - num_bytes,
            final(self).bytes_per_line == old(self).bytes_per_line,
            final(self).wf(),
    {
        self.offset = self.offset + (num_bytes as i64);
        self.bytes_to_read = self.bytes_to_read - (num_bytes as i64);
    }
}

/// Dumps an in-memory stream: renders every line that a run over `data`
/// with the given plan parameters emits, concatenated in order. `data`
/// holds exactly the bytes the stream offers from position `offset` on.
pub fn dump_bytes(data: &[u8], offset: i64, bytes_to_read: i64, bytes_per_line: i64) -> (out: Vec<
    u8,
>)
    requires
        0 <= offset,
        0 < bytes_per_line <= usize::MAX,
        offset + data@.len() <= i64::MAX,
        i64::MIN + data@.len() <= bytes_to_read,
    ensures
        out@ == dump_spec(data@, offset as int, bytes_to_read as int, bytes_per_line as int),
{
    let ghost w = bytes_per_line as int;
    let mut plan = ReadPlan { offset, bytes_per_line, bytes_to_read };
    let mut pos: usize = 0;
    let mut out: Vec<u8> = Vec::new();
    proof {
        assert(data@.skip(0) =~= data@);
        assert(Seq::<u8>::empty() + dump_spec(data@, offset as int, bytes_to_read as int, w)
            =~= dump_spec(data@, offset as int, bytes_to_read as int, w));
    }
    loop
        invariant
            0 < bytes_per_line <= usize::MAX,
            offset + data@.len() <= i64::MAX,
            i64::MIN + data@.len() <= bytes_to_read,
            0 <= offset,
            w == bytes_per_line as int,
            plan.bytes_per_line == bytes_per_line,
            plan.wf(),
            pos <= data@.len(),
            plan.offset == offset + pos,
            plan.bytes_to_read == bytes_to_read - pos,
            out@ + dump_spec(
                data@.skip(pos as int),
                plan.offset as int,
                plan.bytes_to_read as int,
                w,
            ) == dump_spec(data@, offset as int, bytes_to_read as int, w),
        ensures
            out@ == dump_spec(data@, offset as int, bytes_to_read as int, w),
        decreases data@.len() - pos,
    {
        let ghost rest = data@.skip(pos as int);
        let req = plan.request_size();
        let avail = data.len() - pos;
        let n = if req < avail {
            req
        } else {
            avail
        };
        proof {
            assert(n == spec_chunk_len(rest, plan.bytes_to_read as int, w));
        }
        if n == 0 {
            proof {
                assert(dump_spec(rest, plan.offset as int, plan.bytes_to_read as int, w)
                    == Seq::<u8>::empty());
                assert(out@ + Seq::<u8>::empty() =~= out@);
            }
            break ;
        }
        let chunk = vstd::slice::slice_subrange(data, pos, pos + n);
        let mut line = format_line(chunk, n, plan.offset, bytes_per_line);
        proof {
            assert(chunk@.take(n as int) =~= chunk@);
            assert(chunk@ =~= rest.take(n as int));
            assert(rest.skip(n as int) =~= data@.skip(pos + n));
        }
        let ghost prev_out = out@;
        let ghost off0 = plan.offset as int;
        let ghost q0 = plan.bytes_to_read as int;
        out.append(&mut line);
        plan.advance(n);
        pos = pos + n;
        proof {
            assert(dump_spec(rest, off0, q0, w) == line_spec(rest.take(n as int), off0 as nat, w)
                + dump_spec(data@.skip(pos as int), off0 + n, q0 - n, w));
            assert(out@ + dump_spec(
                data@.skip(pos as int),
                plan.offset as int,
                plan.bytes_to_read as int,
                w,
            ) =~= prev_out + dump_spec(rest, off0, q0, w));
        }
    }
    out
}

/// The chunks a dump of `data` cuts the stream into: one per line, in
/// stream order, until the stream or the quota is exhausted.
pub open spec fn dump_chunks(data: Seq<u8>, quota: int, w: int) -> Seq<Seq<u8>>
    decreases data.len(),
{
    let n = spec_chunk_len(data, quota, w);
    if n <= 0 {
        Seq::empty()
    } else {
        seq![data.take(n)] + dump_chunks(data.skip(n), quota - n, w)
    }
}

/// The rendering of a sequence of chunks, one line each, offsets advancing
/// by each chunk's length.
pub open spec fn render_lines(chunks: Seq<Seq<u8>>, offset: int, w: int) -> Seq<u8>
    decreases chunks.len(),
{
    if chunks.len() == 0 {
        Seq::empty()
    } else {
        line_spec(chunks.first(), offset as nat, w) + render_lines(
            chunks.drop_first(),
            offset + chunks.first().len(),
            w,
        )
    }
}

/// A dump is exactly the line-by-line rendering of its chunks: what
/// `dump_bytes` emits is one line per chunk of `dump_chunks`, in order.
pub proof fn lemma_dump_is_lines_of_chunks(data: Seq<u8>, offset: int, quota: int, w: int)
    ensures
        dump_spec(data, offset, quota, w) == render_lines(
            dump_chunks(data, quota, w),
            offset,
            w,
        ),
    decreases data.len(),
{
    let n = spec_chunk_len(data, quota, w);
    let chunks = dump_chunks(data, quota, w);
    if n > 0 {
        lemma_dump_is_lines_of_chunks(data.skip(n), offset + n, quota - n, w);
        assert(chunks.first() == data.take(n));
        assert(chunks.drop_first() =~= dump_chunks(data.skip(n), quota - n, w));
        assert(data.take(n).len() == n);
    }
}

/// The chunks of a dump, concatenated, are exactly the prefix of the
/// stream that the dump consumed: every consumed byte appears in the
/// output's lines, in stream order, exactly once.
pub proof fn lemma_chunks_flatten_to_prefix(data: Seq<u8>, quota: int, w: int)
    ensures
        0 <= dump_consumed(data, quota, w) <= data.len(),
        dump_chunks(data, quota, w).flatten() == data.take(dump_consumed(data, quota, w)),
    decreases data.len(),
{
    let n = spec_chunk_len(data, quota, w);
    let chunks = dump_chunks(data, quota, w);
    if n <= 0 {
        assert(chunks.flatten() =~= data.take(0));
    } else {
        lemma_chunks_flatten_to_prefix(data.skip(n), quota - n, w);
        let rest = dump_chunks(data.skip(n), quota - n, w);
        let c = dump_consumed(data.skip(n), quota - n, w);
        assert(chunks.first() == data.take(n));
        assert(chunks.drop_first() =~= rest);
        assert(chunks.flatten() == data.take(n) + rest.flatten());
        assert(data.take(n) + data.skip(n).take(c) =~= data.take(n + c));
    }
}

/// With an unbounded quota (any negative value), a dump consumes and
/// renders every byte the stream holds from the starting offset on: the
/// lines' chunks concatenate back to the entire stream.
pub proof fn lemma_unbounded_consumes_all(data: Seq<u8>, quota: int, w: int)
    requires
        quota < 0,
        0 < w,
    ensures
        dump_consumed(data, quota, w) == data.len(),
        dump_chunks(data, quota, w).flatten() == data,
    decreases data.len(),
{
    let n = spec_chunk_len(data, quota, w);
    if n > 0 {
        lemma_unbounded_consumes_all(data.skip(n), quota - n, w);
    }
    lemma_chunks_flatten_to_prefix(data, quota, w);
    assert(data.take(data.len() as int) =~= data);
}

/// With a quota of `quota >= 0` bytes and a stream holding at least that
/// many, a dump consumes and renders exactly the quota — the lines' chunks
/// concatenate to the stream's first `quota` bytes — even though more data
/// remains.
pub proof fn lemma_quota_consumed_exactly(data: Seq<u8>, quota: int, w: int)
    requires
        0 <= quota <= data.len(),
        0 < w,
    ensures
        dump_consumed(data, quota, w) == quota,
        dump_chunks(data, quota, w).flatten() == data.take(quota),
    decreases data.len(),
{
    let n = spec_chunk_len(data, quota, w);
    if n > 0 {
        lemma_quota_consumed_exactly(data.skip(n), quota - n, w);
    }
    lemma_chunks_flatten_to_prefix(data, quota, w);
}

/// An empty stream produces zero output lines, whatever the quota.
pub proof fn lemma_empty_stream(offset: int, quota: int, w: int)
    ensures
        dump_spec(Seq::empty(), offset, quota, w) == Seq::<u8>::empty(),
        dump_chunks(Seq::empty(), quota, w) == Seq::<Seq<u8>>::empty(),
        dump_consumed(Seq::empty(), quota, w) == 0,
{
}

/// A quota of zero produces zero output lines and consumes nothing: the
/// zero-size request is treated as immediate end of stream.
pub proof fn lemma_zero_quota(data: Seq<u8>, offset: int, w: int)
    ensures
        dump_spec(data, offset, 0, w) == Seq::<u8>::empty(),
        dump_chunks(data, 0, w) == Seq::<Seq<u8>>::empty(),
        dump_consumed(data, 0, w) == 0,
{
}

/// A configuration the driver cannot run with, rejected before any read.
#[derive(Clone, Copy, Debug, PartialEq, Eq, Structural)]
pub enum ConfigError {
    /// The line width is not positive, or too large for a buffer.
    InvalidLineWidth,
    /// The starting offset is negative.
    NegativeOffset,
}

} // verus!
