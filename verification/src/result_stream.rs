//! Transferring a result: how it is announced, cut up and put together again.

use vstd::prelude::*;
use crate::compression::{
    comes_back, decodable, decompress, maybe_compress, packs, unpacked, Compression,
};
use crate::math::{max_int, min_int};
use crate::scan::join;
use crate::text::{decimal, decimal_seq};

verus! {

/// How a result is encoded and sent.
#[derive(Debug, Clone, Copy, PartialEq, Eq, Structural)]
pub struct SendOpts {
    /// The size of a chunk on a single stream.
    pub chunk_bytes: usize,
    /// How many streams to use at once.
    pub parallelism: usize,
    /// The least payload that is spread over several streams.
    pub parallel_min_bytes: usize,
    pub compression: Compression,
    pub compression_level: i32,
    /// The least payload that is compressed.
    pub compression_min_bytes: usize,
}

impl Default for SendOpts {
    fn default() -> (r: SendOpts)
        ensures
            r == (SendOpts {
                chunk_bytes: 262_144,
                parallelism: 1,
                parallel_min_bytes: 1_048_576,
                compression: Compression::Plain,
                compression_level: 3,
                compression_min_bytes: 65_536,
            }),
    {
        SendOpts {
            chunk_bytes: 262_144,
            parallelism: 1,
            parallel_min_bytes: 1_048_576,
            compression: Compression::Plain,
            compression_level: 3,
            compression_min_bytes: 65_536,
        }
    }
}

/// How many streams a payload is spread over: one, unless several are configured and it
/// is large enough; never more than it has bytes.
pub open spec fn parts_for(total_len: int, opts: SendOpts) -> int {
    if opts.parallelism <= 1 || total_len < opts.parallel_min_bytes {
        1
    } else {
        max_int(min_int(opts.parallelism as int, max_int(total_len, 1)), 1)
    }
}

/// How many streams a payload is spread over.
pub fn decide_parts(total_len: usize, opts: &SendOpts) -> (r: u32)
    requires
        parts_for(total_len as int, *opts) <= u32::MAX,
    ensures
        r == parts_for(total_len as int, *opts),
        r >= 1,
{
    if opts.parallelism <= 1 || total_len < opts.parallel_min_bytes {
        return 1;
    }
    let most: usize = if total_len > 1 {
        total_len
    } else {
        1
    };
    if opts.parallelism < most {
        opts.parallelism as u32
    } else {
        most as u32
    }
}

/// What is announced of a result before it is sent.
#[derive(Debug, Clone, PartialEq, Eq)]
pub struct ResultManifest {
    pub job_id: String,
    pub compression: Compression,
    pub uncompressed_len: u64,
    pub total_len: u64,
    pub parts: u32,
}

/// A result that is ready to be sent.
#[derive(Debug, Clone, PartialEq, Eq)]
pub struct Outgoing {
    pub manifest: ResultManifest,
    pub payload: Vec<u8>,
}

/// Encodes a serialized result, and announces it as it was encoded.
pub fn prepare(job_id: &String, raw: &[u8], opts: &SendOpts) -> (r: Outgoing)
    requires
        opts.parallelism <= u32::MAX,
        opts.compression == Compression::Lz4 ==> raw@.len() * 110 <= usize::MAX,
    ensures
        packs(
            opts.compression,
            opts.compression_level as int,
            opts.compression_min_bytes as nat,
            raw@,
            r.manifest.compression,
            r.payload@,
        ),
        r.manifest.job_id@ == job_id@,
        r.manifest.uncompressed_len == raw@.len(),
        r.manifest.total_len == r.payload@.len(),
        r.manifest.parts == parts_for(r.payload@.len() as int, *opts),
        (r.manifest.compression == Compression::Lz4 ==> raw@.len() <= u32::MAX) ==> comes_back(
            r.manifest.compression,
            raw@,
            r.payload@,
        ),
{
    let (compression, payload) = maybe_compress(
        opts.compression,
        opts.compression_level,
        opts.compression_min_bytes,
        raw,
    );
    let total_len: usize = payload.len();
    let parts: u32 = decide_parts(total_len, opts);
    Outgoing {
        manifest: ResultManifest {
            job_id: job_id.clone(),
            compression,
            uncompressed_len: raw.len() as u64,
            total_len: total_len as u64,
            parts,
        },
        payload,
    }
}

/// A piece of a result on a single stream.
#[derive(Debug, Clone, PartialEq, Eq)]
pub struct ResultChunk {
    pub seq: u32,
    pub last: bool,
    pub payload: Vec<u8>,
}

/// Whether `chunks` are the first `n` chunks of a payload, `size` bytes each.
pub open spec fn are_chunks(chunks: Seq<ResultChunk>, payload: Seq<u8>, size: int, n: int) -> bool {
    &&& chunks.len() == n
    &&& forall|i: int|
        0 <= i < n ==> {
            let c = #[trigger] chunks[i];
            &&& c.seq == i
            &&& c.payload@ == payload.subrange(
                i * size,
                min_int(i * size + size, payload.len() as int),
            )
            &&& c.last == (i * size + size >= payload.len())
        }
}

fn slice_copy(a: &[u8], from: usize, to: usize) -> (r: Vec<u8>)
    requires
        from <= to <= a@.len(),
    ensures
        r@ == a@.subrange(from as int, to as int),
{
    let mut r: Vec<u8> = Vec::new();
    let mut i: usize = from;
    while i < to
        invariant
            from <= i <= to <= a@.len(),
            r@ == a@.subrange(from as int, i as int),
        decreases to - i,
    {
        r.push(a[i]);
        i = i + 1;
        assert(r@ =~= a@.subrange(from as int, i as int));
    }
    r
}

/// The size of a chunk: as configured, but at least one byte.
pub open spec fn chunk_size(configured: usize) -> int {
    max_int(configured as int, 1)
}

/// Cuts a payload into chunks for a single stream. Only the last one says so.
pub fn inline_chunks(payload: &[u8], chunk_bytes: usize) -> (r: Vec<ResultChunk>)
    requires
        payload@.len() <= u32::MAX * chunk_size(chunk_bytes),
    ensures
        r@.len() > 0,
        are_chunks(r@, payload@, chunk_size(chunk_bytes), r@.len() as int),
        r@.last().last,
        forall|i: int| 0 <= i < r@.len() - 1 ==> !(#[trigger] r@[i]).last,
{
    let size: usize = if chunk_bytes == 0 {
        1
    } else {
        chunk_bytes
    };
    let total: usize = payload.len();
    let mut chunks: Vec<ResultChunk> = Vec::new();
    let mut offset: usize = 0;
    let mut seq: u32 = 0;
    let mut done = false;
    while !done
        invariant
            size == chunk_size(chunk_bytes),
            size > 0,
            total == payload@.len(),
            total <= u32::MAX * size,
            chunks@.len() == seq || (done && chunks@.len() == seq + 1),
            are_chunks(chunks@, payload@, size as int, chunks@.len() as int),
            forall|i: int| 0 <= i < chunks@.len() - 1 ==> !(#[trigger] chunks@[i]).last,
            !done ==> offset == seq * size && offset <= total && (seq > 0 ==> offset < total),
            !done ==> forall|i: int| 0 <= i < chunks@.len() ==> !(#[trigger] chunks@[i]).last,
            done ==> chunks@.len() > 0 && chunks@.last().last,
        decreases total - offset + (if done {
            0int
        } else {
            1
        }),
    {
        let ghost before = chunks@;
        let end: usize = if size <= total - offset {
            offset + size
        } else {
            total
        };
        let last = end >= total;
        let piece = slice_copy(payload, offset, end);
        chunks.push(ResultChunk { seq, last, payload: piece });
        assert(chunks@ =~= before.push(chunks@.last()));
        if last {
            done = true;
        } else {
            proof {
                assert((seq + 1) * size == seq * size + size) by (nonlinear_arith);
                assert(seq < u32::MAX) by (nonlinear_arith)
                    requires
                        seq * size + size < total,
                        total <= u32::MAX * size,
                        size > 0,
                        seq <= u32::MAX,
                ;
            }
            offset = end;
            seq = seq + 1;
        }
    }
    chunks
}

/// A header of a part that is sent on a stream of its own.
#[derive(Debug, Clone, PartialEq, Eq)]
pub struct ResultPart {
    pub index: u32,
    pub offset: u64,
    pub len: u64,
    pub payload: Vec<u8>,
}

/// How long the i-th of `parts` parts is: the remainder is spread over the first ones.
pub open spec fn part_len(total: int, parts: int, i: int) -> int {
    total / parts + (if i < total % parts {
        1int
    } else {
        0
    })
}

/// Where the i-th of `parts` parts begins.
pub open spec fn part_offset(total: int, parts: int, i: int) -> int {
    i * (total / parts) + min_int(i, total % parts)
}

/// The bytes of the i-th of `parts` parts.
pub open spec fn part_bytes(payload: Seq<u8>, parts: int, i: int) -> Seq<u8> {
    let total = payload.len() as int;
    payload.subrange(
        part_offset(total, parts, i),
        part_offset(total, parts, i) + part_len(total, parts, i),
    )
}

/// A part begins where the one before it ends, and the last one ends with the payload.
pub proof fn parts_are_adjacent(total: int, parts: int, i: int)
    requires
        0 <= total,
        0 < parts,
        0 <= i < parts,
    ensures
        part_offset(total, parts, 0) == 0,
        part_offset(total, parts, i + 1) == part_offset(total, parts, i) + part_len(
            total,
            parts,
            i,
        ),
        part_offset(total, parts, parts) == total,
        0 <= part_len(total, parts, i),
{
    let base = total / parts;
    let rem = total % parts;
    vstd::arithmetic::div_mod::lemma_fundamental_div_mod(total, parts);
    assert(0 <= rem < parts && 0 <= base) by (nonlinear_arith)
        requires
            base == total / parts,
            rem == total % parts,
            0 <= total,
            0 < parts,
    ;
    assert((i + 1) * base == i * base + base) by (nonlinear_arith);
    assert(0 * base == 0) by (nonlinear_arith);
    assert(parts * base + rem == total) by (nonlinear_arith)
        requires
            total == parts * base + rem,
    ;
}

/// Offsets lie within the payload.
proof fn offsets_in_range(total: int, parts: int, i: int)
    requires
        0 <= total,
        0 < parts,
        0 <= i <= parts,
    ensures
        0 <= part_offset(total, parts, i) <= total,
    decreases parts - i,
{
    if i < parts {
        parts_are_adjacent(total, parts, i);
        offsets_in_range(total, parts, i + 1);
        lower_bound(total, parts, i);
    } else {
        parts_are_adjacent(total, parts, parts - 1);
    }
}

proof fn lower_bound(total: int, parts: int, i: int)
    requires
        0 <= total,
        0 < parts,
        0 <= i <= parts,
    ensures
        0 <= part_offset(total, parts, i),
{
    let base = total / parts;
    assert(0 <= i * base) by (nonlinear_arith)
        requires
            0 <= i,
            base == total / parts,
            0 <= total,
            0 < parts,
    ;
    assert(0 <= total % parts) by (nonlinear_arith)
        requires
            0 < parts,
            0 <= total,
    ;
}

/// Cuts a payload into `parts` parts for as many streams.
pub fn split_parts(payload: &[u8], parts: u32) -> (r: Vec<ResultPart>)
    requires
        parts > 0,
    ensures
        r@.len() == parts,
        forall|i: int|
            0 <= i < parts ==> {
                let p = #[trigger] r@[i];
                &&& p.index == i
                &&& p.offset == part_offset(payload@.len() as int, parts as int, i)
                &&& p.len == part_len(payload@.len() as int, parts as int, i)
                &&& p.payload@ == part_bytes(payload@, parts as int, i)
            },
{
    let total: usize = payload.len();
    let base: u64 = total as u64 / parts as u64;
    let rem: u64 = total as u64 % parts as u64;
    let mut out: Vec<ResultPart> = Vec::new();
    let mut index: u32 = 0;
    let mut offset: usize = 0;
    proof {
        parts_are_adjacent(total as int, parts as int, 0);
    }
    while index < parts
        invariant
            index <= parts,
            0 < parts,
            total == payload@.len(),
            base == total as int / parts as int,
            rem == total as int % parts as int,
            offset == part_offset(total as int, parts as int, index as int),
            offset <= total,
            out@.len() == index,
            forall|i: int|
                0 <= i < index ==> {
                    let p = #[trigger] out@[i];
                    &&& p.index == i
                    &&& p.offset == part_offset(payload@.len() as int, parts as int, i)
                    &&& p.len == part_len(payload@.len() as int, parts as int, i)
                    &&& p.payload@ == part_bytes(payload@, parts as int, i)
                },
        decreases parts - index,
    {
        proof {
            parts_are_adjacent(total as int, parts as int, index as int);
            offsets_in_range(total as int, parts as int, index + 1);
        }
        let extra: u64 = if (index as u64) < rem {
            1
        } else {
            0
        };
        assert(base + extra <= total);
        let len: u64 = base + extra;
        let end: usize = offset + len as usize;
        let piece = slice_copy(payload, offset, end);
        out.push(ResultPart { index, offset: offset as u64, len, payload: piece });
        offset = end;
        index = index + 1;
    }
    out
}

/// The most that a receiver accepts.
#[derive(Debug, Clone, Copy, PartialEq, Eq, Structural)]
pub struct ReceiveLimits {
    /// The configured bounds.
    pub max_bytes: u64,
    pub max_parts: u32,
    /// The bounds that no configuration can exceed.
    pub absolute_bytes: u64,
    pub absolute_parts: u32,
}

impl ReceiveLimits {
    pub open spec fn bytes(self) -> int {
        min_int(self.max_bytes as int, self.absolute_bytes as int)
    }

    pub open spec fn parts(self) -> int {
        min_int(self.max_parts as int, self.absolute_parts as int)
    }

    /// Whether an announced result is within the limits and has at least one part.
    pub open spec fn admits(self, m: ResultManifest) -> bool {
        &&& 1 <= m.parts <= self.parts()
        &&& m.total_len <= self.bytes()
        &&& m.uncompressed_len <= self.bytes()
    }
}

/// Refuses an announced result that is outside the limits, before anything is allocated
/// for it.
pub fn check_manifest(m: &ResultManifest, limits: &ReceiveLimits) -> (r: Result<(), String>)
    ensures
        r is Ok <==> limits.admits(*m),
        r is Err ==> r->Err_0@ == "result manifest rejected: "@ + (if m.parts == 0 {
            "no parts"@
        } else if m.parts > limits.parts() {
            "too many parts"@
        } else if m.total_len > limits.bytes() {
            "total_len too large"@
        } else {
            "uncompressed_len too large"@
        }),
{
    let bytes: u64 = if limits.max_bytes < limits.absolute_bytes {
        limits.max_bytes
    } else {
        limits.absolute_bytes
    };
    let parts: u32 = if limits.max_parts < limits.absolute_parts {
        limits.max_parts
    } else {
        limits.absolute_parts
    };
    let why = if m.parts == 0 {
        "no parts"
    } else if m.parts > parts {
        "too many parts"
    } else if m.total_len > bytes {
        "total_len too large"
    } else if m.uncompressed_len > bytes {
        "uncompressed_len too large"
    } else {
        return Ok(());
    };
    Err(join("result manifest rejected: ", why))
}

/// A result that is being put together from the chunks of a single stream.
#[derive(Debug)]
pub struct InlineAssembly {
    total_len: u64,
    buf: Vec<u8>,
    expected_seq: u32,
}

/// `InlineAssembly` over mathematical values.
pub struct InlineView {
    pub total_len: u64,
    pub buf: Seq<u8>,
    pub expected_seq: u32,
}

impl View for InlineAssembly {
    type V = InlineView;

    closed spec fn view(&self) -> InlineView {
        InlineView {
            total_len: self.total_len,
            buf: self.buf@,
            expected_seq: self.expected_seq,
        }
    }
}

/// What comes of a chunk.
#[derive(Debug)]
pub enum InlineStep {
    /// More chunks are to come.
    More(InlineAssembly),
    /// The payload is complete.
    Complete(Vec<u8>),
}

/// Whether a chunk is the next one and fits the announced length.
pub open spec fn chunk_fits(a: InlineView, c: ResultChunk) -> bool {
    c.seq == a.expected_seq && a.buf.len() + c.payload@.len() <= a.total_len
}

impl InlineAssembly {
    #[verifier::type_invariant]
    spec fn inv(self) -> bool {
        self.buf@.len() <= self.total_len
    }

    pub fn new(total_len: u64) -> (r: InlineAssembly)
        ensures
            r@ == (InlineView { total_len, buf: Seq::empty(), expected_seq: 0 }),
    {
        let r = InlineAssembly { total_len, buf: Vec::new(), expected_seq: 0 };
        assert(r@.buf =~= Seq::empty());
        r
    }

    /// Takes the next chunk. One out of order, or beyond the announced length, ends the
    /// transfer.
    pub fn on_chunk(self, c: ResultChunk) -> (r: Result<InlineStep, String>)
        requires
            self@.expected_seq < u32::MAX || c.last,
        ensures
            r is Ok <==> chunk_fits(self@, c),
            r is Ok && c.last ==> r->Ok_0 is Complete && r->Ok_0->Complete_0@ == self@.buf
                + c.payload@,
            r is Ok && !c.last ==> r->Ok_0 is More && r->Ok_0->More_0@ == (InlineView {
                total_len: self@.total_len,
                buf: self@.buf + c.payload@,
                expected_seq: (self@.expected_seq + 1) as u32,
            }),
            r is Err ==> r->Err_0@ == (if c.seq != self@.expected_seq {
                "out-of-order chunk: expected "@ + decimal_seq(self@.expected_seq as nat)
                    + ", got "@ + decimal_seq(c.seq as nat)
            } else {
                "inline result exceeds declared total_len "@ + decimal_seq(
                    self@.total_len as nat,
                )
            }),
    {
        proof {
            use_type_invariant(&self);
        }
        if c.seq != self.expected_seq {
            let mut e = join(
                "out-of-order chunk: expected ",
                decimal(self.expected_seq as u64).as_str(),
            );
            e.append(", got ");
            e.append(decimal(c.seq as u64).as_str());
            return Err(e);
        }
        if c.payload.len() as u64 > self.total_len - self.buf.len() as u64 {
            return Err(
                join(
                    "inline result exceeds declared total_len ",
                    decimal(self.total_len).as_str(),
                ),
            );
        }
        let mut buf = self.buf;
        let mut payload = c.payload;
        let ghost start = buf@;
        let ghost piece = payload@;
        buf.append(&mut payload);
        assert(buf@ =~= start + piece);
        if c.last {
            Ok(InlineStep::Complete(buf))
        } else {
            Ok(
                InlineStep::More(
                    InlineAssembly {
                        total_len: self.total_len,
                        buf,
                        expected_seq: self.expected_seq + 1,
                    },
                ),
            )
        }
    }
}

/// The assembly after the chunks so far, none of which was the last.
pub open spec fn after_chunks(start: InlineView, chunks: Seq<ResultChunk>) -> InlineView
    decreases chunks.len(),
{
    if chunks.len() == 0 {
        start
    } else {
        let before = after_chunks(start, chunks.drop_last());
        InlineView {
            total_len: before.total_len,
            buf: before.buf + chunks.last().payload@,
            expected_seq: (before.expected_seq + 1) as u32,
        }
    }
}

/// An assembly that has seen no chunk.
pub open spec fn no_chunks(total_len: u64) -> InlineView {
    InlineView { total_len, buf: Seq::empty(), expected_seq: 0 }
}

/// What is sent as chunks comes back: the receiver takes every chunk of a payload whose
/// length was announced, and with the last one it holds the payload.
pub proof fn chunks_restore_the_payload(
    chunks: Seq<ResultChunk>,
    payload: Seq<u8>,
    size: int,
    total_len: u64,
    n: int,
)
    requires
        0 < size,
        total_len == payload.len(),
        are_chunks(chunks, payload, size, chunks.len() as int),
        forall|i: int| 0 <= i < chunks.len() - 1 ==> !(#[trigger] chunks[i]).last,
        chunks.last().last,
        0 <= n < chunks.len(),
    ensures
        chunk_fits(after_chunks(no_chunks(total_len), chunks.take(n)), chunks[n]),
        chunks[n].last <==> n == chunks.len() - 1,
        n == chunks.len() - 1 ==> after_chunks(no_chunks(total_len), chunks.take(n)).buf
            + chunks[n].payload@ == payload,
{
    taken_chunks(chunks, payload, size, total_len, n);
    let end = min_int(n * size + size, payload.len() as int);
    assert(payload.subrange(0, n * size) + payload.subrange(n * size, end) =~= payload.subrange(
        0,
        end,
    ));
    assert(payload.subrange(0, payload.len() as int) =~= payload);
}

/// After its first `n` chunks the receiver holds the payload's bytes up to there.
proof fn taken_chunks(
    chunks: Seq<ResultChunk>,
    payload: Seq<u8>,
    size: int,
    total_len: u64,
    n: int,
)
    requires
        0 < size,
        total_len == payload.len(),
        are_chunks(chunks, payload, size, chunks.len() as int),
        forall|i: int| 0 <= i < chunks.len() - 1 ==> !(#[trigger] chunks[i]).last,
        0 <= n < chunks.len(),
    ensures
        0 <= n * size <= payload.len(),
        after_chunks(no_chunks(total_len), chunks.take(n)) == (InlineView {
            total_len,
            buf: payload.subrange(0, n * size),
            expected_seq: n as u32,
        }),
        chunks[n].seq == n,
    decreases n,
{
    let start = no_chunks(total_len);
    if n == 0 {
        assert(0 * size == 0) by (nonlinear_arith);
        assert(after_chunks(start, chunks.take(0)).buf =~= payload.subrange(0, 0));
    } else {
        let i = n - 1;
        taken_chunks(chunks, payload, size, total_len, i);
        assert(!chunks[i].last);
        assert(i * size + size == n * size) by (nonlinear_arith)
            requires
                i == n - 1,
        ;
        let here = chunks.take(n);
        assert(here.drop_last() =~= chunks.take(i));
        assert(here.last() == chunks[i]);
        assert(payload.subrange(0, i * size) + payload.subrange(i * size, n * size)
            =~= payload.subrange(0, n * size));
        assert(chunks[i].seq == i);
    }
    assert(chunks[n].seq == n);
}

/// What reading a part gave must be as long as its header says.
pub fn check_part(index: u32, declared: u64, read: u64) -> (r: Result<(), String>)
    ensures
        r is Ok <==> declared == read,
        r is Err ==> r->Err_0@ == "part "@ + decimal_seq(index as nat)
            + " length mismatch: header "@ + decimal_seq(declared as nat) + " vs read "@
            + decimal_seq(read as nat),
{
    if declared == read {
        return Ok(());
    }
    let mut e = join("part ", decimal(index as u64).as_str());
    e.append(" length mismatch: header ");
    e.append(decimal(declared).as_str());
    e.append(" vs read ");
    e.append(decimal(read).as_str());
    Err(e)
}

/// A part as it arrived.
#[derive(Debug, Clone, PartialEq, Eq)]
pub struct ArrivedPart {
    pub offset: u64,
    pub payload: Vec<u8>,
}

/// `ArrivedPart` over mathematical values.
pub struct ArrivedView {
    pub offset: int,
    pub payload: Seq<u8>,
}

impl View for ArrivedPart {
    type V = ArrivedView;

    open spec fn view(&self) -> ArrivedView {
        ArrivedView { offset: self.offset as int, payload: self.payload@ }
    }
}

pub open spec fn arrived_views(v: Seq<ArrivedPart>) -> Seq<ArrivedView> {
    v.map_values(|p: ArrivedPart| p@)
}

/// A buffer with a part written over it.
pub open spec fn written(buf: Seq<u8>, p: ArrivedView) -> Seq<u8> {
    Seq::new(
        buf.len(),
        |k: int|
            if p.offset <= k < p.offset + p.payload.len() {
                p.payload[k - p.offset]
            } else {
                buf[k]
            },
    )
}

/// The buffer after the parts are written in their order of arrival; none where a part
/// overruns it.
pub open spec fn assembled(total: nat, parts: Seq<ArrivedView>) -> Option<Seq<u8>>
    decreases parts.len(),
{
    if parts.len() == 0 {
        Some(Seq::new(total, |k: int| 0u8))
    } else {
        match assembled(total, parts.drop_last()) {
            Some(buf) => if parts.last().offset + parts.last().payload.len() <= total {
                Some(written(buf, parts.last()))
            } else {
                None
            },
            None => None,
        }
    }
}

/// Parts that a part overruns are refused whatever comes after it.
proof fn stays_refused(total: nat, parts: Seq<ArrivedView>, n: int)
    requires
        0 <= n <= parts.len(),
        assembled(total, parts.take(n)) is None,
    ensures
        assembled(total, parts) is None,
    decreases parts.len() - n,
{
    if n < parts.len() {
        let next = parts.take(n + 1);
        assert(next.drop_last() =~= parts.take(n));
        stays_refused(total, parts, n + 1);
    } else {
        assert(parts.take(n) =~= parts);
    }
}

/// Puts a payload together from parts that arrived in any order.
pub fn assemble_parts(total_len: usize, parts: &[ArrivedPart]) -> (r: Result<Vec<u8>, String>)
    ensures
        r is Ok <==> assembled(total_len as nat, arrived_views(parts@)) is Some,
        r is Ok ==> r->Ok_0@ == assembled(total_len as nat, arrived_views(parts@))->0,
        r is Err ==> r->Err_0@ == "result part overruns declared payload length"@,
{
    let mut buf: Vec<u8> = Vec::new();
    let mut k: usize = 0;
    while k < total_len
        invariant
            k <= total_len,
            buf@ == Seq::new(k as nat, |q: int| 0u8),
        decreases total_len - k,
    {
        buf.push(0);
        k = k + 1;
        assert(buf@ =~= Seq::new(k as nat, |q: int| 0u8));
    }
    let ghost views = arrived_views(parts@);
    let mut i: usize = 0;
    assert(views.take(0) =~= Seq::empty());
    while i < parts.len()
        invariant
            i <= parts@.len(),
            views == arrived_views(parts@),
            buf@.len() == total_len,
            assembled(total_len as nat, views.take(i as int)) == Some(buf@),
        decreases parts@.len() - i,
    {
        proof {
            let next = views.take(i + 1);
            assert(next.drop_last() =~= views.take(i as int));
            assert(next.last() == parts@[i as int]@);
        }
        let part = &parts[i];
        let n: usize = part.payload.len();
        if n > total_len || part.offset > (total_len - n) as u64 {
            proof {
                assert(assembled(total_len as nat, views.take(i + 1)) is None);
                stays_refused(total_len as nat, views, i + 1);
            }
            return Err("result part overruns declared payload length".to_owned());
        }
        let offset: usize = part.offset as usize;
        let ghost before = buf@;
        let mut q: usize = 0;
        while q < n
            invariant
                q <= n,
                n == part.payload@.len(),
                offset + n <= total_len,
                buf@.len() == total_len,
                before.len() == total_len,
                forall|x: int|
                    0 <= x < total_len ==> #[trigger] buf@[x] == (if offset <= x < offset + q {
                        part.payload@[x - offset]
                    } else {
                        before[x]
                    }),
            decreases n - q,
        {
            buf.set(offset + q, part.payload[q]);
            q = q + 1;
        }
        assert(buf@ =~= written(before, part@));
        i = i + 1;
    }
    assert(views.take(i as int) =~= views);
    Ok(buf)
}

/// The i-th part of a payload as it arrives.
pub open spec fn sent_part(payload: Seq<u8>, parts: int, i: int) -> ArrivedView {
    ArrivedView {
        offset: part_offset(payload.len() as int, parts, i),
        payload: part_bytes(payload, parts, i),
    }
}

/// What is sent as parts comes back, in whatever order they arrive: once every part has
/// arrived the receiver holds the payload.
pub proof fn parts_restore_the_payload(payload: Seq<u8>, parts: int, order: Seq<int>)
    requires
        0 < parts,
        forall|i: int| 0 <= i < order.len() ==> 0 <= #[trigger] order[i] < parts,
        forall|p: int| 0 <= p < parts ==> order.contains(p),
    ensures
        assembled(payload.len(), order.map_values(|p: int| sent_part(payload, parts, p))) == Some(
            payload,
        ),
{
    let arrived = order.map_values(|p: int| sent_part(payload, parts, p));
    partial_assembly(payload, parts, order, order.len() as int);
    assert(arrived.take(order.len() as int) =~= arrived);
    let buf = assembled(payload.len(), arrived)->0;
    assert forall|k: int| 0 <= k < payload.len() implies buf[k] == payload[k] by {
        let p = covering_part(payload.len() as int, parts, k, 0);
        assert(order.contains(p));
        let j = choose|j: int| 0 <= j < order.len() && order[j] == p;
        assert(covers(payload.len() as int, parts, order[j], k));
    }
    assert(buf =~= payload);
}

/// Whether a part covers an index.
spec fn covers(total: int, parts: int, p: int, k: int) -> bool {
    part_offset(total, parts, p) <= k < part_offset(total, parts, p) + part_len(total, parts, p)
}

/// After the first `n` parts the indices that they cover hold the payload.
proof fn partial_assembly(payload: Seq<u8>, parts: int, order: Seq<int>, n: int)
    requires
        0 < parts,
        0 <= n <= order.len(),
        forall|i: int| 0 <= i < order.len() ==> 0 <= #[trigger] order[i] < parts,
    ensures
        ({
            let arrived = order.map_values(|p: int| sent_part(payload, parts, p));
            let buf = assembled(payload.len(), arrived.take(n));
            &&& buf is Some
            &&& buf->0.len() == payload.len()
            &&& forall|j: int, k: int|
                0 <= j < n && 0 <= k < payload.len() && #[trigger] covers(
                    payload.len() as int,
                    parts,
                    order[j],
                    k,
                ) ==> buf->0[k] == payload[k]
        }),
    decreases n,
{
    let total = payload.len() as int;
    let arrived = order.map_values(|p: int| sent_part(payload, parts, p));
    if n == 0 {
        assert(arrived.take(0) =~= Seq::empty());
    } else {
        partial_assembly(payload, parts, order, n - 1);
        let here = arrived.take(n);
        assert(here.drop_last() =~= arrived.take(n - 1));
        let p = order[n - 1];
        assert(here.last() == sent_part(payload, parts, p));
        parts_are_adjacent(total, parts, p);
        offsets_in_range(total, parts, p);
        offsets_in_range(total, parts, p + 1);
        let before = assembled(payload.len(), arrived.take(n - 1))->0;
        let buf = assembled(payload.len(), here)->0;
        assert forall|j: int, k: int|
            0 <= j < n && 0 <= k < payload.len() && #[trigger] covers(
                total,
                parts,
                order[j],
                k,
            ) implies buf[k] == payload[k] by {
            if !(part_offset(total, parts, p) <= k < part_offset(total, parts, p) + part_len(
                total,
                parts,
                p,
            )) {
                assert(j < n - 1);
                assert(before[k] == payload[k]);
            }
        }
    }
}

/// The part that covers an index, from the part `from` on.
proof fn covering_part(total: int, parts: int, k: int, from: int) -> (p: int)
    requires
        0 < parts,
        0 <= from < parts,
        part_offset(total, parts, from) <= k < total,
        0 <= total,
    ensures
        from <= p < parts,
        covers(total, parts, p, k),
    decreases parts - from,
{
    parts_are_adjacent(total, parts, from);
    if k < part_offset(total, parts, from + 1) {
        from
    } else {
        covering_part(total, parts, k, from + 1)
    }
}

/// Decodes a payload that was put together, as its announcement says.
pub fn finish_receive(m: &ResultManifest, payload: &[u8]) -> (r: Result<Vec<u8>, String>)
    requires
        m.uncompressed_len <= usize::MAX,
        decodable(m.compression, m.uncompressed_len as nat, payload@),
    ensures
        r is Ok <==> unpacked(m.compression, m.uncompressed_len as nat, payload@) is Ok,
        r is Ok ==> r->Ok_0@ == unpacked(
            m.compression,
            m.uncompressed_len as nat,
            payload@,
        )->Ok_0,
        r is Err ==> r->Err_0@ == unpacked(
            m.compression,
            m.uncompressed_len as nat,
            payload@,
        )->Err_0,
{
    decompress(m.compression, m.uncompressed_len as usize, payload)
}

/// A payload goes out on one stream unless several are configured and it is large enough;
/// then on as many as are configured, but none of them empty.
pub proof fn large_payloads_are_spread(total: int, opts: SendOpts)
    requires
        0 <= total,
    ensures
        opts.parallelism <= 1 || total < opts.parallel_min_bytes ==> parts_for(total, opts) == 1,
        opts.parallelism > 1 && total >= opts.parallel_min_bytes && total >= opts.parallelism
            ==> parts_for(total, opts) == opts.parallelism,
        opts.parallelism > 1 && total >= opts.parallel_min_bytes && 0 < total < opts.parallelism
            ==> parts_for(total, opts) == total,
        parts_for(total, opts) >= 1,
{
}

/// The parts of a payload are as long as each other, but for a byte, the longer ones first.
pub proof fn parts_are_even(total: int, parts: int, i: int, j: int)
    requires
        0 <= total,
        0 <= i <= j < parts,
    ensures
        part_len(total, parts, j) <= part_len(total, parts, i) <= part_len(total, parts, j) + 1,
{
}

/// A manifest is taken exactly where it announces a part at least, and no more parts or
/// bytes than the receiver allows nor than anybody may.
pub proof fn manifests_are_taken_within_the_limits(l: ReceiveLimits, m: ResultManifest)
    ensures
        l.admits(m) <==> {
            &&& 1 <= m.parts && m.parts <= l.max_parts && m.parts <= l.absolute_parts
            &&& m.total_len <= l.max_bytes && m.total_len <= l.absolute_bytes
            &&& m.uncompressed_len <= l.max_bytes && m.uncompressed_len <= l.absolute_bytes
        },
{
}

/// A chunk is taken exactly where it is the next one, and does not go beyond what was
/// announced.
pub proof fn chunks_are_taken_in_order(a: InlineView, c: ResultChunk)
    ensures
        chunk_fits(a, c) <==> c.seq == a.expected_seq && a.buf.len() + c.payload@.len()
            <= a.total_len,
{
}

/// Parts are put together exactly where none of them goes beyond what was announced.
pub proof fn parts_are_refused_beyond_the_end(total: nat, parts: Seq<ArrivedView>)
    ensures
        assembled(total, parts) is Some <==> forall|i: int|
            0 <= i < parts.len() ==> (#[trigger] parts[i]).offset + parts[i].payload.len() <= total,
        assembled(total, parts) is Some ==> assembled(total, parts)->0.len() == total,
    decreases parts.len(),
{
    if parts.len() > 0 {
        let rest = parts.drop_last();
        parts_are_refused_beyond_the_end(total, rest);
        assert(parts[parts.len() - 1] == parts.last());
        assert(forall|i: int| 0 <= i < rest.len() ==> #[trigger] rest[i] == parts[i]);
        if assembled(total, parts) is Some {
            assert forall|i: int| 0 <= i < parts.len() implies (#[trigger] parts[i]).offset
                + parts[i].payload.len() <= total by {
                if i < rest.len() {
                    assert(rest[i] == parts[i]);
                }
            }
        }
        if forall|i: int|
            0 <= i < parts.len() ==> (#[trigger] parts[i]).offset + parts[i].payload.len()
                <= total {
            assert forall|i: int| 0 <= i < rest.len() implies (#[trigger] rest[i]).offset
                + rest[i].payload.len() <= total by {
                assert(rest[i] == parts[i]);
            }
        }
    }
}

/// A part is written where it belongs, and nowhere else.
pub proof fn parts_are_written_in_place(buf: Seq<u8>, p: ArrivedView, k: int)
    requires
        0 <= k < buf.len(),
    ensures
        written(buf, p).len() == buf.len(),
        p.offset <= k < p.offset + p.payload.len() ==> written(buf, p)[k] == p.payload[k
            - p.offset],
        !(p.offset <= k < p.offset + p.payload.len()) ==> written(buf, p)[k] == buf[k],
{
}

/// Chunks have the configured size, a byte at least, and only the last may be shorter.
pub proof fn chunks_have_the_configured_size(
    chunks: Seq<ResultChunk>,
    payload: Seq<u8>,
    configured: usize,
    n: int,
    i: int,
)
    requires
        are_chunks(chunks, payload, chunk_size(configured), n),
        0 <= i < n,
        i * chunk_size(configured) <= payload.len(),
    ensures
        configured > 0 ==> chunk_size(configured) == configured,
        configured == 0 ==> chunk_size(configured) == 1,
        chunks[i].seq == i,
        !chunks[i].last ==> chunks[i].payload@.len() == chunk_size(configured),
        chunks[i].last ==> chunks[i].payload@.len() <= chunk_size(configured),
        chunks[i].last <==> (i + 1) * chunk_size(configured) >= payload.len(),
{
    let z = chunk_size(configured);
    assert(i * z + z == (i + 1) * z) by (nonlinear_arith);
    assert(0 <= i * z) by (nonlinear_arith)
        requires
            0 <= i,
            1 <= z,
    ;
}

} // verus!
