//! Optional compression of result payloads, and decompression bounded by the
//! declared length.

use vstd::prelude::*;
use crate::math::min_int;
use crate::text::{decimal, decimal_seq};

verus! {

/// The codec a payload is encoded with on the wire.
#[derive(Debug, Clone, Copy, PartialEq, Eq, Structural)]
pub enum Compression {
    /// Sent as it is.
    Plain,
    Lz4,
    Zstd,
}

/// The codec as it is written in configuration.
#[derive(Debug, Clone, Copy, PartialEq, Eq, Structural)]
pub enum CompressionAlgo {
    Plain,
    Lz4,
    Zstd,
}

pub fn algo_to_wire(algo: CompressionAlgo) -> (r: Compression)
    ensures
        r == (match algo {
            CompressionAlgo::Plain => Compression::Plain,
            CompressionAlgo::Lz4 => Compression::Lz4,
            CompressionAlgo::Zstd => Compression::Zstd,
        }),
{
    match algo {
        CompressionAlgo::Plain => Compression::Plain,
        CompressionAlgo::Lz4 => Compression::Lz4,
        CompressionAlgo::Zstd => Compression::Zstd,
    }
}

/// The four bytes of `b` from the front as a little-endian number.
pub open spec fn le_u32(b: Seq<u8>) -> int {
    b[0] + 256 * b[1] + 65536 * b[2] + 16777216 * b[3]
}

/// What `lz4_flex::decompress` makes of `block` when it may write `size` bytes: the
/// bytes, or the text of its error.
pub uninterp spec fn lz4_unpacked(block: Seq<u8>, size: nat) -> Result<Seq<u8>, Seq<char>>;

/// What `zstd::encode_all` makes of `data` at `level`, if it succeeds.
pub uninterp spec fn zstd_packed(data: Seq<u8>, level: int) -> Option<Seq<u8>>;

/// What a `zstd` stream decoder makes of `frame` when at most `limit` bytes are read
/// from it: the bytes, or whether it could be opened and the text of its error.
pub uninterp spec fn zstd_unpacked(frame: Seq<u8>, limit: nat) -> Result<Seq<u8>, (bool, Seq<char>)>;

/// Whether decoding gave back exactly `data`.
pub open spec fn restores<E>(decoded: Result<Seq<u8>, E>, data: Seq<u8>) -> bool {
    decoded is Ok && decoded->Ok_0 == data
}

/// Whether `bytes` are the length of `data` as four little-endian bytes, then a block
/// that decodes to `data`.
pub open spec fn lz4_holds(bytes: Seq<u8>, data: Seq<u8>) -> bool {
    &&& bytes.len() >= 4
    &&& le_u32(bytes) == data.len()
    &&& restores(lz4_unpacked(bytes.subrange(4, bytes.len() as int), data.len()), data)
}

/// The bytes that extend a length in a block.
pub struct Extension {
    /// Their sum.
    pub sum: int,
    /// The index after them.
    pub end: int,
    /// Whether they end before the block does.
    pub complete: bool,
}

/// The bytes that extend a length from `i` on: any number of bytes `255`, and one that
/// is less.
pub open spec fn extension(block: Seq<u8>, i: int) -> Extension
    decreases block.len() - i,
{
    if i >= block.len() {
        Extension { sum: 0, end: i, complete: false }
    } else if block[i] == 255 {
        let rest = extension(block, i + 1);
        Extension { sum: 255 + rest.sum, ..rest }
    } else {
        Extension { sum: block[i] as int, end: i + 1, complete: true }
    }
}

/// The extension of a length whose own four bits are `nibble`: only the largest value
/// is extended.
pub open spec fn extended(block: Seq<u8>, nibble: int, i: int) -> Extension {
    if nibble == 15 {
        extension(block, i)
    } else {
        Extension { sum: 0, end: i, complete: true }
    }
}

proof fn extension_bounds(block: Seq<u8>, i: int)
    ensures
        i <= extension(block, i).end,
        extension(block, i).complete ==> i < extension(block, i).end <= block.len(),
        0 <= extension(block, i).sum,
        i <= block.len() ==> extension(block, i).sum <= 255 * (block.len() - i),
        !extension(block, i).complete && i <= block.len() ==> extension(block, i).end
            == block.len(),
    decreases block.len() - i,
{
    if i < block.len() && block[i] == 255 {
        extension_bounds(block, i + 1);
    }
}

/// Whether the lengths in a block can be added up by a decoder that is at `i` and has
/// written `out` of at most `size` bytes: an extension in 32 bits, and what it extends
/// with what is written in the machine's word. Behind a point where the decoder stops
/// nothing matters.
pub open spec fn lengths_fit(block: Seq<u8>, size: int, i: int, out: int) -> bool
    decreases block.len() - i,
    via lengths_fit_decreases
{
    if i >= block.len() {
        true
    } else {
        let token = block[i] as int;
        let l = extended(block, token / 16, i + 1);
        let at = l.end + token / 16 + l.sum;
        let written = out + token / 16 + l.sum;
        if l.sum > u32::MAX || (l.complete && token / 16 + l.sum > usize::MAX) {
            false
        } else if !l.complete || written > size || at + 2 > block.len() || (block[at] == 0
            && block[at + 1] == 0) {
            true
        } else {
            let m = extended(block, token % 16, at + 2);
            let next = written + 4 + token % 16 + m.sum;
            if m.sum > u32::MAX || (m.complete && next > usize::MAX) {
                false
            } else if !m.complete || next > size || block[at] + 256 * block[at + 1] > written {
                true
            } else {
                lengths_fit(block, size, m.end, next)
            }
        }
    }
}

#[via_fn]
proof fn lengths_fit_decreases(block: Seq<u8>, size: int, i: int, out: int) {
    if i < block.len() {
        let token = block[i] as int;
        extension_bounds(block, i + 1);
        let l = extended(block, token / 16, i + 1);
        let at = l.end + token / 16 + l.sum;
        extension_bounds(block, at + 2);
    }
}

/// `lz4_flex::compress_prepend_size`: the length of `data` as four little-endian
/// bytes, then a block that `lz4_flex::decompress` turns back into `data`. The lengths in
/// the block are those of pieces of `data`, so they add up to no more than its length.
/// Which block it is depends on the machine's word size. The length does not fit its
/// four bytes from 4 GiB on, so nothing is claimed there.
#[verifier::external_body]
fn lz4_compress(data: &[u8]) -> (r: Vec<u8>)
    requires
        data@.len() * 110 <= usize::MAX,
    ensures
        data@.len() <= u32::MAX ==> lz4_holds(r@, data@) && lengths_fit(
            r@.subrange(4, r@.len() as int),
            data@.len() as int,
            0,
            0,
        ),
{
    lz4_flex::compress_prepend_size(data)
}

/// `lz4_flex::decompress`: the bytes of a block, never more than `size`, or an error
/// whose text is handed on. A block that holds more than `size` bytes is such an error.
/// The decoder adds the lengths in a block up unchecked, so blocks with lengths too large
/// for that are left out.
#[verifier::external_body]
fn lz4_decompress(block: &[u8], size: usize) -> (r: Result<Vec<u8>, String>)
    requires
        size <= isize::MAX,
        lengths_fit(block@, size as int, 0, 0),
    ensures
        r is Ok <==> lz4_unpacked(block@, size as nat) is Ok,
        r is Ok ==> r->Ok_0@ == lz4_unpacked(block@, size as nat)->Ok_0 && r->Ok_0@.len() <= size,
        r is Err ==> r->Err_0@ == lz4_unpacked(block@, size as nat)->Err_0,
{
    lz4_flex::decompress(block, size).map_err(|e| e.to_string())
}

/// `zstd::encode_all`: a frame that the stream decoder turns back into `data`, or into
/// its beginning where fewer bytes are read from it; `None` where encoding fails.
#[verifier::external_body]
fn zstd_encode(data: &[u8], level: i32) -> (r: Option<Vec<u8>>)
    ensures
        r is Some <==> zstd_packed(data@, level as int) is Some,
        r is Some ==> r->0@ == zstd_packed(data@, level as int)->0,
        r is Some ==> forall|limit: nat|
            restores(
                #[trigger] zstd_unpacked(r->0@, limit),
                data@.take(min_int(limit as int, data@.len() as int)),
            ),
{
    zstd::encode_all(data, level).ok()
}

/// Why a frame could not be decoded.
#[derive(Debug, Clone, PartialEq, Eq)]
struct ZstdFailure {
    /// The decoder was opened; reading from it failed.
    opened: bool,
    text: String,
}

/// `zstd::stream::read::Decoder`, read to its end or to `limit` bytes: the bytes,
/// never more than `limit`, or an error whose text is handed on with the step that
/// failed.
#[verifier::external_body]
fn zstd_decode(frame: &[u8], limit: u64) -> (r: Result<Vec<u8>, ZstdFailure>)
    ensures
        r is Ok <==> zstd_unpacked(frame@, limit as nat) is Ok,
        r is Ok ==> r->Ok_0@ == zstd_unpacked(frame@, limit as nat)->Ok_0 && r->Ok_0@.len()
            <= limit,
        r is Err ==> (r->Err_0.opened, r->Err_0.text@) == zstd_unpacked(frame@, limit as nat)->Err_0,
{
    let decoder = zstd::stream::read::Decoder::new(frame)
        .map_err(|e| ZstdFailure { opened: false, text: e.to_string() })?;
    let mut out = Vec::new();
    std::io::Read::read_to_end(&mut std::io::Read::take(decoder, limit), &mut out)
        .map_err(|e| ZstdFailure { opened: true, text: e.to_string() })?;
    Ok(out)
}

fn copy_bytes(a: &[u8]) -> (r: Vec<u8>)
    ensures
        r@ == a@,
{
    copy_from(a, 0)
}

fn copy_from(a: &[u8], from: usize) -> (r: Vec<u8>)
    requires
        from <= a@.len(),
    ensures
        r@ == a@.subrange(from as int, a@.len() as int),
{
    let mut r: Vec<u8> = Vec::new();
    let mut i: usize = from;
    while i < a.len()
        invariant
            from <= i <= a@.len(),
            r@ == a@.subrange(from as int, i as int),
        decreases a@.len() - i,
    {
        r.push(a[i]);
        i = i + 1;
        assert(r@ =~= a@.subrange(from as int, i as int));
    }
    r
}

/// Whether `applied` and `bytes` are what is sent for `data`. From 4 GiB on, LZ4 has no
/// room for the length, and nothing is said of the bytes.
pub open spec fn packs(
    codec: Compression,
    level: int,
    min_size: nat,
    data: Seq<u8>,
    applied: Compression,
    bytes: Seq<u8>,
) -> bool {
    if codec == Compression::Plain || data.len() < min_size {
        applied == Compression::Plain && bytes == data
    } else if codec == Compression::Lz4 {
        applied == Compression::Lz4 && (data.len() <= u32::MAX ==> lz4_holds(bytes, data))
    } else {
        match zstd_packed(data, level) {
            Some(out) => applied == Compression::Zstd && bytes == out,
            None => applied == Compression::Plain && bytes == data,
        }
    }
}

/// Whether the receiver gets `data` back from what was sent for it, and refuses to take
/// an encoded payload for a shorter one.
pub open spec fn comes_back(applied: Compression, data: Seq<u8>, bytes: Seq<u8>) -> bool {
    &&& decodable(applied, data.len(), bytes)
    &&& restores(unpacked(applied, data.len(), bytes), data)
    &&& applied != Compression::Plain ==> forall|n: nat|
        n < data.len() ==> decodable(applied, n, bytes) && (#[trigger] unpacked(
            applied,
            n,
            bytes,
        )) is Err
}

/// Compress `data` with `codec` where it is at least `min_size_bytes` long; a smaller
/// payload, and one that fails to encode, goes out as it is.
pub fn maybe_compress(
    codec: Compression,
    level: i32,
    min_size_bytes: usize,
    data: &[u8],
) -> (r: (Compression, Vec<u8>))
    requires
        codec == Compression::Lz4 ==> data@.len() * 110 <= usize::MAX,
    ensures
        packs(codec, level as int, min_size_bytes as nat, data@, r.0, r.1@),
        (r.0 == Compression::Lz4 ==> data@.len() <= u32::MAX) ==> comes_back(r.0, data@, r.1@),
{
    if codec == Compression::Plain || data.len() < min_size_bytes {
        let out = copy_bytes(data);
        assert(data@.subrange(0, data@.len() as int) =~= data@);
        return (Compression::Plain, out);
    }
    match codec {
        Compression::Lz4 => (Compression::Lz4, lz4_compress(data)),
        _ => match zstd_encode(data, level) {
            Some(out) => {
                proof {
                    let len = data@.len();
                    assert(data@.take(len as int) =~= data@);
                    assert(restores(zstd_unpacked(out@, zstd_limit(len)), data@));
                    assert forall|n: nat| n < len implies (#[trigger] unpacked(
                        Compression::Zstd,
                        n,
                        out@,
                    )) is Err by {
                        assert(restores(
                            zstd_unpacked(out@, zstd_limit(n)),
                            data@.take(n as int + 1),
                        ));
                    }
                }
                (Compression::Zstd, out)
            },
            None => {
                let out = copy_bytes(data);
                assert(data@.subrange(0, data@.len() as int) =~= data@);
                (Compression::Plain, out)
            },
        },
    }
}

/// How many bytes are read from a frame declared to hold `len`: one more, so that a
/// longer one shows.
pub open spec fn zstd_limit(len: nat) -> nat {
    if len < usize::MAX {
        len + 1
    } else {
        usize::MAX as nat
    }
}

pub open spec fn lz4_too_long(prepended: nat, len: nat) -> Seq<char> {
    "lz4 prepended size "@ + decimal_seq(prepended) + " exceeds declared uncompressed_len "@
        + decimal_seq(len)
}

pub open spec fn zstd_too_long(len: nat) -> Seq<char> {
    "zstd output exceeds declared uncompressed_len "@ + decimal_seq(len)
}

/// What the receiver makes of `data` encoded with `codec` and declared to hold `len`
/// bytes.
pub open spec fn unpacked(codec: Compression, len: nat, data: Seq<u8>) -> Result<
    Seq<u8>,
    Seq<char>,
> {
    match codec {
        Compression::Plain => Ok(data),
        Compression::Lz4 => if data.len() < 4 {
            Err("lz4 decompress: truncated size prefix"@)
        } else if le_u32(data) > len {
            Err(lz4_too_long(le_u32(data) as nat, len))
        } else {
            match lz4_unpacked(data.subrange(4, data.len() as int), le_u32(data) as nat) {
                Ok(out) => Ok(out),
                Err(e) => Err("lz4 decompress: "@ + e),
            }
        },
        Compression::Zstd => match zstd_unpacked(data, zstd_limit(len)) {
            Ok(out) => if out.len() > len {
                Err(zstd_too_long(len))
            } else {
                Ok(out)
            },
            Err((opened, e)) => if opened {
                Err("zstd decompress: "@ + e)
            } else {
                Err("zstd decoder: "@ + e)
            },
        },
    }
}

/// Whether `data` can be decoded on this machine: what it declares fits the address
/// space, and its lengths can be added up.
pub open spec fn decodable(codec: Compression, len: nat, data: Seq<u8>) -> bool {
    codec == Compression::Lz4 && data.len() >= 4 && le_u32(data) <= len ==> le_u32(data)
        <= isize::MAX && lengths_fit(data.subrange(4, data.len() as int), le_u32(data), 0, 0)
}

struct Extra {
    sum: u128,
    end: usize,
    complete: bool,
}

fn read_extra(block: &[u8], nibble: u8, from: usize) -> (r: Extra)
    requires
        from <= block@.len(),
    ensures
        r.sum == extended(block@, nibble as int, from as int).sum,
        r.end == extended(block@, nibble as int, from as int).end,
        r.complete == extended(block@, nibble as int, from as int).complete,
        from <= r.end <= block@.len(),
        r.sum <= 255 * (block@.len() - from),
{
    proof {
        extension_bounds(block@, from as int);
    }
    if nibble != 15 {
        return Extra { sum: 0, end: from, complete: true };
    }
    let n: usize = block.len();
    let mut sum: u128 = 0;
    let mut i: usize = from;
    while i < n && block[i] == 255
        invariant
            from <= i <= n,
            n == block@.len(),
            sum == 255 * (i - from),
            sum + extension(block@, i as int).sum == extension(block@, from as int).sum,
            extension(block@, i as int).end == extension(block@, from as int).end,
            extension(block@, i as int).complete == extension(block@, from as int).complete,
        decreases n - i,
    {
        sum = sum + 255;
        i = i + 1;
    }
    if i < n {
        Extra { sum: sum + block[i] as u128, end: i + 1, complete: true }
    } else {
        Extra { sum, end: i, complete: false }
    }
}

/// Whether the lengths in a block can be added up.
fn fitting_lengths(block: &[u8], size: usize) -> (r: bool)
    ensures
        r == lengths_fit(block@, size as int, 0, 0),
{
    let n: usize = block.len();
    let mut i: usize = 0;
    let mut out: u128 = 0;
    while i < n
        invariant
            i <= n,
            n == block@.len(),
            out <= size,
            lengths_fit(block@, size as int, i as int, out as int) == lengths_fit(
                block@,
                size as int,
                0,
                0,
            ),
        decreases n - i,
    {
        let literal: u8 = block[i] / 16;
        let copied: u8 = block[i] % 16;
        let l = read_extra(block, literal, i + 1);
        let length: u128 = literal as u128 + l.sum;
        if l.sum > u32::MAX as u128 || (l.complete && length > usize::MAX as u128) {
            return false;
        }
        let written: u128 = out + length;
        if !l.complete || written > size as u128 || length + 2 > (n - l.end) as u128 {
            return true;
        }
        let at: usize = l.end + length as usize;
        let offset: u128 = block[at] as u128 + 256 * block[at + 1] as u128;
        if offset == 0 {
            return true;
        }
        let m = read_extra(block, copied, at + 2);
        let next: u128 = written + 4 + copied as u128 + m.sum;
        if m.sum > u32::MAX as u128 || (m.complete && next > usize::MAX as u128) {
            return false;
        }
        if !m.complete || next > size as u128 || offset > written {
            return true;
        }
        i = m.end;
        out = next;
    }
    true
}

/// Whether `data` can be decoded on this machine.
pub fn can_decode(codec: Compression, uncompressed_len: usize, data: &[u8]) -> (r: bool)
    ensures
        r == decodable(codec, uncompressed_len as nat, data@),
{
    if codec != Compression::Lz4 || data.len() < 4 {
        return true;
    }
    let prepended: u64 = prepended_size(data);
    if prepended > uncompressed_len as u64 {
        return true;
    }
    if prepended > isize::MAX as u64 {
        return false;
    }
    let block = copy_from(data, 4);
    fitting_lengths(&block, prepended as usize)
}

fn prepended_size(data: &[u8]) -> (r: u64)
    requires
        data@.len() >= 4,
    ensures
        r == le_u32(data@),
        r <= u32::MAX,
{
    data[0] as u64 + 256 * data[1] as u64 + 65536 * data[2] as u64 + 16777216 * data[3] as u64
}

/// Decompress `data`, declared to hold `uncompressed_len` bytes. A sender that
/// declares less than its payload holds is refused before more than the declared
/// length is allocated.
pub fn decompress(codec: Compression, uncompressed_len: usize, data: &[u8]) -> (r: Result<
    Vec<u8>,
    String,
>)
    requires
        decodable(codec, uncompressed_len as nat, data@),
    ensures
        r is Ok <==> unpacked(codec, uncompressed_len as nat, data@) is Ok,
        r is Ok ==> r->Ok_0@ == unpacked(codec, uncompressed_len as nat, data@)->Ok_0,
        r is Err ==> r->Err_0@ == unpacked(codec, uncompressed_len as nat, data@)->Err_0,
        r is Ok && codec != Compression::Plain ==> r->Ok_0@.len() <= uncompressed_len,
{
    match codec {
        Compression::Plain => {
            let out = copy_bytes(data);
            assert(data@.subrange(0, data@.len() as int) =~= data@);
            Ok(out)
        },
        Compression::Lz4 => {
            if data.len() < 4 {
                return Err("lz4 decompress: truncated size prefix".to_owned());
            }
            let prepended: u64 = prepended_size(data);
            if prepended > uncompressed_len as u64 {
                let mut e = "lz4 prepended size ".to_owned();
                e.append(decimal(prepended).as_str());
                e.append(" exceeds declared uncompressed_len ");
                e.append(decimal(uncompressed_len as u64).as_str());
                return Err(e);
            }
            let block = copy_from(data, 4);
            match lz4_decompress(&block, prepended as usize) {
                Ok(out) => Ok(out),
                Err(text) => {
                    let mut e = "lz4 decompress: ".to_owned();
                    e.append(text.as_str());
                    Err(e)
                },
            }
        },
        Compression::Zstd => {
            let limit: usize = uncompressed_len.saturating_add(1);
            let out = match zstd_decode(data, limit as u64) {
                Ok(out) => out,
                Err(failure) => {
                    let mut e = if failure.opened {
                        "zstd decompress: ".to_owned()
                    } else {
                        "zstd decoder: ".to_owned()
                    };
                    e.append(failure.text.as_str());
                    return Err(e);
                },
            };
            if out.len() > uncompressed_len {
                let mut e = "zstd output exceeds declared uncompressed_len ".to_owned();
                e.append(decimal(uncompressed_len as u64).as_str());
                return Err(e);
            }
            Ok(out)
        },
    }
}

/// A payload is left as it is where no codec is asked for or it is too small, and otherwise
/// has the codec that was asked for; only a frame that could not be made leaves it plain.
pub proof fn payloads_have_the_codec_asked_for(
    codec: Compression,
    level: int,
    min_size: nat,
    data: Seq<u8>,
    applied: Compression,
    bytes: Seq<u8>,
)
    requires
        packs(codec, level, min_size, data, applied, bytes),
    ensures
        applied == Compression::Plain ==> bytes == data,
        codec == Compression::Plain || data.len() < min_size ==> applied == Compression::Plain,
        codec == Compression::Lz4 && data.len() >= min_size ==> applied == Compression::Lz4,
        codec == Compression::Zstd && data.len() >= min_size ==> (applied == Compression::Zstd
            <==> zstd_packed(data, level) is Some),
        applied == Compression::Zstd ==> zstd_packed(data, level) == Some(bytes),
{
}

/// A plain payload is what it is; a frame gives at most what was declared, and says so
/// otherwise; a block that declares more than that is never opened.
pub proof fn no_more_is_unpacked_than_declared(codec: Compression, len: nat, data: Seq<u8>)
    requires
        len < usize::MAX,
    ensures
        codec == Compression::Plain ==> unpacked(codec, len, data) == Ok::<Seq<u8>, Seq<char>>(data),
        codec == Compression::Zstd && unpacked(codec, len, data) is Ok ==> unpacked(
            codec,
            len,
            data,
        )->Ok_0.len() <= len && zstd_unpacked(data, len + 1) is Ok,
        codec == Compression::Zstd && zstd_unpacked(data, len + 1) is Ok && zstd_unpacked(
            data,
            len + 1,
        )->Ok_0.len() > len ==> unpacked(codec, len, data) == Err::<Seq<u8>, Seq<char>>(
            "zstd output exceeds declared uncompressed_len "@ + decimal_seq(len),
        ),
        codec == Compression::Lz4 && data.len() < 4 ==> unpacked(codec, len, data) == Err::<
            Seq<u8>,
            Seq<char>,
        >("lz4 decompress: truncated size prefix"@),
        codec == Compression::Lz4 && data.len() >= 4 && data[0] + 256 * data[1] + 65536 * data[2]
            + 16777216 * data[3] > len ==> unpacked(codec, len, data) == Err::<Seq<u8>, Seq<char>>(
            "lz4 prepended size "@ + decimal_seq(
                (data[0] + 256 * data[1] + 65536 * data[2] + 16777216 * data[3]) as nat,
            ) + " exceeds declared uncompressed_len "@ + decimal_seq(len),
        ),
{
}

/// A length is read from the bytes that it is written in, the lowest first.
pub proof fn lengths_are_little_endian(n: u32, rest: Seq<u8>)
    ensures
        le_u32(
            seq![
                (n % 256) as u8,
                (n / 256 % 256) as u8,
                (n / 65536 % 256) as u8,
                (n / 16777216) as u8,
            ] + rest,
        ) == n,
{
    assert(n == n % 256 + 256 * (n / 256 % 256) + 65536 * (n / 65536 % 256) + 16777216 * (n
        / 16777216)) by (nonlinear_arith);
}

/// A payload that was packed comes back as it was when its own length is declared, and is
/// refused when less is, unless it was left plain.
pub proof fn packed_payloads_come_back(
    codec: Compression,
    level: i32,
    min_size: usize,
    data: &[u8],
    packed: (Compression, Vec<u8>),
    bytes: &[u8],
    len: usize,
    short: usize,
    back: Result<Vec<u8>, String>,
    refused: Result<Vec<u8>, String>,
)
    requires
        codec == Compression::Lz4 ==> data@.len() * 110 <= usize::MAX && data@.len() <= u32::MAX,
        call_ensures(maybe_compress, (codec, level, min_size, data), packed),
        bytes@ == packed.1@,
        len == data@.len(),
        short < len,
        call_ensures(decompress, (packed.0, len, bytes), back),
        call_ensures(decompress, (packed.0, short, bytes), refused),
    ensures
        back is Ok && back->Ok_0@ == data@,
        packed.0 != Compression::Plain ==> refused is Err,
{
    assert(packs(codec, level as int, min_size as nat, data@, packed.0, packed.1@));
    assert(comes_back(packed.0, data@, packed.1@));
    assert(packed.0 != Compression::Plain ==> unpacked(packed.0, short as nat, bytes@) is Err);
}

/// A length in a block is extended by bytes of 255, as many as there are, and the one behind
/// them.
pub proof fn extensions_add_up(block: Seq<u8>, i: int, n: nat)
    requires
        0 <= i,
        i + n < block.len(),
        forall|k: int| i <= k < i + n ==> #[trigger] block[k] == 255,
        block[i + n] != 255,
    ensures
        extension(block, i) == (Extension {
            sum: 255 * n + block[i + n],
            end: i + n + 1,
            complete: true,
        }),
    decreases n,
{
    if n > 0 {
        extensions_add_up(block, i + 1, (n - 1) as nat);
    }
}

} // verus!
