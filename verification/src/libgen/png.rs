//! Minimal PNG encoder using "stored" deflate blocks: a valid cover with
//! predictable bytes, not a small one.
use vstd::prelude::*;

verus! {

/// The eight bytes every PNG starts with.
pub const SIGNATURE: [u8; 8] = [0x89, 0x50, 0x4E, 0x47, 0x0D, 0x0A, 0x1A, 0x0A];

pub open spec fn signature() -> Seq<u8> {
    seq![0x89u8, 0x50u8, 0x4Eu8, 0x47u8, 0x0Du8, 0x0Au8, 0x1Au8, 0x0Au8]
}

/// Reflected CRC-32 polynomial.
pub const CRC_POLY: u32 = 0xEDB8_8320;

/// `k` shift steps of the bitwise CRC-32 register.
pub open spec fn crc_shift(crc: u32, k: nat) -> u32
    decreases k,
{
    if k == 0 {
        crc
    } else {
        let mask: u32 = if crc & 1 == 1 { 0xFFFF_FFFFu32 } else { 0u32 };
        crc_shift((crc >> 1u32) ^ (CRC_POLY & mask), (k - 1) as nat)
    }
}

/// The CRC-32 register after feeding `data` into `crc`.
pub open spec fn crc_feed(crc: u32, data: Seq<u8>) -> u32
    decreases data.len(),
{
    if data.len() == 0 {
        crc
    } else {
        crc_feed(crc_shift(crc ^ (data[0] as u32), 8), data.drop_first())
    }
}

/// CRC-32 (IEEE) of `data`.
pub open spec fn crc32_spec(data: Seq<u8>) -> u32 {
    !crc_feed(!0u32, data)
}

pub const ADLER_MOD: u32 = 65521;

/// The Adler-32 pair `(a, b)` after `data`.
pub open spec fn adler_feed(a: u32, b: u32, data: Seq<u8>) -> (u32, u32)
    decreases data.len(),
{
    if data.len() == 0 {
        (a, b)
    } else {
        let a2 = ((a + data[0]) % (ADLER_MOD as int)) as u32;
        let b2 = ((b + a2) % (ADLER_MOD as int)) as u32;
        adler_feed(a2, b2, data.drop_first())
    }
}

pub open spec fn adler32_spec(data: Seq<u8>) -> u32 {
    let (a, b) = adler_feed(1, 0, data);
    ((b << 16u32) | a) as u32
}

pub open spec fn be32(x: u32) -> Seq<u8> {
    seq![(x >> 24u32) as u8, (x >> 16u32) as u8, (x >> 8u32) as u8, x as u8]
}

pub open spec fn le16(x: u16) -> Seq<u8> {
    seq![x as u8, (x >> 8u16) as u8]
}

/// A PNG chunk: length, kind, payload, CRC of kind and payload.
pub open spec fn chunk_spec(kind: Seq<u8>, payload: Seq<u8>) -> Seq<u8> {
    let len: u32 = if payload.len() <= u32::MAX { payload.len() as u32 } else { u32::MAX };
    be32(len) + kind + payload + be32(crc32_spec(kind + payload))
}

pub const STORED_MAX: usize = 65535;

/// One stored block with its header.
pub open spec fn stored_block(block: Seq<u8>, last: bool) -> Seq<u8> {
    let len = block.len() as u16;
    seq![if last { 1u8 } else { 0u8 }] + le16(len) + le16(!len) + block
}

/// `raw` cut into stored blocks of at most 65535 bytes, the last one flagged.
pub open spec fn stored_blocks(raw: Seq<u8>) -> Seq<u8>
    decreases raw.len(),
{
    if raw.len() == 0 {
        Seq::empty()
    } else if raw.len() <= STORED_MAX {
        stored_block(raw, true)
    } else {
        stored_block(raw.take(STORED_MAX as int), false) + stored_blocks(raw.skip(STORED_MAX as int))
    }
}

/// A zlib stream of stored blocks.
pub open spec fn zlib_stored_spec(raw: Seq<u8>) -> Seq<u8> {
    seq![0x78u8, 0x01u8] + stored_blocks(raw) + be32(adler32_spec(raw))
}

fn crc32(data: &[u8]) -> (r: u32)
    ensures
        r == crc32_spec(data@),
{
    let mut crc: u32 = !0u32;
    let mut i: usize = 0;
    assert(data@.skip(0) =~= data@);
    while i < data.len()
        invariant
            i <= data.len(),
            crc_feed(crc, data@.skip(i as int)) == crc_feed(!0u32, data@),
        decreases data.len() - i,
    {
        proof {
            assert(data@.skip(i as int).drop_first() =~= data@.skip(i + 1));
        }
        crc ^= data[i] as u32;
        let mut k: u32 = 0;
        let ghost start = crc;
        while k < 8
            invariant
                k <= 8,
                crc_shift(crc, (8 - k) as nat) == crc_shift(start, 8),
            decreases 8 - k,
        {
            let bit = crc & 1;
            let mask = 0u32.wrapping_sub(bit);
            proof {
                assert((crc & 1) == 1 || (crc & 1) == 0) by (bit_vector);
            }
            crc = (crc >> 1) ^ (CRC_POLY & mask);
            k += 1;
        }
        i += 1;
    }
    assert(data@.skip(data.len() as int) =~= Seq::<u8>::empty());
    !crc
}

fn adler32(data: &[u8]) -> (r: u32)
    ensures
        r == adler32_spec(data@),
{
    let mut a: u32 = 1;
    let mut b: u32 = 0;
    let mut i: usize = 0;
    assert(data@.skip(0) =~= data@);
    while i < data.len()
        invariant
            i <= data.len(),
            a < ADLER_MOD,
            b < ADLER_MOD,
            adler_feed(a, b, data@.skip(i as int)) == adler_feed(1, 0, data@),
        decreases data.len() - i,
    {
        proof {
            assert(data@.skip(i as int).drop_first() =~= data@.skip(i + 1));
        }
        a = (a + data[i] as u32) % ADLER_MOD;
        b = (b + a) % ADLER_MOD;
        i += 1;
    }
    assert(data@.skip(data.len() as int) =~= Seq::<u8>::empty());
    (b << 16) | a
}

fn push_be32(out: &mut Vec<u8>, x: u32)
    ensures
        final(out)@ == old(out)@ + be32(x),
{
    out.push((x >> 24) as u8);
    out.push((x >> 16) as u8);
    out.push((x >> 8) as u8);
    out.push(x as u8);
    assert(out@ =~= old(out)@ + be32(x));
}

fn push_le16(out: &mut Vec<u8>, x: u16)
    ensures
        final(out)@ == old(out)@ + le16(x),
{
    out.push(x as u8);
    out.push((x >> 8) as u8);
    assert(out@ =~= old(out)@ + le16(x));
}

fn push_slice(out: &mut Vec<u8>, src: &[u8], lo: usize, hi: usize)
    requires
        lo <= hi <= src@.len(),
    ensures
        final(out)@ == old(out)@ + src@.subrange(lo as int, hi as int),
{
    let mut i = lo;
    while i < hi
        invariant
            lo <= i <= hi <= src@.len(),
            out@ == old(out)@ + src@.subrange(lo as int, i as int),
        decreases hi - i,
    {
        out.push(src[i]);
        i += 1;
        assert(out@ =~= old(out)@ + src@.subrange(lo as int, i as int));
    }
}

/// Appends a chunk of `kind` carrying `payload`.
fn chunk(out: &mut Vec<u8>, kind: &[u8; 4], payload: &[u8])
    ensures
        final(out)@ == old(out)@ + chunk_spec(kind@, payload@),
{
    let len: u32 = if payload.len() <= u32::MAX as usize { payload.len() as u32 } else { u32::MAX };
    push_be32(out, len);
    let mut body: Vec<u8> = Vec::new();
    push_slice(&mut body, kind.as_slice(), 0, 4);
    push_slice(&mut body, payload, 0, payload.len());
    assert(body@ =~= kind@ + payload@);
    let crc = crc32(body.as_slice());
    push_slice(out, body.as_slice(), 0, body.len());
    push_be32(out, crc);
    assert(body@.subrange(0, body@.len() as int) =~= body@);
    assert(out@ =~= old(out)@ + chunk_spec(kind@, payload@));
}

/// Wraps `raw` into a zlib stream of stored blocks.
fn zlib_stored(raw: &[u8]) -> (out: Vec<u8>)
    ensures
        out@ == zlib_stored_spec(raw@),
{
    let mut out: Vec<u8> = Vec::new();
    out.push(0x78);
    out.push(0x01);
    let mut start: usize = 0;
    assert(raw@.skip(0) =~= raw@);
    assert(out@ =~= seq![0x78u8, 0x01u8]);
    while start < raw.len()
        invariant
            start <= raw.len(),
            out@ + stored_blocks(raw@.skip(start as int)) == seq![0x78u8, 0x01u8] + stored_blocks(raw@),
        decreases raw.len() - start,
    {
        let rest = raw.len() - start;
        let n = if rest < STORED_MAX { rest } else { STORED_MAX };
        let last = rest <= STORED_MAX;
        let len = n as u16;
        let ghost before = out@;
        out.push(if last { 1 } else { 0 });
        push_le16(&mut out, len);
        push_le16(&mut out, !len);
        push_slice(&mut out, raw, start, start + n);
        proof {
            let tail = raw@.skip(start as int);
            assert(raw@.subrange(start as int, start + n) =~= tail.take(n as int));
            if last {
                assert(tail.take(n as int) =~= tail);
                assert(raw@.skip(start + n) =~= Seq::<u8>::empty());
                assert(out@ =~= before + stored_block(tail, true));
            } else {
                assert(tail.skip(STORED_MAX as int) =~= raw@.skip(start + n));
                assert(out@ =~= before + stored_block(tail.take(STORED_MAX as int), false));
                assert(stored_blocks(tail) =~= stored_block(tail.take(STORED_MAX as int), false)
                    + stored_blocks(raw@.skip(start + n)));
            }
        }
        start = start + n;
    }
    assert(raw@.skip(start as int) =~= Seq::<u8>::empty());
    assert(out@ + Seq::<u8>::empty() =~= out@);
    let adler = adler32(raw);
    push_be32(&mut out, adler);
    out
}


pub open spec fn fade(x: u32, y: u32, size: u32) -> u8 {
    (((x + y) * 255) / (2 * (if size > 1 { size as int } else { 1 }))) as u8
}

pub open spec fn base_rgb(seed: u64) -> (u8, u8, u8) {
    ((seed & 0xFF) as u8, ((seed >> 8u64) & 0xFF) as u8, ((seed >> 16u64) & 0xFF) as u8)
}

pub open spec fn pixel(seed: u64, x: u32, y: u32, size: u32) -> Seq<u8> {
    let (r0, g0, b0) = base_rgb(seed);
    let f = fade(x, y, size);
    seq![
        vstd::wrapping::u8_specs::wrapping_add(r0, f),
        vstd::wrapping::u8_specs::wrapping_sub(g0, f),
        b0 ^ f,
    ]
}

/// The first `n` pixels of scanline `y`.
pub open spec fn pixels(seed: u64, y: u32, size: u32, n: nat) -> Seq<u8>
    decreases n,
{
    if n == 0 {
        Seq::empty()
    } else {
        pixels(seed, y, size, (n - 1) as nat) + pixel(seed, (n - 1) as u32, y, size)
    }
}

/// The first `rows` scanlines, each led by filter byte 0.
pub open spec fn scanlines(seed: u64, size: u32, rows: nat) -> Seq<u8>
    decreases rows,
{
    if rows == 0 {
        Seq::empty()
    } else {
        scanlines(seed, size, (rows - 1) as nat) + seq![0u8] + pixels(seed, (rows - 1) as u32, size, size as nat)
    }
}

pub open spec fn ihdr(size: u32) -> Seq<u8> {
    be32(size) + be32(size) + seq![8u8, 2u8, 0u8, 0u8, 0u8]
}

pub open spec fn cover_spec(size: u32, seed: u64) -> Seq<u8> {
    signature() + chunk_spec(seq![73u8, 72u8, 68u8, 82u8], ihdr(size)) + chunk_spec(
        seq![73u8, 68u8, 65u8, 84u8],
        zlib_stored_spec(scanlines(seed, size, size as nat)),
    ) + chunk_spec(seq![73u8, 69u8, 78u8, 68u8], Seq::empty())
}

/// An RGB PNG of `size` x `size` pixels with a pattern derived from `seed`.
pub fn cover(size: u32, seed: u64) -> (png: Vec<u8>)
    requires
        size * (size * 3 + 1) <= u32::MAX,
    ensures
        png@ == cover_spec(size, seed),
{
    let r0 = (seed & 0xFF) as u8;
    let g0 = ((seed >> 8) & 0xFF) as u8;
    let b0 = ((seed >> 16) & 0xFF) as u8;
    proof {
        assert(size <= 37837) by (nonlinear_arith)
            requires
                size * (size * 3 + 1) <= u32::MAX,
        ;
    }
    let div: u32 = 2 * (if size > 1 { size } else { 1 });
    let mut raw: Vec<u8> = Vec::new();
    let mut y: u32 = 0;
    while y < size
        invariant
            y <= size <= 37837,
            div == 2 * (if size > 1 { size as int } else { 1 }),
            r0 == base_rgb(seed).0,
            g0 == base_rgb(seed).1,
            b0 == base_rgb(seed).2,
            raw@ == scanlines(seed, size, y as nat),
        decreases size - y,
    {
        raw.push(0);
        let mut x: u32 = 0;
        while x < size
            invariant
                x <= size <= 37837,
                y < size,
                div == 2 * (if size > 1 { size as int } else { 1 }),
                r0 == base_rgb(seed).0,
                g0 == base_rgb(seed).1,
                b0 == base_rgb(seed).2,
                raw@ == scanlines(seed, size, y as nat) + seq![0u8] + pixels(seed, y, size, x as nat),
            decreases size - x,
        {
            let f = ((x + y) * 255 / div) as u8;
            let ghost before = raw@;
            raw.push(r0.wrapping_add(f));
            raw.push(g0.wrapping_sub(f));
            raw.push(b0 ^ f);
            assert(raw@ =~= before + pixel(seed, x, y, size));
            x += 1;
        }
        y += 1;
    }
    let mut png: Vec<u8> = Vec::new();
    png.push(0x89);
    png.push(0x50);
    png.push(0x4E);
    png.push(0x47);
    png.push(0x0D);
    png.push(0x0A);
    png.push(0x1A);
    png.push(0x0A);
    let mut head: Vec<u8> = Vec::new();
    push_be32(&mut head, size);
    push_be32(&mut head, size);
    head.push(8);
    head.push(2);
    head.push(0);
    head.push(0);
    head.push(0);
    assert(head@ =~= ihdr(size));
    chunk(&mut png, &[73u8, 72u8, 68u8, 82u8], head.as_slice());
    let idat = zlib_stored(raw.as_slice());
    chunk(&mut png, &[73u8, 68u8, 65u8, 84u8], idat.as_slice());
    let empty: Vec<u8> = Vec::new();
    chunk(&mut png, &[73u8, 69u8, 78u8, 68u8], empty.as_slice());
    proof {
        assert([73u8, 72u8, 68u8, 82u8]@ =~= seq![73u8, 72u8, 68u8, 82u8]);
        assert([73u8, 68u8, 65u8, 84u8]@ =~= seq![73u8, 68u8, 65u8, 84u8]);
        assert([73u8, 69u8, 78u8, 68u8]@ =~= seq![73u8, 69u8, 78u8, 68u8]);
        assert(empty@ =~= Seq::<u8>::empty());
    }
    assert(png@ =~= cover_spec(size, seed));
    png
}

} // verus!
