//! Uncompressed PNG encoder (no compression crate). Valid, deterministic files.

use vstd::prelude::*;

use crate::surface::Surface;

verus! {

// ---------------------------------------------------------------------------
// Byte encodings, checksums and the file layout.
// ---------------------------------------------------------------------------
/// Big-endian bytes of `n`.
pub open spec fn be32(n: u32) -> Seq<u8> {
    seq![
        (n / 16777216) as u8,
        ((n / 65536) % 256) as u8,
        ((n / 256) % 256) as u8,
        (n % 256) as u8,
    ]
}

/// Little-endian bytes of a 16-bit quantity.
pub open spec fn le16(n: nat) -> Seq<u8> {
    seq![(n % 256) as u8, ((n / 256) % 256) as u8]
}

/// One bit step of the reflected CRC-32 (polynomial 0xEDB88320).
pub open spec fn crc_round(c: u32) -> u32 {
    if c & 1 != 0 {
        0xEDB8_8320u32 ^ (c >> 1u32)
    } else {
        c >> 1u32
    }
}

pub open spec fn crc_rounds(c: u32, k: nat) -> u32
    decreases k,
{
    if k == 0 {
        c
    } else {
        crc_round(crc_rounds(c, (k - 1) as nat))
    }
}

/// The CRC register after feeding `data` into register value `c`.
pub open spec fn crc_update(c: u32, data: Seq<u8>) -> u32
    decreases data.len(),
{
    if data.len() == 0 {
        c
    } else {
        crc_rounds(crc_update(c, data.drop_last()) ^ (data.last() as u32), 8)
    }
}

/// CRC-32 of `data` as PNG chunks use it.
pub open spec fn spec_crc32(data: Seq<u8>) -> u32 {
    !crc_update(0xFFFF_FFFFu32, data)
}

/// The two Adler-32 sums of `data`.
pub open spec fn adler_sums(data: Seq<u8>) -> (u32, u32)
    decreases data.len(),
{
    if data.len() == 0 {
        (1, 0)
    } else {
        let (a, b) = adler_sums(data.drop_last());
        let a2 = ((a + data.last()) % 65521) as u32;
        (a2, ((b + a2) % 65521) as u32)
    }
}

/// Adler-32 of `data`.
pub open spec fn spec_adler32(data: Seq<u8>) -> u32 {
    let (a, b) = adler_sums(data);
    (b << 16u32) | a
}

/// A PNG chunk: length, type, data, CRC of type and data.
pub open spec fn chunk(ty: Seq<u8>, data: Seq<u8>) -> Seq<u8> {
    be32(data.len() as u32) + ty + data + be32(spec_crc32(ty + data))
}

/// One stored deflate block: final flag, LEN, NLEN, then the bytes.
pub open spec fn stored_block(last: bool, bytes: Seq<u8>) -> Seq<u8> {
    seq![if last {
        1u8
    } else {
        0u8
    }] + le16(bytes.len()) + le16((65535 - bytes.len()) as nat) + bytes
}

/// The stored blocks carrying `data[i..]`: full 65535-byte blocks, then a final one.
pub open spec fn blocks_from(data: Seq<u8>, i: int) -> Seq<u8>
    decreases data.len() - i,
{
    if data.len() - i <= 65535 {
        stored_block(true, data.subrange(i, data.len() as int))
    } else {
        stored_block(false, data.subrange(i, i + 65535)) + blocks_from(data, i + 65535)
    }
}

/// The zlib stream of `data`: header, stored blocks, Adler-32 trailer.
pub open spec fn spec_zlib(data: Seq<u8>) -> Seq<u8> {
    seq![0x78u8, 0x01u8] + blocks_from(data, 0) + be32(spec_adler32(data))
}

/// The first `rows` filtered scanlines of the surface: a 0 (no filter) byte, then the row.
pub open spec fn scanlines(pixels: Seq<u8>, width: nat, rows: nat) -> Seq<u8>
    decreases rows,
{
    if rows == 0 {
        Seq::empty()
    } else {
        let y = (rows - 1) as nat;
        scanlines(pixels, width, y) + seq![0u8] + pixels.subrange(
            (y * width * 4) as int,
            (y * width * 4 + width * 4) as int,
        )
    }
}

/// The IHDR payload: size, 8-bit depth, RGBA color type, default methods.
pub open spec fn spec_ihdr(w: u32, h: u32) -> Seq<u8> {
    be32(w) + be32(h) + seq![8u8, 6u8, 0u8, 0u8, 0u8]
}

pub open spec fn png_signature() -> Seq<u8> {
    seq![137u8, 80u8, 78u8, 71u8, 13u8, 10u8, 26u8, 10u8]
}

pub open spec fn ihdr_tag() -> Seq<u8> {
    seq![73u8, 72u8, 68u8, 82u8]
}

pub open spec fn idat_tag() -> Seq<u8> {
    seq![73u8, 68u8, 65u8, 84u8]
}

pub open spec fn iend_tag() -> Seq<u8> {
    seq![73u8, 69u8, 78u8, 68u8]
}

/// The bytes `encode_png` produces for a surface.
pub open spec fn spec_png(s: Surface) -> Seq<u8> {
    png_signature() + chunk(ihdr_tag(), spec_ihdr(s.width, s.height)) + chunk(
        idat_tag(),
        spec_zlib(scanlines(s.pixels@, s.width as nat, s.height as nat)),
    ) + chunk(iend_tag(), Seq::empty())
}

// ---------------------------------------------------------------------------
// The encoder.
// ---------------------------------------------------------------------------
/// Appends `v[from..to]` to `out`.
fn append_bytes(out: &mut Vec<u8>, v: &[u8], from: usize, to: usize)
    requires
        from <= to <= v.len(),
    ensures
        final(out)@ == old(out)@ + v@.subrange(from as int, to as int),
{
    let ghost o0 = out@;
    let mut i = from;
    while i < to
        invariant
            from <= i <= to <= v.len(),
            out@ == o0 + v@.subrange(from as int, i as int),
        decreases to - i,
    {
        out.push(v[i]);
        assert(v@.subrange(from as int, i + 1) =~= v@.subrange(from as int, i as int).push(
            v@[i as int],
        ));
        i += 1;
    }
}

fn push_be32(out: &mut Vec<u8>, n: u32)
    ensures
        final(out)@ == old(out)@ + be32(n),
{
    let ghost o0 = out@;
    out.push((n / 16777216) as u8);
    out.push(((n / 65536) % 256) as u8);
    out.push(((n / 256) % 256) as u8);
    out.push((n % 256) as u8);
    assert(out@ =~= o0 + be32(n));
}

fn push_le16(out: &mut Vec<u8>, n: u32)
    requires
        n < 65536,
    ensures
        final(out)@ == old(out)@ + le16(n as nat),
{
    let ghost o0 = out@;
    out.push((n % 256) as u8);
    out.push(((n / 256) % 256) as u8);
    assert(out@ =~= o0 + le16(n as nat));
}

/// Running CRC-32.
struct Crc32 {
    value: u32,
}

impl Crc32 {
    fn new() -> (c: Self)
        ensures
            c.value == 0xFFFF_FFFFu32,
    {
        Crc32 { value: 0xFFFF_FFFF }
    }

    fn update(&mut self, data: &[u8])
        ensures
            final(self).value == crc_update(old(self).value, data@),
    {
        let c0 = self.value;
        let mut c = self.value;
        let mut i: usize = 0;
        assert(data@.take(0) =~= Seq::<u8>::empty());
        while i < data.len()
            invariant
                i <= data.len(),
                c == crc_update(c0, data@.take(i as int)),
            decreases data.len() - i,
        {
            assert(data@.take(i + 1).drop_last() =~= data@.take(i as int));
            let x: u32 = c ^ (data[i] as u32);
            c = x;
            let mut j: u32 = 0;
            while j < 8
                invariant
                    j <= 8,
                    c == crc_rounds(x, j as nat),
                decreases 8 - j,
            {
                c = if c & 1 != 0 {
                    0xEDB8_8320 ^ (c >> 1)
                } else {
                    c >> 1
                };
                j += 1;
            }
            i += 1;
        }
        assert(data@.take(i as int) =~= data@);
        self.value = c;
    }

    fn finish(self) -> (r: u32)
        ensures
            r == !self.value,
    {
        !self.value
    }
}

fn adler32(data: &[u8]) -> (r: u32)
    ensures
        r == spec_adler32(data@),
{
    let mut a: u32 = 1;
    let mut b: u32 = 0;
    let mut i: usize = 0;
    assert(data@.take(0) =~= Seq::<u8>::empty());
    while i < data.len()
        invariant
            i <= data.len(),
            a < 65521,
            b < 65521,
            (a, b) == adler_sums(data@.take(i as int)),
        decreases data.len() - i,
    {
        assert(data@.take(i + 1).drop_last() =~= data@.take(i as int));
        a = (a + data[i] as u32) % 65521;
        b = (b + a) % 65521;
        i += 1;
    }
    assert(data@.take(i as int) =~= data@);
    (b << 16) | a
}

fn write_chunk(out: &mut Vec<u8>, ty: &[u8], data: &[u8])
    ensures
        final(out)@ == old(out)@ + chunk(ty@, data@),
{
    let ghost o0 = out@;
    push_be32(out, data.len() as u32);
    append_bytes(out, ty, 0, ty.len());
    append_bytes(out, data, 0, data.len());
    let mut crc = Crc32::new();
    crc.update(ty);
    let mid = crc.value;
    crc.update(data);
    proof {
        lemma_crc_update_concat(0xFFFF_FFFFu32, ty@, data@);
    }
    push_be32(out, crc.finish());
    assert(ty@.subrange(0, ty@.len() as int) =~= ty@);
    assert(data@.subrange(0, data@.len() as int) =~= data@);
    assert(out@ =~= o0 + chunk(ty@, data@));
}

/// Feeding two pieces one after the other is feeding their concatenation.
proof fn lemma_crc_update_concat(c: u32, a: Seq<u8>, b: Seq<u8>)
    ensures
        crc_update(crc_update(c, a), b) == crc_update(c, a + b),
    decreases b.len(),
{
    if b.len() == 0 {
        assert(a + b =~= a);
    } else {
        assert((a + b).drop_last() =~= a + b.drop_last());
        lemma_crc_update_concat(c, a, b.drop_last());
    }
}

/// The zlib stream of `data` in stored blocks of at most 65535 bytes.
fn stored_zlib(data: &[u8]) -> (r: Vec<Vec<u8>>)
    ensures
        r@.len() == 1,
        r@[0]@ == spec_zlib(data@),
{
    let ghost head = seq![0x78u8, 0x01u8];
    let mut stream: Vec<u8> = Vec::new();
    stream.push(0x78);
    stream.push(0x01);
    let mut i: usize = 0;
    while i < data.len()
        invariant
            i <= data.len(),
            i < data.len() ==> stream@ + blocks_from(data@, i as int) == head + blocks_from(
                data@,
                0,
            ),
            i == data.len() && data.len() > 0 ==> stream@ == head + blocks_from(data@, 0),
            i == 0 ==> stream@ == head,
        decreases data.len() - i,
    {
        let rest = data.len() - i;
        let n: usize = if rest < 65535 {
            rest
        } else {
            65535
        };
        let last = i + n == data.len();
        let ghost s0 = stream@;
        stream.push(if last {
            1u8
        } else {
            0u8
        });
        push_le16(&mut stream, n as u32);
        push_le16(&mut stream, 65535 - n as u32);
        append_bytes(&mut stream, data, i, i + n);
        assert(stream@ =~= s0 + stored_block(last, data@.subrange(i as int, i + n)));
        i += n;
    }
    if data.len() == 0 {
        let ghost s0 = stream@;
        stream.push(0x01);
        push_le16(&mut stream, 0);
        push_le16(&mut stream, 65535);
        assert(data@.subrange(0, 0) =~= Seq::<u8>::empty());
        assert(stream@ =~= s0 + stored_block(true, data@.subrange(0, 0)));
    }
    let ghost s1 = stream@;
    push_be32(&mut stream, adler32(data));
    assert(stream@ =~= spec_zlib(data@));
    let mut r: Vec<Vec<u8>> = Vec::new();
    r.push(stream);
    r
}

fn ihdr(w: u32, h: u32) -> (r: Vec<u8>)
    ensures
        r@ == spec_ihdr(w, h),
{
    let mut b: Vec<u8> = Vec::new();
    push_be32(&mut b, w);
    push_be32(&mut b, h);
    b.push(8);
    b.push(6);
    b.push(0);
    b.push(0);
    b.push(0);
    assert(b@ =~= spec_ihdr(w, h));
    b
}

fn tag_bytes(a: u8, b: u8, c: u8, d: u8) -> (r: Vec<u8>)
    ensures
        r@ == seq![a, b, c, d],
{
    let mut r: Vec<u8> = Vec::new();
    r.push(a);
    r.push(b);
    r.push(c);
    r.push(d);
    assert(r@ =~= seq![a, b, c, d]);
    r
}

/// Encode `surface` as an RGBA8 PNG with filter 0 and stored-block zlib.
pub fn encode_png(surface: &Surface) -> (r: Vec<u8>)
    requires
        surface.wf(),
        (surface.width + 1) * surface.height * 4 <= u32::MAX,
    ensures
        r@ == spec_png(*surface),
{
    let w = surface.width;
    let h = surface.height;
    let mut raw: Vec<u8> = Vec::new();
    let mut y: u32 = 0;
    while y < h
        invariant
            surface.wf(),
            w == surface.width,
            h == surface.height,
            y <= h,
            raw@ == scanlines(surface.pixels@, w as nat, y as nat),
        decreases h - y,
    {
        proof {
            assert((y + 1) * w * 4 <= h * w * 4) by (nonlinear_arith)
                requires
                    y < h,
            ;
            assert(y * w * 4 + w * 4 == (y + 1) * w * 4) by (nonlinear_arith);
            assert(h * w * 4 == w * h * 4) by (nonlinear_arith);
        }
        let ghost r0 = raw@;
        raw.push(0);
        let start = (y * w * 4) as usize;
        let end = start + (w * 4) as usize;
        append_bytes(&mut raw, surface.pixels.as_slice(), start, end);
        assert(raw@ =~= scanlines(surface.pixels@, w as nat, (y + 1) as nat));
        y += 1;
    }
    let mut out: Vec<u8> = Vec::new();
    out.push(137);
    out.push(80);
    out.push(78);
    out.push(71);
    out.push(13);
    out.push(10);
    out.push(26);
    out.push(10);
    assert(out@ =~= png_signature());
    let ihdr_ty = tag_bytes(73, 72, 68, 82);
    let header = ihdr(w, h);
    write_chunk(&mut out, ihdr_ty.as_slice(), header.as_slice());
    let ghost o1 = out@;
    let pieces = stored_zlib(raw.as_slice());
    let idat_ty = tag_bytes(73, 68, 65, 84);
    let mut i: usize = 0;
    while i < pieces.len()
        invariant
            i <= pieces.len(),
            pieces@.len() == 1,
            idat_ty@ == idat_tag(),
            i == 0 ==> out@ == o1,
            i == 1 ==> out@ == o1 + chunk(idat_tag(), pieces@[0]@),
        decreases pieces.len() - i,
    {
        write_chunk(&mut out, idat_ty.as_slice(), pieces[i].as_slice());
        i += 1;
    }
    let iend_ty = tag_bytes(73, 69, 78, 68);
    let empty: Vec<u8> = Vec::new();
    write_chunk(&mut out, iend_ty.as_slice(), empty.as_slice());
    assert(empty@ =~= Seq::<u8>::empty());
    assert(out@ =~= spec_png(*surface));
    out
}

// ---------------------------------------------------------------------------
// Laws.
// ---------------------------------------------------------------------------
/// Reading stored deflate blocks from position `i`: a header byte (1 for the final block,
/// 0 otherwise), LEN and its complement NLEN (little-endian), then LEN bytes. Yields the
/// bytes carried and the position after the final block.
pub open spec fn inflate_blocks(s: Seq<u8>, i: int) -> Option<(Seq<u8>, int)>
    decreases s.len() - i,
{
    if i < 0 || i + 5 > s.len() {
        None
    } else {
        let len = s[i + 1] as int + 256 * s[i + 2] as int;
        let nlen = s[i + 3] as int + 256 * s[i + 4] as int;
        let end = i + 5 + len;
        if (s[i] != 0 && s[i] != 1) || len + nlen != 65535 || end > s.len() {
            None
        } else if s[i] == 1 {
            Some((s.subrange(i + 5, end), end))
        } else {
            match inflate_blocks(s, end) {
                Some((rest, e)) => Some((s.subrange(i + 5, end) + rest, e)),
                None => None,
            }
        }
    }
}

/// Reading a zlib stream made of stored blocks: the `78 01` header, the blocks, and a
/// matching big-endian Adler-32 of the data as the last four bytes.
pub open spec fn spec_inflate(s: Seq<u8>) -> Option<Seq<u8>> {
    if s.len() < 2 || s[0] != 0x78 || s[1] != 0x01 {
        None
    } else {
        match inflate_blocks(s, 2) {
            Some((d, e)) => if e + 4 == s.len() && s.subrange(e, e + 4) == be32(spec_adler32(d)) {
                Some(d)
            } else {
                None
            },
            None => None,
        }
    }
}

proof fn lemma_le16(n: nat)
    requires
        n < 65536,
    ensures
        le16(n)[0] as int + 256 * le16(n)[1] as int == n,
{
}

proof fn lemma_inflate_blocks(p: Seq<u8>, data: Seq<u8>, i: int, q: Seq<u8>)
    requires
        0 <= i <= data.len(),
    ensures
        inflate_blocks(p + blocks_from(data, i) + q, p.len() as int) == Some(
            (data.subrange(i, data.len() as int), (p.len() + blocks_from(data, i).len()) as int),
        ),
    decreases data.len() - i,
{
    let z = p + blocks_from(data, i) + q;
    let pl = p.len() as int;
    if data.len() - i <= 65535 {
        let bytes = data.subrange(i, data.len() as int);
        let blk = stored_block(true, bytes);
        assert(blocks_from(data, i) == blk);
        lemma_le16(bytes.len());
        lemma_le16((65535 - bytes.len()) as nat);
        assert(z[pl] == blk[0]);
        assert(z[pl + 1] == blk[1]);
        assert(z[pl + 2] == blk[2]);
        assert(z[pl + 3] == blk[3]);
        assert(z[pl + 4] == blk[4]);
        assert(z.subrange(pl + 5, pl + 5 + bytes.len()) =~= bytes);
    } else {
        let bytes = data.subrange(i, i + 65535);
        let blk = stored_block(false, bytes);
        let p2 = p + blk;
        assert(blocks_from(data, i) == blk + blocks_from(data, i + 65535));
        assert(z =~= p2 + blocks_from(data, i + 65535) + q);
        lemma_le16(65535);
        lemma_le16(0);
        assert(z[pl] == blk[0]);
        assert(z[pl + 1] == blk[1]);
        assert(z[pl + 2] == blk[2]);
        assert(z[pl + 3] == blk[3]);
        assert(z[pl + 4] == blk[4]);
        assert(z.subrange(pl + 5, pl + 5 + 65535) =~= bytes);
        lemma_inflate_blocks(p2, data, i + 65535, q);
        assert(bytes + data.subrange(i + 65535, data.len() as int) =~= data.subrange(
            i,
            data.len() as int,
        ));
    }
}

/// The stored-block zlib stream reads back as the data it was made from.
#[verifier::spinoff_prover]
#[verifier::rlimit(30)]
pub proof fn law_zlib_round_trip(data: Seq<u8>)
    ensures
        spec_inflate(spec_zlib(data)) == Some(data),
{
    let head = seq![0x78u8, 0x01u8];
    let tail = be32(spec_adler32(data));
    let z = spec_zlib(data);
    lemma_inflate_blocks(head, data, 0, tail);
    assert(z == head + blocks_from(data, 0) + tail);
    assert(data.subrange(0, data.len() as int) =~= data);
    let e = 2 + blocks_from(data, 0).len();
    assert(z.subrange(e as int, (e + 4) as int) =~= tail);
}

/// Every encoded file starts with the PNG signature and holds more than the signature and
/// the IHDR chunk.
pub proof fn law_png_signature(s: Surface)
    ensures
        spec_png(s).subrange(0, 8) == png_signature(),
        spec_png(s).len() > 32,
{
    let out = spec_png(s);
    assert(out.subrange(0, 8) =~= png_signature());
}

/// Same inputs, same bytes: surfaces with the same size and pixels encode identically.
pub proof fn law_png_deterministic(a: Surface, b: Surface)
    requires
        a.width == b.width,
        a.height == b.height,
        a.pixels@ == b.pixels@,
    ensures
        spec_png(a) == spec_png(b),
{
}

// ---------------------------------------------------------------------------
// Reading the file back.
// ---------------------------------------------------------------------------
/// The number a big-endian 4-byte field holds.
pub open spec fn be32_value(b: Seq<u8>) -> nat {
    (b[0] as nat) * 16777216 + (b[1] as nat) * 65536 + (b[2] as nat) * 256 + (b[3] as nat)
}

/// Reads the chunk at `i`: its 4-byte big-endian length, type and data, checked against its
/// CRC-32. Yields type, data and the position after the chunk.
#[verifier::opaque]
pub open spec fn read_chunk(s: Seq<u8>, i: int) -> Option<(Seq<u8>, Seq<u8>, int)> {
    if i < 0 || i + 8 > s.len() {
        None
    } else {
        let end = i + 8 + be32_value(s.subrange(i, i + 4));
        let ty = s.subrange(i + 4, i + 8);
        if end + 4 > s.len() {
            None
        } else if s.subrange(end, end + 4) == be32(spec_crc32(ty + s.subrange(i + 8, end))) {
            Some((ty, s.subrange(i + 8, end), end + 4))
        } else {
            None
        }
    }
}

/// Removes the filter bytes of `rows` unfiltered scanlines of `width` RGBA pixels: each
/// line must be a 0 byte and `4 * width` pixel bytes, and nothing else may follow.
pub open spec fn unfilter(raw: Seq<u8>, width: nat, rows: nat) -> Option<Seq<u8>>
    decreases rows,
{
    if rows == 0 {
        if raw.len() == 0 {
            Some(Seq::empty())
        } else {
            None
        }
    } else {
        let k = raw.len() - (width * 4 + 1);
        if k < 0 || raw[k] != 0 {
            None
        } else {
            match unfilter(raw.subrange(0, k), width, (rows - 1) as nat) {
                Some(p) => Some(p + raw.subrange(k + 1, raw.len() as int)),
                None => None,
            }
        }
    }
}

/// Reads a PNG made of the signature and the chunks IHDR (8-bit RGBA, default compression,
/// filter and interlace methods), IDAT and IEND, every chunk's CRC checked; inflates the
/// image data (stored blocks, Adler-32 checked) and removes the scanlines' filter bytes.
/// Yields width, height and the row-major pixel bytes.
pub open spec fn spec_decode_png(s: Seq<u8>) -> Option<(nat, nat, Seq<u8>)> {
    if s.len() < 8 || s.subrange(0, 8) != png_signature() {
        None
    } else {
        match read_chunk(s, 8) {
            Some((t1, hd, i1)) => if t1 != ihdr_tag() || hd.len() != 13 || hd.subrange(8, 13)
                != seq![8u8, 6u8, 0u8, 0u8, 0u8] {
                None
            } else {
                let w = be32_value(hd.subrange(0, 4));
                let h = be32_value(hd.subrange(4, 8));
                match read_chunk(s, i1) {
                    Some((t2, z, i2)) => if t2 != idat_tag() {
                        None
                    } else {
                        match read_chunk(s, i2) {
                            Some((t3, e, i3)) => if t3 != iend_tag() || e.len() != 0 || i3
                                != s.len() {
                                None
                            } else {
                                match spec_inflate(z) {
                                    Some(raw) => match unfilter(raw, w, h) {
                                        Some(px) => Some((w, h, px)),
                                        None => None,
                                    },
                                    None => None,
                                }
                            },
                            None => None,
                        }
                    },
                    None => None,
                }
            },
            None => None,
        }
    }
}

proof fn lemma_be32_value(n: u32)
    ensures
        be32(n).len() == 4,
        be32_value(be32(n)) == n,
{
    let b = be32(n);
    assert(n / 16777216 < 256) by (nonlinear_arith);
    assert(b[0] as nat == n / 16777216);
    assert(b[1] as nat == (n / 65536) % 256);
    assert(b[2] as nat == (n / 256) % 256);
    assert(b[3] as nat == n % 256);
    assert((n / 16777216) * 16777216 + ((n / 65536) % 256) * 65536 + ((n / 256) % 256) * 256 + n
        % 256 == n) by (nonlinear_arith);
}

/// The chunk `chunk(ty, data)` placed after `p` reads back as `ty` and `data`.
proof fn lemma_read_chunk(p: Seq<u8>, ty: Seq<u8>, data: Seq<u8>, q: Seq<u8>)
    requires
        ty.len() == 4,
        data.len() <= u32::MAX,
    ensures
        chunk(ty, data).len() == data.len() + 12,
        read_chunk(p + chunk(ty, data) + q, p.len() as int) == Some(
            (ty, data, (p.len() + data.len() + 12) as int),
        ),
{
    reveal(read_chunk);
    let c = chunk(ty, data);
    let s = p + c + q;
    let i = p.len() as int;
    lemma_be32_value(data.len() as u32);
    lemma_be32_value(spec_crc32(ty + data));
    assert(s.subrange(i, i + 4) =~= be32(data.len() as u32));
    assert(s.subrange(i + 4, i + 8) =~= ty);
    let end = i + 8 + data.len();
    assert(s.subrange(i + 8, end) =~= data);
    assert(s.subrange(end, end + 4) =~= be32(spec_crc32(ty + data)));
}

/// Unfiltering the first `rows` scanlines gives back the first `rows` rows of pixels.
proof fn lemma_unfilter_scanlines(p: Seq<u8>, w: nat, rows: nat)
    requires
        rows * w * 4 <= p.len(),
    ensures
        scanlines(p, w, rows).len() == rows * (w * 4 + 1),
        unfilter(scanlines(p, w, rows), w, rows) == Some(p.subrange(0, (rows * w * 4) as int)),
    decreases rows,
{
    if rows == 0 {
        assert(rows * w * 4 == 0) by (nonlinear_arith)
            requires
                rows == 0,
        ;
        assert(p.subrange(0, 0) =~= Seq::<u8>::empty());
    } else {
        let y = (rows - 1) as nat;
        assert(y * w * 4 + w * 4 == rows * w * 4) by (nonlinear_arith)
            requires
                y + 1 == rows,
        ;
        assert(y * (w * 4 + 1) + w * 4 + 1 == rows * (w * 4 + 1)) by (nonlinear_arith)
            requires
                y + 1 == rows,
        ;
        assert(0 <= y * w * 4) by (nonlinear_arith);
        lemma_unfilter_scanlines(p, w, y);
        let prev = scanlines(p, w, y);
        let row = p.subrange((y * w * 4) as int, (y * w * 4 + w * 4) as int);
        let raw = scanlines(p, w, rows);
        assert(raw == prev + seq![0u8] + row);
        let k = raw.len() - (w * 4 + 1);
        assert(k == prev.len());
        assert(raw[k] == 0u8);
        assert(raw.subrange(0, k) =~= prev);
        assert(raw.subrange(k + 1, raw.len() as int) =~= row);
        assert(p.subrange(0, (y * w * 4) as int) + row =~= p.subrange(0, (rows * w * 4) as int));
        assert(unfilter(raw.subrange(0, k), w, y) == Some(p.subrange(0, (y * w * 4) as int)));
        assert(unfilter(raw, w, rows) == Some(p.subrange(0, (y * w * 4) as int) + row));
    }
}

/// The decoder reads a signature and three chunks IHDR, IDAT, IEND back as the header's
/// size and the unfiltered, inflated image data.
proof fn lemma_decode_chunks(hd: Seq<u8>, z: Seq<u8>)
    requires
        hd.len() == 13,
        hd.subrange(8, 13) == seq![8u8, 6u8, 0u8, 0u8, 0u8],
        z.len() <= u32::MAX,
    ensures
        spec_decode_png(
            png_signature() + chunk(ihdr_tag(), hd) + chunk(idat_tag(), z) + chunk(
                iend_tag(),
                Seq::empty(),
            ),
        ) == match spec_inflate(z) {
            Some(raw) => match unfilter(
                raw,
                be32_value(hd.subrange(0, 4)),
                be32_value(hd.subrange(4, 8)),
            ) {
                Some(px) => Some(
                    (be32_value(hd.subrange(0, 4)), be32_value(hd.subrange(4, 8)), px),
                ),
                None => None,
            },
            None => None,
        },
{
    let sig = png_signature();
    let empty = Seq::<u8>::empty();
    let c1 = chunk(ihdr_tag(), hd);
    let c2 = chunk(idat_tag(), z);
    let c3 = chunk(iend_tag(), empty);
    let out = sig + c1 + c2 + c3;
    lemma_read_chunk(sig, ihdr_tag(), hd, c2 + c3);
    assert(sig + c1 + (c2 + c3) =~= out);
    lemma_read_chunk(sig + c1, idat_tag(), z, c3);
    lemma_read_chunk(sig + c1 + c2, iend_tag(), empty, empty);
    assert(out + empty =~= out);
    assert(out.subrange(0, 8) =~= sig);
}

/// Encoded files read back: a PNG reader that checks every chunk's CRC-32 and the image
/// data's Adler-32 decodes `encode_png`'s bytes to an 8-bit RGBA image of the surface's width
/// and height whose row-major bytes are the surface's pixels (whenever the image data fits
/// the 32-bit length field of its chunk).
pub proof fn law_png_decodes_to_pixels(s: Surface)
    requires
        s.wf(),
        spec_zlib(scanlines(s.pixels@, s.width as nat, s.height as nat)).len() <= u32::MAX,
    ensures
        spec_decode_png(spec_png(s)) == Some((s.width as nat, s.height as nat, s.pixels@)),
{
    let w = s.width;
    let h = s.height;
    let hd = spec_ihdr(w, h);
    let raw = scanlines(s.pixels@, w as nat, h as nat);
    lemma_be32_value(w);
    lemma_be32_value(h);
    assert(hd.subrange(0, 4) =~= be32(w));
    assert(hd.subrange(4, 8) =~= be32(h));
    assert(hd.subrange(8, 13) =~= seq![8u8, 6u8, 0u8, 0u8, 0u8]);
    lemma_decode_chunks(hd, spec_zlib(raw));
    law_zlib_round_trip(raw);
    assert((h as nat) * (w as nat) * 4 == (w as nat) * (h as nat) * 4) by (nonlinear_arith);
    lemma_unfilter_scanlines(s.pixels@, w as nat, h as nat);
    assert(s.pixels@.subrange(0, ((h as nat) * (w as nat) * 4) as int) =~= s.pixels@);
}

// ---------------------------------------------------------------------------
// Adler-32 as zlib defines it.
// ---------------------------------------------------------------------------
/// The sum of the bytes.
pub open spec fn byte_sum(d: Seq<u8>) -> nat
    decreases d.len(),
{
    if d.len() == 0 {
        0
    } else {
        byte_sum(d.drop_last()) + d.last() as nat
    }
}

/// The sum, over every nonempty prefix of `d`, of one plus the bytes of that prefix.
pub open spec fn prefix_total(d: Seq<u8>) -> nat
    decreases d.len(),
{
    if d.len() == 0 {
        0
    } else {
        prefix_total(d.drop_last()) + 1 + byte_sum(d)
    }
}

/// The zlib trailer is Adler-32 (RFC 1950): its low half is one plus the sum of the bytes,
/// and its high half the sum of those running values over every prefix, both modulo 65521,
/// the largest prime below 2^16.
pub proof fn law_adler32_sums(d: Seq<u8>)
    ensures
        adler_sums(d).0 == (1 + byte_sum(d)) % 65521,
        adler_sums(d).1 == prefix_total(d) % 65521,
        spec_adler32(d) == adler_sums(d).1 * 65536 + adler_sums(d).0,
    decreases d.len(),
{
    if d.len() > 0 {
        let p = d.drop_last();
        law_adler32_sums(p);
        let (a, b) = adler_sums(p);
        let x = d.last() as int;
        vstd::arithmetic::div_mod::lemma_add_mod_noop_right(x, (1 + byte_sum(p)) as int, 65521);
        assert((a + x) % 65521 == (1 + byte_sum(d)) % 65521);
        let a2 = (1 + byte_sum(d)) % 65521;
        vstd::arithmetic::div_mod::lemma_add_mod_noop(prefix_total(p) as int, a2 as int, 65521);
        vstd::arithmetic::div_mod::lemma_add_mod_noop_right(
            prefix_total(p) as int,
            (1 + byte_sum(d)) as int,
            65521,
        );
        assert(a2 % 65521 == a2);
        assert((b + a2) % 65521 == prefix_total(d) % 65521);
    }
    let (a, b) = adler_sums(d);
    assert(a < 65521 && b < 65521) by {
        if d.len() > 0 {
        }
    }
    assert(((b << 16u32) | a) == b * 65536 + a) by (bit_vector)
        requires
            a < 65521u32,
            b < 65521u32,
    ;
}

} // verus!
