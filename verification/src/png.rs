//! A tiny grayscale PNG encoder.
//!
//! Uses uncompressed ("stored") DEFLATE blocks wrapped in a zlib stream, which
//! is valid PNG and needs no compressor. Files are larger than a real encoder
//! would produce; this is for previews and board export only.

use vstd::prelude::*;

use crate::canvas::Canvas;

verus! {

/// The eight-byte PNG signature.
pub open spec fn png_signature() -> Seq<u8> {
    seq![0x89u8, 0x50u8, 0x4eu8, 0x47u8, 0x0du8, 0x0au8, 0x1au8, 0x0au8]
}

/// `x` as four bytes, most significant first.
pub open spec fn be32(x: u32) -> Seq<u8> {
    seq![(x / 0x100_0000) as u8, (x / 0x1_0000 % 256) as u8, (x / 256 % 256) as u8, (x % 256) as u8]
}

/// `x` as two bytes, least significant first.
pub open spec fn le16(x: u16) -> Seq<u8> {
    seq![(x % 256) as u8, (x / 256) as u8]
}

/// One bit step of the reflected CRC-32 (polynomial 0xEDB88320).
pub open spec fn crc_bit(c: u32) -> u32 {
    (c >> 1u32) ^ (0xEDB8_8320u32 & (if c & 1u32 == 1u32 {
        0xFFFF_FFFFu32
    } else {
        0u32
    }))
}

/// `n` bit steps.
pub open spec fn crc_bits(c: u32, n: nat) -> u32
    decreases n,
{
    if n == 0 {
        c
    } else {
        crc_bit(crc_bits(c, (n - 1) as nat))
    }
}

/// The CRC register after feeding `data` into register value `c`.
pub open spec fn crc_feed(c: u32, data: Seq<u8>) -> u32
    decreases data.len(),
{
    if data.len() == 0 {
        c
    } else {
        crc_bits(crc_feed(c, data.drop_last()) ^ (data.last() as u32), 8)
    }
}

/// The CRC-32 of `data`: the register starts all ones and ends inverted.
pub open spec fn crc32(data: Seq<u8>) -> u32 {
    crc_feed(0xFFFF_FFFFu32, data) ^ 0xFFFF_FFFFu32
}

/// The Adler-32 sums (a, b) of `data`.
pub open spec fn adler_sums(data: Seq<u8>) -> (int, int)
    decreases data.len(),
{
    if data.len() == 0 {
        (1, 0)
    } else {
        let (a, b) = adler_sums(data.drop_last());
        let a2 = (a + data.last()) % 65521;
        (a2, (b + a2) % 65521)
    }
}

/// The Adler-32 checksum of `data`.
pub open spec fn adler32_of(data: Seq<u8>) -> u32 {
    (adler_sums(data).1 * 65536 + adler_sums(data).0) as u32
}

/// The sum of the bytes of `data`.
pub open spec fn byte_sum(data: Seq<u8>) -> int
    decreases data.len(),
{
    if data.len() == 0 {
        0
    } else {
        byte_sum(data.drop_last()) + data.last()
    }
}

/// The sum, over every prefix of `data` from the first byte to all of it, of
/// one plus the prefix's byte sum.
pub open spec fn prefix_sums(data: Seq<u8>) -> int
    decreases data.len(),
{
    if data.len() == 0 {
        0
    } else {
        prefix_sums(data.drop_last()) + 1 + byte_sum(data)
    }
}

/// The Adler-32 checksum (RFC 1950): with `A` one plus the sum of the bytes
/// and `B` the sum of the values `A` takes after each byte, the checksum is
/// `B mod 65521` in the high half and `A mod 65521` in the low half.
pub proof fn law_adler32_is_rfc1950(data: Seq<u8>)
    ensures
        adler_sums(data) == ((1 + byte_sum(data)) % 65521, prefix_sums(data) % 65521),
        adler32_of(data) == (prefix_sums(data) % 65521) * 65536 + (1 + byte_sum(data)) % 65521,
    decreases data.len(),
{
    if data.len() > 0 {
        let d = data.drop_last();
        law_adler32_is_rfc1950(d);
        let x = data.last() as int;
        vstd::arithmetic::div_mod::lemma_add_mod_noop(1 + byte_sum(d), x, 65521);
        assert(x % 65521 == x);
        let a2 = (1 + byte_sum(data)) % 65521;
        vstd::arithmetic::div_mod::lemma_add_mod_noop(prefix_sums(d), 1 + byte_sum(data), 65521);
        assert(a2 % 65521 == a2);
    }
    let a = (1 + byte_sum(data)) % 65521;
    let b = prefix_sums(data) % 65521;
    assert(0 <= a < 65521 && 0 <= b < 65521);
    assert(0 <= b * 65536 + a < 0x1_0000_0000) by (nonlinear_arith)
        requires
            0 <= a < 65521,
            0 <= b < 65521,
    ;
}

/// A PNG chunk: data length, type, data, and the CRC of type and data.
pub open spec fn chunk(kind: Seq<u8>, data: Seq<u8>) -> Seq<u8> {
    be32(data.len() as u32) + kind + data + be32(crc32(kind + data))
}

/// Stored DEFLATE blocks of `data` from offset `i`: each at most 65535 bytes,
/// a header byte that marks the final block, the length and its complement.
pub open spec fn stored_blocks(data: Seq<u8>, i: int) -> Seq<u8>
    decreases data.len() - i,
{
    let remaining = data.len() - i;
    let block = if remaining < 0xFFFF {
        remaining
    } else {
        0xFFFF
    };
    let fin = i + block >= data.len();
    let head = seq![if fin {
        1u8
    } else {
        0u8
    }] + le16(block as u16) + le16((0xFFFF - block) as u16) + data.subrange(i, i + block);
    if fin || block <= 0 {
        head
    } else {
        head + stored_blocks(data, i + block)
    }
}

/// A zlib stream of `data` in stored blocks.
pub open spec fn zlib_stored(data: Seq<u8>) -> Seq<u8> {
    seq![0x78u8, 0x01u8] + stored_blocks(data, 0) + be32(adler32_of(data))
}

/// The scanlines of an image, each prefixed with filter byte 0 (none).
pub open spec fn scanlines(pixels: Seq<u8>, width: int, rows: int) -> Seq<u8>
    decreases rows,
{
    if rows <= 0 {
        Seq::empty()
    } else {
        scanlines(pixels, width, rows - 1) + seq![0u8] + pixels.subrange((rows - 1) * width, rows * width)
    }
}

/// The chunk type `IHDR` (image header).
pub open spec fn ihdr_type() -> Seq<u8> {
    seq![0x49u8, 0x48u8, 0x44u8, 0x52u8]
}

/// The chunk type `IDAT` (image data).
pub open spec fn idat_type() -> Seq<u8> {
    seq![0x49u8, 0x44u8, 0x41u8, 0x54u8]
}

/// The chunk type `IEND` (image end).
pub open spec fn iend_type() -> Seq<u8> {
    seq![0x49u8, 0x45u8, 0x4eu8, 0x44u8]
}

/// The image header: width, height, bit depth 8, color type 0 (grayscale),
/// default compression, filter and interlace.
pub open spec fn ihdr_data(width: u32, height: u32) -> Seq<u8> {
    be32(width) + be32(height) + seq![8u8, 0u8, 0u8, 0u8, 0u8]
}

/// The PNG file of a grayscale canvas.
pub open spec fn png_file(width: u32, height: u32, pixels: Seq<u8>) -> Seq<u8> {
    png_signature() + chunk(ihdr_type(), ihdr_data(width, height)) + chunk(
        idat_type(),
        zlib_stored(scanlines(pixels, width as int, height as int)),
    ) + chunk(iend_type(), Seq::empty())
}

/// Append `data[from..to]` to `out`.
fn push_range(out: &mut Vec<u8>, data: &[u8], from: usize, to: usize)
    requires
        from <= to <= data@.len(),
    ensures
        final(out)@ == old(out)@ + data@.subrange(from as int, to as int),
{
    let mut i = from;
    while i < to
        invariant
            from <= i <= to,
            to <= data@.len(),
            out@ == old(out)@ + data@.subrange(from as int, i as int),
        decreases to - i,
    {
        out.push(data[i]);
        assert(out@ =~= old(out)@ + data@.subrange(from as int, i + 1));
        i = i + 1;
    }
}

/// Append `x` as four bytes, most significant first.
fn push_be32(out: &mut Vec<u8>, x: u32)
    ensures
        final(out)@ == old(out)@ + be32(x),
{
    out.push((x / 0x100_0000) as u8);
    out.push((x / 0x1_0000 % 256) as u8);
    out.push((x / 256 % 256) as u8);
    out.push((x % 256) as u8);
    assert(out@ =~= old(out)@ + be32(x));
}

/// Encode a canvas as an 8-bit grayscale PNG.
pub fn encode_grayscale(c: &Canvas) -> (bytes: Vec<u8>)
    requires
        c.wf(),
        c.width + 1 <= u32::MAX,
        (c.width + 1) * c.height <= u32::MAX,
    ensures
        bytes@ == png_file(c.width, c.height, c.pixels@),
{
    let mut out: Vec<u8> = Vec::new();
    let sig: [u8; 8] = [0x89, 0x50, 0x4e, 0x47, 0x0D, 0x0A, 0x1A, 0x0A];
    push_range(&mut out, &sig, 0, 8);
    assert(sig@ =~= png_signature());
    assert(sig@.subrange(0, 8) =~= sig@);

    // IHDR: width, height, bit depth 8, color type 0 (grayscale).
    let mut ihdr: Vec<u8> = Vec::new();
    push_be32(&mut ihdr, c.width);
    push_be32(&mut ihdr, c.height);
    ihdr.push(8);
    ihdr.push(0);
    ihdr.push(0);
    ihdr.push(0);
    ihdr.push(0);
    let kind_ihdr: [u8; 4] = [0x49, 0x48, 0x44, 0x52];
    assert(kind_ihdr@ =~= ihdr_type());
    assert(ihdr@ =~= ihdr_data(c.width, c.height));
    let ghost o1 = out@;
    write_chunk(&mut out, &kind_ihdr, ihdr.as_slice());
    assert(out@ == o1 + chunk(ihdr_type(), ihdr_data(c.width, c.height)));

    // Raw image data: each scanline prefixed with filter byte 0 (none).
    let raw = raw_scanlines(c);
    let idat = zlib_store(raw.as_slice());
    let kind_idat: [u8; 4] = [0x49, 0x44, 0x41, 0x54];
    assert(kind_idat@ =~= idat_type());
    let ghost o2 = out@;
    write_chunk(&mut out, &kind_idat, idat.as_slice());
    let kind_iend: [u8; 4] = [0x49, 0x45, 0x4e, 0x44];
    assert(kind_iend@ =~= iend_type());
    let empty: [u8; 0] = [];
    assert(empty@ =~= Seq::<u8>::empty());
    let ghost o3 = out@;
    write_chunk(&mut out, &kind_iend, &empty);
    assert(out@ =~= png_file(c.width, c.height, c.pixels@));
    out
}

/// The canvas's scanlines, each prefixed with filter byte 0 (none).
fn raw_scanlines(c: &Canvas) -> (raw: Vec<u8>)
    requires
        c.wf(),
        c.width + 1 <= u32::MAX,
        (c.width + 1) * c.height <= u32::MAX,
    ensures
        raw@ == scanlines(c.pixels@, c.width as int, c.height as int),
{
    let mut raw: Vec<u8> = Vec::with_capacity(((c.width + 1) * c.height) as usize);
    let mut y: u32 = 0;
    while y < c.height
        invariant
            c.wf(),
            0 <= y <= c.height,
            raw@ == scanlines(c.pixels@, c.width as int, y as int),
        decreases c.height - y,
    {
        raw.push(0);
        assert((y + 1) * c.width <= c.width * c.height) by (nonlinear_arith)
            requires
                y < c.height,
        ;
        assert(y * c.width + c.width == (y + 1) * c.width) by (nonlinear_arith);
        let start = (y * c.width) as usize;
        push_range(&mut raw, c.pixels.as_slice(), start, start + c.width as usize);
        assert(raw@ =~= scanlines(c.pixels@, c.width as int, y + 1));
        y = y + 1;
    }
    raw
}

fn write_chunk(out: &mut Vec<u8>, kind: &[u8; 4], data: &[u8])
    ensures
        final(out)@ == old(out)@ + chunk(kind@, data@),
{
    push_be32(out, data.len() as u32);
    push_range(out, kind, 0, 4);
    push_range(out, data, 0, data.len());
    let mut crc = Crc32::new();
    crc.update(kind);
    crc.update(data);
    let sum = crc.finalize();
    assert(kind@.subrange(0, 4) =~= kind@);
    assert(data@.subrange(0, data@.len() as int) =~= data@);
    proof {
        lemma_crc_feed_concat(0xFFFF_FFFFu32, kind@, data@);
    }
    push_be32(out, sum);
    assert(final(out)@ =~= old(out)@ + chunk(kind@, data@));
}

/// Wrap `data` in a zlib stream using only stored (uncompressed) DEFLATE blocks.
fn zlib_store(data: &[u8]) -> (z: Vec<u8>)
    ensures
        z@ == zlib_stored(data@),
{
    let mut out: Vec<u8> = Vec::new();
    out.push(0x78);  // CMF: deflate, 32K window
    out.push(0x01);  // FLG: no dict, fastest
    let ghost head = out@;
    let mut i: usize = 0;
    loop
        invariant_except_break
            i < data@.len() || (data@.len() == 0 && i == 0),
            out@ + stored_blocks(data@, i as int) == head + stored_blocks(data@, 0),
        invariant
            i <= data@.len(),
            head == seq![0x78u8, 0x01u8],
        ensures
            out@ == head + stored_blocks(data@, 0),
        decreases data@.len() - i,
    {
        let remaining = data.len() - i;
        let block = if remaining < 0xFFFF {
            remaining
        } else {
            0xFFFF
        };
        let final_block = i + block >= data.len();
        let ghost before = out@;
        out.push(if final_block {
            1
        } else {
            0
        });  // BFINAL, BTYPE=00
        let b16 = block as u16;
        out.push((b16 % 256) as u8);
        out.push((b16 / 256) as u8);
        let nb = 0xFFFFu16 - b16;
        out.push((nb % 256) as u8);
        out.push((nb / 256) as u8);
        push_range(&mut out, data, i, i + block);
        let ghost piece = seq![if final_block {
            1u8
        } else {
            0u8
        }] + le16(block as u16) + le16((0xFFFF - block) as u16) + data@.subrange(i as int, i + block);
        assert(out@ =~= before + piece);
        i = i + block;
        if final_block {
            break;
        }
        assert(block > 0);
    }
    let sum = adler32(data);
    push_be32(&mut out, sum);
    out
}

fn adler32(data: &[u8]) -> (s: u32)
    ensures
        s == adler32_of(data@),
{
    let m: u32 = 65521;
    let mut a: u32 = 1;
    let mut b: u32 = 0;
    let mut i: usize = 0;
    while i < data.len()
        invariant
            0 <= i <= data@.len(),
            m == 65521,
            a < 65521,
            b < 65521,
            (a as int, b as int) == adler_sums(data@.take(i as int)),
        decreases data@.len() - i,
    {
        assert(data@.take(i + 1).drop_last() =~= data@.take(i as int));
        a = (a + data[i] as u32) % m;
        b = (b + a) % m;
        i = i + 1;
    }
    assert(data@.take(data@.len() as int) =~= data@);
    assert((b << 16u32) | a == b * 65536 + a) by (bit_vector)
        requires
            a < 65536,
            b < 65536,
    ;
    (b << 16) | a
}

struct Crc32 {
    crc: u32,
}

/// Feeding two pieces one after the other feeds their concatenation.
proof fn lemma_crc_feed_concat(c: u32, x: Seq<u8>, y: Seq<u8>)
    ensures
        crc_feed(crc_feed(c, x), y) == crc_feed(c, x + y),
    decreases y.len(),
{
    if y.len() == 0 {
        assert(x + y =~= x);
    } else {
        lemma_crc_feed_concat(c, x, y.drop_last());
        assert((x + y).drop_last() =~= x + y.drop_last());
    }
}

impl Crc32 {
    fn new() -> (c: Crc32)
        ensures
            c.crc == 0xFFFF_FFFFu32,
    {
        Crc32 { crc: 0xFFFF_FFFF }
    }

    fn update(&mut self, data: &[u8])
        ensures
            final(self).crc == crc_feed(old(self).crc, data@),
    {
        let ghost start = self.crc;
        let mut i: usize = 0;
        while i < data.len()
            invariant
                0 <= i <= data@.len(),
                start == old(self).crc,
                self.crc == crc_feed(start, data@.take(i as int)),
            decreases data@.len() - i,
        {
            assert(data@.take(i + 1).drop_last() =~= data@.take(i as int));
            self.crc = self.crc ^ (data[i] as u32);
            let ghost fed = self.crc;
            let mut k: u32 = 0;
            while k < 8
                invariant
                    0 <= k <= 8,
                    self.crc == crc_bits(fed, k as nat),
                decreases 8 - k,
            {
                let c = self.crc;
                let mask: u32 = if c & 1 == 1 {
                    0xFFFF_FFFF
                } else {
                    0
                };
                self.crc = (c >> 1) ^ (0xEDB8_8320 & mask);
                k = k + 1;
            }
            i = i + 1;
        }
        assert(data@.take(data@.len() as int) =~= data@);
    }

    fn finalize(self) -> (s: u32)
        ensures
            s == self.crc ^ 0xFFFF_FFFFu32,
    {
        self.crc ^ 0xFFFF_FFFF
    }
}

} // verus!
