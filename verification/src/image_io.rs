use vstd::prelude::*;

use crate::framebuffer::{lemma_row_major_bounds, lemma_row_major_injective, Framebuffer};

verus! {

// ---------- CRC32 (PNG chunk checksum) ----------

/// The reflected CRC-32 polynomial.
pub const CRC_POLY: u32 = 0xEDB8_8320;

/// `c` after `k` bit steps of the reflected CRC-32 division.
pub open spec fn crc_shifted(c: u32, k: nat) -> u32
    decreases k,
{
    if k == 0 {
        c
    } else {
        let d = crc_shifted(c, (k - 1) as nat);
        if d & 1u32 != 0 {
            CRC_POLY ^ (d >> 1u32)
        } else {
            d >> 1u32
        }
    }
}

/// Entry `n` of the byte-at-a-time CRC-32 table.
pub open spec fn crc_table_entry(n: u32) -> u32 {
    crc_shifted(n, 8)
}

/// The CRC register after feeding one more byte.
pub open spec fn crc_update(c: u32, b: u8) -> u32 {
    crc_table_entry((c ^ (b as u32)) & 0xFFu32) ^ (c >> 8u32)
}

/// The CRC register after feeding `data` into the initial register `0xFFFFFFFF`.
pub open spec fn crc_register(data: Seq<u8>) -> u32
    decreases data.len(),
{
    if data.len() == 0 {
        0xFFFF_FFFFu32
    } else {
        crc_update(crc_register(data.drop_last()), data.last())
    }
}

/// The CRC-32 (ISO-HDLC, as used by PNG and zlib's crc32) of `data`.
pub open spec fn spec_crc32(data: Seq<u8>) -> u32 {
    crc_register(data) ^ 0xFFFF_FFFFu32
}

/// The 256-entry table of the byte-at-a-time CRC-32.
pub fn crc32_table() -> (table: [u32; 256])
    ensures
        forall|n: int| 0 <= n < 256 ==> #[trigger] table@[n] == crc_table_entry(n as u32),
{
    let mut table = [0u32; 256];
    let mut n: u32 = 0;
    while n < 256
        invariant
            n <= 256,
            forall|m: int| 0 <= m < n ==> #[trigger] table@[m] == crc_table_entry(m as u32),
        decreases 256 - n,
    {
        let mut c = n;
        let mut k: u32 = 0;
        while k < 8
            invariant
                k <= 8,
                c == crc_shifted(n, k as nat),
            decreases 8 - k,
        {
            c = if c & 1 != 0 {
                0xEDB88320 ^ (c >> 1)
            } else {
                c >> 1
            };
            k += 1;
        }
        table[n as usize] = c;
        n += 1;
    }
    table
}

/// CRC-32 of `data`.
pub fn crc32(data: &[u8]) -> (crc: u32)
    ensures
        crc == spec_crc32(data@),
{
    let table = crc32_table();
    let mut c: u32 = 0xFFFFFFFF;
    let mut i: usize = 0;
    while i < data.len()
        invariant
            i <= data@.len(),
            c == crc_register(data@.take(i as int)),
            forall|n: int| 0 <= n < 256 ==> #[trigger] table@[n] == crc_table_entry(n as u32),
        decreases data@.len() - i,
    {
        let b = data[i];
        let idx = (c ^ b as u32) & 0xFF;
        assert(idx < 256) by (bit_vector)
            requires
                idx == (c ^ b as u32) & 0xFF,
        ;
        c = table[idx as usize] ^ (c >> 8);
        assert(data@.take(i + 1).drop_last() =~= data@.take(i as int));
        i += 1;
    }
    assert(data@.take(i as int) =~= data@);
    c ^ 0xFFFFFFFF
}

/// The four little-endian bytes of `x`.
pub open spec fn le32(x: u32) -> Seq<u8> {
    seq![x as u8, (x >> 8u32) as u8, (x >> 16u32) as u8, (x >> 24u32) as u8]
}

/// One bit step of the reflected division, written without recursion.
spec fn crc_bit(d: u32) -> u32 {
    if d & 1u32 != 0 {
        0xEDB8_8320u32 ^ (d >> 1u32)
    } else {
        d >> 1u32
    }
}

/// A table entry as eight bit steps in a row.
spec fn crc_entry_steps(n: u32) -> u32 {
    let d1 = crc_bit(n);
    let d2 = crc_bit(d1);
    let d3 = crc_bit(d2);
    let d4 = crc_bit(d3);
    let d5 = crc_bit(d4);
    let d6 = crc_bit(d5);
    let d7 = crc_bit(d6);
    crc_bit(d7)
}

/// `crc_update` over the unrolled table entry.
spec fn crc_update_steps(c: u32, b: u8) -> u32 {
    let i = (c ^ (b as u32)) & 0xFFu32;
    crc_entry_steps(i) ^ (c >> 8u32)
}

proof fn lemma_crc_update_steps(c: u32, b: u8)
    ensures
        crc_update(c, b) == crc_update_steps(c, b),
{
    reveal_with_fuel(crc_shifted, 9);
}

proof fn lemma_crc_register_push(data: Seq<u8>, b: u8)
    ensures
        crc_register(data.push(b)) == crc_update(crc_register(data), b),
{
    assert(data.push(b).drop_last() =~= data);
}

/// The CRC-32 of the empty input is 0, and that of the single byte `a` is
/// `0xE8B7BE43`.
pub proof fn lemma_crc32_check_values()
    ensures
        spec_crc32(Seq::<u8>::empty()) == 0,
        spec_crc32(seq![0x61u8]) == 0xE8B7_BE43u32,
{
    let ff: u32 = 0xFFFF_FFFFu32;
    assert(ff ^ ff == 0u32) by (bit_vector);
    lemma_crc_register_push(Seq::<u8>::empty(), 0x61u8);
    assert(seq![0x61u8] =~= Seq::<u8>::empty().push(0x61u8));
    lemma_crc_update_steps(ff, 0x61u8);
    assert(crc_update_steps(ff, 0x61u8) ^ ff == 0xE8B7_BE43u32) by (bit_vector)
        requires
            ff == 0xFFFF_FFFFu32,
    ;
}

/// Residue law: appending to any input its own CRC-32, least significant
/// byte first, gives an input whose CRC-32 is the constant `0x2144DF1C`.
pub proof fn lemma_crc32_residue(data: Seq<u8>)
    ensures
        spec_crc32(data + le32(spec_crc32(data))) == 0x2144_DF1Cu32,
{
    let r = crc_register(data);
    let x = spec_crc32(data);
    let b = le32(x);
    assert(data + b =~= data.push(b[0]).push(b[1]).push(b[2]).push(b[3]));
    lemma_crc_register_push(data, b[0]);
    lemma_crc_register_push(data.push(b[0]), b[1]);
    lemma_crc_register_push(data.push(b[0]).push(b[1]), b[2]);
    lemma_crc_register_push(data.push(b[0]).push(b[1]).push(b[2]), b[3]);
    let r1 = crc_update(r, b[0]);
    let r2 = crc_update(r1, b[1]);
    let r3 = crc_update(r2, b[2]);
    let r4 = crc_update(r3, b[3]);
    lemma_crc_update_steps(r, b[0]);
    lemma_crc_update_steps(r1, b[1]);
    lemma_crc_update_steps(r2, b[2]);
    lemma_crc_update_steps(r3, b[3]);
    let (b0, b1, b2, b3) = (b[0], b[1], b[2], b[3]);
    assert(r4 ^ 0xFFFF_FFFFu32 == 0x2144_DF1Cu32) by (bit_vector)
        requires
            x == r ^ 0xFFFF_FFFFu32,
            b0 == x as u8,
            b1 == (x >> 8u32) as u8,
            b2 == (x >> 16u32) as u8,
            b3 == (x >> 24u32) as u8,
            r1 == crc_update_steps(r, b0),
            r2 == crc_update_steps(r1, b1),
            r3 == crc_update_steps(r2, b2),
            r4 == crc_update_steps(r3, b3),
    ;
}

// ---------- Adler32 (zlib checksum) ----------

/// The Adler-32 modulus.
pub const ADLER_MOD: u32 = 65521;

/// The two running sums `(a, b)` of Adler-32 after `data`.
pub open spec fn adler_sums(data: Seq<u8>) -> (u32, u32)
    decreases data.len(),
{
    if data.len() == 0 {
        (1, 0)
    } else {
        let (a, b) = adler_sums(data.drop_last());
        let a2 = ((a + data.last()) % 65521) as u32;
        let b2 = ((b + a2) % 65521) as u32;
        (a2, b2)
    }
}

/// The Adler-32 checksum of `data`: `b * 65536 + a`.
pub open spec fn spec_adler32(data: Seq<u8>) -> u32 {
    let (a, b) = adler_sums(data);
    (b << 16u32) | a
}

/// Adler-32 checksum of `data`.
pub fn adler32(data: &[u8]) -> (sum: u32)
    ensures
        sum == spec_adler32(data@),
        sum == adler_sums(data@).1 * 65536 + adler_sums(data@).0,
{
    let mut a: u32 = 1;
    let mut b: u32 = 0;
    let mut i: usize = 0;
    while i < data.len()
        invariant
            i <= data@.len(),
            (a, b) == adler_sums(data@.take(i as int)),
            a < 65521,
            b < 65521,
        decreases data@.len() - i,
    {
        let byte = data[i];
        a = (a + byte as u32) % 65521;
        b = (b + a) % 65521;
        assert(data@.take(i + 1).drop_last() =~= data@.take(i as int));
        i += 1;
    }
    assert(data@.take(i as int) =~= data@);
    assert((b << 16u32) | a == b * 65536 + a) by (bit_vector)
        requires
            a < 65521,
            b < 65521,
    ;
    (b << 16) | a
}

// ---------- byte helpers ----------

/// The four big-endian bytes of `x`.
pub open spec fn be32(x: u32) -> Seq<u8> {
    seq![(x >> 24u32) as u8, (x >> 16u32) as u8, (x >> 8u32) as u8, x as u8]
}

/// The two little-endian bytes of `v`.
pub open spec fn le16(v: u16) -> Seq<u8> {
    seq![v as u8, (v >> 8u16) as u8]
}

fn push_be32(out: &mut Vec<u8>, x: u32)
    ensures
        final(out)@ == old(out)@ + be32(x),
{
    out.push((x >> 24) as u8);
    out.push((x >> 16) as u8);
    out.push((x >> 8) as u8);
    out.push(x as u8);
    assert(final(out)@ =~= old(out)@ + be32(x));
}

fn push_le16(out: &mut Vec<u8>, v: u16)
    ensures
        final(out)@ == old(out)@ + le16(v),
{
    out.push(v as u8);
    out.push((v >> 8) as u8);
    assert(final(out)@ =~= old(out)@ + le16(v));
}

/// Appends `data[start..end]` to `out`.
fn push_range(out: &mut Vec<u8>, data: &[u8], start: usize, end: usize)
    requires
        start <= end <= data@.len(),
    ensures
        final(out)@ == old(out)@ + data@.subrange(start as int, end as int),
{
    let mut i = start;
    while i < end
        invariant
            start <= i <= end,
            end <= data@.len(),
            out@ == old(out)@ + data@.subrange(start as int, i as int),
        decreases end - i,
    {
        out.push(data[i]);
        assert(data@.subrange(start as int, i + 1) =~= data@.subrange(start as int, i as int).push(
            data@[i as int],
        ));
        i += 1;
    }
}

// ---------- Deflate, "stored" (uncompressed) blocks only ----------

/// The longest payload of one stored block.
pub const MAX_STORED_BLOCK: usize = 65535;

/// One stored deflate block carrying `data` (at most 65535 bytes): the block
/// header byte (1 on the last block), LEN and NLEN little-endian, the bytes.
pub open spec fn stored_block(data: Seq<u8>, last: bool) -> Seq<u8> {
    let len = data.len() as u16;
    seq![if last { 1u8 } else { 0u8 }] + le16(len) + le16(!len) + data
}

/// `data` split into stored blocks of 65535 bytes, the last one shorter
/// (possibly empty) and marked final.
pub open spec fn stored_blocks(data: Seq<u8>) -> Seq<u8>
    decreases data.len(),
{
    if data.len() <= 65535 {
        stored_block(data, true)
    } else {
        stored_block(data.take(65535), false) + stored_blocks(data.skip(65535))
    }
}

/// A deflate stream of stored (uncompressed) blocks carrying `data`.
pub fn deflate_stored(data: &[u8]) -> (out: Vec<u8>)
    ensures
        out@ == stored_blocks(data@),
{
    let mut out: Vec<u8> = Vec::new();
    if data.len() == 0 {
        out.push(0x01);
        push_le16(&mut out, 0);
        push_le16(&mut out, 0xFFFF);
        assert(!0u16 == 0xFFFFu16) by (bit_vector);
        assert(out@ =~= stored_blocks(data@));
        return out;
    }
    let mut i: usize = 0;
    let n = data.len();
    assert(data@.skip(0) =~= data@);
    while i < n
        invariant
            n == data@.len(),
            i <= n,
            i < n ==> out@ + stored_blocks(data@.skip(i as int)) == stored_blocks(data@),
            i == n ==> out@ == stored_blocks(data@),
        decreases n - i,
    {
        let remaining = n - i;
        let block_len = if remaining < 65535 { remaining } else { 65535 };
        let is_final = i + block_len >= n;
        out.push(if is_final { 0x01 } else { 0x00 });
        let len = block_len as u16;
        push_le16(&mut out, len);
        push_le16(&mut out, !len);
        push_range(&mut out, data, i, i + block_len);
        let ghost rest = data@.skip(i as int);
        assert(data@.subrange(i as int, i + block_len) =~= if is_final {
            rest
        } else {
            rest.take(65535)
        });
        assert(rest.skip(block_len as int) =~= data@.skip(i + block_len));
        i += block_len;
    }
    out
}

/// A zlib stream (no compression) of `data`: header, stored blocks, Adler-32.
pub open spec fn zlib_stream(data: Seq<u8>) -> Seq<u8> {
    seq![0x78u8, 0x01u8] + stored_blocks(data) + be32(spec_adler32(data))
}

/// Wraps `data` in a zlib stream of stored blocks.
pub fn zlib_compress(data: &[u8]) -> (out: Vec<u8>)
    ensures
        out@ == zlib_stream(data@),
{
    let mut out = Vec::new();
    out.push(0x78);
    out.push(0x01);
    let blocks = deflate_stored(data);
    push_range(&mut out, blocks.as_slice(), 0, blocks.len());
    assert(blocks@.subrange(0, blocks@.len() as int) =~= blocks@);
    push_be32(&mut out, adler32(data));
    assert(out@ =~= zlib_stream(data@));
    out
}

/// The data carried by a stream of stored deflate blocks: the LEN bytes
/// following each block's five-byte header, block after block, up to and
/// including the block marked final; what follows the final block is not
/// read.
pub open spec fn inflate_stored(s: Seq<u8>) -> Seq<u8>
    decreases s.len(),
{
    if s.len() < 5 {
        Seq::empty()
    } else {
        let len = s[1] as int + 256 * (s[2] as int);
        let end = if 5 + len <= s.len() { 5 + len } else { s.len() as int };
        let body = s.subrange(5, end);
        if s[0] % 2 == 1 || end >= s.len() {
            body
        } else {
            body + inflate_stored(s.skip(end))
        }
    }
}

proof fn lemma_le16_value(v: u16)
    ensures
        le16(v)[0] as int + 256 * (le16(v)[1] as int) == v,
{
    assert(v == (v as u8) as u16 + 256 * ((v >> 8u16) as u8) as u16) by (bit_vector);
}

/// Reading the stored blocks of `data` back gives `data`, whatever follows
/// the stream.
pub proof fn lemma_inflate_stored_blocks(data: Seq<u8>, tail: Seq<u8>)
    ensures
        inflate_stored(stored_blocks(data) + tail) == data,
    decreases data.len(),
{
    let s = stored_blocks(data) + tail;
    if data.len() <= 65535 {
        let len = data.len() as u16;
        lemma_le16_value(len);
        assert(s[1] == le16(len)[0] && s[2] == le16(len)[1]);
        assert(s.subrange(5, 5 + data.len() as int) =~= data);
    } else {
        let head = data.take(65535);
        let rest = data.skip(65535);
        let len = 65535u16;
        lemma_le16_value(len);
        assert(s[1] == le16(len)[0] && s[2] == le16(len)[1]);
        assert(s[0] == 0u8);
        assert(s.subrange(5, 65540) =~= head);
        lemma_inflate_stored_blocks(rest, tail);
        assert(s.skip(65540) =~= stored_blocks(rest) + tail);
        assert(stored_blocks(rest).len() >= 5) by {
            reveal_with_fuel(stored_blocks, 2);
        }
        assert(head + rest =~= data);
    }
}

/// A zlib stream made by `zlib_compress` carries exactly its input: the
/// stored blocks after the two header bytes read back as `data`.
pub proof fn lemma_zlib_stream_round_trip(data: Seq<u8>)
    ensures
        inflate_stored(zlib_stream(data).skip(2)) == data,
{
    let z = zlib_stream(data);
    assert(z.skip(2) =~= stored_blocks(data) + be32(spec_adler32(data)));
    lemma_inflate_stored_blocks(data, be32(spec_adler32(data)));
}

// ---------- PNG writer ----------

/// A PNG chunk: big-endian length, type, payload, CRC-32 of type and payload.
pub open spec fn png_chunk(kind: Seq<u8>, data: Seq<u8>) -> Seq<u8> {
    be32(data.len() as u32) + kind + data + be32(spec_crc32(kind + data))
}

/// Appends the PNG chunk of type `kind` carrying `data` to `out`.
pub fn write_chunk(out: &mut Vec<u8>, kind: &[u8; 4], data: &[u8])
    ensures
        final(out)@ == old(out)@ + png_chunk(kind@, data@),
{
    push_be32(out, data.len() as u32);
    let mut chunk_body = Vec::new();
    push_range(&mut chunk_body, kind.as_slice(), 0, 4);
    push_range(&mut chunk_body, data, 0, data.len());
    assert(kind@.subrange(0, 4) =~= kind@);
    assert(data@.subrange(0, data@.len() as int) =~= data@);
    push_range(out, chunk_body.as_slice(), 0, chunk_body.len());
    assert(chunk_body@.subrange(0, chunk_body@.len() as int) =~= chunk_body@);
    push_be32(out, crc32(chunk_body.as_slice()));
    assert(final(out)@ =~= old(out)@ + png_chunk(kind@, data@));
}

/// The eight-byte PNG signature.
pub open spec fn png_signature() -> Seq<u8> {
    seq![0x89u8, 0x50u8, 0x4Eu8, 0x47u8, 0x0Du8, 0x0Au8, 0x1Au8, 0x0Au8]
}

/// The IHDR payload of an 8-bit RGB image: size, depth 8, colour type 2,
/// no interlacing.
pub open spec fn png_header(width: u32, height: u32) -> Seq<u8> {
    be32(width) + be32(height) + seq![8u8, 2u8, 0u8, 0u8, 0u8]
}

/// The first `rows` rows of the packed RGB image `rgb`, each preceded by the
/// filter type byte 0 (no filter).
pub open spec fn png_scanlines(width: nat, rgb: Seq<u8>, rows: nat) -> Seq<u8>
    decreases rows,
{
    if rows == 0 {
        seq![]
    } else {
        png_scanlines(width, rgb, (rows - 1) as nat) + seq![0u8] + rgb.subrange(
            (rows - 1) * width * 3,
            (rows * width * 3) as int,
        )
    }
}

pub open spec fn chunk_ihdr() -> Seq<u8> {
    seq![0x49u8, 0x48u8, 0x44u8, 0x52u8]
}

pub open spec fn chunk_idat() -> Seq<u8> {
    seq![0x49u8, 0x44u8, 0x41u8, 0x54u8]
}

pub open spec fn chunk_iend() -> Seq<u8> {
    seq![0x49u8, 0x45u8, 0x4Eu8, 0x44u8]
}

/// The PNG file of the 8-bit RGB image `rgb` of `width x height` pixels:
/// signature, IHDR, one IDAT holding the scanlines as a stored zlib stream,
/// IEND.
pub open spec fn png_file(width: u32, height: u32, rgb: Seq<u8>) -> Seq<u8> {
    png_signature() + png_chunk(chunk_ihdr(), png_header(width, height)) + png_chunk(
        chunk_idat(),
        zlib_stream(png_scanlines(width as nat, rgb, height as nat)),
    ) + png_chunk(chunk_iend(), seq![])
}

/// Encodes an RGB8 image as a PNG whose image data is deflate-stored
/// (uncompressed).
pub fn encode_png(width: u32, height: u32, rgb: &[u8]) -> (png: Vec<u8>)
    requires
        width * height * 3 <= u32::MAX,
        1 + width * 3 <= u32::MAX,
        height * (1 + width * 3) <= u32::MAX,
        rgb@.len() == width * height * 3,
    ensures
        png@ == png_file(width, height, rgb@),
{
    let mut raw: Vec<u8> = Vec::with_capacity((height * (1 + width * 3)) as usize);
    let mut y: u32 = 0;
    while y < height
        invariant
            y <= height,
            width * height * 3 <= u32::MAX,
            rgb@.len() == width * height * 3,
            raw@ == png_scanlines(width as nat, rgb@, y as nat),
        decreases height - y,
    {
        raw.push(0u8);
        assert(y * width * 3 + width * 3 <= width * height * 3) by (nonlinear_arith)
            requires
                y < height,
        ;
        let row_start = (y * width * 3) as usize;
        push_range(&mut raw, rgb, row_start, row_start + (width * 3) as usize);
        assert((y + 1) * width * 3 == y * width * 3 + width * 3) by (nonlinear_arith);
        y += 1;
    }
    let compressed = zlib_compress(raw.as_slice());

    let mut out = Vec::new();
    out.push(0x89);
    out.push(0x50);
    out.push(0x4E);
    out.push(0x47);
    out.push(0x0D);
    out.push(0x0A);
    out.push(0x1A);
    out.push(0x0A);

    let mut ihdr = Vec::with_capacity(13);
    push_be32(&mut ihdr, width);
    push_be32(&mut ihdr, height);
    ihdr.push(8);  // bit depth
    ihdr.push(2);  // colour type: RGB
    ihdr.push(0);  // compression
    ihdr.push(0);  // filter
    ihdr.push(0);  // interlace
    assert(ihdr@ =~= png_header(width, height));
    let ihdr_kind: [u8; 4] = [0x49, 0x48, 0x44, 0x52];
    let idat_kind: [u8; 4] = [0x49, 0x44, 0x41, 0x54];
    let iend_kind: [u8; 4] = [0x49, 0x45, 0x4E, 0x44];
    assert(ihdr_kind@ =~= chunk_ihdr());
    assert(idat_kind@ =~= chunk_idat());
    assert(iend_kind@ =~= chunk_iend());
    write_chunk(&mut out, &ihdr_kind, ihdr.as_slice());
    write_chunk(&mut out, &idat_kind, compressed.as_slice());
    let empty: Vec<u8> = Vec::new();
    write_chunk(&mut out, &iend_kind, empty.as_slice());
    assert(empty@ =~= Seq::<u8>::empty());
    assert(out@ =~= png_file(width, height, rgb@));
    out
}


/// The number a reader takes from the big-endian bytes `i..i + 4` of `s`.
pub open spec fn be_read32(s: Seq<u8>, i: int) -> int {
    s[i] * 0x100_0000 + s[i + 1] * 0x1_0000 + s[i + 2] * 0x100 + s[i + 3]
}

proof fn lemma_be32_read_back(x: u32)
    ensures
        be_read32(be32(x), 0) == x,
{
    let (b0, b1, b2, b3) = ((x >> 24u32) as u8, (x >> 16u32) as u8, (x >> 8u32) as u8, x as u8);
    assert(b0 as u32 * 0x100_0000u32 + b1 as u32 * 0x1_0000u32 + b2 as u32 * 0x100u32 + b3 as u32 == x) by (bit_vector)
        requires
            b0 == (x >> 24u32) as u8,
            b1 == (x >> 16u32) as u8,
            b2 == (x >> 8u32) as u8,
            b3 == x as u8,
    ;
}

/// A PNG reader finds the right size in the encoded file: after the
/// signature comes a 13-byte IHDR chunk whose payload declares the image
/// `width` (bytes 16..20) and then its `height` (bytes 20..24), big-endian,
/// followed by bit depth 8 and colour type 2 (RGB).
pub proof fn lemma_png_declares_size(width: u32, height: u32, rgb: Seq<u8>)
    ensures
        ({
            let f = png_file(width, height, rgb);
            &&& f.len() > 33
            &&& f.subrange(0, 8) == png_signature()
            &&& be_read32(f, 8) == 13
            &&& f[12] == 0x49u8 && f[13] == 0x48u8 && f[14] == 0x44u8 && f[15] == 0x52u8
            &&& be_read32(f, 16) == width
            &&& be_read32(f, 20) == height
            &&& f[24] == 8u8 && f[25] == 2u8
        }),
{
    let f = png_file(width, height, rgb);
    let hdr = png_header(width, height);
    let chunk = png_chunk(chunk_ihdr(), hdr);
    let a = png_signature() + chunk;
    let rest = png_chunk(chunk_idat(), zlib_stream(png_scanlines(width as nat, rgb, height as nat))) + png_chunk(
        chunk_iend(),
        seq![],
    );
    assert(f =~= a + rest);
    assert(hdr.len() == 13);
    assert(chunk.len() == 25);
    assert(a.len() == 33);
    assert(rest.len() > 0);
    assert forall|k: int| 0 <= k < 33 implies #[trigger] f[k] == a[k] by {}
    assert forall|k: int| 8 <= k < 33 implies #[trigger] a[k] == chunk[k - 8] by {}
    assert forall|k: int| 0 <= k < 4 implies #[trigger] chunk[k] == be32(13u32)[k] by {}
    assert forall|k: int| 4 <= k < 8 implies #[trigger] chunk[k] == chunk_ihdr()[k - 4] by {}
    assert forall|k: int| 8 <= k < 21 implies #[trigger] chunk[k] == hdr[k - 8] by {}
    assert forall|k: int| 0 <= k < 4 implies #[trigger] hdr[k] == be32(width)[k] by {}
    assert forall|k: int| 4 <= k < 8 implies #[trigger] hdr[k] == be32(height)[k - 4] by {}
    lemma_be32_read_back(13u32);
    lemma_be32_read_back(width);
    lemma_be32_read_back(height);
    assert(f.subrange(0, 8) =~= png_signature());
}

/// The RGB bytes of a row-major `0x00RRGGBB` pixel sequence: red, green and
/// blue of each pixel in turn.
pub open spec fn rgb_bytes(pixels: Seq<u32>) -> Seq<u8> {
    Seq::new(
        3 * pixels.len(),
        |k: int|
            {
                let p = pixels[k / 3];
                if k % 3 == 0 {
                    ((p >> 16u32) & 0xFFu32) as u8
                } else if k % 3 == 1 {
                    ((p >> 8u32) & 0xFFu32) as u8
                } else {
                    (p & 0xFFu32) as u8
                }
            },
    )
}

/// Writes the PNG encoding of a framebuffer's pixels (8-bit RGB, stored
/// deflate) to the end of `out`.
pub fn write_framebuffer_png(fb: &Framebuffer, out: &mut Vec<u8>)
    requires
        fb.wf(),
        fb.width * fb.height * 3 <= u32::MAX,
        1 + fb.width * 3 <= u32::MAX,
        fb.height * (1 + fb.width * 3) <= u32::MAX,
    ensures
        final(out)@ == old(out)@ + png_file(fb.width, fb.height, rgb_bytes(fb.pixels@)),
{
    let mut rgb: Vec<u8> = Vec::with_capacity((fb.width * fb.height * 3) as usize);
    let mut i: usize = 0;
    while i < fb.pixels.len()
        invariant
            i <= fb.pixels@.len(),
            rgb@ =~= rgb_bytes(fb.pixels@.take(i as int)),
        decreases fb.pixels@.len() - i,
    {
        let (r, g, b) = crate::framebuffer::u32_to_rgb(fb.pixels[i]);
        rgb.push(r);
        rgb.push(g);
        rgb.push(b);
        assert(rgb@ =~= rgb_bytes(fb.pixels@.take(i + 1)));
        i += 1;
    }
    assert(fb.pixels@.take(i as int) =~= fb.pixels@);
    let mut png = encode_png(fb.width, fb.height, rgb.as_slice());
    out.append(&mut png);
}

// ---------- BMP reader (24/32 bit, uncompressed) ----------

/// Why a byte buffer is not a BMP this reader accepts.
#[derive(Debug, Clone, Copy, PartialEq, Eq)]
pub enum BmpError {
    /// Shorter than the headers, or no `BM` magic.
    NotBmp,
    /// The DIB header is older than BITMAPINFOHEADER.
    UnsupportedHeader,
    /// The pixel data is compressed.
    Compressed,
    /// Neither 24 nor 32 bits per pixel.
    UnsupportedDepth,
    /// A pixel lies past the end of the buffer.
    Truncated,
}

/// An RGBA8 image, row 0 at the top.
pub struct Bitmap {
    pub width: u32,
    pub height: u32,
    pub rgba: Vec<u8>,
}

/// The little-endian 32-bit word at `i`.
pub open spec fn le_u32_at(d: Seq<u8>, i: int) -> u32 {
    (d[i] as u32) | ((d[i + 1] as u32) << 8u32) | ((d[i + 2] as u32) << 16u32) | ((d[i + 3] as u32) << 24u32)
}

/// The little-endian 16-bit word at `i`.
pub open spec fn le_u16_at(d: Seq<u8>, i: int) -> u16 {
    (d[i] as u16) | ((d[i + 1] as u16) << 8u16)
}

pub open spec fn bmp_data_offset(d: Seq<u8>) -> int {
    le_u32_at(d, 10) as int
}

pub open spec fn bmp_width(d: Seq<u8>) -> u32 {
    le_u32_at(d, 18)
}

/// The signed height field: positive for bottom-up rows.
pub open spec fn bmp_height_field(d: Seq<u8>) -> i32 {
    le_u32_at(d, 22) as i32
}

pub open spec fn bmp_height(d: Seq<u8>) -> u32 {
    let h = bmp_height_field(d);
    if h >= 0 {
        h as u32
    } else {
        (-(h as int)) as u32
    }
}

pub open spec fn bmp_bits_per_pixel(d: Seq<u8>) -> u16 {
    le_u16_at(d, 28)
}

pub open spec fn bmp_bytes_per_pixel(d: Seq<u8>) -> int {
    bmp_bits_per_pixel(d) as int / 8
}

/// Bytes per stored row: padded to a multiple of four.
pub open spec fn bmp_row_stride(d: Seq<u8>) -> int {
    (bmp_width(d) * bmp_bytes_per_pixel(d) + 3) / 4 * 4
}

/// The first header check that `d` fails, if any.
pub open spec fn bmp_header_error(d: Seq<u8>) -> Option<BmpError> {
    if d.len() < 54 || d[0] != 0x42u8 || d[1] != 0x4Du8 {
        Some(BmpError::NotBmp)
    } else if le_u32_at(d, 14) < 40 {
        Some(BmpError::UnsupportedHeader)
    } else if le_u32_at(d, 30) != 0 {
        Some(BmpError::Compressed)
    } else if bmp_bits_per_pixel(d) != 24 && bmp_bits_per_pixel(d) != 32 {
        Some(BmpError::UnsupportedDepth)
    } else {
        None
    }
}

/// The stored row that output row `y` comes from: bottom-up unless the
/// height field is negative.
pub open spec fn bmp_source_row(d: Seq<u8>, y: int) -> int {
    if bmp_height_field(d) > 0 {
        bmp_height(d) - 1 - y
    } else {
        y
    }
}

/// Where the stored pixel of output row `y`, column `x` starts.
pub open spec fn bmp_pixel_pos(d: Seq<u8>, y: int, x: int) -> int {
    bmp_data_offset(d) + bmp_source_row(d, y) * bmp_row_stride(d) + x * bmp_bytes_per_pixel(d)
}

/// Every stored pixel lies inside the buffer.
pub open spec fn bmp_pixels_fit(d: Seq<u8>) -> bool {
    bmp_width(d) == 0 || bmp_height(d) == 0 || bmp_data_offset(d) + (bmp_height(d) - 1)
        * bmp_row_stride(d) + bmp_width(d) * bmp_bytes_per_pixel(d) <= d.len()
}

/// The error `read_bmp_bytes` reports for `d`, if any.
pub open spec fn bmp_error(d: Seq<u8>) -> Option<BmpError> {
    if bmp_header_error(d) is Some {
        bmp_header_error(d)
    } else if !bmp_pixels_fit(d) {
        Some(BmpError::Truncated)
    } else {
        None
    }
}

/// The pixel buffer of the decoded image fits the 32-bit size computation.
pub open spec fn bmp_size_fits(d: Seq<u8>) -> bool {
    bmp_header_error(d) is None ==> bmp_width(d) * bmp_height(d) * 4 <= u32::MAX
}

/// Channel `c` (red, green, blue, alpha) of output pixel `(x, y)`: stored
/// pixels are blue, green, red, then alpha on 32-bit images; 24-bit images
/// are opaque.
pub open spec fn bmp_texel(d: Seq<u8>, y: int, x: int, c: int) -> u8 {
    let p = bmp_pixel_pos(d, y, x);
    if c == 0 {
        d[p + 2]
    } else if c == 1 {
        d[p + 1]
    } else if c == 2 {
        d[p]
    } else if bmp_bits_per_pixel(d) == 32 {
        d[p + 3]
    } else {
        255u8
    }
}

fn le_u32(data: &[u8], i: usize) -> (v: u32)
    requires
        i + 4 <= data@.len(),
    ensures
        v == le_u32_at(data@, i as int),
{
    (data[i] as u32) | ((data[i + 1] as u32) << 8) | ((data[i + 2] as u32) << 16) | ((data[i + 3] as u32) << 24)
}

proof fn lemma_pixel_pos_bounds(d: Seq<u8>, y: int, x: int)
    requires
        bmp_header_error(d) is None,
        bmp_size_fits(d),
        0 <= y < bmp_height(d),
        0 <= x < bmp_width(d),
    ensures
        0 <= bmp_source_row(d, y) < bmp_height(d),
        bmp_data_offset(d) <= bmp_pixel_pos(d, y, x),
        bmp_pixel_pos(d, y, x) + bmp_bytes_per_pixel(d) <= bmp_data_offset(d) + (bmp_height(d) - 1)
            * bmp_row_stride(d) + bmp_width(d) * bmp_bytes_per_pixel(d),
        bmp_source_row(d, y) * bmp_row_stride(d) <= 0x10_0000_0000,
        bmp_pixel_pos(d, y, x) + 4 <= 0x20_0000_0000,
        3 <= bmp_bytes_per_pixel(d) <= 4,
        bmp_row_stride(d) <= 4 * bmp_width(d) + 3,
{
    let w = bmp_width(d) as int;
    let h = bmp_height(d) as int;
    let b = bmp_bytes_per_pixel(d);
    let st = bmp_row_stride(d);
    let r = bmp_source_row(d, y);
    assert(b == 3 || b == 4);
    assert(0 <= st <= 4 * w + 3) by {
        assert(0 <= w * b <= 4 * w) by (nonlinear_arith)
            requires
                0 <= w,
                3 <= b <= 4,
        ;
    }
    assert(r * st <= (h - 1) * st) by (nonlinear_arith)
        requires
            0 <= r <= h - 1,
            0 <= st,
    ;
    assert(x * b + b <= w * b) by (nonlinear_arith)
        requires
            0 <= x < w,
            0 <= b,
    ;
    assert(0 <= r * st && 0 <= x * b) by (nonlinear_arith)
        requires
            0 <= r,
            0 <= st,
            0 <= x,
            0 <= b,
    ;
    assert((h - 1) * st <= (h - 1) * (4 * w + 3)) by (nonlinear_arith)
        requires
            1 <= h,
            0 <= st <= 4 * w + 3,
    ;
    assert((h - 1) * (4 * w + 3) <= 4 * (w * h) + 3 * h) by (nonlinear_arith)
        requires
            1 <= h,
            0 <= w,
    ;
    assert(w * h * 4 == 4 * (w * h)) by (nonlinear_arith);
    assert(w * b <= 4 * w) by (nonlinear_arith)
        requires
            0 <= w,
            b <= 4,
    ;
    assert(h <= 0x8000_0000);
    assert(w <= 0xFFFF_FFFF);
}

/// The number a reader takes from the little-endian bytes `i..i + 4` of `s`.
pub open spec fn le_read32(s: Seq<u8>, i: int) -> int {
    s[i] + s[i + 1] * 0x100 + s[i + 2] * 0x1_0000 + s[i + 3] * 0x100_0000
}

proof fn lemma_le_words(d: Seq<u8>, i: int)
    requires
        0 <= i,
        i + 4 <= d.len(),
    ensures
        le_u32_at(d, i) as int == le_read32(d, i),
        le_u16_at(d, i) as int == d[i] + d[i + 1] * 0x100,
        (le_u32_at(d, i) as i32 > 0) <==> (0 < le_read32(d, i) < 0x8000_0000),
        le_read32(d, i) < 0x8000_0000 ==> le_u32_at(d, i) as i32 as int == le_read32(d, i),
{
    let (a, b, c, e) = (d[i], d[i + 1], d[i + 2], d[i + 3]);
    let v = le_u32_at(d, i);
    let h = le_u16_at(d, i);
    assert(v as int == a as int + b as int * 0x100 + c as int * 0x1_0000 + e as int * 0x100_0000
        && h as int == a as int + b as int * 0x100
        && ((v as i32 > 0) <==> (0 < v && v < 0x8000_0000u32))
        && (v < 0x8000_0000u32 ==> v as i32 as int == v as int)) by (bit_vector)
        requires
            v == (a as u32) | ((b as u32) << 8u32) | ((c as u32) << 16u32) | ((e as u32) << 24u32),
            h == (a as u16) | ((b as u16) << 8u16),
    ;
}

/// Where a BMP's pixels are read: the decoded channel `c` of pixel `(x, y)`
/// comes from the stored pixel that starts at the data offset declared in
/// bytes 10..14 of the file, plus the stored row times the row stride
/// (width times bytes per pixel, rounded up to four), plus `x` times the
/// bytes per pixel. Stored rows run bottom-up when the height field (bytes
/// 22..26) is positive. Stored pixels are blue, green, red (then alpha on
/// 32-bit images); 24-bit images come out opaque.
pub proof fn lemma_bmp_pixel_source(d: Seq<u8>, y: int, x: int, c: int)
    requires
        bmp_error(d) is None,
        0 <= y < bmp_height(d),
        0 <= x < bmp_width(d),
        0 <= c < 4,
    ensures
        ({
            let offset = le_read32(d, 10);
            let width = le_read32(d, 18);
            let height_field = le_read32(d, 22);
            let bytes = (d[28] + d[29] * 0x100) / 8;
            let stride = (width * bytes + 3) / 4 * 4;
            let row = if 0 < height_field < 0x8000_0000 { height_field - 1 - y } else { y };
            let p = offset + row * stride + x * bytes;
            &&& 0 <= p
            &&& p + bytes <= d.len()
            &&& bmp_texel(d, y, x, c) == if c == 0 {
                d[p + 2]
            } else if c == 1 {
                d[p + 1]
            } else if c == 2 {
                d[p]
            } else if bytes == 4 {
                d[p + 3]
            } else {
                255u8
            }
        }),
{
    lemma_le_words(d, 10);
    lemma_le_words(d, 18);
    lemma_le_words(d, 22);
    lemma_le_words(d, 28);
    let w = bmp_width(d) as int;
    let h = bmp_height(d) as int;
    let b = bmp_bytes_per_pixel(d);
    let r = bmp_source_row(d, y);
    let st = bmp_row_stride(d);
    assert(b == 3 || b == 4);
    assert(0 <= r < h);
    assert(0 <= st) by {
        assert(0 <= w * b) by (nonlinear_arith)
            requires
                0 <= w,
                0 <= b,
        ;
    }
    assert(r * st <= (h - 1) * st && 0 <= r * st) by (nonlinear_arith)
        requires
            0 <= r <= h - 1,
            0 <= st,
    ;
    assert(x * b + b <= w * b && 0 <= x * b) by (nonlinear_arith)
        requires
            0 <= x < w,
            0 <= b,
    ;
}

/// Decodes an uncompressed 24- or 32-bit BMP into top-down RGBA8.
#[verifier::spinoff_prover]
pub fn read_bmp_bytes(data: &[u8]) -> (res: Result<Bitmap, BmpError>)
    requires
        bmp_size_fits(data@),
    ensures
        match res {
            Ok(bmp) => {
                &&& bmp_error(data@) is None
                &&& bmp.width == bmp_width(data@)
                &&& bmp.height == bmp_height(data@)
                &&& bmp.rgba@.len() == bmp.width * bmp.height * 4
                &&& forall|y: int, x: int, c: int|
                    0 <= y < bmp.height && 0 <= x < bmp.width && 0 <= c < 4 ==> #[trigger] bmp.rgba@[(
                    y * bmp.width + x) * 4 + c] == bmp_texel(data@, y, x, c)
            },
            Err(e) => bmp_error(data@) == Some(e),
        },
{
    if data.len() < 54 || data[0] != 0x42 || data[1] != 0x4D {
        return Err(BmpError::NotBmp);
    }
    let data_offset = le_u32(data, 10) as u64;
    let dib_size = le_u32(data, 14);
    if dib_size < 40 {
        return Err(BmpError::UnsupportedHeader);
    }
    let width = le_u32(data, 18);
    let height_raw = le_u32(data, 22) as i32;
    let bpp = (data[28] as u16) | ((data[29] as u16) << 8);
    let compression = le_u32(data, 30);
    if compression != 0 {
        return Err(BmpError::Compressed);
    }
    if bpp != 24 && bpp != 32 {
        return Err(BmpError::UnsupportedDepth);
    }
    let flip = height_raw > 0;
    let height: u32 = if height_raw >= 0 {
        height_raw as u32
    } else {
        0u32.wrapping_sub(height_raw as u32)
    };
    proof {
        if height_raw < 0 {
            assert(0u32.wrapping_sub(height_raw as u32) == (-(height_raw as int)) as u32) by (bit_vector)
                requires
                    height_raw < 0,
            ;
        }
    }
    assert(height == bmp_height(data@));
    let bytes_per_pixel = (bpp / 8) as u64;
    assert(bytes_per_pixel == 3 || bytes_per_pixel == 4);
    assert(width as u64 * bytes_per_pixel <= 4 * 0xFFFF_FFFFu64) by (nonlinear_arith)
        requires
            bytes_per_pixel <= 4,
    ;
    let row_stride = (width as u64 * bytes_per_pixel + 3) / 4 * 4;

    let mut rgba = vec![0u8; (width * height * 4) as usize];
    let mut y: u32 = 0;
    while y < height
        invariant
            bmp_header_error(data@) is None,
            bmp_size_fits(data@),
            width == bmp_width(data@),
            height == bmp_height(data@),
            flip == (bmp_height_field(data@) > 0),
            data_offset == bmp_data_offset(data@),
            bytes_per_pixel == bmp_bytes_per_pixel(data@),
            row_stride == bmp_row_stride(data@),
            bpp == bmp_bits_per_pixel(data@),
            y <= height,
            rgba@.len() == width * height * 4,
            y > 0 ==> bmp_pixel_pos(data@, y - 1, width - 1) + bytes_per_pixel <= data@.len() || width
                == 0,
            bmp_source_row(data@, 0) == height - 1 && y > 0 ==> (width == 0 || bmp_pixel_pos(data@, 0, width - 1) + bytes_per_pixel <= data@.len()),
            forall|yy: int, xx: int, c: int|
                0 <= yy < y && 0 <= xx < width && 0 <= c < 4 ==> #[trigger] rgba@[(yy * width + xx) * 4
                    + c] == bmp_texel(data@, yy, xx, c),
        decreases height - y,
    {
        let src_row = if flip { height - 1 - y } else { y };
        let mut x: u32 = 0;
        while x < width
            invariant
                bmp_header_error(data@) is None,
                bmp_size_fits(data@),
                width == bmp_width(data@),
                height == bmp_height(data@),
                flip == (bmp_height_field(data@) > 0),
                data_offset == bmp_data_offset(data@),
                bytes_per_pixel == bmp_bytes_per_pixel(data@),
                row_stride == bmp_row_stride(data@),
                bpp == bmp_bits_per_pixel(data@),
                y < height,
                src_row == bmp_source_row(data@, y as int),
                x <= width,
                rgba@.len() == width * height * 4,
                x > 0 ==> bmp_pixel_pos(data@, y as int, x - 1) + bytes_per_pixel <= data@.len(),
                forall|yy: int, xx: int, c: int|
                    0 <= yy < y && 0 <= xx < width && 0 <= c < 4 ==> #[trigger] rgba@[(yy * width + xx)
                        * 4 + c] == bmp_texel(data@, yy, xx, c),
                forall|xx: int, c: int|
                    0 <= xx < x && 0 <= c < 4 ==> #[trigger] rgba@[(y * width + xx) * 4 + c]
                        == bmp_texel(data@, y as int, xx, c),
            decreases width - x,
        {
            proof {
                lemma_pixel_pos_bounds(data@, y as int, x as int);
            }
            let px = data_offset + src_row as u64 * row_stride + x as u64 * bytes_per_pixel;
            if px + bytes_per_pixel > data.len() as u64 {
                proof {
                    lemma_pixel_pos_bounds(data@, y as int, x as int);
                }
                return Err(BmpError::Truncated);
            }
            let p = px as usize;
            let b = data[p];
            let g = data[p + 1];
            let r = data[p + 2];
            let a = if bpp == 32 { data[p + 3] } else { 255 };
            proof {
                lemma_row_major_bounds(x as int, y as int, width as int, height as int);
                assert((y * width + x) * 4 + 4 <= width * height * 4) by (nonlinear_arith)
                    requires
                        y * width + x < width * height,
                ;
            }
            let dst = ((y * width + x) * 4) as usize;
            let ghost before = rgba@;
            rgba.set(dst, r);
            rgba.set(dst + 1, g);
            rgba.set(dst + 2, b);
            rgba.set(dst + 3, a);
            proof {
                assert forall|yy: int, xx: int, c: int|
                    0 <= yy < y && 0 <= xx < width && 0 <= c < 4 implies #[trigger] rgba@[(yy * width + xx)
                    * 4 + c] == bmp_texel(data@, yy, xx, c) by {
                    lemma_row_major_bounds(xx, yy, width as int, height as int);
                    let i = (yy * width + xx) * 4 + c;
                    if dst <= i < dst + 4 {
                        lemma_row_major_injective(c, yy * width + xx, i - dst, y * width + x, 4);
                        lemma_row_major_injective(xx, yy, x as int, y as int, width as int);
                    }
                    assert(rgba@[i] == before[i]);
                }
                assert forall|xx: int, c: int| 0 <= xx < x + 1 && 0 <= c < 4 implies #[trigger] rgba@[(y * width
                    + xx) * 4 + c] == bmp_texel(data@, y as int, xx, c) by {
                    lemma_row_major_bounds(xx, y as int, width as int, height as int);
                    let i = (y * width + xx) * 4 + c;
                    if xx < x {
                        if dst <= i < dst + 4 {
                            lemma_row_major_injective(c, y * width + xx, i - dst, y * width + x, 4);
                        }
                        assert(rgba@[i] == before[i]);
                    } else {
                        assert(i == dst + c);
                    }
                }
            }
            x += 1;
        }
        y += 1;
    }
    proof {
        if width > 0 && height > 0 {
            let last = if bmp_height_field(data@) > 0 { 0int } else { height - 1 };
            assert(bmp_source_row(data@, last) == height - 1);
        }
    }
    Ok(Bitmap { width, height, rgba })
}

} // verus!
