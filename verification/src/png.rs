//! A minimal PNG encoder (8-bit RGBA, zlib "stored" blocks) and an RGBA canvas
//! to lay out icon previews on.
//!
//! The byte stream is specified exactly: `png_spec` gives the file that
//! `Canvas::to_png` writes, built from `chunk_spec`, `zlib_spec`, `crc32_spec`
//! and `adler32_spec`.

use vstd::prelude::*;
use vstd::arithmetic::div_mod::{lemma_add_mod_noop, lemma_fundamental_div_mod_converse};
use vstd::slice::slice_subrange;

verus! {

// ---------------------------------------------------------------------------
// Byte helpers
// ---------------------------------------------------------------------------

/// The four big-endian bytes of `x`.
pub open spec fn be32(x: u32) -> Seq<u8> {
    seq![
        (x / 0x100_0000) as u8,
        ((x / 0x1_0000) % 256) as u8,
        ((x / 0x100) % 256) as u8,
        (x % 256) as u8,
    ]
}

/// Appends the four big-endian bytes of `x`.
fn push_be32(out: &mut Vec<u8>, x: u32)
    ensures
        final(out)@ == old(out)@ + be32(x),
{
    out.push((x / 0x100_0000) as u8);
    out.push(((x / 0x1_0000) % 256) as u8);
    out.push(((x / 0x100) % 256) as u8);
    out.push((x % 256) as u8);
    assert(final(out)@ =~= old(out)@ + be32(x));
}

/// Appends every byte of `src`.
fn push_all(out: &mut Vec<u8>, src: &[u8])
    ensures
        final(out)@ == old(out)@ + src@,
{
    let ghost start = out@;
    let n = src.len();
    let mut i: usize = 0;
    while i < n
        invariant
            n == src@.len(),
            i <= n,
            out@ == start + src@.take(i as int),
        decreases n - i,
    {
        out.push(src[i]);
        i = i + 1;
        assert(src@.take(i as int) =~= src@.take(i - 1) + seq![src@[i - 1]]);
    }
    assert(src@.take(n as int) =~= src@);
}

// ---------------------------------------------------------------------------
// CRC-32 (reflected polynomial 0xEDB88320)
// ---------------------------------------------------------------------------

/// One shift of the bitwise CRC register.
pub open spec fn crc_shift(c: u32) -> u32 {
    if c & 1 != 0 {
        (c >> 1) ^ 0xEDB8_8320
    } else {
        c >> 1
    }
}

/// `k` shifts of the CRC register.
pub open spec fn crc_shifts(c: u32, k: nat) -> u32
    decreases k,
{
    if k == 0 {
        c
    } else {
        crc_shift(crc_shifts(c, (k - 1) as nat))
    }
}

/// The register after feeding `data` in order, starting from all ones.
pub open spec fn crc_register(data: Seq<u8>) -> u32
    decreases data.len(),
{
    if data.len() == 0 {
        0xFFFF_FFFF
    } else {
        crc_shifts(crc_register(data.drop_last()) ^ (data.last() as u32), 8)
    }
}

/// CRC-32 of `data` as used by PNG chunks: the final register, inverted.
pub open spec fn crc32_spec(data: Seq<u8>) -> u32 {
    crc_register(data) ^ 0xFFFF_FFFF
}

fn crc32(data: &[u8]) -> (r: u32)
    ensures
        r == crc32_spec(data@),
{
    let mut c: u32 = 0xFFFF_FFFF;
    let n = data.len();
    let mut i: usize = 0;
    while i < n
        invariant
            n == data@.len(),
            i <= n,
            c == crc_register(data@.take(i as int)),
        decreases n - i,
    {
        let b = data[i];
        c = c ^ (b as u32);
        let ghost c0 = c;
        let mut k: u32 = 0;
        while k < 8
            invariant
                k <= 8,
                c == crc_shifts(c0, k as nat),
            decreases 8 - k,
        {
            c = if c & 1 != 0 {
                (c >> 1) ^ 0xEDB8_8320
            } else {
                c >> 1
            };
            k = k + 1;
        }
        assert(data@.take(i + 1).drop_last() =~= data@.take(i as int));
        i = i + 1;
    }
    assert(data@.take(n as int) =~= data@);
    c ^ 0xFFFF_FFFF
}

// ---------------------------------------------------------------------------
// Adler-32
// ---------------------------------------------------------------------------

/// The Adler-32 modulus.
pub open spec fn adler_mod() -> int {
    65521
}

/// Sum of all bytes.
pub open spec fn byte_sum(s: Seq<u8>) -> int
    decreases s.len(),
{
    if s.len() == 0 {
        0
    } else {
        byte_sum(s.drop_last()) + s.last()
    }
}

/// Sum, over every non-empty prefix of `s`, of one plus that prefix's byte sum.
pub open spec fn prefix_sums(s: Seq<u8>) -> int
    decreases s.len(),
{
    if s.len() == 0 {
        0
    } else {
        prefix_sums(s.drop_last()) + 1 + byte_sum(s)
    }
}

/// Adler-32 of `s`: high half `prefix_sums mod 65521`, low half `1 + byte_sum mod 65521`.
pub open spec fn adler32_spec(s: Seq<u8>) -> u32 {
    ((prefix_sums(s) % adler_mod()) * 65536 + (1 + byte_sum(s)) % adler_mod()) as u32
}

proof fn lemma_byte_sum_nonneg(s: Seq<u8>)
    ensures
        byte_sum(s) >= 0,
        prefix_sums(s) >= 0,
    decreases s.len(),
{
    if s.len() > 0 {
        lemma_byte_sum_nonneg(s.drop_last());
    }
}

fn adler32(data: &[u8]) -> (r: u32)
    ensures
        r == adler32_spec(data@),
{
    let mut a: u32 = 1;
    let mut b: u32 = 0;
    let n = data.len();
    let mut i: usize = 0;
    while i < n
        invariant
            n == data@.len(),
            i <= n,
            a == (1 + byte_sum(data@.take(i as int))) % adler_mod(),
            b == prefix_sums(data@.take(i as int)) % adler_mod(),
        decreases n - i,
    {
        let x = data[i];
        let ghost pre = data@.take(i as int);
        let ghost post = data@.take(i + 1);
        assert(post.drop_last() =~= pre);
        proof {
            lemma_byte_sum_nonneg(pre);
            lemma_add_mod_noop(1 + byte_sum(pre), x as int, 65521);
            lemma_add_mod_noop(prefix_sums(pre), 1 + byte_sum(post), 65521);
            assert((x as int) % 65521 == x as int);
            assert(((1 + byte_sum(post)) % 65521) % 65521 == (1 + byte_sum(post)) % 65521)
                by {
                lemma_add_mod_noop(1 + byte_sum(post), 0, 65521);
            }
        }
        a = (a + x as u32) % 65521;
        b = (b + a) % 65521;
        i = i + 1;
    }
    assert(data@.take(n as int) =~= data@);
    assert((b << 16) | a == b * 65536 + a) by (bit_vector)
        requires
            a < 65536,
            b < 65536,
    ;
    (b << 16) | a
}


// ---------------------------------------------------------------------------
// zlib with stored (uncompressed) deflate blocks
// ---------------------------------------------------------------------------

/// Largest payload of one stored block.
pub open spec fn max_block() -> int {
    65535
}

/// Header of a stored block: final flag, then LEN and its complement, little-endian.
pub open spec fn block_header(last: bool, n: int) -> Seq<u8> {
    seq![
        if last { 1u8 } else { 0u8 },
        (n % 256) as u8,
        (n / 256) as u8,
        ((65535 - n) % 256) as u8,
        ((65535 - n) / 256) as u8,
    ]
}

/// `raw` cut into stored blocks of at most 65535 bytes; only the last is flagged final.
/// An empty `raw` gives a single empty final block.
pub open spec fn stored_blocks(raw: Seq<u8>) -> Seq<u8>
    decreases raw.len(),
{
    if raw.len() <= max_block() {
        block_header(true, raw.len() as int) + raw
    } else {
        block_header(false, max_block()) + raw.take(max_block()) + stored_blocks(
            raw.skip(max_block()),
        )
    }
}

/// A zlib stream (CMF 0x78, FLG 0x01) holding `raw` in stored blocks, with its Adler-32.
pub open spec fn zlib_spec(raw: Seq<u8>) -> Seq<u8> {
    seq![0x78u8, 0x01u8] + stored_blocks(raw) + be32(adler32_spec(raw))
}

fn zlib_stored(raw: &[u8]) -> (out: Vec<u8>)
    ensures
        out@ == zlib_spec(raw@),
{
    let mut out: Vec<u8> = Vec::new();
    out.push(0x78);
    out.push(0x01);
    let ghost target = seq![0x78u8, 0x01u8] + stored_blocks(raw@);
    if raw.len() == 0 {
        out.push(0x01);
        out.push(0x00);
        out.push(0x00);
        out.push(0xFF);
        out.push(0xFF);
        assert(out@ =~= target);
    } else {
        let len = raw.len();
        let mut i: usize = 0;
        assert(raw@.skip(0) =~= raw@);
        while i < len
            invariant
                len == raw@.len(),
                len > 0,
                i <= len,
                i < len ==> out@ + stored_blocks(raw@.skip(i as int)) == target,
                i == len ==> out@ == target,
            decreases len - i,
        {
            let rest = len - i;
            let n: usize = if rest < 65535 { rest } else { 65535 };
            let last: u8 = if i + n >= len { 1 } else { 0 };
            let ghost before = out@;
            let ghost tail = raw@.skip(i as int);
            out.push(last);
            let n16: u16 = n as u16;
            let nn: u16 = 0xFFFF - n16;
            out.push((n16 % 256) as u8);
            out.push((n16 / 256) as u8);
            out.push((nn % 256) as u8);
            out.push((nn / 256) as u8);
            let part = slice_subrange(raw, i, i + n);
            push_all(&mut out, part);
            proof {
                assert(part@ =~= tail.take(n as int));
                if rest <= 65535 {
                    assert(tail.take(n as int) =~= tail);
                    assert(out@ =~= before + block_header(true, n as int) + tail);
                } else {
                    assert(tail.skip(65535) =~= raw@.skip(i + 65535));
                    assert(out@ =~= before + block_header(false, 65535) + tail.take(65535));
                }
            }
            i = i + n;
        }
    }
    let check = adler32(raw);
    push_be32(&mut out, check);
    out
}

/// Reads a sequence of stored deflate blocks back: each block's LEN must match the
/// complement NLEN, blocks are taken in order, and the final block must end the input.
pub open spec fn inflate_stored(bytes: Seq<u8>) -> Option<Seq<u8>>
    decreases bytes.len(),
{
    if bytes.len() < 5 {
        None
    } else {
        let n = bytes[1] as int + 256 * bytes[2] as int;
        let nn = bytes[3] as int + 256 * bytes[4] as int;
        if n + nn != 65535 || bytes.len() < 5 + n {
            None
        } else if bytes[0] == 1 {
            if bytes.len() == 5 + n {
                Some(bytes.subrange(5, 5 + n))
            } else {
                None
            }
        } else if bytes[0] == 0 {
            match inflate_stored(bytes.skip(5 + n)) {
                Some(rest) => Some(bytes.subrange(5, 5 + n) + rest),
                None => None,
            }
        } else {
            None
        }
    }
}

/// Law: the stored blocks written for `raw` read back as `raw`, and the zlib header that
/// precedes them passes the zlib header check (CMF·256 + FLG is a multiple of 31, stored
/// compression method 8, no preset dictionary).
pub proof fn lemma_stored_blocks_round_trip(raw: Seq<u8>)
    ensures
        inflate_stored(stored_blocks(raw)) == Some(raw),
        (0x78 * 256 + 0x01) % 31 == 0,
        zlib_spec(raw).subrange(0, 2) == seq![0x78u8, 0x01u8],
    decreases raw.len(),
{
    let b = stored_blocks(raw);
    if raw.len() <= 65535 {
        let n = raw.len() as int;
        lemma_block_header(true, n);
        assert(b == block_header(true, n) + raw);
        assert(b.subrange(5, 5 + n) =~= raw);
    } else {
        lemma_stored_blocks_round_trip(raw.skip(65535));
        lemma_block_header(false, 65535);
        let rest = stored_blocks(raw.skip(65535));
        assert(b == block_header(false, 65535) + raw.take(65535) + rest);
        assert(b.subrange(5, 65540) =~= raw.take(65535));
        assert(b.skip(65540) =~= rest);
        assert(raw.take(65535) + raw.skip(65535) =~= raw);
    }
    assert(zlib_spec(raw).subrange(0, 2) =~= seq![0x78u8, 0x01u8]);
}

proof fn lemma_block_header(last: bool, n: int)
    requires
        0 <= n <= 65535,
    ensures
        block_header(last, n).len() == 5,
        block_header(last, n)[0] == (if last { 1u8 } else { 0u8 }),
        block_header(last, n)[1] as int + 256 * block_header(last, n)[2] as int == n,
        block_header(last, n)[3] as int + 256 * block_header(last, n)[4] as int == 65535 - n,
{
}

// ---------------------------------------------------------------------------
// PNG chunks and file
// ---------------------------------------------------------------------------

/// A PNG chunk: length, type, data, CRC-32 over type and data.
pub open spec fn chunk_spec(kind: Seq<u8>, data: Seq<u8>) -> Seq<u8> {
    be32(data.len() as u32) + kind + data + be32(crc32_spec(kind + data))
}

fn chunk(kind: [u8; 4], data: &[u8]) -> (out: Vec<u8>)
    ensures
        out@ == chunk_spec(kind@, data@),
{
    let mut out: Vec<u8> = Vec::new();
    push_be32(&mut out, data.len() as u32);
    let mut crc_in: Vec<u8> = Vec::new();
    crc_in.push(kind[0]);
    crc_in.push(kind[1]);
    crc_in.push(kind[2]);
    crc_in.push(kind[3]);
    assert(crc_in@ =~= kind@);
    push_all(&mut crc_in, data);
    push_all(&mut out, crc_in.as_slice());
    let c = crc32(crc_in.as_slice());
    push_be32(&mut out, c);
    out
}


// ---------------------------------------------------------------------------
// Canvas
// ---------------------------------------------------------------------------

/// Index of channel `c` of pixel `(x, y)` in a row-major RGBA buffer `w` pixels wide.
pub open spec fn pix(w: int, x: int, y: int, c: int) -> int {
    (y * w + x) * 4 + c
}

/// Channel `c` (0 = R, 1 = G, 2 = B, 3 = A) of an opaque color.
pub open spec fn opaque_channel(rgb: (u8, u8, u8), c: int) -> u8 {
    if c == 0 {
        rgb.0
    } else if c == 1 {
        rgb.1
    } else if c == 2 {
        rgb.2
    } else {
        0xFF
    }
}

proof fn lemma_u32_as_i32(v: u32)
    ensures
        (v as i32) > 0 ==> v <= 0x7fff_ffff,
        v <= 0x7fff_ffff ==> (v as i32) as int == v as int,
{
    assert((v as i32) > 0 ==> v <= 0x7fff_ffff) by (bit_vector);
}

proof fn lemma_wide_side_forces_empty(a: int, b: int)
    requires
        0 <= a,
        0 <= b,
        a * b * 4 <= u32::MAX,
    ensures
        b > 0x7fff_ffff ==> a == 0,
{
    if b > 0x7fff_ffff && a > 0 {
        assert(a * b * 4 > u32::MAX) by (nonlinear_arith)
            requires
                a >= 1,
                b > 0x7fff_ffff,
        ;
    }
}

proof fn lemma_pix_bounds(w: int, h: int, x: int, y: int, c: int)
    requires
        0 <= x < w,
        0 <= y < h,
        0 <= c < 4,
    ensures
        0 <= y * w + x < w * h,
        0 <= pix(w, x, y, c) < w * h * 4,
        pix(w, x, y, c) == pix(w, x, y, 0) + c,
{
    assert(0 <= y * w + x < w * h) by (nonlinear_arith)
        requires
            0 <= x < w,
            0 <= y < h,
    ;
}

proof fn lemma_pix_unique(w: int, x1: int, y1: int, c1: int, x2: int, y2: int, c2: int)
    requires
        0 <= x1 < w,
        0 <= x2 < w,
        0 <= y1,
        0 <= y2,
        0 <= c1 < 4,
        0 <= c2 < 4,
        pix(w, x1, y1, c1) == pix(w, x2, y2, c2),
    ensures
        x1 == x2,
        y1 == y2,
        c1 == c2,
{
    let i = pix(w, x1, y1, c1);
    lemma_fundamental_div_mod_converse(i, 4, y1 * w + x1, c1);
    lemma_fundamental_div_mod_converse(i, 4, y2 * w + x2, c2);
    lemma_fundamental_div_mod_converse(y1 * w + x1, w, y1, x1);
    lemma_fundamental_div_mod_converse(y2 * w + x2, w, y2, x2);
}

/// Straight-alpha blend of `fg` over `bg` with coverage `a` (0..=255), rounded down.
pub open spec fn blend(fg: u8, bg: u8, a: u8) -> u8 {
    ((fg as int * a as int + bg as int * (255 - a as int)) / 255) as u8
}

/// Channel `c` after compositing source pixel `(sx, sy)` of the `sw`-wide RGBA buffer
/// `src` over a destination channel whose value is `d`: a fully transparent source pixel
/// leaves `d`, otherwise the color channels are blended and alpha becomes opaque.
pub open spec fn composite(src: Seq<u8>, sw: int, sx: int, sy: int, c: int, d: u8) -> u8 {
    let si = pix(sw, sx, sy, 0);
    let a = src[si + 3];
    if a == 0 {
        d
    } else if c == 3 {
        0xFF
    } else {
        blend(src[si + c], d, a)
    }
}

/// The source placement fits in `i32` destination coordinates and `u32` arithmetic.
pub open spec fn blit_fits(sw: u32, sh: u32, dx: i32, dy: i32, zoom: u32) -> bool {
    sw == 0 || sh == 0 || {
        &&& sw * zoom <= 0x8000_0000
        &&& sh * zoom <= 0x8000_0000
        &&& dx + sw * zoom <= 0x8000_0000
        &&& dy + sh * zoom <= 0x8000_0000
    }
}

/// Destination channel `(x, y, c)` after drawing `src` (`sw` × `sh`, each pixel enlarged to a
/// `zoom` × `zoom` block) with its top-left corner at `(dx, dy)` over the old value `d`.
pub open spec fn blit_channel(
    src: Seq<u8>,
    sw: int,
    sh: int,
    dx: int,
    dy: int,
    zoom: int,
    x: int,
    y: int,
    c: int,
    d: u8,
) -> u8 {
    let rx = x - dx;
    let ry = y - dy;
    if 0 <= rx < sw * zoom && 0 <= ry < sh * zoom {
        composite(src, sw, rx / zoom, ry / zoom, c, d)
    } else {
        d
    }
}

/// Lexicographic order on the nesting positions `(sy, sx, zy, zx)` of the drawing loops.
pub open spec fn lex_lt(a: (int, int, int, int), b: (int, int, int, int)) -> bool {
    a.0 < b.0 || (a.0 == b.0 && (a.1 < b.1 || (a.1 == b.1 && (a.2 < b.2 || (a.2 == b.2 && a.3
        < b.3)))))
}

/// `blit_channel`, restricted to the source positions drawn before loop position `cur`.
pub open spec fn blit_partial(
    src: Seq<u8>,
    sw: int,
    sh: int,
    dx: int,
    dy: int,
    zoom: int,
    x: int,
    y: int,
    c: int,
    d: u8,
    cur: (int, int, int, int),
) -> u8 {
    let rx = x - dx;
    let ry = y - dy;
    if 0 <= rx < sw * zoom && 0 <= ry < sh * zoom && lex_lt(
        (ry / zoom, rx / zoom, ry % zoom, rx % zoom),
        cur,
    ) {
        composite(src, sw, rx / zoom, ry / zoom, c, d)
    } else {
        d
    }
}

proof fn lemma_split(r: int, zoom: int, n: int)
    requires
        zoom > 0,
        0 <= r < n * zoom,
    ensures
        0 <= r / zoom < n,
        0 <= r % zoom < zoom,
        r == (r / zoom) * zoom + r % zoom,
{
    vstd::arithmetic::div_mod::lemma_fundamental_div_mod(r, zoom);
    vstd::arithmetic::div_mod::lemma_mod_pos_bound(r, zoom);
    assert(zoom * (r / zoom) == (r / zoom) * zoom) by (nonlinear_arith);
    assert(r / zoom >= 0) by (nonlinear_arith)
        requires
            zoom > 0,
            r >= 0,
            r == (r / zoom) * zoom + r % zoom,
            0 <= r % zoom < zoom,
    ;
    assert(r / zoom < n) by (nonlinear_arith)
        requires
            zoom > 0,
            r < n * zoom,
            r == (r / zoom) * zoom + r % zoom,
            0 <= r % zoom,
    ;
}

proof fn lemma_join(s: int, z: int, zoom: int, n: int)
    requires
        zoom > 0,
        0 <= s < n,
        0 <= z < zoom,
    ensures
        0 <= s * zoom + z < n * zoom,
        (s * zoom + z) / zoom == s,
        (s * zoom + z) % zoom == z,
{
    assert(0 <= s * zoom + z < n * zoom) by (nonlinear_arith)
        requires
            zoom > 0,
            0 <= s < n,
            0 <= z < zoom,
    ;
    lemma_fundamental_div_mod_converse(s * zoom + z, zoom, s, z);
}

/// Law: an opaque source pixel is drawn where it sits in the source. Pixel `(sx, sy)` of
/// an `sw`-wide image, drawn at `(dx, dy)` with each pixel enlarged to `zoom` × `zoom`,
/// covers the destination pixels `(dx + sx * zoom + zx, dy + sy * zoom + zy)` for
/// `zx, zy < zoom`; there each color channel becomes the source's, and alpha becomes opaque.
pub proof fn lemma_opaque_pixel_lands(
    src: Seq<u8>,
    sw: int,
    sh: int,
    dx: int,
    dy: int,
    zoom: int,
    sx: int,
    sy: int,
    zx: int,
    zy: int,
    c: int,
    d: u8,
)
    requires
        zoom >= 1,
        0 <= sx < sw,
        0 <= sy < sh,
        0 <= zx < zoom,
        0 <= zy < zoom,
        0 <= c < 4,
        src[(sy * sw + sx) * 4 + 3] == 255,
    ensures
        blit_channel(src, sw, sh, dx, dy, zoom, dx + sx * zoom + zx, dy + sy * zoom + zy, c, d)
            == if c == 3 {
            255u8
        } else {
            src[(sy * sw + sx) * 4 + c]
        },
{
    lemma_join(sx, zx, zoom, sw);
    lemma_join(sy, zy, zoom, sh);
    lemma_blend_opaque(src[(sy * sw + sx) * 4 + c], d);
}

/// Law: a fully transparent source pixel leaves the destination pixels it covers as they
/// were.
pub proof fn lemma_transparent_pixel_skipped(
    src: Seq<u8>,
    sw: int,
    sh: int,
    dx: int,
    dy: int,
    zoom: int,
    sx: int,
    sy: int,
    zx: int,
    zy: int,
    c: int,
    d: u8,
)
    requires
        zoom >= 1,
        0 <= sx < sw,
        0 <= sy < sh,
        0 <= zx < zoom,
        0 <= zy < zoom,
        src[(sy * sw + sx) * 4 + 3] == 0,
    ensures
        blit_channel(src, sw, sh, dx, dy, zoom, dx + sx * zoom + zx, dy + sy * zoom + zy, c, d) == d,
{
    lemma_join(sx, zx, zoom, sw);
    lemma_join(sy, zy, zoom, sh);
}

proof fn lemma_blend_opaque(fg: u8, d: u8)
    ensures
        blend(fg, d, 255) == fg,
{
    assert(((fg as int) * 255 + (d as int) * (255 - 255)) / 255 == fg as int) by (nonlinear_arith);
}

fn blend_channel(fg: u8, bg: u8, alpha: u32) -> (r: u8)
    requires
        alpha <= 255,
    ensures
        r == blend(fg, bg, alpha as u8),
{
    assert(fg as u32 * alpha <= 65025 && bg as u32 * (255 - alpha) <= 65025) by (nonlinear_arith)
        requires
            alpha <= 255,
    ;
    ((fg as u32 * alpha + bg as u32 * (255 - alpha)) / 255) as u8
}

/// The value of the four big-endian bytes `b[i..i + 4]`.
pub open spec fn be32_value(b: Seq<u8>, i: int) -> int {
    b[i] as int * 0x100_0000 + b[i + 1] as int * 0x1_0000 + b[i + 2] as int * 0x100 + b[i + 3] as int
}

proof fn lemma_be32_value(x: u32)
    ensures
        be32(x).len() == 4,
        be32_value(be32(x), 0) == x,
{
    assert((x / 0x100_0000) * 0x100_0000 + ((x / 0x1_0000) % 256) * 0x1_0000 + ((x / 0x100) % 256)
        * 0x100 + x % 256 == x) by (bit_vector);
    assert(x / 0x100_0000 < 256) by (bit_vector);
}

/// The eight-byte PNG file signature.
pub open spec fn png_signature() -> Seq<u8> {
    seq![0x89u8, 0x50u8, 0x4Eu8, 0x47u8, 0x0Du8, 0x0Au8, 0x1Au8, 0x0Au8]
}

/// Chunk type `IHDR`.
pub open spec fn ihdr_tag() -> Seq<u8> {
    seq![0x49u8, 0x48u8, 0x44u8, 0x52u8]
}

/// Chunk type `IDAT`.
pub open spec fn idat_tag() -> Seq<u8> {
    seq![0x49u8, 0x44u8, 0x41u8, 0x54u8]
}

/// Chunk type `IEND`.
pub open spec fn iend_tag() -> Seq<u8> {
    seq![0x49u8, 0x45u8, 0x4Eu8, 0x44u8]
}

/// The first `h` scanlines of a `w`-pixel-wide RGBA buffer, each preceded by
/// filter type 0 (None).
pub open spec fn raw_rows(w: int, h: nat, px: Seq<u8>) -> Seq<u8>
    decreases h,
{
    if h == 0 {
        seq![]
    } else {
        raw_rows(w, (h - 1) as nat, px) + seq![0u8] + px.subrange((h - 1) * w * 4, h * w * 4)
    }
}

/// Law: the scanlines are the rows of the image from top to bottom, each `w * 4 + 1` bytes
/// long: row `y` is the filter byte 0 followed by the `w` pixels of image row `y`.
pub proof fn lemma_raw_rows_layout(w: int, h: nat, px: Seq<u8>)
    requires
        w >= 0,
        px.len() >= h * w * 4,
    ensures
        raw_rows(w, h, px).len() == h * (w * 4 + 1),
        forall|y: int|
            0 <= y < h ==> #[trigger] raw_rows(w, h, px).subrange(y * (w * 4 + 1), (y + 1) * (w * 4 + 1))
                == seq![0u8] + px.subrange(y * w * 4, (y + 1) * w * 4),
    decreases h,
{
    if h > 0 {
        let k = (h - 1) as nat;
        let n = w * 4 + 1;
        assert(k * w * 4 <= h * w * 4 && h * w * 4 == k * w * 4 + w * 4) by (nonlinear_arith)
            requires
                h == k + 1,
                w >= 0,
        ;
        lemma_raw_rows_layout(w, k, px);
        let prev = raw_rows(w, k, px);
        let all = raw_rows(w, h, px);
        let row = px.subrange(k * w * 4, h * w * 4);
        assert(all == prev + seq![0u8] + row);
        assert(row.len() == w * 4);
        assert(k * n + n == h * n) by (nonlinear_arith)
            requires
                h == k + 1,
        ;
        assert forall|y: int| 0 <= y < h implies #[trigger] all.subrange(y * n, (y + 1) * n)
            == seq![0u8] + px.subrange(y * w * 4, (y + 1) * w * 4) by {
            if y < k {
                assert((y + 1) * n <= k * n && 0 <= y * n && (y + 1) * n == y * n + n) by (nonlinear_arith)
                    requires
                        0 <= y < k,
                        n >= 1,
                ;
                assert(prev.len() == k * n);
                assert(all.subrange(y * n, (y + 1) * n) =~= prev.subrange(y * n, (y + 1) * n));
            } else {
                assert(y == k);
                assert((y + 1) * n == k * n + n && y * w * 4 == k * w * 4 && (y + 1) * w * 4 == k * w
                    * 4 + w * 4) by (nonlinear_arith)
                    requires
                        y == k,
                ;
                assert(all.subrange(y * n, (y + 1) * n) =~= seq![0u8] + px.subrange(
                    y * w * 4,
                    (y + 1) * w * 4,
                ));
            }
        }
    }
}

/// The PNG file of a `w` × `h` RGBA8 image: signature, IHDR (8-bit depth, color type 6,
/// no interlace), one IDAT with the zlib-wrapped scanlines, and IEND.
pub open spec fn png_spec(w: u32, h: u32, px: Seq<u8>) -> Seq<u8> {
    png_signature() + chunk_spec(ihdr_tag(), be32(w) + be32(h) + seq![8u8, 6u8, 0u8, 0u8, 0u8])
        + chunk_spec(idat_tag(), zlib_spec(raw_rows(w as int, h as nat, px))) + chunk_spec(
        iend_tag(),
        seq![],
    )
}

/// Law: the file starts with the PNG signature, followed by the IHDR chunk: its length 13,
/// the type `IHDR`, then the width and the height as big-endian 32-bit values (width
/// first), bit depth 8, color type 6 (RGBA), and compression, filter and interlace 0.
#[verifier::spinoff_prover]
#[verifier::rlimit(30)]
pub proof fn lemma_png_header(w: u32, h: u32, px: Seq<u8>)
    ensures
        png_spec(w, h, px).len() > 29,
        png_spec(w, h, px).subrange(0, 16) == seq![
            0x89u8, 0x50u8, 0x4Eu8, 0x47u8, 0x0Du8, 0x0Au8, 0x1Au8, 0x0Au8,
            0u8, 0u8, 0u8, 13u8, 0x49u8, 0x48u8, 0x44u8, 0x52u8,
        ],
        be32_value(png_spec(w, h, px), 16) == w,
        be32_value(png_spec(w, h, px), 20) == h,
        png_spec(w, h, px).subrange(24, 29) == seq![8u8, 6u8, 0u8, 0u8, 0u8],
{
    let payload = be32(w) + be32(h) + seq![8u8, 6u8, 0u8, 0u8, 0u8];
    lemma_be32_value(w);
    lemma_be32_value(h);
    assert(payload.len() == 13);
    let p = png_spec(w, h, px);
    let head = png_signature() + be32(13) + ihdr_tag() + payload;
    assert(p.subrange(0, 29) =~= head) by {
        assert(be32(payload.len() as u32) == be32(13));
    }
    assert(be32(13) =~= seq![0u8, 0u8, 0u8, 13u8]);
    assert(p.subrange(0, 16) =~= head.subrange(0, 16));
    assert(p.subrange(24, 29) =~= head.subrange(24, 29));
    assert(head.subrange(24, 29) =~= seq![8u8, 6u8, 0u8, 0u8, 0u8]);
    assert(p[16] == be32(w)[0] && p[17] == be32(w)[1] && p[18] == be32(w)[2] && p[19] == be32(w)[3]) by {
        assert(p[16] == head[16] && p[17] == head[17] && p[18] == head[18] && p[19] == head[19]);
    }
    assert(p[20] == be32(h)[0] && p[21] == be32(h)[1] && p[22] == be32(h)[2] && p[23] == be32(h)[3]) by {
        assert(p[20] == head[20] && p[21] == head[21] && p[22] == head[22] && p[23] == head[23]);
    }
}

/// An RGBA8 picture (straight alpha), row-major.
pub struct Canvas {
    pub w: u32,
    pub h: u32,
    /// `w * h * 4` bytes, in the order R, G, B, A.
    pub px: Vec<u8>,
}

impl Canvas {
    /// The buffer holds exactly `w * h` pixels.
    pub open spec fn wf(&self) -> bool {
        self.px@.len() == self.w * self.h * 4
    }

    /// Every byte index of the buffer can be computed in `u32`.
    pub open spec fn addressable(&self) -> bool {
        self.w * self.h * 4 <= u32::MAX
    }

    /// Channel `c` of pixel `(x, y)`.
    pub open spec fn at(&self, x: int, y: int, c: int) -> u8 {
        self.px@[pix(self.w as int, x, y, c)]
    }

    /// A `w` × `h` canvas filled with the opaque color `bg`.
    pub fn new(w: u32, h: u32, bg: (u8, u8, u8)) -> (r: Canvas)
        requires
            w * h * 4 <= usize::MAX,
        ensures
            r.w == w,
            r.h == h,
            r.wf(),
            forall|i: int| 0 <= i < r.px@.len() ==> #[trigger] r.px@[i] == opaque_channel(bg, i % 4),
    {
        let len: usize = (w as usize * h as usize) * 4;
        let mut px = vec![0u8; len];
        assert(len % 4 == 0);
        let mut i: usize = 0;
        while i < len
            invariant
                px@.len() == len,
                len % 4 == 0,
                i <= len,
                i % 4 == 0,
                forall|j: int| 0 <= j < i ==> #[trigger] px@[j] == opaque_channel(bg, j % 4),
            decreases len - i,
        {
            px.set(i, bg.0);
            px.set(i + 1, bg.1);
            px.set(i + 2, bg.2);
            px.set(i + 3, 0xFF);
            i = i + 4;
        }
        Canvas { w, h, px }
    }

    /// Draws the `sw` × `sh` straight-alpha RGBA image `src` with its top-left corner at
    /// `(dx, dy)`; pixels with alpha 0 are skipped and parts outside the canvas are clipped.
    pub fn blit(&mut self, src: &[u8], sw: u32, sh: u32, dx: i32, dy: i32)
        requires
            old(self).wf(),
            old(self).addressable(),
            src@.len() >= sw * sh * 4,
            sw * sh * 4 <= u32::MAX,
            blit_fits(sw, sh, dx, dy, 1),
        ensures
            final(self).w == old(self).w,
            final(self).h == old(self).h,
            final(self).wf(),
            forall|x: int, y: int, c: int|
                0 <= x < old(self).w && 0 <= y < old(self).h && 0 <= c < 4 ==> #[trigger] final(self).at(x, y, c)
                    == blit_channel(src@, sw as int, sh as int, dx as int, dy as int, 1, x, y, c, old(self).at(x, y, c)),
            forall|sx: int, sy: int, c: int|
                #![trigger pix(sw as int, sx, sy, c)]
                0 <= sx < sw && 0 <= sy < sh && 0 <= c < 4 && src@[pix(sw as int, sx, sy, 3)] == 255
                    && 0 <= dx + sx < old(self).w && 0 <= dy + sy < old(self).h
                    ==> final(self).at(dx + sx, dy + sy, c) == if c == 3 {
                    255u8
                } else {
                    src@[pix(sw as int, sx, sy, c)]
                },
            forall|sx: int, sy: int, c: int|
                #![trigger pix(sw as int, sx, sy, c)]
                0 <= sx < sw && 0 <= sy < sh && 0 <= c < 4 && src@[pix(sw as int, sx, sy, 3)] == 0
                    && 0 <= dx + sx < old(self).w && 0 <= dy + sy < old(self).h
                    ==> final(self).at(dx + sx, dy + sy, c) == old(self).at(dx + sx, dy + sy, c),
    {
        self.blit_impl(src, sw, sh, dx, dy, 1);
        proof {
            assert forall|sx: int, sy: int, c: int|
                #![trigger pix(sw as int, sx, sy, c)]
                0 <= sx < sw && 0 <= sy < sh && 0 <= c < 4 && src@[pix(sw as int, sx, sy, 3)] == 255
                    && 0 <= dx + sx < old(self).w && 0 <= dy + sy < old(self).h
                    implies self.at(dx + sx, dy + sy, c) == if c == 3 {
                    255u8
                } else {
                    src@[pix(sw as int, sx, sy, c)]
                } by {
                lemma_opaque_pixel_lands(src@, sw as int, sh as int, dx as int, dy as int, 1, sx, sy, 0, 0, c, old(self).at(dx + sx, dy + sy, c));
                assert(self.at(dx + sx, dy + sy, c) == blit_channel(src@, sw as int, sh as int, dx as int, dy as int, 1, dx + sx, dy + sy, c, old(self).at(dx + sx, dy + sy, c)));
            }
            assert forall|sx: int, sy: int, c: int|
                #![trigger pix(sw as int, sx, sy, c)]
                0 <= sx < sw && 0 <= sy < sh && 0 <= c < 4 && src@[pix(sw as int, sx, sy, 3)] == 0
                    && 0 <= dx + sx < old(self).w && 0 <= dy + sy < old(self).h
                    implies self.at(dx + sx, dy + sy, c) == old(self).at(dx + sx, dy + sy, c) by {
                lemma_transparent_pixel_skipped(src@, sw as int, sh as int, dx as int, dy as int, 1, sx, sy, 0, 0, c, old(self).at(dx + sx, dy + sy, c));
                assert(self.at(dx + sx, dy + sy, c) == blit_channel(src@, sw as int, sh as int, dx as int, dy as int, 1, dx + sx, dy + sy, c, old(self).at(dx + sx, dy + sy, c)));
            }
        }
    }

    /// Like `blit`, with every source pixel enlarged to a `zoom` × `zoom` block
    /// (nearest neighbour); a `zoom` of 0 counts as 1.
    pub fn blit_zoom(&mut self, src: &[u8], sw: u32, sh: u32, dx: i32, dy: i32, zoom: u32)
        requires
            old(self).wf(),
            old(self).addressable(),
            src@.len() >= sw * sh * 4,
            sw * sh * 4 <= u32::MAX,
            blit_fits(sw, sh, dx, dy, if zoom == 0 { 1 } else { zoom }),
        ensures
            final(self).w == old(self).w,
            final(self).h == old(self).h,
            final(self).wf(),
            forall|x: int, y: int, c: int|
                0 <= x < old(self).w && 0 <= y < old(self).h && 0 <= c < 4 ==> #[trigger] final(self).at(x, y, c)
                    == blit_channel(
                    src@,
                    sw as int,
                    sh as int,
                    dx as int,
                    dy as int,
                    if zoom == 0 { 1 } else { zoom as int },
                    x,
                    y,
                    c,
                    old(self).at(x, y, c),
                ),
            forall|x: int, y: int, c: int|
                0 <= x < old(self).w && 0 <= y < old(self).h && 0 <= c < 4
                    && dx <= x < dx + sw * (if zoom == 0 { 1 } else { zoom as int })
                    && dy <= y < dy + sh * (if zoom == 0 { 1 } else { zoom as int })
                    && src@[pix(
                    sw as int,
                    (x - dx) / (if zoom == 0 { 1 } else { zoom as int }),
                    (y - dy) / (if zoom == 0 { 1 } else { zoom as int }),
                    3,
                )] == 255 ==> #[trigger] final(self).at(x, y, c) == if c == 3 {
                    255u8
                } else {
                    src@[pix(
                        sw as int,
                        (x - dx) / (if zoom == 0 { 1 } else { zoom as int }),
                        (y - dy) / (if zoom == 0 { 1 } else { zoom as int }),
                        c,
                    )]
                },
    {
        let z = if zoom > 1 { zoom } else { 1 };
        self.blit_impl(src, sw, sh, dx, dy, z);
        proof {
            assert forall|x: int, y: int, c: int|
                0 <= x < old(self).w && 0 <= y < old(self).h && 0 <= c < 4
                    && dx <= x < dx + sw * z
                    && dy <= y < dy + sh * z
                    && src@[pix(sw as int, (x - dx) / (z as int), (y - dy) / (z as int), 3)] == 255
                    implies #[trigger] self.at(x, y, c) == if c == 3 {
                    255u8
                } else {
                    src@[pix(sw as int, (x - dx) / (z as int), (y - dy) / (z as int), c)]
                } by {
                lemma_blend_opaque(
                    src@[pix(sw as int, (x - dx) / (z as int), (y - dy) / (z as int), c)],
                    old(self).at(x, y, c),
                );
            }
        }
    }

    fn blit_impl(&mut self, src: &[u8], sw: u32, sh: u32, dx: i32, dy: i32, zoom: u32)
        requires
            old(self).wf(),
            old(self).addressable(),
            src@.len() >= sw * sh * 4,
            sw * sh * 4 <= u32::MAX,
            zoom >= 1,
            blit_fits(sw, sh, dx, dy, zoom),
        ensures
            final(self).w == old(self).w,
            final(self).h == old(self).h,
            final(self).wf(),
            forall|x: int, y: int, c: int|
                0 <= x < old(self).w && 0 <= y < old(self).h && 0 <= c < 4 ==> #[trigger] final(self).at(x, y, c)
                    == blit_channel(src@, sw as int, sh as int, dx as int, dy as int, zoom as int, x, y, c, old(self).at(x, y, c)),
    {
        let ghost old_px = self.px@;
        let ghost cw = self.w as int;
        let ghost ch = self.h as int;
        let ghost s = src@;
        let ghost (isw, ish, idx, idy, iz) = (sw as int, sh as int, dx as int, dy as int, zoom as int);
        let mut sy: u32 = 0;
        while sy < sh
            invariant
                self.w == cw,
                self.h == ch,
                self.px@.len() == cw * ch * 4,
                cw * ch * 4 <= u32::MAX,
                s == src@,
                s.len() >= isw * ish * 4,
                isw * ish * 4 <= u32::MAX,
                zoom >= 1,
                blit_fits(sw, sh, dx, dy, zoom),
                isw == sw && ish == sh && idx == dx && idy == dy && iz == zoom,
                sy <= sh,
                forall|x: int, y: int, c: int|
                    0 <= x < cw && 0 <= y < ch && 0 <= c < 4 ==> #[trigger] self.px@[pix(cw, x, y, c)]
                        == blit_partial(s, isw, ish, idx, idy, iz, x, y, c, old_px[pix(cw, x, y, c)], (sy as int, 0, 0, 0)),
            decreases sh - sy,
        {
            let mut sx: u32 = 0;
            while sx < sw
                invariant
                    self.w == cw,
                    self.h == ch,
                    self.px@.len() == cw * ch * 4,
                    cw * ch * 4 <= u32::MAX,
                    s == src@,
                    s.len() >= isw * ish * 4,
                    isw * ish * 4 <= u32::MAX,
                    zoom >= 1,
                    blit_fits(sw, sh, dx, dy, zoom),
                    isw == sw && ish == sh && idx == dx && idy == dy && iz == zoom,
                    sy < sh,
                    sx <= sw,
                    forall|x: int, y: int, c: int|
                        0 <= x < cw && 0 <= y < ch && 0 <= c < 4 ==> #[trigger] self.px@[pix(cw, x, y, c)]
                            == blit_partial(s, isw, ish, idx, idy, iz, x, y, c, old_px[pix(cw, x, y, c)], (sy as int, sx as int, 0, 0)),
                decreases sw - sx,
            {
                proof {
                    lemma_pix_bounds(isw, ish, sx as int, sy as int, 3);
                }
                let si: usize = ((sy * sw + sx) * 4) as usize;
                let r = src[si];
                let g = src[si + 1];
                let b = src[si + 2];
                let a = src[si + 3];
                if a == 0 {
                    proof {
                        assert forall|x: int, y: int, c: int|
                            0 <= x < cw && 0 <= y < ch && 0 <= c < 4 implies #[trigger] self.px@[pix(cw, x, y, c)]
                                == blit_partial(s, isw, ish, idx, idy, iz, x, y, c, old_px[pix(cw, x, y, c)], (sy as int, sx + 1, 0, 0)) by {
                            let rx = x - idx;
                            let ry = y - idy;
                            if 0 <= rx < isw * iz && 0 <= ry < ish * iz {
                                lemma_split(rx, iz, isw);
                                lemma_split(ry, iz, ish);
                            }
                        }
                    }
                    sx = sx + 1;
                    continue;
                }
                let alpha: u32 = a as u32;
                let mut zy: u32 = 0;
                while zy < zoom
                    invariant
                        self.w == cw,
                        self.h == ch,
                        self.px@.len() == cw * ch * 4,
                        cw * ch * 4 <= u32::MAX,
                        s == src@,
                        s.len() >= isw * ish * 4,
                        zoom >= 1,
                        blit_fits(sw, sh, dx, dy, zoom),
                        isw == sw && ish == sh && idx == dx && idy == dy && iz == zoom,
                        sy < sh,
                        sx < sw,
                        zy <= zoom,
                        si == pix(isw, sx as int, sy as int, 0),
                        r == s[si as int] && g == s[si + 1] && b == s[si + 2] && a == s[si + 3],
                        alpha == a,
                        a != 0,
                        forall|x: int, y: int, c: int|
                            0 <= x < cw && 0 <= y < ch && 0 <= c < 4 ==> #[trigger] self.px@[pix(cw, x, y, c)]
                                == blit_partial(s, isw, ish, idx, idy, iz, x, y, c, old_px[pix(cw, x, y, c)], (sy as int, sx as int, zy as int, 0)),
                    decreases zoom - zy,
                {
                    let mut zx: u32 = 0;
                    while zx < zoom
                        invariant
                            self.w == cw,
                            self.h == ch,
                            self.px@.len() == cw * ch * 4,
                            cw * ch * 4 <= u32::MAX,
                            s == src@,
                            s.len() >= isw * ish * 4,
                            zoom >= 1,
                            blit_fits(sw, sh, dx, dy, zoom),
                            isw == sw && ish == sh && idx == dx && idy == dy && iz == zoom,
                            sy < sh,
                            sx < sw,
                            zy < zoom,
                            zx <= zoom,
                            si == pix(isw, sx as int, sy as int, 0),
                            r == s[si as int] && g == s[si + 1] && b == s[si + 2] && a == s[si + 3],
                            alpha == a,
                            a != 0,
                            forall|x: int, y: int, c: int|
                                0 <= x < cw && 0 <= y < ch && 0 <= c < 4 ==> #[trigger] self.px@[pix(cw, x, y, c)]
                                    == blit_partial(s, isw, ish, idx, idy, iz, x, y, c, old_px[pix(cw, x, y, c)], (sy as int, sx as int, zy as int, zx as int)),
                        decreases zoom - zx,
                    {
                        proof {
                            lemma_join(sx as int, zx as int, iz, isw);
                            lemma_join(sy as int, zy as int, iz, ish);
                        }
                        let x: i32 = dx + (sx * zoom + zx) as i32;
                        let y: i32 = dy + (sy * zoom + zy) as i32;
                        let ghost cur = (sy as int, sx as int, zy as int, zx as int);
                        if x < 0 || y < 0 || x >= self.w as i32 || y >= self.h as i32 {
                            proof {
                                lemma_u32_as_i32(self.w);
                                lemma_u32_as_i32(self.h);
                                lemma_wide_side_forces_empty(cw, ch);
                                lemma_wide_side_forces_empty(ch, cw);
                                assert forall|px: int, py: int, c: int|
                                    0 <= px < cw && 0 <= py < ch && 0 <= c < 4 implies #[trigger] self.px@[pix(cw, px, py, c)]
                                        == blit_partial(s, isw, ish, idx, idy, iz, px, py, c, old_px[pix(cw, px, py, c)], (sy as int, sx as int, zy as int, zx + 1)) by {
                                    let rx = px - idx;
                                    let ry = py - idy;
                                    if 0 <= rx < isw * iz && 0 <= ry < ish * iz {
                                        lemma_split(rx, iz, isw);
                                        lemma_split(ry, iz, ish);
                                    }
                                }
                            }
                            zx = zx + 1;
                            continue;
                        }
                        proof {
                            lemma_u32_as_i32(self.w);
                            lemma_u32_as_i32(self.h);
                            lemma_pix_bounds(cw, ch, x as int, y as int, 3);
                        }
                        let i: usize = ((y as u32 * self.w + x as u32) * 4) as usize;
                        assert(i == pix(cw, x as int, y as int, 0));
                        let ghost before = self.px@;
                        let d0 = self.px[i];
                        let d1 = self.px[i + 1];
                        let d2 = self.px[i + 2];
                        self.px.set(i, blend_channel(r, d0, alpha));
                        self.px.set(i + 1, blend_channel(g, d1, alpha));
                        self.px.set(i + 2, blend_channel(b, d2, alpha));
                        self.px.set(i + 3, 0xFF);
                        proof {
                            assert forall|px: int, py: int, c: int|
                                0 <= px < cw && 0 <= py < ch && 0 <= c < 4 implies #[trigger] self.px@[pix(cw, px, py, c)]
                                    == blit_partial(s, isw, ish, idx, idy, iz, px, py, c, old_px[pix(cw, px, py, c)], (sy as int, sx as int, zy as int, zx + 1)) by {
                                lemma_pix_bounds(cw, ch, px, py, c);
                                let rx = px - idx;
                                let ry = py - idy;
                                if px == x && py == y {
                                    assert(pix(cw, px, py, c) == i + c);
                                    assert(before[pix(cw, px, py, c)] == old_px[pix(cw, px, py, c)]);
                                } else {
                                    if pix(cw, px, py, c) - i < 4 && pix(cw, px, py, c) >= i {
                                        lemma_pix_unique(cw, px, py, c, x as int, y as int, pix(cw, px, py, c) - i);
                                    }
                                    assert(self.px@[pix(cw, px, py, c)] == before[pix(cw, px, py, c)]);
                                    if 0 <= rx < isw * iz && 0 <= ry < ish * iz {
                                        lemma_split(rx, iz, isw);
                                        lemma_split(ry, iz, ish);
                                    }
                                }
                            }
                        }
                        zx = zx + 1;
                    }
                    proof {
                        assert forall|px: int, py: int, c: int|
                            0 <= px < cw && 0 <= py < ch && 0 <= c < 4 implies #[trigger] self.px@[pix(cw, px, py, c)]
                                == blit_partial(s, isw, ish, idx, idy, iz, px, py, c, old_px[pix(cw, px, py, c)], (sy as int, sx as int, zy + 1, 0)) by {
                            let rx = px - idx;
                            let ry = py - idy;
                            if 0 <= rx < isw * iz && 0 <= ry < ish * iz {
                                lemma_split(rx, iz, isw);
                                lemma_split(ry, iz, ish);
                            }
                        }
                    }
                    zy = zy + 1;
                }
                proof {
                    assert forall|px: int, py: int, c: int|
                        0 <= px < cw && 0 <= py < ch && 0 <= c < 4 implies #[trigger] self.px@[pix(cw, px, py, c)]
                            == blit_partial(s, isw, ish, idx, idy, iz, px, py, c, old_px[pix(cw, px, py, c)], (sy as int, sx + 1, 0, 0)) by {
                        let rx = px - idx;
                        let ry = py - idy;
                        if 0 <= rx < isw * iz && 0 <= ry < ish * iz {
                            lemma_split(rx, iz, isw);
                            lemma_split(ry, iz, ish);
                        }
                    }
                }
                sx = sx + 1;
            }
            proof {
                assert forall|px: int, py: int, c: int|
                    0 <= px < cw && 0 <= py < ch && 0 <= c < 4 implies #[trigger] self.px@[pix(cw, px, py, c)]
                        == blit_partial(s, isw, ish, idx, idy, iz, px, py, c, old_px[pix(cw, px, py, c)], (sy + 1, 0, 0, 0)) by {
                    let rx = px - idx;
                    let ry = py - idy;
                    if 0 <= rx < isw * iz && 0 <= ry < ish * iz {
                        lemma_split(rx, iz, isw);
                        lemma_split(ry, iz, ish);
                    }
                }
            }
            sy = sy + 1;
        }
        proof {
            assert forall|px: int, py: int, c: int|
                0 <= px < cw && 0 <= py < ch && 0 <= c < 4 implies #[trigger] self.at(px, py, c)
                    == blit_channel(s, isw, ish, idx, idy, iz, px, py, c, old_px[pix(cw, px, py, c)]) by {
                let rx = px - idx;
                let ry = py - idy;
                assert(self.px@[pix(cw, px, py, c)] == blit_partial(s, isw, ish, idx, idy, iz, px, py, c, old_px[pix(cw, px, py, c)], (ish, 0, 0, 0)));
                if 0 <= rx < isw * iz && 0 <= ry < ish * iz {
                    lemma_split(rx, iz, isw);
                    lemma_split(ry, iz, ish);
                }
            }
        }
    }

    /// Encodes the canvas as a PNG file (8-bit RGBA, uncompressed deflate blocks).
    pub fn to_png(&self) -> (out: Vec<u8>)
        requires
            self.wf(),
            self.addressable(),
        ensures
            out@ == png_spec(self.w, self.h, self.px@),
            out@.len() > 24,
            be32_value(out@, 16) == self.w,
            be32_value(out@, 20) == self.h,
    {
        let mut raw: Vec<u8> = Vec::new();
        let mut y: u32 = 0;
        while y < self.h
            invariant
                self.wf(),
                self.addressable(),
                y <= self.h,
                raw@ == raw_rows(self.w as int, y as nat, self.px@),
            decreases self.h - y,
        {
            raw.push(0u8);
            assert((y as int) * self.w * 4 + self.w * 4 == (y + 1) * self.w * 4 && (y + 1) * self.w
                * 4 <= self.h * self.w * 4 && self.h * self.w * 4 == self.w * self.h * 4)
                by (nonlinear_arith)
                requires
                    y < self.h,
            ;
            let start: usize = (y * self.w * 4) as usize;
            let end: usize = start + (self.w * 4) as usize;
            let row = slice_subrange(self.px.as_slice(), start, end);
            push_all(&mut raw, row);
            y = y + 1;
        }
        let mut out: Vec<u8> = Vec::new();
        out.push(0x89);
        out.push(0x50);
        out.push(0x4E);
        out.push(0x47);
        out.push(0x0D);
        out.push(0x0A);
        out.push(0x1A);
        out.push(0x0A);
        let mut ihdr: Vec<u8> = Vec::new();
        push_be32(&mut ihdr, self.w);
        push_be32(&mut ihdr, self.h);
        ihdr.push(8);
        ihdr.push(6);
        ihdr.push(0);
        ihdr.push(0);
        ihdr.push(0);
        let c1 = chunk([0x49, 0x48, 0x44, 0x52], ihdr.as_slice());
        push_all(&mut out, c1.as_slice());
        let z = zlib_stored(raw.as_slice());
        let c2 = chunk([0x49, 0x44, 0x41, 0x54], z.as_slice());
        push_all(&mut out, c2.as_slice());
        let empty: Vec<u8> = Vec::new();
        let c3 = chunk([0x49, 0x45, 0x4E, 0x44], empty.as_slice());
        push_all(&mut out, c3.as_slice());
        proof {
            assert(ihdr@ =~= be32(self.w) + be32(self.h) + seq![8u8, 6u8, 0u8, 0u8, 0u8]);
            assert(empty@ =~= Seq::<u8>::empty());
            assert([0x49u8, 0x48u8, 0x44u8, 0x52u8]@ =~= ihdr_tag());
            assert([0x49u8, 0x44u8, 0x41u8, 0x54u8]@ =~= idat_tag());
            assert([0x49u8, 0x45u8, 0x4Eu8, 0x44u8]@ =~= iend_tag());
            assert(out@ =~= png_spec(self.w, self.h, self.px@));
            lemma_png_header(self.w, self.h, self.px@);
        }
        out
    }

    /// Paints the rectangle `x .. x + w` × `y .. y + h` (clipped to the canvas) opaque `rgb`.
    pub fn fill_rect(&mut self, x: i32, y: i32, w: u32, h: u32, rgb: (u8, u8, u8))
        requires
            old(self).wf(),
            old(self).addressable(),
            i32::MIN <= x + (w as i32) <= i32::MAX,
            i32::MIN <= y + (h as i32) <= i32::MAX,
        ensures
            final(self).w == old(self).w,
            final(self).h == old(self).h,
            final(self).wf(),
            forall|xx: int, yy: int, c: int|
                0 <= xx < old(self).w && 0 <= yy < old(self).h && 0 <= c < 4 ==> #[trigger] final(self).at(xx, yy, c) == if x <= xx < x + (w as i32) && y <= yy < y + (h as i32) {
                    opaque_channel(rgb, c)
                } else {
                    old(self).at(xx, yy, c)
                },
    {
        let ghost old_px = self.px@;
        let ghost cw = self.w as int;
        let ghost ch = self.h as int;
        let y_end: i32 = y + h as i32;
        let x_end: i32 = x + w as i32;
        let mut yy: i32 = y;
        while yy < y_end
            invariant
                self.w == cw,
                self.h == ch,
                self.px@.len() == cw * ch * 4,
                cw * ch * 4 <= u32::MAX,
                y_end == y + (h as i32),
                x_end == x + (w as i32),
                y <= yy || yy >= y_end,
                forall|px: int, py: int, c: int|
                    0 <= px < cw && 0 <= py < ch && 0 <= c < 4 ==> #[trigger] self.px@[pix(
                        cw,
                        px,
                        py,
                        c,
                    )] == if x <= px < x_end && y <= py < y_end && py < yy {
                        opaque_channel(rgb, c)
                    } else {
                        old_px[pix(cw, px, py, c)]
                    },
            decreases y_end - yy,
        {
            if yy < 0 || yy >= self.h as i32 {
                proof {
                    lemma_u32_as_i32(self.h);
                    lemma_wide_side_forces_empty(cw, ch);
                }
                yy = yy + 1;
                continue;
            }
            proof {
                lemma_u32_as_i32(self.h);
            }
            let mut xx: i32 = x;
            while xx < x_end
                invariant
                    self.w == cw,
                    self.h == ch,
                    self.px@.len() == cw * ch * 4,
                    cw * ch * 4 <= u32::MAX,
                    y_end == y + (h as i32),
                    x_end == x + (w as i32),
                    y <= yy < y_end,
                    0 <= yy < ch,
                    x <= xx || xx >= x_end,
                    forall|px: int, py: int, c: int|
                        0 <= px < cw && 0 <= py < ch && 0 <= c < 4 ==> #[trigger] self.px@[pix(
                            cw,
                            px,
                            py,
                            c,
                        )] == if x <= px < x_end && y <= py < y_end && (py < yy || (py == yy
                            && px < xx)) {
                            opaque_channel(rgb, c)
                        } else {
                            old_px[pix(cw, px, py, c)]
                        },
                decreases x_end - xx,
            {
                if xx < 0 || xx >= self.w as i32 {
                    proof {
                        lemma_u32_as_i32(self.w);
                        lemma_wide_side_forces_empty(ch, cw);
                    }
                    xx = xx + 1;
                    continue;
                }
                proof {
                    lemma_u32_as_i32(self.w);
                }
                proof {
                    lemma_pix_bounds(cw, ch, xx as int, yy as int, 3);
                }
                let i: usize = ((yy as u32 * self.w + xx as u32) * 4) as usize;
                assert(i == pix(cw, xx as int, yy as int, 0));
                let ghost before = self.px@;
                self.px.set(i, rgb.0);
                self.px.set(i + 1, rgb.1);
                self.px.set(i + 2, rgb.2);
                self.px.set(i + 3, 0xFF);
                assert forall|px: int, py: int, c: int|
                    0 <= px < cw && 0 <= py < ch && 0 <= c < 4 implies #[trigger] self.px@[pix(
                        cw,
                        px,
                        py,
                        c,
                    )] == if x <= px < x_end && y <= py < y_end && (py < yy || (py == yy && px
                        < xx + 1)) {
                        opaque_channel(rgb, c)
                    } else {
                        old_px[pix(cw, px, py, c)]
                    } by {
                    lemma_pix_bounds(cw, ch, px, py, c);
                    if px == xx && py == yy {
                        assert(pix(cw, px, py, c) == i + c);
                    } else {
                        if pix(cw, px, py, c) - i < 4 && pix(cw, px, py, c) >= i {
                            lemma_pix_unique(
                                cw,
                                px,
                                py,
                                c,
                                xx as int,
                                yy as int,
                                pix(cw, px, py, c) - i,
                            );
                        }
                        assert(self.px@[pix(cw, px, py, c)] == before[pix(cw, px, py, c)]);
                    }
                }
                xx = xx + 1;
            }
            yy = yy + 1;
        }
    }
}

} // verus!
