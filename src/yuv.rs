use vstd::prelude::*;
use vstd::arithmetic::div_mod::lemma_fundamental_div_mod_converse;
use vstd::arithmetic::div_mod::lemma_fundamental_div_mod;

verus! {

/// Studio-range luma of one pixel: `((66 R + 129 G + 25 B) >> 8) + 16`.
pub open spec fn luma(r: int, g: int, b: int) -> int {
    (66 * r + 129 * g + 25 * b) / 256 + 16
}

/// Blue-difference chroma of one pixel: `((-38 R - 74 G + 112 B) >> 8) + 128`.
pub open spec fn chroma_blue(r: int, g: int, b: int) -> int {
    (-38 * r - 74 * g + 112 * b) / 256 + 128
}

/// Red-difference chroma of one pixel: `((112 R - 94 G - 18 B) >> 8) + 128`.
pub open spec fn chroma_red(r: int, g: int, b: int) -> int {
    (112 * r - 94 * g - 18 * b) / 256 + 128
}

/// `r` is the truncated square root of `n`.
pub open spec fn is_root(n: int, r: int) -> bool {
    0 <= r && r * r <= n && n < (r + 1) * (r + 1)
}

/// The truncated square root of a non-negative integer.
pub open spec fn isqrt(n: int) -> int {
    choose|r: int| is_root(n, r)
}

/// Blue-difference chroma of the pixel with linear index `p` in packed RGB bytes.
pub open spec fn cb_at(rgb: Seq<u8>, p: int) -> int {
    chroma_blue(rgb[3 * p] as int, rgb[3 * p + 1] as int, rgb[3 * p + 2] as int)
}

/// Red-difference chroma of the pixel with linear index `p` in packed RGB bytes.
pub open spec fn cr_at(rgb: Seq<u8>, p: int) -> int {
    chroma_red(rgb[3 * p] as int, rgb[3 * p + 1] as int, rgb[3 * p + 2] as int)
}

/// Luma of the pixel with linear index `p` in packed RGB bytes.
pub open spec fn luma_at(rgb: Seq<u8>, p: int) -> int {
    luma(rgb[3 * p] as int, rgb[3 * p + 1] as int, rgb[3 * p + 2] as int)
}

/// The mean of the squares of four values, truncated.
#[verifier::opaque]
pub open spec fn mean_sq(a: int, b: int, c: int, d: int) -> int {
    (a * a + b * b + c * c + d * d) / 4
}

/// Root mean square of the blue-difference chroma over the 2x2 block whose
/// top-left pixel is `o`, in a picture `w` pixels wide.
pub open spec fn block_cb(rgb: Seq<u8>, w: int, o: int) -> int {
    isqrt(mean_sq(cb_at(rgb, o), cb_at(rgb, o + 1), cb_at(rgb, o + w), cb_at(rgb, o + w + 1)))
}

/// Root mean square of the red-difference chroma over the 2x2 block whose
/// top-left pixel is `o`, in a picture `w` pixels wide.
pub open spec fn block_cr(rgb: Seq<u8>, w: int, o: int) -> int {
    isqrt(mean_sq(cr_at(rgb, o), cr_at(rgb, o + 1), cr_at(rgb, o + w), cr_at(rgb, o + w + 1)))
}

/// Linear index of the top-left pixel of chroma block `k`.
pub open spec fn block_origin(w: int, k: int) -> int {
    2 * (k % (w / 2)) + 2 * (k / (w / 2)) * w
}

/// The planar 4:2:0 picture of packed RGB bytes: the luma plane at full
/// resolution, then the blue and the red chroma planes at half width and half height.
pub open spec fn yuv_plane(rgb: Seq<u8>, w: int, h: int) -> Seq<u8> {
    let n = w * h;
    let q = n / 4;
    Seq::new(
        (n + 2 * q) as nat,
        |i: int|
            if i < n {
                luma_at(rgb, i) as u8
            } else if i < n + q {
                block_cb(rgb, w, block_origin(w, i - n)) as u8
            } else {
                block_cr(rgb, w, block_origin(w, i - n - q)) as u8
            },
    )
}

/// Dimensions that a 4:2:0 picture can have, held in packed RGB bytes.
pub open spec fn yuv_dims(rgb: Seq<u8>, w: int, h: int) -> bool {
    &&& w >= 0
    &&& h >= 0
    &&& w % 2 == 0
    &&& h % 2 == 0
    &&& rgb.len() == 3 * w * h
}

/// Index of the chroma block holding pixel `(x, y)`.
pub open spec fn block_of(w: int, x: int, y: int) -> int {
    x / 2 + (y / 2) * (w / 2)
}

/// `yuv` with the four luma samples and the two chroma samples of the block
/// holding pixel `(x, y)` derived again from `rgb`.
pub open spec fn refresh_block_spec(yuv: Seq<u8>, rgb: Seq<u8>, w: int, h: int, x: int, y: int) -> Seq<u8> {
    let n = w * h;
    let q = n / 4;
    let o = 2 * (x / 2) + 2 * (y / 2) * w;
    let k = block_of(w, x, y);
    yuv.update(o, luma_at(rgb, o) as u8).update(o + 1, luma_at(rgb, o + 1) as u8).update(
        o + w,
        luma_at(rgb, o + w) as u8,
    ).update(o + w + 1, luma_at(rgb, o + w + 1) as u8).update(
        n + k,
        block_cb(rgb, w, o) as u8,
    ).update(n + q + k, block_cr(rgb, w, o) as u8)
}

/// Packed RGB bytes with pixel `p` set to `(r, g, b)`.
pub open spec fn put_rgb(rgb: Seq<u8>, p: int, r: u8, g: u8, b: u8) -> Seq<u8> {
    rgb.update(3 * p, r).update(3 * p + 1, g).update(3 * p + 2, b)
}

proof fn lemma_root_unique(n: int, r: int, s: int)
    requires
        is_root(n, r),
        is_root(n, s),
    ensures
        r == s,
{
    if r < s {
        assert((r + 1) * (r + 1) <= s * s) by (nonlinear_arith)
            requires
                0 <= r + 1 <= s,
        ;
    } else if s < r {
        assert((s + 1) * (s + 1) <= r * r) by (nonlinear_arith)
            requires
                0 <= s + 1 <= r,
        ;
    }
}

proof fn lemma_isqrt(n: int, r: int)
    requires
        is_root(n, r),
    ensures
        isqrt(n) == r,
{
    let s = isqrt(n);
    assert(is_root(n, s));
    lemma_root_unique(n, r, s);
}

/// Relies on num_integer::Roots::sqrt for `u32`: the truncated square root.
#[verifier::external_body]
fn sqrt_floor(n: u32) -> (r: u32)
    ensures
        is_root(n as int, r as int),
{
    num_integer::Roots::sqrt(&n)
}

proof fn lemma_chroma_range(r: int, g: int, b: int)
    requires
        0 <= r <= 255,
        0 <= g <= 255,
        0 <= b <= 255,
    ensures
        16 <= chroma_blue(r, g, b) <= 240,
        16 <= chroma_red(r, g, b) <= 240,
        16 <= luma(r, g, b) <= 235,
        chroma_blue(r, g, b) == (112 * b + 28672 - 38 * r - 74 * g) / 256 + 16,
        chroma_red(r, g, b) == (112 * r + 28672 - 94 * g - 18 * b) / 256 + 16,
{
    let vb = -38 * r - 74 * g + 112 * b;
    let vr = 112 * r - 94 * g - 18 * b;
    assert((vb + 28672) / 256 == vb / 256 + 112) by {
        lemma_fundamental_div_mod(vb, 256);
        lemma_fundamental_div_mod_converse(vb + 28672, 256, vb / 256 + 112, vb % 256);
    }
    assert((vr + 28672) / 256 == vr / 256 + 112) by {
        lemma_fundamental_div_mod(vr, 256);
        lemma_fundamental_div_mod_converse(vr + 28672, 256, vr / 256 + 112, vr % 256);
    }
}

/// Luma of one pixel.
fn luma_of(r: u8, g: u8, b: u8) -> (y: u8)
    ensures
        y as int == luma(r as int, g as int, b as int),
{
    proof {
        lemma_chroma_range(r as int, g as int, b as int);
    }
    ((66 * (r as u32) + 129 * (g as u32) + 25 * (b as u32)) / 256 + 16) as u8
}

/// Blue- and red-difference chroma of one pixel, each in `16..=240`.
fn chroma_of(r: u8, g: u8, b: u8) -> (c: (u32, u32))
    ensures
        c.0 as int == chroma_blue(r as int, g as int, b as int),
        c.1 as int == chroma_red(r as int, g as int, b as int),
        c.0 <= 240,
        c.1 <= 240,
{
    proof {
        lemma_chroma_range(r as int, g as int, b as int);
    }
    let (r, g, b) = (r as u32, g as u32, b as u32);
    let cb = (112 * b + 28672 - 38 * r - 74 * g) / 256 + 16;
    let cr = (112 * r + 28672 - 94 * g - 18 * b) / 256 + 16;
    (cb, cr)
}

fn pixel_chroma(rgb: &Vec<u8>, p: usize) -> (c: (u32, u32))
    requires
        3 * p + 2 < rgb@.len(),
    ensures
        c.0 as int == cb_at(rgb@, p as int),
        c.1 as int == cr_at(rgb@, p as int),
        c.0 <= 240,
        c.1 <= 240,
{
    let _ = rgb.len();
    chroma_of(rgb[3 * p], rgb[3 * p + 1], rgb[3 * p + 2])
}

fn pixel_luma(rgb: &Vec<u8>, p: usize) -> (y: u8)
    requires
        3 * p + 2 < rgb@.len(),
    ensures
        y == luma_at(rgb@, p as int) as u8,
{
    let _ = rgb.len();
    luma_of(rgb[3 * p], rgb[3 * p + 1], rgb[3 * p + 2])
}

/// The mean of four squares, each of a value in `0..=240`.
fn mean_square(a: u32, b: u32, c: u32, d: u32) -> (m: u32)
    requires
        a <= 240,
        b <= 240,
        c <= 240,
        d <= 240,
    ensures
        m as int == mean_sq(a as int, b as int, c as int, d as int),
        m <= 240 * 240,
{
    reveal(mean_sq);
    assert(a * a <= 240 * 240 && b * b <= 240 * 240 && c * c <= 240 * 240 && d * d <= 240 * 240)
        by (nonlinear_arith)
        requires
            a <= 240,
            b <= 240,
            c <= 240,
            d <= 240,
    ;
    (a * a + b * b + c * c + d * d) / 4
}

/// The truncated square root of a value at most `240 * 240`.
fn small_root(m: u32) -> (r: u8)
    requires
        m <= 240 * 240,
    ensures
        r as int == isqrt(m as int),
{
    let r = sqrt_floor(m);
    proof {
        lemma_isqrt(m as int, r as int);
        assert(r <= 240) by (nonlinear_arith)
            requires
                r * r <= m,
                m <= 240 * 240,
        ;
    }
    r as u8
}

/// Both chroma samples of the block whose top-left pixel is `o`.
fn block_chroma(rgb: &Vec<u8>, w: usize, o: usize) -> (c: (u8, u8))
    requires
        3 * (o + w + 1) + 2 < rgb@.len(),
    ensures
        c.0 as int == block_cb(rgb@, w as int, o as int),
        c.1 as int == block_cr(rgb@, w as int, o as int),
{
    let _ = rgb.len();
    let c1 = pixel_chroma(rgb, o);
    let c2 = pixel_chroma(rgb, o + 1);
    let c3 = pixel_chroma(rgb, o + w);
    let c4 = pixel_chroma(rgb, o + w + 1);
    let su = mean_square(c1.0, c2.0, c3.0, c4.0);
    let sv = mean_square(c1.1, c2.1, c3.1, c4.1);
    (small_root(su), small_root(sv))
}

proof fn lemma_block_origin(w: int, h: int, k: int)
    requires
        w >= 2,
        h >= 2,
        w % 2 == 0,
        h % 2 == 0,
        0 <= k < (w / 2) * (h / 2),
    ensures
        0 <= block_origin(w, k),
        block_origin(w, k) + w + 1 < w * h,
        block_origin(w, k) % 2 == 0,
        (block_origin(w, k) % w) + 1 < w,
{
    let bw = w / 2;
    let bh = h / 2;
    let bx = k % bw;
    let by = k / bw;
    lemma_fundamental_div_mod(k, bw);
    assert(0 <= bx < bw);
    assert(0 <= by < bh) by (nonlinear_arith)
        requires
            k == bw * by + bx,
            0 <= bx < bw,
            0 <= k < bw * bh,
            bw > 0,
    ;
    assert(w == 2 * bw && h == 2 * bh);
    assert(2 * bx + 2 * by * w + w + 1 < w * h) by (nonlinear_arith)
        requires
            0 <= bx < bw,
            0 <= by < bh,
            w == 2 * bw,
            h == 2 * bh,
    ;
    assert(0 <= 2 * by * w) by (nonlinear_arith)
        requires
            0 <= by,
            0 <= w,
    ;
    lemma_fundamental_div_mod_converse(2 * bx + 2 * by * w, w, 2 * by, 2 * bx);
    assert((2 * bx + 2 * by * w) % 2 == 0) by {
        assert(2 * bx + 2 * by * w == (bx + by * w) * 2) by (nonlinear_arith);
        lemma_fundamental_div_mod_converse(2 * bx + 2 * by * w, 2, bx + by * w, 0);
    }
}

proof fn lemma_quarter(w: int, h: int)
    requires
        w >= 0,
        h >= 0,
        w % 2 == 0,
        h % 2 == 0,
    ensures
        (w * h) / 4 == (w / 2) * (h / 2),
        w * h == 4 * ((w * h) / 4),
{
    let bw = w / 2;
    let bh = h / 2;
    assert(w * h == 4 * (bw * bh)) by (nonlinear_arith)
        requires
            w == 2 * bw,
            h == 2 * bh,
    ;
    lemma_fundamental_div_mod_converse(w * h, 4, bw * bh, 0);
}

/// The planar 4:2:0 picture of packed RGB bytes, derived in full.
pub fn yuv420p_from_rgb(rgb: &Vec<u8>, width: u32, height: u32) -> (yuv: Vec<u8>)
    requires
        yuv_dims(rgb@, width as int, height as int),
    ensures
        yuv@ == yuv_plane(rgb@, width as int, height as int),
{
    let ghost wi = width as int;
    let ghost hi = height as int;
    let w = width as usize;
    let h = height as usize;
    let len = rgb.len();
    proof {
        lemma_quarter(wi, hi);
        assert(w * h <= 3 * w * h && 3 * w * h == 3 * (w * h)) by (nonlinear_arith)
            requires
                w * h >= 0,
        ;
    }
    let n = w * h;
    let q = n / 4;
    let ghost target = yuv_plane(rgb@, wi, hi);
    let mut yuv: Vec<u8> = Vec::new();
    let mut p: usize = 0;
    while p < n
        invariant
            n == wi * hi,
            q == n / 4,
            n == 4 * q,
            rgb@.len() == 3 * n,
            target == yuv_plane(rgb@, wi, hi),
            0 <= p <= n,
            yuv@ =~= target.subrange(0, p as int),
        decreases n - p,
    {
        let l = pixel_luma(rgb, p);
        yuv.push(l);
        p = p + 1;
    }
    let mut us: Vec<u8> = Vec::new();
    let mut vs: Vec<u8> = Vec::new();
    let mut k: usize = 0;
    let bw = w / 2;
    while k < q
        invariant
            n == wi * hi,
            q == n / 4,
            n == 4 * q,
            q == (wi / 2) * (hi / 2),
            w == wi,
            h == hi,
            bw == wi / 2,
            wi % 2 == 0,
            hi % 2 == 0,
            rgb@.len() == 3 * n,
            target == yuv_plane(rgb@, wi, hi),
            0 <= k <= q,
            us@ =~= target.subrange(n as int, n + k),
            vs@ =~= target.subrange(n + q, n + q + k),
        decreases q - k,
    {
        proof {
            assert(wi >= 2 && hi >= 2) by (nonlinear_arith)
                requires
                    0 <= k < q,
                    q == (wi / 2) * (hi / 2),
                    wi >= 0,
                    hi >= 0,
            ;
            lemma_block_origin(wi, hi, k as int);
        }
        let o = 2 * (k % bw) + 2 * (k / bw) * w;
        let (u, v) = block_chroma(rgb, w, o);
        us.push(u);
        vs.push(v);
        k = k + 1;
    }
    yuv.append(&mut us);
    yuv.append(&mut vs);
    assert(yuv@ =~= target);
    yuv
}

proof fn lemma_coords(w: int, c: int, r: int)
    requires
        w > 0,
        0 <= c < w,
        r >= 0,
    ensures
        (c + r * w) % w == c,
        (c + r * w) / w == r,
{
    lemma_fundamental_div_mod_converse(c + r * w, w, r, c);
}

/// Where the block holding pixel `(x, y)` lies.
proof fn lemma_block_of(w: int, h: int, x: int, y: int)
    requires
        w % 2 == 0,
        h % 2 == 0,
        0 <= x < w,
        0 <= y < h,
    ensures
        0 <= block_of(w, x, y) < (w / 2) * (h / 2),
        block_origin(w, block_of(w, x, y)) == 2 * (x / 2) + 2 * (y / 2) * w,
        x + y * w == 2 * (x / 2) + 2 * (y / 2) * w + x % 2 + (y % 2) * w,
        0 <= x % 2 < 2,
        0 <= y % 2 < 2,
        2 * (x / 2) + 1 < w,
        2 * (y / 2) + 1 < h,
        ({
            let o = 2 * (x / 2) + 2 * (y / 2) * w;
            let p = x + y * w;
            p == o || p == o + 1 || p == o + w || p == o + w + 1
        }),
{
    let bw = w / 2;
    let bh = h / 2;
    let bx = x / 2;
    let by = y / 2;
    lemma_fundamental_div_mod(x, 2);
    lemma_fundamental_div_mod(y, 2);
    lemma_fundamental_div_mod(w, 2);
    lemma_fundamental_div_mod(h, 2);
    assert(0 <= bx < bw && 0 <= by < bh);
    assert(0 <= bx + by * bw < bw * bh) by (nonlinear_arith)
        requires
            0 <= bx < bw,
            0 <= by < bh,
    ;
    lemma_coords(bw, bx, by);
    assert(x + y * w == 2 * bx + 2 * by * w + x % 2 + (y % 2) * w) by (nonlinear_arith)
        requires
            x == 2 * bx + x % 2,
            y == 2 * by + y % 2,
    ;
    if y % 2 == 1 {
        assert((y % 2) * w == w) by (nonlinear_arith)
            requires
                y % 2 == 1,
        ;
    } else {
        assert((y % 2) * w == 0) by (nonlinear_arith)
            requires
                y % 2 == 0,
        ;
    }
}

/// A pixel of a block other than the one holding `(x, y)` is not `(x, y)`.
proof fn lemma_other_block(w: int, h: int, x: int, y: int, k: int, dx: int, dy: int)
    requires
        w % 2 == 0,
        h % 2 == 0,
        0 <= x < w,
        0 <= y < h,
        0 <= k < (w / 2) * (h / 2),
        k != block_of(w, x, y),
        0 <= dx < 2,
        0 <= dy < 2,
    ensures
        block_origin(w, k) + dx + dy * w != x + y * w,
{
    let bw = w / 2;
    let bx = k % bw;
    let by = k / bw;
    assert(w >= 2 && h >= 2) by (nonlinear_arith)
        requires
            0 <= k < (w / 2) * (h / 2),
            w >= 0,
            h >= 0,
    ;
    lemma_fundamental_div_mod(k, bw);
    lemma_block_of(w, h, x, y);
    assert(block_origin(w, k) == 2 * bx + 2 * by * w);
    if block_origin(w, k) + dx + dy * w == x + y * w {
        assert(block_origin(w, k) + dx + dy * w == (2 * bx + dx) + (2 * by + dy) * w) by (
        nonlinear_arith)
            requires
                block_origin(w, k) == 2 * bx + 2 * by * w,
        ;
        assert(x + y * w == (2 * (x / 2) + x % 2) + (2 * (y / 2) + y % 2) * w) by (
        nonlinear_arith)
            requires
                x + y * w == 2 * (x / 2) + 2 * (y / 2) * w + x % 2 + (y % 2) * w,
        ;
        assert(2 * bx + dx < w);
        assert(0 <= by);
        lemma_coords(w, 2 * bx + dx, 2 * by + dy);
        lemma_coords(w, x, y);
        assert(2 * bx + dx == x && 2 * by + dy == y);
        lemma_fundamental_div_mod_converse(x, 2, bx, dx);
        lemma_fundamental_div_mod_converse(y, 2, by, dy);
        assert(k == bx + by * bw) by (nonlinear_arith)
            requires
                k == bw * by + bx,
        ;
    }
}

proof fn lemma_luma_kept(rgb: Seq<u8>, p: int, i: int, r: u8, g: u8, b: u8)
    requires
        0 <= i,
        0 <= p,
        i != p,
        3 * i + 2 < rgb.len(),
        3 * p + 2 < rgb.len(),
    ensures
        luma_at(put_rgb(rgb, p, r, g, b), i) == luma_at(rgb, i),
{
}

/// The chroma of a block without pixel `(x, y)` does not change when that pixel does.
proof fn lemma_block_kept(rgb: Seq<u8>, w: int, h: int, x: int, y: int, kk: int, r: u8, g: u8, b: u8)
    requires
        yuv_dims(rgb, w, h),
        0 <= x < w,
        0 <= y < h,
        0 <= kk < (w / 2) * (h / 2),
        kk != block_of(w, x, y),
    ensures
        block_cb(put_rgb(rgb, x + y * w, r, g, b), w, block_origin(w, kk)) == block_cb(
            rgb,
            w,
            block_origin(w, kk),
        ),
        block_cr(put_rgb(rgb, x + y * w, r, g, b), w, block_origin(w, kk)) == block_cr(
            rgb,
            w,
            block_origin(w, kk),
        ),
{
    let rgb2 = put_rgb(rgb, x + y * w, r, g, b);
    lemma_block_origin(w, h, kk);
    lemma_block_of(w, h, x, y);
    assert(rgb.len() == 3 * (w * h)) by (nonlinear_arith)
        requires
            rgb.len() == 3 * w * h,
    ;
    let oo = block_origin(w, kk);
    lemma_other_block(w, h, x, y, kk, 0, 0);
    lemma_other_block(w, h, x, y, kk, 1, 0);
    lemma_other_block(w, h, x, y, kk, 0, 1);
    lemma_other_block(w, h, x, y, kk, 1, 1);
    assert(oo + 1 * w == oo + w);
    assert(oo + 1 + 1 * w == oo + w + 1);
    assert(oo + 0 * w == oo);
    assert(oo + 1 + 0 * w == oo + 1);
    assert(0 <= x + y * w < w * h) by (nonlinear_arith)
        requires
            0 <= x < w,
            0 <= y < h,
    ;
    assert(cb_at(rgb2, oo) == cb_at(rgb, oo));
    assert(cb_at(rgb2, oo + 1) == cb_at(rgb, oo + 1));
    assert(cb_at(rgb2, oo + w) == cb_at(rgb, oo + w));
    assert(cb_at(rgb2, oo + w + 1) == cb_at(rgb, oo + w + 1));
    assert(cr_at(rgb2, oo) == cr_at(rgb, oo));
    assert(cr_at(rgb2, oo + 1) == cr_at(rgb, oo + 1));
    assert(cr_at(rgb2, oo + w) == cr_at(rgb, oo + w));
    assert(cr_at(rgb2, oo + w + 1) == cr_at(rgb, oo + w + 1));
}

/// Deriving again only the block of one changed pixel gives the same planar
/// picture as deriving the whole picture after the change.
pub proof fn lemma_block_refresh_agrees(rgb: Seq<u8>, w: int, h: int, x: int, y: int, r: u8, g: u8, b: u8)
    requires
        yuv_dims(rgb, w, h),
        0 <= x < w,
        0 <= y < h,
    ensures
        refresh_block_spec(yuv_plane(rgb, w, h), put_rgb(rgb, x + y * w, r, g, b), w, h, x, y)
            == yuv_plane(put_rgb(rgb, x + y * w, r, g, b), w, h),
{
    let p = x + y * w;
    let rgb2 = put_rgb(rgb, p, r, g, b);
    let n = w * h;
    let q = n / 4;
    let o = 2 * (x / 2) + 2 * (y / 2) * w;
    let k = block_of(w, x, y);
    lemma_quarter(w, h);
    lemma_block_of(w, h, x, y);
    lemma_block_origin(w, h, k);
    assert(rgb.len() == 3 * n) by (nonlinear_arith)
        requires
            rgb.len() == 3 * w * h,
            n == w * h,
    ;
    assert(0 <= p < n) by (nonlinear_arith)
        requires
            p == x + y * w,
            0 <= x < w,
            0 <= y < h,
            n == w * h,
    ;
    let lhs = refresh_block_spec(yuv_plane(rgb, w, h), rgb2, w, h, x, y);
    let rhs = yuv_plane(rgb2, w, h);
    assert(lhs.len() == rhs.len());
    assert forall|i: int| 0 <= i < rhs.len() implies lhs[i] == rhs[i] by {
        if i < n {
            if i != o && i != o + 1 && i != o + w && i != o + w + 1 {
                lemma_luma_kept(rgb, p, i, r, g, b);
            }
        } else if i < n + q {
            if i - n != k {
                lemma_block_kept(rgb, w, h, x, y, i - n, r, g, b);
            }
        } else {
            if i - n - q != k {
                lemma_block_kept(rgb, w, h, x, y, i - n - q, r, g, b);
            }
        }
    }
    assert(lhs =~= rhs);
}

/// The planar picture of an even-sized frame has one and a half bytes a pixel.
pub(crate) proof fn lemma_plane_len(rgb: Seq<u8>, w: int, h: int)
    requires
        w >= 0,
        h >= 0,
        w % 2 == 0,
        h % 2 == 0,
    ensures
        yuv_plane(rgb, w, h).len() == w * h + 2 * ((w * h) / 4),
{
    lemma_quarter(w, h);
}

/// Derives again the four luma samples and the two chroma samples of the block
/// holding pixel `(x, y)`, leaving the rest of `yuv` as it is.
pub fn refresh_block(yuv: &mut Vec<u8>, rgb: &Vec<u8>, width: u32, height: u32, x: u32, y: u32)
    requires
        yuv_dims(rgb@, width as int, height as int),
        x < width,
        y < height,
        old(yuv)@.len() == width * height + 2 * ((width * height) / 4),
    ensures
        final(yuv)@ == refresh_block_spec(
            old(yuv)@,
            rgb@,
            width as int,
            height as int,
            x as int,
            y as int,
        ),
{
    let ghost wi = width as int;
    let ghost hi = height as int;
    let len = rgb.len();
    proof {
        lemma_quarter(wi, hi);
        lemma_block_of(wi, hi, x as int, y as int);
        lemma_block_origin(wi, hi, block_of(wi, x as int, y as int));
        assert(wi * hi <= 3 * wi * hi && 3 * wi * hi == 3 * (wi * hi)) by (nonlinear_arith)
            requires
                wi * hi >= 0,
        ;
    }
    let w = width as usize;
    let h = height as usize;
    let n = w * h;
    let q = n / 4;
    let o = 2 * (x as usize / 2) + 2 * (y as usize / 2) * w;
    let k = x as usize / 2 + (y as usize / 2) * (w / 2);
    let l1 = pixel_luma(rgb, o);
    let l2 = pixel_luma(rgb, o + 1);
    let l3 = pixel_luma(rgb, o + w);
    let l4 = pixel_luma(rgb, o + w + 1);
    let (u, v) = block_chroma(rgb, w, o);
    yuv.set(o, l1);
    yuv.set(o + 1, l2);
    yuv.set(o + w, l3);
    yuv.set(o + w + 1, l4);
    yuv.set(n + k, u);
    yuv.set(n + q + k, v);
}

/// A value clamped to `0..=255`.
pub open spec fn clamp_spec(v: int) -> u8 {
    if v < 0 {
        0
    } else if v > 255 {
        255
    } else {
        v as u8
    }
}

/// The mean of one channel over the 2x2 block whose top-left pixel is `o`,
/// in packed RGBA bytes of a picture `w` pixels wide, rounded down.
pub open spec fn block_mean(img: Seq<u8>, w: int, o: int, c: int) -> int {
    (img[4 * o + c] + img[4 * (o + 1) + c] + img[4 * (o + w) + c] + img[4 * (o + w + 1) + c]) / 4
}

/// The planar 4:2:0 picture of packed RGBA bytes, with each chroma sample
/// taken from the block's mean color rather than from the pixels' own
/// chroma.
pub open spec fn yuv_plane_of_mean(img: Seq<u8>, w: int, h: int) -> Seq<u8> {
    let n = w * h;
    let q = n / 4;
    Seq::new(
        (n + 2 * q) as nat,
        |i: int|
            if i < n {
                clamp_spec(luma(img[4 * i] as int, img[4 * i + 1] as int, img[4 * i + 2] as int))
            } else if i < n + q {
                let o = block_origin(w, i - n);
                clamp_spec(
                    chroma_blue(block_mean(img, w, o, 0), block_mean(img, w, o, 1), block_mean(img, w, o, 2)),
                )
            } else {
                let o = block_origin(w, i - n - q);
                clamp_spec(
                    chroma_red(block_mean(img, w, o, 0), block_mean(img, w, o, 1), block_mean(img, w, o, 2)),
                )
            },
    )
}

/// `val` clamped to `0..=255`.
pub fn clamp(val: i32) -> (r: u8)
    ensures
        r == clamp_spec(val as int),
{
    if val < 0 {
        0
    } else if val > 255 {
        255
    } else {
        val as u8
    }
}

/// Bytes of a planar 4:2:0 picture: one and a half per pixel.
pub fn rgba_to_yuv420_size(width: u32, height: u32) -> (r: usize)
    requires
        (width * height) * 3 / 2 <= usize::MAX,
    ensures
        r == (width * height) * 3 / 2,
{
    let ghost ni = width as int * height as int;
    proof {
        assert(ni >= 0) by (nonlinear_arith)
            requires
                ni == width * height,
        ;
        lemma_fundamental_div_mod(ni, 2);
        lemma_fundamental_div_mod_converse(ni * 3, 2, (ni / 2) * 3 + ni % 2, ni % 2);
    }
    let n = width as usize * height as usize;
    n / 2 * 3 + n % 2
}

fn mean_of_block(img: &[u8], w: usize, o: usize, c: usize) -> (r: i32)
    requires
        c < 4,
        4 * (o + w + 1) + 3 < img@.len(),
    ensures
        r == block_mean(img@, w as int, o as int, c as int),
        0 <= r <= 255,
{
    let _ = img.len();
    let t = img[4 * o + c] as i32 + img[4 * (o + 1) + c] as i32 + img[4 * (o + w) + c] as i32
        + img[4 * (o + w + 1) + c] as i32;
    t / 4
}

/// Writes the planar 4:2:0 picture of packed RGBA bytes into the front of
/// `yuv`, taking each chroma sample from the block's mean color.
pub fn rgba_data_to_yuv420_data(yuv: &mut [u8], img: &[u8], width: u32, height: u32)
    requires
        width % 2 == 0,
        height % 2 == 0,
        img@.len() == 4 * width * height,
        old(yuv)@.len() >= width * height + 2 * ((width * height) / 4),
    ensures
        final(yuv)@.len() == old(yuv)@.len(),
        final(yuv)@.subrange(0, width * height + 2 * ((width * height) / 4)) == yuv_plane_of_mean(
            img@,
            width as int,
            height as int,
        ),
        final(yuv)@.subrange(width * height + 2 * ((width * height) / 4), old(yuv)@.len() as int)
            == old(yuv)@.subrange(width * height + 2 * ((width * height) / 4), old(yuv)@.len() as int),
{
    let ghost wi = width as int;
    let ghost hi = height as int;
    let w = width as usize;
    let h = height as usize;
    let len = img.len();
    proof {
        lemma_quarter(wi, hi);
        assert(wi * hi <= 4 * wi * hi && 4 * wi * hi == 4 * (wi * hi)) by (nonlinear_arith)
            requires
                wi * hi >= 0,
        ;
    }
    let n = w * h;
    let q = n / 4;
    let ghost target = yuv_plane_of_mean(img@, wi, hi);
    let ghost start = yuv@;
    let ylen = yuv.len();
    let mut p: usize = 0;
    while p < n
        invariant
            n == wi * hi,
            q == n / 4,
            n == 4 * q,
            img@.len() == 4 * n,
            img@.len() == len,
            yuv@.len() == start.len(),
            start.len() == ylen,
            start.len() >= n + 2 * q,
            target == yuv_plane_of_mean(img@, wi, hi),
            0 <= p <= n,
            forall|i: int| 0 <= i < p ==> yuv@[i] == target[i],
            forall|i: int| n <= i < start.len() ==> yuv@[i] == start[i],
        decreases n - p,
    {
        let r = img[4 * p] as i32;
        let g = img[4 * p + 1] as i32;
        let b = img[4 * p + 2] as i32;
        proof {
            lemma_chroma_range(r as int, g as int, b as int);
        }
        yuv[p] = clamp((66 * r + 129 * g + 25 * b) / 256 + 16);
        p = p + 1;
    }
    let bw = w / 2;
    let mut k: usize = 0;
    while k < q
        invariant
            n == wi * hi,
            q == n / 4,
            n == 4 * q,
            q == (wi / 2) * (hi / 2),
            w == wi,
            h == hi,
            bw == wi / 2,
            wi % 2 == 0,
            hi % 2 == 0,
            img@.len() == 4 * n,
            yuv@.len() == start.len(),
            start.len() == ylen,
            start.len() >= n + 2 * q,
            target == yuv_plane_of_mean(img@, wi, hi),
            0 <= k <= q,
            forall|i: int| 0 <= i < n ==> yuv@[i] == target[i],
            forall|i: int| n <= i < n + k ==> yuv@[i] == target[i],
            forall|i: int| n + q <= i < n + q + k ==> yuv@[i] == target[i],
            forall|i: int| n + q + k <= i < start.len() ==> yuv@[i] == start[i],
            forall|i: int| n + k <= i < n + q ==> yuv@[i] == start[i],
        decreases q - k,
    {
        proof {
            assert(wi >= 2 && hi >= 2) by (nonlinear_arith)
                requires
                    0 <= k < q,
                    q == (wi / 2) * (hi / 2),
                    wi >= 0,
                    hi >= 0,
            ;
            lemma_block_origin(wi, hi, k as int);
        }
        let o = 2 * (k % bw) + 2 * (k / bw) * w;
        let r = mean_of_block(img, w, o, 0);
        let g = mean_of_block(img, w, o, 1);
        let b = mean_of_block(img, w, o, 2);
        proof {
            lemma_chroma_range(r as int, g as int, b as int);
        }
        yuv[n + k] = clamp((112 * b + 28672 - 38 * r - 74 * g) / 256 + 16);
        yuv[n + q + k] = clamp((112 * r + 28672 - 94 * g - 18 * b) / 256 + 16);
        k = k + 1;
    }
    let ghost m = n + 2 * q;
    assert(yuv@.subrange(0, m) =~= target);
    assert(yuv@.subrange(m, start.len() as int) =~= start.subrange(m, start.len() as int));
}

} // verus!
