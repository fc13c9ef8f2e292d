use vstd::prelude::*;
use vstd::arithmetic::div_mod::{lemma_fundamental_div_mod, lemma_fundamental_div_mod_converse};
use crate::pixel::{Rgb, Rgba, opaque, opaque_of, lemma_rgba_eq};
use crate::text::same_text;
use crate::yuv::{
    yuv_plane,
    yuv_dims,
    put_rgb,
    refresh_block,
    refresh_block_spec,
    yuv420p_from_rgb,
    lemma_block_refresh_agrees,
};

verus! {

/// The byte layout of a frame.
#[derive(Debug, Clone, Copy, PartialEq, Eq, Structural)]
pub enum PixelFormat {
    Rgba,
    Rgb,
    Yuv420p,
}

impl PixelFormat {
    /// The format with the given name: `rgba`, `rgb` or `yuv420p`.
    pub fn from_name(name: &str) -> (r: Option<PixelFormat>)
        ensures
            r == (if name@ == "rgba"@ {
                Some(PixelFormat::Rgba)
            } else if name@ == "rgb"@ {
                Some(PixelFormat::Rgb)
            } else if name@ == "yuv420p"@ {
                Some(PixelFormat::Yuv420p)
            } else {
                None
            }),
    {
        if same_text(name, "rgba") {
            Some(PixelFormat::Rgba)
        } else if same_text(name, "rgb") {
            Some(PixelFormat::Rgb)
        } else if same_text(name, "yuv420p") {
            Some(PixelFormat::Yuv420p)
        } else {
            None
        }
    }
}

/// The pixel with linear index `i` in packed RGBA bytes.
pub open spec fn rgba_at(data: Seq<u8>, i: int) -> Rgba {
    Rgba([data[4 * i], data[4 * i + 1], data[4 * i + 2], data[4 * i + 3]])
}

/// The pixel with linear index `i` in packed RGB bytes, made opaque.
pub open spec fn rgb_at(data: Seq<u8>, i: int) -> Rgba {
    opaque(data[3 * i], data[3 * i + 1], data[3 * i + 2])
}

/// Pixels in row-major order as packed RGBA bytes.
pub open spec fn rgba_bytes(pixels: Seq<Rgba>) -> Seq<u8> {
    Seq::new(4 * pixels.len(), |j: int| pixels[j / 4].0[j % 4])
}

/// Pixels in row-major order as packed RGB bytes.
pub open spec fn rgb_bytes(pixels: Seq<Rgba>) -> Seq<u8> {
    Seq::new(3 * pixels.len(), |j: int| pixels[j / 3].0[j % 3])
}

/// The pixel grid held in packed RGBA bytes.
pub open spec fn rgba_grid(data: Seq<u8>, n: int) -> Seq<Rgba> {
    Seq::new(n as nat, |i: int| rgba_at(data, i))
}

/// The pixel grid held in packed RGB bytes.
pub open spec fn rgb_grid(data: Seq<u8>, n: int) -> Seq<Rgba> {
    Seq::new(n as nat, |i: int| rgb_at(data, i))
}

/// Linear index of pixel `(x, y)` in a picture `w` pixels wide.
pub open spec fn index_of(w: int, x: int, y: int) -> int {
    x + y * w
}

proof fn lemma_rgba_bytes(data: Seq<u8>, n: int)
    requires
        n >= 0,
        data.len() == 4 * n,
    ensures
        rgba_bytes(rgba_grid(data, n)) == data,
{
    let s = rgba_bytes(rgba_grid(data, n));
    assert forall|j: int| 0 <= j < data.len() implies s[j] == data[j] by {
        lemma_fundamental_div_mod(j, 4);
        let i = j / 4;
        let c = j % 4;
        assert(0 <= i < n);
        if c == 0 {
        } else if c == 1 {
        } else if c == 2 {
        } else {
        }
    }
    assert(s =~= data);
}

proof fn lemma_rgb_bytes(data: Seq<u8>, n: int)
    requires
        n >= 0,
        data.len() == 3 * n,
    ensures
        rgb_bytes(rgb_grid(data, n)) == data,
{
    let s = rgb_bytes(rgb_grid(data, n));
    assert forall|j: int| 0 <= j < data.len() implies s[j] == data[j] by {
        lemma_fundamental_div_mod(j, 3);
        let i = j / 3;
        let c = j % 3;
        assert(0 <= i < n);
        if c == 0 {
        } else if c == 1 {
        } else {
        }
    }
    assert(s =~= data);
}

/// In the packed bytes of a grid, channel `c` of pixel `(x, y)` stands at
/// `k * (x + y * w) + c`.
proof fn lemma_grid_byte(w: int, h: int, k: int, x: int, y: int, c: int)
    requires
        k == 3 || k == 4,
        0 <= x < w,
        0 <= y < h,
        0 <= c < k,
    ensures
        0 <= k * index_of(w, x, y) + c < k * (w * h),
        (k * index_of(w, x, y) + c) / k == index_of(w, x, y),
        (k * index_of(w, x, y) + c) % k == c,
{
    let i = index_of(w, x, y);
    lemma_index_bound(w, h, x, y);
    assert(k * i + c < k * (w * h)) by (nonlinear_arith)
        requires
            0 <= i < w * h,
            0 <= c < k,
    ;
    lemma_fundamental_div_mod_converse(k * i + c, k, i, c);
}

proof fn lemma_index_bound(w: int, h: int, x: int, y: int)
    requires
        0 <= x < w,
        0 <= y < h,
    ensures
        0 <= index_of(w, x, y) < w * h,
{
    assert(0 <= x + y * w < w * h) by (nonlinear_arith)
        requires
            0 <= x < w,
            0 <= y < h,
    ;
}

/// A pixel inside a `w` by `h` picture has a linear index below `w * h`.
pub proof fn lemma_index_in(w: int, h: int, x: int, y: int)
    requires
        0 <= x < w,
        0 <= y < h,
    ensures
        0 <= index_of(w, x, y) < w * h,
        0 <= x + y * w < w * h,
{
    lemma_index_bound(w, h, x, y);
}

proof fn lemma_scaled(w: int, h: int, c: int)
    requires
        w >= 0,
        h >= 0,
        c >= 1,
    ensures
        c * w * h == c * (w * h),
        w * h <= c * (w * h),
        0 <= w * h,
{
    assert(c * w * h == c * (w * h) && w * h <= c * (w * h) && 0 <= w * h) by (nonlinear_arith)
        requires
            w >= 0,
            h >= 0,
            c >= 1,
    ;
}

/// Linear index of pixel `(x, y)`.
fn get_index(size: (u32, u32), x: u32, y: u32) -> (i: usize)
    requires
        x < size.0,
        y < size.1,
        size.0 * size.1 <= usize::MAX,
    ensures
        i == index_of(size.0 as int, x as int, y as int),
        i < size.0 * size.1,
        0 <= index_of(size.0 as int, x as int, y as int) < size.0 * size.1,
{
    proof {
        lemma_index_bound(size.0 as int, size.1 as int, x as int, y as int);
    }
    x as usize + y as usize * size.0 as usize
}

/// Linear index of pixel `(x, y)`, or `None` outside the picture.
fn get_index_checked(size: (u32, u32), x: u32, y: u32) -> (r: Option<usize>)
    requires
        size.0 * size.1 <= usize::MAX,
    ensures
        r == (if x < size.0 && y < size.1 {
            Some(index_of(size.0 as int, x as int, y as int) as usize)
        } else {
            None
        }),
        r matches Some(i) ==> i < size.0 * size.1 && i == index_of(size.0 as int, x as int, y as int),
{
    if x < size.0 && y < size.1 {
        Some(get_index(size, x, y))
    } else {
        None
    }
}

/// A frame stored as packed RGBA bytes in row-major order.
#[derive(Debug, Clone)]
pub struct RgbaFrame {
    data: Vec<u8>,
    width: u32,
    height: u32,
}

impl RgbaFrame {
    pub closed spec fn width(&self) -> int {
        self.width as int
    }

    pub closed spec fn height(&self) -> int {
        self.height as int
    }

    pub closed spec fn bytes(&self) -> Seq<u8> {
        self.data@
    }

    pub open spec fn wf(&self) -> bool {
        self.bytes().len() == 4 * (self.width() * self.height())
    }

    pub open spec fn pixels(&self) -> Seq<Rgba> {
        rgba_grid(self.bytes(), self.width() * self.height())
    }

    /// A frame of the given size with every pixel set to `pixel`.
    pub fn from_pixel(width: u32, height: u32, pixel: Rgba) -> (f: RgbaFrame)
        requires
            4 * width * height <= usize::MAX,
        ensures
            f.wf(),
            f.width() == width,
            f.height() == height,
            f.pixels() == Seq::new((width * height) as nat, |i: int| pixel),
    {
        proof {
            lemma_scaled(width as int, height as int, 4);
        }
        let n = width as usize * height as usize;
        let mut data: Vec<u8> = Vec::new();
        let mut k: usize = 0;
        while k < n
            invariant
                n == width * height,
                4 * n <= usize::MAX,
                0 <= k <= n,
                data@.len() == 4 * k,
                forall|i: int| 0 <= i < k ==> rgba_at(data@, i) == pixel,
            decreases n - k,
        {
            let ghost prev = data@;
            data.push(pixel.0[0]);
            data.push(pixel.0[1]);
            data.push(pixel.0[2]);
            data.push(pixel.0[3]);
            proof {
                lemma_rgba_eq(rgba_at(data@, k as int), pixel);
                assert forall|i: int| 0 <= i < k + 1 implies rgba_at(data@, i) == pixel by {
                    if i < k {
                        assert(rgba_at(prev, i) == pixel);
                    }
                }
            }
            k = k + 1;
        }
        let f = RgbaFrame { data, width, height };
        assert(f.pixels() =~= Seq::new((width * height) as nat, |i: int| pixel));
        f
    }

    /// A frame over packed RGBA bytes, or `None` where their number is not
    /// four per pixel.
    pub fn from_raw(width: u32, height: u32, data: Vec<u8>) -> (r: Option<RgbaFrame>)
        ensures
            r.is_some() <==> data@.len() == 4 * (width * height),
            r matches Some(f) ==> f.wf() && f.width() == width && f.height() == height && f.bytes()
                == data@,
    {
        let len = data.len();
        proof {
            lemma_scaled(width as int, height as int, 4);
        }
        assert((width as u128) * (height as u128) <= 0xffff_ffff_ffff_ffff) by (nonlinear_arith)
            requires
                width <= 0xffff_ffff,
                height <= 0xffff_ffff,
        ;
        if (width as u128) * (height as u128) * 4 == len as u128 {
            Some(RgbaFrame { data, width, height })
        } else {
            None
        }
    }

    pub fn dimensions(&self) -> (r: (u32, u32))
        ensures
            r.0 == self.width(),
            r.1 == self.height(),
    {
        (self.width, self.height)
    }

    /// The pixel at `(x, y)`, or `None` outside the frame.
    pub fn get_pixel_checked(&self, x: u32, y: u32) -> (r: Option<Rgba>)
        requires
            self.wf(),
        ensures
            r == (if x < self.width() && y < self.height() {
                Some(self.pixels()[index_of(self.width(), x as int, y as int)])
            } else {
                None
            }),
    {
        let len = self.data.len();
        proof {
            lemma_scaled(self.width(), self.height(), 4);
        }
        match get_index_checked((self.width, self.height), x, y) {
            Some(i) => {
                let p = Rgba(
                    [self.data[4 * i], self.data[4 * i + 1], self.data[4 * i + 2], self.data[4 * i
                        + 3]],
                );
                Some(p)
            },
            None => None,
        }
    }

    /// Sets the pixel at `(x, y)`.
    pub fn put_pixel(&mut self, x: u32, y: u32, val: Rgba)
        requires
            old(self).wf(),
            x < old(self).width(),
            y < old(self).height(),
        ensures
            final(self).wf(),
            final(self).width() == old(self).width(),
            final(self).height() == old(self).height(),
            final(self).pixels() == old(self).pixels().update(
                index_of(old(self).width(), x as int, y as int),
                val,
            ),
    {
        let len = self.data.len();
        proof {
            lemma_scaled(self.width(), self.height(), 4);
        }
        let i = get_index((self.width, self.height), x, y);
        let ghost before = self.pixels();
        self.data.set(4 * i, val.0[0]);
        self.data.set(4 * i + 1, val.0[1]);
        self.data.set(4 * i + 2, val.0[2]);
        self.data.set(4 * i + 3, val.0[3]);
        proof {
            lemma_rgba_eq(rgba_at(self.data@, i as int), val);
        }
        assert(self.pixels() =~= before.update(i as int, val));
    }

    /// Replaces every pixel, in row-major order.
    pub fn put_from_vec(&mut self, pixels: &Vec<Rgba>)
        requires
            old(self).wf(),
            pixels@.len() == old(self).width() * old(self).height(),
        ensures
            final(self).wf(),
            final(self).width() == old(self).width(),
            final(self).height() == old(self).height(),
            final(self).pixels() == pixels@,
    {
        let len = self.data.len();
        proof {
            lemma_scaled(self.width(), self.height(), 4);
        }
        let n = pixels.len();
        let mut data: Vec<u8> = Vec::new();
        let mut k: usize = 0;
        while k < n
            invariant
                n == pixels@.len(),
                4 * n <= usize::MAX,
                0 <= k <= n,
                data@.len() == 4 * k,
                forall|i: int| 0 <= i < k ==> rgba_at(data@, i) == pixels@[i],
            decreases n - k,
        {
            let p = pixels[k];
            let ghost prev = data@;
            data.push(p.0[0]);
            data.push(p.0[1]);
            data.push(p.0[2]);
            data.push(p.0[3]);
            proof {
                lemma_rgba_eq(rgba_at(data@, k as int), p);
                assert forall|i: int| 0 <= i < k + 1 implies rgba_at(data@, i) == pixels@[i] by {
                    if i < k {
                        assert(rgba_at(prev, i) == pixels@[i]);
                    }
                }
            }
            k = k + 1;
        }
        self.data = data;
        assert(self.pixels() =~= pixels@);
    }

    /// A copy of the frame.
    pub fn clone_frame(&self) -> (r: RgbaFrame)
        ensures
            r.width() == self.width(),
            r.height() == self.height(),
            r.bytes() == self.bytes(),
    {
        let data = self.data.clone();
        assert(data@ =~= self.data@);
        RgbaFrame { data, width: self.width, height: self.height }
    }

    /// The frame's bytes: the pixels in row-major order, four bytes each.
    pub fn as_formatted_raw(&self) -> (r: &[u8])
        requires
            self.wf(),
        ensures
            r@ == self.bytes(),
            r@ == rgba_bytes(self.pixels()),
            r@.len() == 4 * (self.width() * self.height()),
            forall|x: int, y: int, c: int|
                0 <= x < self.width() && 0 <= y < self.height() && 0 <= c < 4 ==> r@[4 * index_of(
                    self.width(),
                    x,
                    y,
                ) + c] == #[trigger] self.pixels()[index_of(self.width(), x, y)].0[c],
    {
        proof {
            lemma_scaled(self.width(), self.height(), 4);
            lemma_rgba_bytes(self.bytes(), self.width() * self.height());
            assert forall|x: int, y: int, c: int|
                0 <= x < self.width() && 0 <= y < self.height() && 0 <= c < 4 implies self.bytes()[4
                * index_of(self.width(), x, y) + c] == #[trigger] self.pixels()[index_of(
                self.width(),
                x,
                y,
            )].0[c] by {
                lemma_grid_byte(self.width(), self.height(), 4, x, y, c);
            }
        }
        self.data.as_slice()
    }
}

/// A frame stored as packed RGB bytes in row-major order.
#[derive(Debug, Clone)]
pub struct RgbFrame {
    data: Vec<u8>,
    width: u32,
    height: u32,
}

impl RgbFrame {
    pub closed spec fn width(&self) -> int {
        self.width as int
    }

    pub closed spec fn height(&self) -> int {
        self.height as int
    }

    pub closed spec fn bytes(&self) -> Seq<u8> {
        self.data@
    }

    pub open spec fn wf(&self) -> bool {
        self.bytes().len() == 3 * (self.width() * self.height())
    }

    pub open spec fn pixels(&self) -> Seq<Rgba> {
        rgb_grid(self.bytes(), self.width() * self.height())
    }

    /// A frame of the given size with every pixel set to `pixel`.
    pub fn from_pixel(width: u32, height: u32, pixel: Rgb) -> (f: RgbFrame)
        requires
            3 * width * height <= usize::MAX,
        ensures
            f.wf(),
            f.width() == width,
            f.height() == height,
            f.pixels() == Seq::new(
                (width * height) as nat,
                |i: int| opaque(pixel.0[0], pixel.0[1], pixel.0[2]),
            ),
    {
        proof {
            lemma_scaled(width as int, height as int, 3);
        }
        let n = width as usize * height as usize;
        let data = rgb_fill(n, pixel);
        let f = RgbFrame { data, width, height };
        assert(f.pixels() =~= Seq::new(
            (width * height) as nat,
            |i: int| opaque(pixel.0[0], pixel.0[1], pixel.0[2]),
        ));
        f
    }

    /// A frame over packed RGB bytes, or `None` where their number is not
    /// three per pixel.
    pub fn from_raw(width: u32, height: u32, data: Vec<u8>) -> (r: Option<RgbFrame>)
        ensures
            r.is_some() <==> data@.len() == 3 * (width * height),
            r matches Some(f) ==> f.wf() && f.width() == width && f.height() == height && f.bytes()
                == data@,
    {
        let len = data.len();
        assert((width as u128) * (height as u128) <= 0xffff_ffff_ffff_ffff) by (nonlinear_arith)
            requires
                width <= 0xffff_ffff,
                height <= 0xffff_ffff,
        ;
        if (width as u128) * (height as u128) * 3 == len as u128 {
            Some(RgbFrame { data, width, height })
        } else {
            None
        }
    }

    pub fn dimensions(&self) -> (r: (u32, u32))
        ensures
            r.0 == self.width(),
            r.1 == self.height(),
    {
        (self.width, self.height)
    }

    /// The pixel at `(x, y)`, or `None` outside the frame.
    pub fn get_pixel_checked(&self, x: u32, y: u32) -> (r: Option<Rgb>)
        requires
            self.wf(),
        ensures
            r.is_some() <==> x < self.width() && y < self.height(),
            r matches Some(p) ==> opaque(p.0[0], p.0[1], p.0[2]) == self.pixels()[index_of(
                self.width(),
                x as int,
                y as int,
            )],
    {
        let len = self.data.len();
        proof {
            lemma_scaled(self.width(), self.height(), 3);
        }
        match get_index_checked((self.width, self.height), x, y) {
            Some(i) => Some(rgb_read(&self.data, i)),
            None => None,
        }
    }

    /// Sets the pixel at `(x, y)`.
    pub fn put_pixel(&mut self, x: u32, y: u32, val: Rgb)
        requires
            old(self).wf(),
            x < old(self).width(),
            y < old(self).height(),
        ensures
            final(self).wf(),
            final(self).width() == old(self).width(),
            final(self).height() == old(self).height(),
            final(self).pixels() == old(self).pixels().update(
                index_of(old(self).width(), x as int, y as int),
                opaque(val.0[0], val.0[1], val.0[2]),
            ),
    {
        let len = self.data.len();
        proof {
            lemma_scaled(self.width(), self.height(), 3);
        }
        let i = get_index((self.width, self.height), x, y);
        let ghost before = self.pixels();
        rgb_write(&mut self.data, i, val);
        assert(self.pixels() =~= before.update(i as int, opaque(val.0[0], val.0[1], val.0[2])));
    }

    /// Replaces every pixel, in row-major order.
    pub fn put_from_vec(&mut self, pixels: &Vec<Rgb>)
        requires
            old(self).wf(),
            pixels@.len() == old(self).width() * old(self).height(),
        ensures
            final(self).wf(),
            final(self).width() == old(self).width(),
            final(self).height() == old(self).height(),
            final(self).pixels() == Seq::new(
                pixels@.len(),
                |i: int| opaque(pixels@[i].0[0], pixels@[i].0[1], pixels@[i].0[2]),
            ),
    {
        let len = self.data.len();
        proof {
            lemma_scaled(self.width(), self.height(), 3);
        }
        self.data = rgb_pack(pixels);
        assert(self.pixels() =~= Seq::new(
            pixels@.len(),
            |i: int| opaque(pixels@[i].0[0], pixels@[i].0[1], pixels@[i].0[2]),
        ));
    }

    /// A copy of the frame.
    pub fn clone_frame(&self) -> (r: RgbFrame)
        ensures
            r.width() == self.width(),
            r.height() == self.height(),
            r.bytes() == self.bytes(),
    {
        let data = self.data.clone();
        assert(data@ =~= self.data@);
        RgbFrame { data, width: self.width, height: self.height }
    }

    /// The frame's bytes: the pixels in row-major order, three bytes each.
    pub fn as_formatted_raw(&self) -> (r: &[u8])
        requires
            self.wf(),
        ensures
            r@ == self.bytes(),
            r@ == rgb_bytes(self.pixels()),
            r@.len() == 3 * (self.width() * self.height()),
            forall|x: int, y: int, c: int|
                0 <= x < self.width() && 0 <= y < self.height() && 0 <= c < 3 ==> r@[3 * index_of(
                    self.width(),
                    x,
                    y,
                ) + c] == #[trigger] self.pixels()[index_of(self.width(), x, y)].0[c],
    {
        proof {
            lemma_scaled(self.width(), self.height(), 3);
            lemma_rgb_bytes(self.bytes(), self.width() * self.height());
            assert forall|x: int, y: int, c: int|
                0 <= x < self.width() && 0 <= y < self.height() && 0 <= c < 3 implies self.bytes()[3
                * index_of(self.width(), x, y) + c] == #[trigger] self.pixels()[index_of(
                self.width(),
                x,
                y,
            )].0[c] by {
                lemma_grid_byte(self.width(), self.height(), 3, x, y, c);
            }
        }
        self.data.as_slice()
    }
}

/// Packed RGB bytes of `n` copies of `pixel`.
fn rgb_fill(n: usize, pixel: Rgb) -> (data: Vec<u8>)
    requires
        3 * n <= usize::MAX,
    ensures
        data@.len() == 3 * n,
        forall|i: int| 0 <= i < n ==> rgb_at(data@, i) == opaque(pixel.0[0], pixel.0[1], pixel.0[2]),
{
    let mut data: Vec<u8> = Vec::new();
    let mut k: usize = 0;
    while k < n
        invariant
            3 * n <= usize::MAX,
            0 <= k <= n,
            data@.len() == 3 * k,
            forall|i: int|
                0 <= i < k ==> rgb_at(data@, i) == opaque(pixel.0[0], pixel.0[1], pixel.0[2]),
        decreases n - k,
    {
        let ghost prev = data@;
        data.push(pixel.0[0]);
        data.push(pixel.0[1]);
        data.push(pixel.0[2]);
        proof {
            assert forall|i: int| 0 <= i < k + 1 implies rgb_at(data@, i) == opaque(
                pixel.0[0],
                pixel.0[1],
                pixel.0[2],
            ) by {
                if i < k {
                    assert(rgb_at(prev, i) == opaque(pixel.0[0], pixel.0[1], pixel.0[2]));
                }
            }
        }
        k = k + 1;
    }
    data
}

/// Packed RGB bytes of the given pixels.
fn rgb_pack(pixels: &Vec<Rgb>) -> (data: Vec<u8>)
    requires
        3 * pixels@.len() <= usize::MAX,
    ensures
        data@.len() == 3 * pixels@.len(),
        forall|i: int|
            0 <= i < pixels@.len() ==> rgb_at(data@, i) == opaque(
                pixels@[i].0[0],
                pixels@[i].0[1],
                pixels@[i].0[2],
            ),
{
    let n = pixels.len();
    let mut data: Vec<u8> = Vec::new();
    let mut k: usize = 0;
    while k < n
        invariant
            n == pixels@.len(),
            3 * n <= usize::MAX,
            0 <= k <= n,
            data@.len() == 3 * k,
            forall|i: int|
                0 <= i < k ==> rgb_at(data@, i) == opaque(
                    pixels@[i].0[0],
                    pixels@[i].0[1],
                    pixels@[i].0[2],
                ),
        decreases n - k,
    {
        let p = pixels[k];
        let ghost prev = data@;
        data.push(p.0[0]);
        data.push(p.0[1]);
        data.push(p.0[2]);
        proof {
            assert forall|i: int| 0 <= i < k + 1 implies rgb_at(data@, i) == opaque(
                pixels@[i].0[0],
                pixels@[i].0[1],
                pixels@[i].0[2],
            ) by {
                if i < k {
                    assert(rgb_at(prev, i) == opaque(
                        pixels@[i].0[0],
                        pixels@[i].0[1],
                        pixels@[i].0[2],
                    ));
                }
            }
        }
        k = k + 1;
    }
    data
}

/// The pixel with linear index `i` in packed RGB bytes.
fn rgb_read(data: &Vec<u8>, i: usize) -> (p: Rgb)
    requires
        3 * i + 2 < data@.len(),
    ensures
        opaque(p.0[0], p.0[1], p.0[2]) == rgb_at(data@, i as int),
{
    let len = data.len();
    Rgb([data[3 * i], data[3 * i + 1], data[3 * i + 2]])
}

/// Writes pixel `i` of packed RGB bytes.
fn rgb_write(data: &mut Vec<u8>, i: usize, val: Rgb)
    requires
        3 * i + 2 < old(data)@.len(),
    ensures
        final(data)@ == put_rgb(old(data)@, i as int, val.0[0], val.0[1], val.0[2]),
{
    let len = data.len();
    data.set(3 * i, val.0[0]);
    data.set(3 * i + 1, val.0[1]);
    data.set(3 * i + 2, val.0[2]);
}

/// A frame stored as packed RGB bytes beside the planar 4:2:0 picture derived
/// from them, which is kept up to date on every change.
#[derive(Debug, Clone)]
pub struct Yuv420pFrame {
    rgb_data: Vec<u8>,
    yuv_data: Vec<u8>,
    width: u32,
    height: u32,
}

impl Yuv420pFrame {
    pub closed spec fn width(&self) -> int {
        self.width as int
    }

    pub closed spec fn height(&self) -> int {
        self.height as int
    }

    pub closed spec fn rgb_bytes(&self) -> Seq<u8> {
        self.rgb_data@
    }

    pub closed spec fn yuv_bytes(&self) -> Seq<u8> {
        self.yuv_data@
    }

    pub open spec fn wf(&self) -> bool {
        &&& yuv_dims(self.rgb_bytes(), self.width(), self.height())
        &&& self.yuv_bytes() == yuv_plane(self.rgb_bytes(), self.width(), self.height())
    }

    pub open spec fn pixels(&self) -> Seq<Rgba> {
        rgb_grid(self.rgb_bytes(), self.width() * self.height())
    }

    /// A frame of the given even size with every pixel set to `pixel`.
    pub fn from_pixel(width: u32, height: u32, pixel: Rgb) -> (f: Yuv420pFrame)
        requires
            width % 2 == 0,
            height % 2 == 0,
            3 * width * height <= usize::MAX,
        ensures
            f.wf(),
            f.width() == width,
            f.height() == height,
            f.pixels() == Seq::new(
                (width * height) as nat,
                |i: int| opaque(pixel.0[0], pixel.0[1], pixel.0[2]),
            ),
    {
        proof {
            lemma_scaled(width as int, height as int, 3);
        }
        let n = width as usize * height as usize;
        let rgb_data = rgb_fill(n, pixel);
        let yuv_data = yuv420p_from_rgb(&rgb_data, width, height);
        let f = Yuv420pFrame { rgb_data, yuv_data, width, height };
        assert(f.pixels() =~= Seq::new(
            (width * height) as nat,
            |i: int| opaque(pixel.0[0], pixel.0[1], pixel.0[2]),
        ));
        f
    }

    /// A frame over packed RGB bytes, or `None` where the size is odd or their
    /// number is not three per pixel.
    pub fn from_raw(width: u32, height: u32, data: Vec<u8>) -> (r: Option<Yuv420pFrame>)
        ensures
            r.is_some() <==> data@.len() == 3 * (width * height) && width % 2 == 0 && height % 2
                == 0,
            r matches Some(f) ==> f.wf() && f.width() == width && f.height() == height
                && f.rgb_bytes() == data@,
    {
        let len = data.len();
        proof {
            lemma_scaled(width as int, height as int, 3);
        }
        assert((width as u128) * (height as u128) <= 0xffff_ffff_ffff_ffff) by (nonlinear_arith)
            requires
                width <= 0xffff_ffff,
                height <= 0xffff_ffff,
        ;
        if (width as u128) * (height as u128) * 3 == len as u128 && width % 2 == 0 && height % 2
            == 0 {
            let yuv_data = yuv420p_from_rgb(&data, width, height);
            Some(Yuv420pFrame { rgb_data: data, yuv_data, width, height })
        } else {
            None
        }
    }

    pub fn dimensions(&self) -> (r: (u32, u32))
        ensures
            r.0 == self.width(),
            r.1 == self.height(),
    {
        (self.width, self.height)
    }

    /// The pixel at `(x, y)`, or `None` outside the frame.
    pub fn get_pixel_checked(&self, x: u32, y: u32) -> (r: Option<Rgb>)
        requires
            self.wf(),
        ensures
            r.is_some() <==> x < self.width() && y < self.height(),
            r matches Some(p) ==> opaque(p.0[0], p.0[1], p.0[2]) == self.pixels()[index_of(
                self.width(),
                x as int,
                y as int,
            )],
    {
        let len = self.rgb_data.len();
        proof {
            lemma_scaled(self.width(), self.height(), 3);
        }
        match get_index_checked((self.width, self.height), x, y) {
            Some(i) => Some(rgb_read(&self.rgb_data, i)),
            None => None,
        }
    }

    /// Sets the pixel at `(x, y)` and derives its 2x2 block of the planar
    /// picture again.
    pub fn put_pixel(&mut self, x: u32, y: u32, val: Rgb)
        requires
            old(self).wf(),
            x < old(self).width(),
            y < old(self).height(),
        ensures
            final(self).wf(),
            final(self).width() == old(self).width(),
            final(self).height() == old(self).height(),
            final(self).pixels() == old(self).pixels().update(
                index_of(old(self).width(), x as int, y as int),
                opaque(val.0[0], val.0[1], val.0[2]),
            ),
            final(self).rgb_bytes() == put_rgb(
                old(self).rgb_bytes(),
                index_of(old(self).width(), x as int, y as int),
                val.0[0],
                val.0[1],
                val.0[2],
            ),
            final(self).yuv_bytes() == refresh_block_spec(
                old(self).yuv_bytes(),
                final(self).rgb_bytes(),
                old(self).width(),
                old(self).height(),
                x as int,
                y as int,
            ),
    {
        let len = self.rgb_data.len();
        proof {
            lemma_scaled(self.width(), self.height(), 3);
            crate::yuv::lemma_plane_len(self.rgb_bytes(), self.width(), self.height());
        }
        let i = get_index((self.width, self.height), x, y);
        let ghost before = self.pixels();
        let ghost old_rgb = self.rgb_data@;
        rgb_write(&mut self.rgb_data, i, val);
        refresh_block(&mut self.yuv_data, &self.rgb_data, self.width, self.height, x, y);
        proof {
            lemma_block_refresh_agrees(
                old_rgb,
                self.width(),
                self.height(),
                x as int,
                y as int,
                val.0[0],
                val.0[1],
                val.0[2],
            );
        }
        assert(self.pixels() =~= before.update(i as int, opaque(val.0[0], val.0[1], val.0[2])));
    }

    /// Replaces every pixel, in row-major order, and derives the planar
    /// picture again in full.
    pub fn put_from_vec(&mut self, pixels: &Vec<Rgb>)
        requires
            old(self).wf(),
            pixels@.len() == old(self).width() * old(self).height(),
        ensures
            final(self).wf(),
            final(self).width() == old(self).width(),
            final(self).height() == old(self).height(),
            final(self).pixels() == Seq::new(
                pixels@.len(),
                |i: int| opaque(pixels@[i].0[0], pixels@[i].0[1], pixels@[i].0[2]),
            ),
    {
        let len = self.rgb_data.len();
        proof {
            lemma_scaled(self.width(), self.height(), 3);
        }
        let rgb_data = rgb_pack(pixels);
        let yuv_data = yuv420p_from_rgb(&rgb_data, self.width, self.height);
        self.rgb_data = rgb_data;
        self.yuv_data = yuv_data;
        assert(self.pixels() =~= Seq::new(
            pixels@.len(),
            |i: int| opaque(pixels@[i].0[0], pixels@[i].0[1], pixels@[i].0[2]),
        ));
    }

    /// A copy of the frame.
    pub fn clone_frame(&self) -> (r: Yuv420pFrame)
        ensures
            r.width() == self.width(),
            r.height() == self.height(),
            r.rgb_bytes() == self.rgb_bytes(),
            r.yuv_bytes() == self.yuv_bytes(),
    {
        let rgb_data = self.rgb_data.clone();
        let yuv_data = self.yuv_data.clone();
        assert(rgb_data@ =~= self.rgb_data@);
        assert(yuv_data@ =~= self.yuv_data@);
        Yuv420pFrame { rgb_data, yuv_data, width: self.width, height: self.height }
    }

    /// The frame's bytes: the planar 4:2:0 picture of its pixels.
    pub fn as_formatted_raw(&self) -> (r: &[u8])
        requires
            self.wf(),
        ensures
            r@ == self.yuv_bytes(),
            r@ == yuv_plane(rgb_bytes(self.pixels()), self.width(), self.height()),
    {
        proof {
            lemma_scaled(self.width(), self.height(), 3);
            lemma_rgb_bytes(self.rgb_bytes(), self.width() * self.height());
        }
        self.yuv_data.as_slice()
    }
}

/// How a frame of the given format stores `p`: an RGB frame drops the alpha
/// channel, so the pixel reads back opaque.
pub open spec fn stored(format: PixelFormat, p: Rgba) -> Rgba {
    match format {
        PixelFormat::Rgba => p,
        _ => opaque_of(p),
    }
}

/// The bytes of a frame of the given format, size and pixels.
pub open spec fn encode(format: PixelFormat, w: int, h: int, pixels: Seq<Rgba>) -> Seq<u8> {
    match format {
        PixelFormat::Rgba => rgba_bytes(pixels),
        PixelFormat::Rgb => rgb_bytes(pixels),
        PixelFormat::Yuv420p => yuv_plane(rgb_bytes(pixels), w, h),
    }
}

/// A frame in one of the three layouts.
#[derive(Debug, Clone)]
pub enum DynamicFrame {
    Rgba(RgbaFrame),
    Rgb(RgbFrame),
    Yuv420p(Yuv420pFrame),
}

/// Every pixel in RGB form.
fn to_rgb_vec(pixels: &Vec<Rgba>) -> (r: Vec<Rgb>)
    ensures
        r@.len() == pixels@.len(),
        forall|i: int|
            0 <= i < pixels@.len() ==> opaque(r@[i].0[0], r@[i].0[1], r@[i].0[2]) == opaque_of(
                pixels@[i],
            ),
{
    let mut r: Vec<Rgb> = Vec::new();
    let mut k: usize = 0;
    while k < pixels.len()
        invariant
            0 <= k <= pixels@.len(),
            r@.len() == k,
            forall|i: int|
                0 <= i < k ==> opaque(r@[i].0[0], r@[i].0[1], r@[i].0[2]) == opaque_of(pixels@[i]),
        decreases pixels@.len() - k,
    {
        r.push(pixels[k].to_rgb());
        k = k + 1;
    }
    r
}

impl DynamicFrame {
    pub open spec fn wf(&self) -> bool {
        match self {
            DynamicFrame::Rgba(f) => f.wf(),
            DynamicFrame::Rgb(f) => f.wf(),
            DynamicFrame::Yuv420p(f) => f.wf(),
        }
    }

    pub open spec fn format(&self) -> PixelFormat {
        match self {
            DynamicFrame::Rgba(_) => PixelFormat::Rgba,
            DynamicFrame::Rgb(_) => PixelFormat::Rgb,
            DynamicFrame::Yuv420p(_) => PixelFormat::Yuv420p,
        }
    }

    pub open spec fn width(&self) -> int {
        match self {
            DynamicFrame::Rgba(f) => f.width(),
            DynamicFrame::Rgb(f) => f.width(),
            DynamicFrame::Yuv420p(f) => f.width(),
        }
    }

    pub open spec fn height(&self) -> int {
        match self {
            DynamicFrame::Rgba(f) => f.height(),
            DynamicFrame::Rgb(f) => f.height(),
            DynamicFrame::Yuv420p(f) => f.height(),
        }
    }

    /// The pixels in row-major order.
    pub open spec fn pixels(&self) -> Seq<Rgba> {
        match self {
            DynamicFrame::Rgba(f) => f.pixels(),
            DynamicFrame::Rgb(f) => f.pixels(),
            DynamicFrame::Yuv420p(f) => f.pixels(),
        }
    }

    /// A frame of the given format and size with every pixel set to `pixel`.
    pub fn from_pixel(format: PixelFormat, width: u32, height: u32, pixel: Rgba) -> (f: DynamicFrame)
        requires
            4 * width * height <= usize::MAX,
            format == PixelFormat::Yuv420p ==> width % 2 == 0 && height % 2 == 0,
        ensures
            f.wf(),
            f.format() == format,
            f.width() == width,
            f.height() == height,
            f.pixels() == Seq::new((width * height) as nat, |i: int| stored(format, pixel)),
    {
        proof {
            lemma_scaled(width as int, height as int, 4);
            lemma_scaled(width as int, height as int, 3);
        }
        match format {
            PixelFormat::Rgba => DynamicFrame::Rgba(RgbaFrame::from_pixel(width, height, pixel)),
            PixelFormat::Rgb => {
                let f = RgbFrame::from_pixel(width, height, pixel.to_rgb());
                assert(f.pixels() =~= Seq::new((width * height) as nat, |i: int| stored(format, pixel)));
                DynamicFrame::Rgb(f)
            },
            PixelFormat::Yuv420p => {
                let f = Yuv420pFrame::from_pixel(width, height, pixel.to_rgb());
                assert(f.pixels() =~= Seq::new((width * height) as nat, |i: int| stored(format, pixel)));
                DynamicFrame::Yuv420p(f)
            },
        }
    }

    /// A frame of the given format over bytes in that format's packed layout
    /// (four bytes a pixel for RGBA, three for the others), or `None` where
    /// their number does not match the size, or the size is odd for 4:2:0.
    pub fn from_raw(format: PixelFormat, width: u32, height: u32, data: Vec<u8>) -> (r: Option<DynamicFrame>)
        ensures
            r.is_some() <==> match format {
                PixelFormat::Rgba => data@.len() == 4 * (width * height),
                PixelFormat::Rgb => data@.len() == 3 * (width * height),
                PixelFormat::Yuv420p => data@.len() == 3 * (width * height) && width % 2 == 0
                    && height % 2 == 0,
            },
            r matches Some(f) ==> f.wf() && f.format() == format && f.width() == width && f.height()
                == height && f.pixels() == (match format {
                PixelFormat::Rgba => rgba_grid(data@, width * height),
                _ => rgb_grid(data@, width * height),
            }),
    {
        match format {
            PixelFormat::Rgba => match RgbaFrame::from_raw(width, height, data) {
                Some(f) => Some(DynamicFrame::Rgba(f)),
                None => None,
            },
            PixelFormat::Rgb => match RgbFrame::from_raw(width, height, data) {
                Some(f) => Some(DynamicFrame::Rgb(f)),
                None => None,
            },
            PixelFormat::Yuv420p => match Yuv420pFrame::from_raw(width, height, data) {
                Some(f) => Some(DynamicFrame::Yuv420p(f)),
                None => None,
            },
        }
    }

    /// A copy of the frame, with the same format, size and pixels.
    pub fn clone_frame(&self) -> (r: DynamicFrame)
        ensures
            r.wf() == self.wf(),
            r.format() == self.format(),
            r.width() == self.width(),
            r.height() == self.height(),
            r.pixels() == self.pixels(),
    {
        match self {
            DynamicFrame::Rgba(f) => DynamicFrame::Rgba(f.clone_frame()),
            DynamicFrame::Rgb(f) => DynamicFrame::Rgb(f.clone_frame()),
            DynamicFrame::Yuv420p(f) => DynamicFrame::Yuv420p(f.clone_frame()),
        }
    }

    pub fn dimensions(&self) -> (r: (u32, u32))
        ensures
            r.0 == self.width(),
            r.1 == self.height(),
    {
        match self {
            DynamicFrame::Rgba(f) => f.dimensions(),
            DynamicFrame::Rgb(f) => f.dimensions(),
            DynamicFrame::Yuv420p(f) => f.dimensions(),
        }
    }

    /// The pixel at `(x, y)`, or `None` outside the frame.
    pub fn get_pixel_checked(&self, x: u32, y: u32) -> (r: Option<Rgba>)
        requires
            self.wf(),
        ensures
            r == (if x < self.width() && y < self.height() {
                Some(self.pixels()[index_of(self.width(), x as int, y as int)])
            } else {
                None
            }),
    {
        match self {
            DynamicFrame::Rgba(f) => f.get_pixel_checked(x, y),
            DynamicFrame::Rgb(f) => match f.get_pixel_checked(x, y) {
                Some(p) => Some(p.to_rgba()),
                None => None,
            },
            DynamicFrame::Yuv420p(f) => match f.get_pixel_checked(x, y) {
                Some(p) => Some(p.to_rgba()),
                None => None,
            },
        }
    }

    /// Sets the pixel at `(x, y)`.
    pub fn put_pixel(&mut self, x: u32, y: u32, val: Rgba)
        requires
            old(self).wf(),
            x < old(self).width(),
            y < old(self).height(),
        ensures
            final(self).wf(),
            final(self).format() == old(self).format(),
            final(self).width() == old(self).width(),
            final(self).height() == old(self).height(),
            final(self).pixels() == old(self).pixels().update(
                index_of(old(self).width(), x as int, y as int),
                stored(old(self).format(), val),
            ),
    {
        match self {
            DynamicFrame::Rgba(f) => f.put_pixel(x, y, val),
            DynamicFrame::Rgb(f) => f.put_pixel(x, y, val.to_rgb()),
            DynamicFrame::Yuv420p(f) => f.put_pixel(x, y, val.to_rgb()),
        }
    }

    /// Replaces every pixel, in row-major order.
    pub fn put_from_vec(&mut self, pixels: &Vec<Rgba>)
        requires
            old(self).wf(),
            pixels@.len() == old(self).width() * old(self).height(),
        ensures
            final(self).wf(),
            final(self).format() == old(self).format(),
            final(self).width() == old(self).width(),
            final(self).height() == old(self).height(),
            final(self).pixels() == pixels@.map_values(|p: Rgba| stored(old(self).format(), p)),
    {
        let ghost fmt = self.format();
        match self {
            DynamicFrame::Rgba(f) => {
                f.put_from_vec(pixels);
                assert(f.pixels() =~= pixels@.map_values(|p: Rgba| stored(fmt, p)));
            },
            DynamicFrame::Rgb(f) => {
                let rgb = to_rgb_vec(pixels);
                f.put_from_vec(&rgb);
                assert(f.pixels() =~= pixels@.map_values(|p: Rgba| stored(fmt, p)));
            },
            DynamicFrame::Yuv420p(f) => {
                let rgb = to_rgb_vec(pixels);
                f.put_from_vec(&rgb);
                assert(f.pixels() =~= pixels@.map_values(|p: Rgba| stored(fmt, p)));
            },
        }
    }

    /// The frame's bytes in its own layout: packed RGBA or RGB in row-major
    /// order, or the planar 4:2:0 picture.
    pub fn as_formatted_raw(&self) -> (r: &[u8])
        requires
            self.wf(),
        ensures
            r@ == encode(self.format(), self.width(), self.height(), self.pixels()),
    {
        match self {
            DynamicFrame::Rgba(f) => f.as_formatted_raw(),
            DynamicFrame::Rgb(f) => f.as_formatted_raw(),
            DynamicFrame::Yuv420p(f) => f.as_formatted_raw(),
        }
    }
}

/// The packed RGBA bytes of a `w` by `h` image drawn, with alpha blending,
/// over the top-left corner of a `cw` by `ch` canvas filled with `fill`, and
/// cut to the canvas; it depends on its arguments alone.
pub uninterp spec fn overlaid(data: Seq<u8>, w: nat, h: nat, cw: nat, ch: nat, fill: Seq<u8>) -> Seq<u8>;

/// Relies on image::imageops::overlay, over an image::RgbaImage made with
/// from_pixel: draws the image over a canvas of one color, blending by
/// alpha; the canvas keeps its size, four bytes a pixel.
#[verifier::external_body]
fn overlay_rgba(data: Vec<u8>, w: u32, h: u32, cw: u32, ch: u32, fill: Rgba) -> (r: Vec<u8>)
    requires
        data@.len() == 4 * (w * h),
        4 * (cw * ch) <= usize::MAX,
    ensures
        r@ == overlaid(data@, w as nat, h as nat, cw as nat, ch as nat, fill.0@),
        r@.len() == 4 * (cw * ch),
{
    let top = image::RgbaImage::from_raw(w, h, data).unwrap();
    let mut canvas = image::RgbaImage::from_pixel(cw, ch, image::Rgba(fill.0));
    image::imageops::overlay(&mut canvas, &top, 0, 0);
    canvas.into_raw()
}

/// A background image, as packed RGBA bytes, fitted to a `cw` by `ch`
/// canvas: where it is narrower or lower than the canvas it is drawn over a
/// white canvas of the canvas's size; else it is kept as it is. Gives the
/// bytes with their width and height.
pub fn fit_background(data: Vec<u8>, w: u32, h: u32, cw: u32, ch: u32) -> (r: (Vec<u8>, u32, u32))
    requires
        data@.len() == 4 * (w * h),
        4 * (cw * ch) <= usize::MAX,
    ensures
        (w < cw || h < ch) ==> r.0@ == overlaid(
            data@,
            w as nat,
            h as nat,
            cw as nat,
            ch as nat,
            seq![255u8, 255u8, 255u8, 255u8],
        ) && r.1 == cw && r.2 == ch,
        !(w < cw || h < ch) ==> r.0@ == data@ && r.1 == w && r.2 == h,
        r.0@.len() == 4 * (r.1 * r.2),
{
    if w < cw || h < ch {
        let white = Rgba([255, 255, 255, 255]);
        assert(white.0@ =~= seq![255u8, 255u8, 255u8, 255u8]);
        (overlay_rgba(data, w, h, cw, ch, white), cw, ch)
    } else {
        (data, w, h)
    }
}

/// Packed RGB bytes of packed RGBA bytes: the alpha channel is dropped.
fn rgba_to_rgb_bytes(data: &Vec<u8>) -> (r: Vec<u8>)
    requires
        data@.len() % 4 == 0,
    ensures
        r@.len() == 3 * (data@.len() / 4),
        forall|i: int|
            0 <= i < data@.len() / 4 ==> #[trigger] rgb_at(r@, i) == opaque_of(rgba_at(data@, i)),
{
    let len = data.len();
    let n = len / 4;
    let mut r: Vec<u8> = Vec::new();
    let mut k: usize = 0;
    while k < n
        invariant
            len == data@.len(),
            n == data@.len() / 4,
            data@.len() % 4 == 0,
            0 <= k <= n,
            r@.len() == 3 * k,
            forall|i: int| 0 <= i < k ==> #[trigger] rgb_at(r@, i) == opaque_of(rgba_at(data@, i)),
        decreases n - k,
    {
        let ghost prev = r@;
        r.push(data[4 * k]);
        r.push(data[4 * k + 1]);
        r.push(data[4 * k + 2]);
        proof {
            assert forall|i: int| 0 <= i < k + 1 implies #[trigger] rgb_at(r@, i) == opaque_of(
                rgba_at(data@, i),
            ) by {
                if i < k {
                    assert(rgb_at(prev, i) == opaque_of(rgba_at(data@, i)));
                }
            }
        }
        k = k + 1;
    }
    r
}

impl DynamicFrame {
    /// A frame of the given format over packed RGBA bytes, such as a decoded
    /// image gives; formats without alpha drop it. `None` where the number of
    /// bytes does not match the size, or the size is odd for 4:2:0.
    pub fn from_rgba(format: PixelFormat, width: u32, height: u32, data: Vec<u8>) -> (r: Option<
        DynamicFrame,
    >)
        ensures
            r.is_some() <==> data@.len() == 4 * (width * height) && (format
                == PixelFormat::Yuv420p ==> width % 2 == 0 && height % 2 == 0),
            r matches Some(f) ==> f.wf() && f.format() == format && f.width() == width && f.height()
                == height && f.pixels() == rgba_grid(data@, width * height).map_values(
                |p: Rgba| stored(format, p),
            ),
    {
        let len = data.len();
        proof {
            lemma_scaled(width as int, height as int, 4);
        }
        assert((width as u128) * (height as u128) <= 0xffff_ffff_ffff_ffff) by (nonlinear_arith)
            requires
                width <= 0xffff_ffff,
                height <= 0xffff_ffff,
        ;
        if (width as u128) * (height as u128) * 4 != len as u128 {
            return None;
        }
        match format {
            PixelFormat::Rgba => {
                let r = DynamicFrame::from_raw(format, width, height, data);
                proof {
                    if r is Some {
                        assert(r->Some_0.pixels() =~= rgba_grid(data@, width * height).map_values(
                            |p: Rgba| stored(format, p),
                        ));
                    }
                }
                r
            },
            _ => {
                let rgb = rgba_to_rgb_bytes(&data);
                proof {
                    assert(data@.len() / 4 == width * height);
                }
                let r = DynamicFrame::from_raw(format, width, height, rgb);
                proof {
                    if r is Some {
                        assert(r->Some_0.pixels() =~= rgba_grid(data@, width * height).map_values(
                            |p: Rgba| stored(format, p),
                        ));
                    }
                }
                r
            },
        }
    }
}

} // verus!
