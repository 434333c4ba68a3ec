//! Pixel-level helpers for tray icons.
//!
//! StatusNotifierItem pixmaps are packed ARGB32 in *network* byte order: for
//! every pixel the bytes are alpha, red, green, blue, and rows are
//! `width * 4` bytes apart.

use vstd::prelude::*;
use vstd::arithmetic::div_mod::lemma_fundamental_div_mod_converse;

verus! {

/// Bytes per pixel of a packed ARGB32 image.
pub const BYTES_PER_PIXEL: usize = 4;

/// One raw icon image as supplied by a StatusNotifierItem.
#[derive(Debug, PartialEq, Eq)]
pub struct Pixmap {
    pub width: i32,
    pub height: i32,
    pub data: Vec<u8>,
}

/// The mathematical value of a [`Pixmap`].
pub struct SpecPixmap {
    pub width: i32,
    pub height: i32,
    pub data: Seq<u8>,
}

impl DeepView for Pixmap {
    type V = SpecPixmap;

    open spec fn deep_view(&self) -> SpecPixmap {
        SpecPixmap { width: self.width, height: self.height, data: self.data@ }
    }
}

impl View for Pixmap {
    type V = SpecPixmap;

    open spec fn view(&self) -> SpecPixmap {
        self.deep_view()
    }
}

impl Clone for Pixmap {
    fn clone(&self) -> (r: Self)
        ensures
            r@ == self@,
    {
        Pixmap { width: self.width, height: self.height, data: self.data.clone() }
    }
}

/// Whether two byte strings are equal.
pub fn same_bytes(a: &Vec<u8>, b: &Vec<u8>) -> (r: bool)
    ensures
        r == (a@ == b@),
{
    if a.len() != b.len() {
        return false;
    }
    let mut i: usize = 0;
    while i < a.len()
        invariant
            i <= a@.len() == b@.len(),
            forall|j: int| 0 <= j < i ==> a@[j] == b@[j],
        decreases a.len() - i,
    {
        if a[i] != b[i] {
            return false;
        }
        i += 1;
    }
    assert(a@ =~= b@);
    true
}

/// Whether two lists of pixmaps are equal.
pub fn same_pixmaps(a: &Vec<Pixmap>, b: &Vec<Pixmap>) -> (r: bool)
    ensures
        r == (a.deep_view() == b.deep_view()),
{
    if a.len() != b.len() {
        assert(a.deep_view().len() != b.deep_view().len());
        return false;
    }
    let mut i: usize = 0;
    while i < a.len()
        invariant
            i <= a@.len() == b@.len(),
            forall|j: int| 0 <= j < i ==> a.deep_view()[j] == b.deep_view()[j],
        decreases a.len() - i,
    {
        if a[i].width != b[i].width || a[i].height != b[i].height || !same_bytes(
            &a[i].data,
            &b[i].data,
        ) {
            assert(a.deep_view()[i as int] != b.deep_view()[i as int]);
            return false;
        }
        assert(a.deep_view()[i as int] == b.deep_view()[i as int]);
        i += 1;
    }
    assert(a.deep_view() =~= b.deep_view());
    true
}

pub open spec fn empty_pixmap() -> SpecPixmap {
    SpecPixmap { width: 0, height: 0, data: seq![] }
}

impl Default for Pixmap {
    fn default() -> (r: Self)
        ensures
            r@ == empty_pixmap(),
    {
        let r = Pixmap { width: 0, height: 0, data: Vec::new() };
        assert(r@.data =~= seq![]);
        r
    }
}

/// A pixmap is usable when it has a size and exactly one packed pixel per
/// slot.
pub open spec fn pixmap_valid(p: SpecPixmap) -> bool {
    p.width > 0 && p.height > 0 && p.data.len() == p.width * p.height * 4
}

pub open spec fn in_bounds(p: SpecPixmap, x: int, y: int) -> bool {
    0 <= x < p.width && 0 <= y < p.height
}

/// Where the pixel at (`x`, `y`) starts in the data: rows are `width * 4`
/// bytes apart and have no padding.
pub open spec fn offset(p: SpecPixmap, x: int, y: int) -> int {
    y * (p.width * 4) + x * 4
}

/// The pixel at (`x`, `y`) as `[alpha, red, green, blue]`, when the pixmap
/// is valid and the position inside it.
pub open spec fn pixel_at(p: SpecPixmap, x: int, y: int) -> Option<Seq<u8>> {
    if pixmap_valid(p) && in_bounds(p, x, y) {
        Some(p.data.subrange(offset(p, x, y), offset(p, x, y) + 4))
    } else {
        None
    }
}

/// The pixmap with the pixel at (`x`, `y`) replaced, when it is there.
pub open spec fn with_pixel(p: SpecPixmap, x: int, y: int, pixel: Seq<u8>) -> SpecPixmap {
    if pixmap_valid(p) && in_bounds(p, x, y) {
        SpecPixmap {
            data: p.data.subrange(0, offset(p, x, y)) + pixel + p.data.subrange(
                offset(p, x, y) + 4,
                p.data.len() as int,
            ),
            ..p
        }
    } else {
        p
    }
}

/// Straight RGBA from packed ARGB: each pixel's alpha byte moves to the end.
pub open spec fn argb_to_rgba(d: Seq<u8>) -> Seq<u8> {
    Seq::new(d.len(), |i: int| if i % 4 == 3 { d[i - 3] } else { d[i + 1] })
}

/// Packed ARGB from straight RGBA: each pixel's alpha byte moves to the
/// front. A trailing incomplete pixel is dropped.
pub open spec fn rgba_to_argb(d: Seq<u8>) -> Seq<u8> {
    Seq::new(((d.len() / 4) * 4) as nat, |i: int| if i % 4 == 0 { d[i + 3] } else { d[i - 1] })
}

/// A pixel inside a `w` x `h` pixmap starts inside its data, and the
/// offset of pixel (`x`, `y`) is four times its index in row order.
pub proof fn lemma_pixel_in_data(w: int, h: int, x: int, y: int)
    requires
        0 <= x < w,
        0 <= y < h,
    ensures
        0 <= y * (w * 4) + x * 4,
        y * (w * 4) + x * 4 + 4 <= w * h * 4,
        y * (w * 4) + x * 4 == (y * w + x) * 4,
        w * 4 <= w * h * 4,
{
    assert(w * 4 <= w * h * 4) by (nonlinear_arith)
        requires
            0 <= x < w,
            0 <= y < h,
    ;
    assert(0 <= y * (w * 4)) by (nonlinear_arith)
        requires
            0 <= y,
            0 <= w,
    ;
    assert(y * (w * 4) + x * 4 + 4 <= w * h * 4) by (nonlinear_arith)
        requires
            0 <= x < w,
            0 <= y < h,
    ;
    assert(y * (w * 4) + x * 4 == (y * w + x) * 4) by (nonlinear_arith);
}

impl Pixmap {
    pub fn new(width: i32, height: i32, data: Vec<u8>) -> (r: Self)
        ensures
            r@ == (SpecPixmap { width, height, data: data@ }),
    {
        Self { width, height, data }
    }

    /// A pixmap is usable when it has a size and exactly one packed pixel per
    /// slot. Applications do ship broken pixmaps now and then; every consumer
    /// checks this first so a malformed image degrades to "no icon".
    pub fn is_valid(&self) -> (r: bool)
        ensures
            r == pixmap_valid(self@),
    {
        if self.width <= 0 || self.height <= 0 {
            return false;
        }
        let w = self.width as u64;
        let h = self.height as u64;
        assert(w * h <= 0x3FFF_FFFF_0000_0001) by (nonlinear_arith)
            requires
                w < 0x8000_0000,
                h < 0x8000_0000,
        ;
        w * h * 4 == self.data.len() as u64
    }

    /// Distance in bytes between two rows. The wire format has no padding.
    pub fn row_stride(&self) -> (r: usize)
        requires
            0 <= self.width,
            self.width * 4 <= usize::MAX,
        ensures
            r == self.width * 4,
    {
        self.width as usize * BYTES_PER_PIXEL
    }

    /// Pixel at (`x`, `y`) as `[alpha, red, green, blue]`, or `None` when out
    /// of bounds.
    pub fn pixel(&self, x: i32, y: i32) -> (r: Option<[u8; 4]>)
        ensures
            match r {
                Some(p) => pixel_at(self@, x as int, y as int) == Some(p@),
                None => pixel_at(self@, x as int, y as int) is None,
            },
    {
        if !self.is_valid() || x < 0 || y < 0 || x >= self.width || y >= self.height {
            return None;
        }
        let len = self.data.len();
        proof {
            lemma_pixel_in_data(self.width as int, self.height as int, x as int, y as int);
            assert(y * (self.width * 4) <= y * (self.width * 4) + x * 4);
        }
        let offset = (y as usize * self.row_stride()) + (x as usize * BYTES_PER_PIXEL);
        let p = [self.data[offset], self.data[offset + 1], self.data[offset + 2], self.data[offset + 3]];
        assert(p@ =~= self.data@.subrange(offset as int, offset + 4));
        Some(p)
    }

    pub fn set_pixel(&mut self, x: i32, y: i32, pixel: [u8; 4])
        ensures
            final(self)@ == with_pixel(old(self)@, x as int, y as int, pixel@),
    {
        if !self.is_valid() || x < 0 || y < 0 || x >= self.width || y >= self.height {
            return;
        }
        let len = self.data.len();
        proof {
            lemma_pixel_in_data(self.width as int, self.height as int, x as int, y as int);
            assert(y * (self.width * 4) <= y * (self.width * 4) + x * 4);
        }
        let offset = (y as usize * self.row_stride()) + (x as usize * BYTES_PER_PIXEL);
        self.data.set(offset, pixel[0]);
        self.data.set(offset + 1, pixel[1]);
        self.data.set(offset + 2, pixel[2]);
        self.data.set(offset + 3, pixel[3]);
        assert(self.data@ =~= old(self).data@.subrange(0, offset as int) + pixel@
            + old(self).data@.subrange(offset + 4, old(self).data@.len() as int));
    }

    /// Straight (non-premultiplied) RGBA, the format `GdkPixbuf` and most
    /// image encoders speak.
    pub fn to_rgba(&self) -> (r: Option<Vec<u8>>)
        ensures
            match r {
                Some(v) => pixmap_valid(self@) && v@ == argb_to_rgba(self@.data),
                None => !pixmap_valid(self@),
            },
    {
        if !self.is_valid() {
            return None;
        }
        let n = self.data.len();
        assert(n % 4 == 0) by (nonlinear_arith)
            requires
                n == self.width * self.height * 4,
        ;
        let ghost target = argb_to_rgba(self@.data);
        let mut out: Vec<u8> = Vec::new();
        let mut i: usize = 0;
        while i < n
            invariant
                n == self.data@.len(),
                n % 4 == 0,
                i % 4 == 0,
                i <= n,
                target == argb_to_rgba(self@.data),
                out@ == target.take(i as int),
            decreases n - i,
        {
            out.push(self.data[i + 1]);
            out.push(self.data[i + 2]);
            out.push(self.data[i + 3]);
            out.push(self.data[i]);
            assert(out@ =~= target.take(i + 4));
            i += 4;
        }
        assert(target.take(n as int) =~= target);
        Some(out)
    }

    /// Build a pixmap from straight RGBA data. The inverse of [`Pixmap::to_rgba`].
    pub fn from_rgba(width: i32, height: i32, rgba: &[u8]) -> (r: Self)
        ensures
            r@ == (SpecPixmap { width, height, data: rgba_to_argb(rgba@) }),
    {
        let n = rgba.len();
        let whole = n / 4 * 4;
        let ghost target = rgba_to_argb(rgba@);
        let mut data: Vec<u8> = Vec::new();
        let mut i: usize = 0;
        while i < whole
            invariant
                n == rgba@.len(),
                whole == n / 4 * 4,
                i % 4 == 0,
                i <= whole,
                target == rgba_to_argb(rgba@),
                data@ == target.take(i as int),
            decreases whole - i,
        {
            data.push(rgba[i + 3]);
            data.push(rgba[i]);
            data.push(rgba[i + 1]);
            data.push(rgba[i + 2]);
            assert(data@ =~= target.take(i + 4));
            i += 4;
        }
        assert(target.take(whole as int) =~= target);
        Self::new(width, height, data)
    }
}

/// Converting a valid pixmap to RGBA and back gives it back.
pub proof fn lemma_rgba_round_trip(p: SpecPixmap)
    requires
        pixmap_valid(p),
    ensures
        rgba_to_argb(argb_to_rgba(p.data)) == p.data,
{
    let n = p.data.len();
    assert(n % 4 == 0) by (nonlinear_arith)
        requires
            n == p.width * p.height * 4,
    ;
    assert(rgba_to_argb(argb_to_rgba(p.data)) =~= p.data);
}

/// Converting RGBA data of whole pixels to packed ARGB and back gives it back.
pub proof fn lemma_argb_round_trip(d: Seq<u8>)
    requires
        d.len() % 4 == 0,
    ensures
        argb_to_rgba(rgba_to_argb(d)) == d,
{
    assert(argb_to_rgba(rgba_to_argb(d)) =~= d);
}

// ---------------------------------------------------------------------------
// Picking a pixmap

/// The size asked for, as the pixmaps' signed dimensions can express it.
pub open spec fn clamp_target(target: u32) -> int {
    if target > i32::MAX {
        i32::MAX as int
    } else {
        target as int
    }
}

/// A valid pixmap at least `t` pixels wide.
pub open spec fn fits(p: SpecPixmap, t: int) -> bool {
    pixmap_valid(p) && p.width >= t
}

/// `a` comes before `b` ordered by width, then height.
pub open spec fn smaller(a: SpecPixmap, b: SpecPixmap) -> bool {
    a.width < b.width || (a.width == b.width && a.height < b.height)
}

/// Some pixmap of `s` fits `t`.
pub open spec fn any_fits(s: Seq<SpecPixmap>, t: int) -> bool {
    exists|j: int| 0 <= j < s.len() && fits(#[trigger] s[j], t)
}

/// `i` is the pixmap that best fills `target` pixels: the first of the
/// smallest pixmaps that fit, or else the last of the largest valid ones.
pub open spec fn is_pick(s: Seq<SpecPixmap>, target: u32, i: int) -> bool {
    let t = clamp_target(target);
    &&& 0 <= i < s.len()
    &&& if any_fits(s, t) {
        &&& fits(s[i], t)
        &&& forall|j: int|
            0 <= j < s.len() && fits(#[trigger] s[j], t) ==> (j < i ==> smaller(s[i], s[j])) && (
            j > i ==> !smaller(s[j], s[i]))
    } else {
        &&& pixmap_valid(s[i])
        &&& forall|j: int|
            0 <= j < s.len() && pixmap_valid(#[trigger] s[j]) ==> (j < i ==> !smaller(
                s[i],
                s[j],
            )) && (j > i ==> smaller(s[j], s[i]))
    }
}

/// Some pixmap of `s` is valid.
pub open spec fn any_valid(s: Seq<SpecPixmap>) -> bool {
    exists|j: int| 0 <= j < s.len() && pixmap_valid(#[trigger] s[j])
}

/// The pixmap of `s` that best fills `target` pixels, if any is usable.
pub open spec fn best_pick(s: Seq<SpecPixmap>, target: u32) -> Option<SpecPixmap> {
    if exists|i: int| is_pick(s, target, i) {
        Some(s[choose|i: int| is_pick(s, target, i)])
    } else {
        None
    }
}

/// The best pixmap is one pixmap: no two positions are both the pick.
pub proof fn lemma_pick_unique(s: Seq<SpecPixmap>, target: u32, i: int, k: int)
    requires
        is_pick(s, target, i),
        is_pick(s, target, k),
    ensures
        i == k,
{
    let t = clamp_target(target);
    if i < k {
        if any_fits(s, t) {
            assert(fits(s[k], t));
        } else {
            assert(pixmap_valid(s[k]));
        }
    } else if k < i {
        if any_fits(s, t) {
            assert(fits(s[i], t));
        } else {
            assert(pixmap_valid(s[i]));
        }
    }
}

fn is_smaller(a: &Pixmap, b: &Pixmap) -> (r: bool)
    ensures
        r == smaller(a@, b@),
{
    a.width < b.width || (a.width == b.width && a.height < b.height)
}

/// Pick the pixmap that best fills `target` pixels: the smallest one that is
/// at least `target` wide, so upscaling is only done when nothing large
/// enough was provided. Invalid entries are ignored; ties are broken by
/// height. Falls back to the largest available image.
pub fn pick_best(pixmaps: &[Pixmap], target: u32) -> (r: Option<&Pixmap>)
    ensures
        match r {
            None => !any_valid(pixmaps.deep_view()) && best_pick(pixmaps.deep_view(), target)
                is None,
            Some(p) => best_pick(pixmaps.deep_view(), target) == Some(p@),
        },
{
    let t: i32 = if target > i32::MAX as u32 {
        i32::MAX
    } else {
        target as i32
    };
    let ghost s = pixmaps.deep_view();
    let mut best_fit: Option<usize> = None;
    let mut largest: Option<usize> = None;
    let mut i: usize = 0;
    while i < pixmaps.len()
        invariant
            s == pixmaps.deep_view(),
            t == clamp_target(target),
            i <= s.len(),
            match best_fit {
                None => forall|j: int| 0 <= j < i ==> !fits(#[trigger] s[j], t as int),
                Some(b) => b < i && fits(s[b as int], t as int) && forall|j: int|
                    0 <= j < i && fits(#[trigger] s[j], t as int) ==> (j < b ==> smaller(
                        s[b as int],
                        s[j],
                    )) && (j > b ==> !smaller(s[j], s[b as int])),
            },
            match largest {
                None => forall|j: int| 0 <= j < i ==> !pixmap_valid(#[trigger] s[j]),
                Some(b) => b < i && pixmap_valid(s[b as int]) && forall|j: int|
                    0 <= j < i && pixmap_valid(#[trigger] s[j]) ==> (j < b ==> !smaller(
                        s[b as int],
                        s[j],
                    )) && (j > b ==> smaller(s[j], s[b as int])),
            },
        decreases s.len() - i,
    {
        let p = &pixmaps[i];
        assert(s[i as int] == p@);
        if p.is_valid() {
            if p.width >= t {
                match best_fit {
                    None => {
                        best_fit = Some(i);
                    },
                    Some(b) => {
                        if is_smaller(p, &pixmaps[b]) {
                            best_fit = Some(i);
                        }
                    },
                }
            }
            match largest {
                None => {
                    largest = Some(i);
                },
                Some(b) => {
                    if !is_smaller(p, &pixmaps[b]) {
                        largest = Some(i);
                    }
                },
            }
        }
        i += 1;
    }
    match best_fit {
        Some(b) => {
            assert(is_pick(s, target, b as int));
            proof {
                lemma_pick_unique(s, target, b as int, choose|k: int| is_pick(s, target, k));
            }
            assert(s[b as int] == pixmaps@[b as int]@);
            Some(&pixmaps[b])
        },
        None => match largest {
            Some(b) => {
                assert(!any_fits(s, t as int));
                assert(is_pick(s, target, b as int));
                proof {
                    lemma_pick_unique(s, target, b as int, choose|k: int| is_pick(s, target, k));
                }
                assert(s[b as int] == pixmaps@[b as int]@);
                Some(&pixmaps[b])
            },
            None => {
                proof {
                    if exists|k: int| is_pick(s, target, k) {
                        let k = choose|k: int| is_pick(s, target, k);
                        assert(pixmap_valid(s[k]));
                    }
                }
                None
            },
        },
    }
}

// ---------------------------------------------------------------------------
// Blending

/// One colour channel of `src` blended over `dst`, where `s` and `d` are the
/// two alphas: the straight-alpha "over" operator, rounded to the nearest
/// integer with halves rounded up.
pub open spec fn blend_channel(cs: u8, cd: u8, s: int, d: int) -> u8 {
    let m = 255 * s + d * (255 - s);
    ((2 * (255 * cs * s + cd * d * (255 - s)) + m) / (2 * m)) as u8
}

/// `src` drawn over `dst`, both straight (non-premultiplied) ARGB pixels. A
/// fully transparent source leaves the destination as it is.
pub open spec fn blend(dst: Seq<u8>, src: Seq<u8>) -> Seq<u8> {
    let s = src[0] as int;
    let d = dst[0] as int;
    if s == 0 {
        dst
    } else {
        let m = 255 * s + d * (255 - s);
        seq![
            ((2 * m + 255) / 510) as u8,
            blend_channel(src[1], dst[1], s, d),
            blend_channel(src[2], dst[2], s, d),
            blend_channel(src[3], dst[3], s, d),
        ]
    }
}

fn channel(cs: u8, cd: u8, s: u32, d: u32, m: u32) -> (r: u8)
    requires
        0 < s <= 255,
        d <= 255,
        m == 255 * s + d * (255 - s),
    ensures
        r == blend_channel(cs, cd, s as int, d as int),
{
    let cs = cs as u32;
    let cd = cd as u32;
    assert(255 * cs * s <= 255 * 255 * s) by (nonlinear_arith)
        requires
            cs <= 255,
    ;
    assert(cd * d * (255 - s) <= 255 * 255 * (255 - s)) by (nonlinear_arith)
        requires
            cd <= 255,
            d <= 255,
            s <= 255,
    ;
    assert(0 < m <= 65025) by (nonlinear_arith)
        requires
            0 < s <= 255,
            d <= 255,
            m == 255 * s + d * (255 - s),
    ;
    assert(cd * d <= 65025) by (nonlinear_arith)
        requires
            cd <= 255,
            d <= 255,
    ;
    assert(255 * cs <= 65025);
    assert(255 * cs * s <= 16581375) by (nonlinear_arith)
        requires
            255 * cs <= 65025,
            s <= 255,
    ;
    assert(cd * d * (255 - s) <= 16581375) by (nonlinear_arith)
        requires
            cd * d <= 65025,
            s <= 255,
    ;
    let n = 255 * cs * s + cd * d * (255 - s);
    ((2 * n + m) / (2 * m)) as u8
}

/// Alpha-blend `src` over `dst` in place. Both use straight (non-premultiplied)
/// ARGB, which is why the result alpha has to be divided back out.
pub fn blend_over(dst: &mut [u8; 4], src: [u8; 4])
    ensures
        final(dst)@ == blend(old(dst)@, src@),
{
    let s = src[0] as u32;
    if s == 0 {
        return;
    }
    let d = dst[0] as u32;
    assert(d * (255 - s) <= 255 * 255) by (nonlinear_arith)
        requires
            d <= 255,
            s <= 255,
    ;
    let m = 255 * s + d * (255 - s);
    let r = channel(src[1], dst[1], s, d, m);
    let g = channel(src[2], dst[2], s, d, m);
    let b = channel(src[3], dst[3], s, d, m);
    let a = ((2 * m + 255) / 510) as u8;
    *dst = [a, r, g, b];
    assert(final(dst)@ =~= blend(old(dst)@, src@));
}

/// An opaque source replaces the destination pixel.
pub proof fn lemma_blend_opaque_source(dst: Seq<u8>, src: Seq<u8>)
    requires
        dst.len() == 4,
        src.len() == 4,
        src[0] == 255,
    ensures
        blend(dst, src) == src,
{
    let m: int = 65025;
    assert(255 * 255 + dst[0] * (255 - 255) == m);
    assert forall|k: int| 1 <= k < 4 implies #[trigger] blend_channel(src[k], dst[k], 255, dst[0] as int)
        == src[k] by {
        let c = src[k] as int;
        assert(2 * (255 * c * 255 + dst[k] * dst[0] * (255 - 255)) + m == c * (2 * m) + m) by (nonlinear_arith)
            requires
                m == 65025,
        ;
        lemma_fundamental_div_mod_converse(c * (2 * m) + m, 2 * m, c, m);
    }
    assert(blend(dst, src) =~= src);
}

/// Blending over an opaque destination keeps it opaque.
pub proof fn lemma_blend_keeps_opaque(dst: Seq<u8>, src: Seq<u8>)
    requires
        dst.len() == 4,
        src.len() == 4,
        dst[0] == 255,
    ensures
        blend(dst, src)[0] == 255,
{
    let s = src[0] as int;
    assert(255 * s + 255 * (255 - s) == 65025);
}

// ---------------------------------------------------------------------------
// Scaling and compositing

/// Byte `i` of `p` rescaled to `w` x `h` by nearest-neighbour sampling.
pub open spec fn scaled_byte(p: SpecPixmap, w: int, h: int, i: int) -> u8 {
    let pix = i / 4;
    p.data[offset(p, (pix % w) * p.width / w, (pix / w) * p.height / h) + i % 4]
}

/// `scale_nearest` of a pixmap: empty for a size that is not positive,
/// transparent black for a broken pixmap, and otherwise every target pixel
/// taken from the source pixel it falls on.
pub open spec fn scaled(p: SpecPixmap, w: i32, h: i32) -> SpecPixmap {
    if w <= 0 || h <= 0 {
        empty_pixmap()
    } else if !pixmap_valid(p) {
        SpecPixmap { width: w, height: h, data: Seq::new((w * h * 4) as nat, |i: int| 0u8) }
    } else if p.width == w && p.height == h {
        p
    } else {
        SpecPixmap {
            width: w,
            height: h,
            data: Seq::new((w * h * 4) as nat, |i: int| scaled_byte(p, w as int, h as int, i)),
        }
    }
}

/// The overlay as it is drawn: unchanged when it fits inside the base,
/// otherwise rescaled to the base's size.
pub open spec fn fitted(base: SpecPixmap, overlay: SpecPixmap) -> SpecPixmap {
    if overlay.width <= base.width && overlay.height <= base.height {
        overlay
    } else {
        scaled(overlay, base.width, base.height)
    }
}

/// Where the fitted overlay starts horizontally: centred when it fits.
pub open spec fn fit_x(base: SpecPixmap, overlay: SpecPixmap) -> int {
    if overlay.width <= base.width && overlay.height <= base.height {
        (base.width - overlay.width) / 2
    } else {
        0
    }
}

/// Where the fitted overlay starts vertically: centred when it fits.
pub open spec fn fit_y(base: SpecPixmap, overlay: SpecPixmap) -> int {
    if overlay.width <= base.width && overlay.height <= base.height {
        (base.height - overlay.height) / 2
    } else {
        0
    }
}

/// The composited pixel at (`x`, `y`) of the base.
pub open spec fn composite_pixel(base: SpecPixmap, overlay: SpecPixmap, x: int, y: int) -> Seq<
    u8,
> {
    let f = fitted(base, overlay);
    let fx = x - fit_x(base, overlay);
    let fy = y - fit_y(base, overlay);
    if in_bounds(f, fx, fy) {
        blend(pixel_at(base, x, y).unwrap(), pixel_at(f, fx, fy).unwrap())
    } else {
        pixel_at(base, x, y).unwrap()
    }
}

/// `composite` of two pixmaps: the overlay drawn over the base, or whichever
/// of the two is usable when the other is broken.
pub open spec fn composited(base: SpecPixmap, overlay: SpecPixmap) -> SpecPixmap {
    if !pixmap_valid(base) {
        overlay
    } else if !pixmap_valid(overlay) {
        base
    } else {
        SpecPixmap {
            width: base.width,
            height: base.height,
            data: Seq::new(
                base.data.len(),
                |i: int| composite_pixel(base, overlay, (i / 4) % (base.width as int), (i / 4) / (base.width as int))[i
                    % 4],
            ),
        }
    }
}

pub(crate) proof fn lemma_pixel_index(w: int, x: int, y: int, k: int)
    requires
        0 <= x < w,
        0 <= y,
        0 <= k < 4,
    ensures
        ((y * w + x) * 4 + k) / 4 == y * w + x,
        ((y * w + x) * 4 + k) % 4 == k,
        (y * w + x) % w == x,
        (y * w + x) / w == y,
{
    assert(0 <= y * w) by (nonlinear_arith)
        requires
            0 <= y,
            0 <= w,
    ;
    lemma_fundamental_div_mod_converse((y * w + x) * 4 + k, 4, y * w + x, k);
    lemma_fundamental_div_mod_converse(y * w + x, w, y, x);
}

proof fn lemma_scale_coord(x: int, source: int, target: int)
    requires
        0 <= x < target,
        0 < source,
    ensures
        0 <= x * source / target < source,
{
    let q = x * source / target;
    let r = x * source % target;
    assert(0 <= x * source) by (nonlinear_arith)
        requires
            0 <= x,
            0 < source,
    ;
    vstd::arithmetic::div_mod::lemma_fundamental_div_mod(x * source, target);
    assert(x * source == target * q + r);
    assert(0 <= r < target) by {
        vstd::arithmetic::div_mod::lemma_mod_bound(x * source, target);
    }
    assert(0 <= q < source) by (nonlinear_arith)
        requires
            x * source == target * q + r,
            0 <= r < target,
            0 <= x < target,
            0 < source,
            0 <= x * source,
    ;
}

/// Rescaling a valid pixmap to a positive size gives a valid pixmap of that
/// size in which every pixel (`x`, `y`) is the source pixel it falls on,
/// (`x * width / w`, `y * height / h`): nothing is mirrored or shifted.
pub proof fn lemma_scaled_pixels(p: SpecPixmap, w: i32, h: i32, x: int, y: int)
    requires
        pixmap_valid(p),
        w > 0,
        h > 0,
        0 <= x < w,
        0 <= y < h,
    ensures
        scaled(p, w, h).width == w,
        scaled(p, w, h).height == h,
        pixmap_valid(scaled(p, w, h)),
        pixel_at(scaled(p, w, h), x, y) == pixel_at(p, x * p.width / (w as int), y * p.height / (h as int)),
{
    let q = scaled(p, w, h);
    let sx = x * p.width / (w as int);
    let sy = y * p.height / (h as int);
    lemma_scale_coord(x, p.width as int, w as int);
    lemma_scale_coord(y, p.height as int, h as int);
    assert(0 <= w * h * 4) by (nonlinear_arith)
        requires
            w > 0,
            h > 0,
    ;
    assert(pixmap_valid(q));
    lemma_pixel_in_data(w as int, h as int, x, y);
    lemma_pixel_in_data(p.width as int, p.height as int, sx, sy);
    if p.width == w && p.height == h {
        assert(x * p.width / (w as int) == x) by {
            lemma_fundamental_div_mod_converse(x * p.width, w as int, x, 0);
        }
        assert(y * p.height / (h as int) == y) by {
            lemma_fundamental_div_mod_converse(y * p.height, h as int, y, 0);
        }
    } else {
        let o = offset(q, x, y);
        assert(pixel_at(q, x, y) == Some(q.data.subrange(o, o + 4)));
        assert(pixel_at(p, sx, sy) == Some(p.data.subrange(offset(p, sx, sy), offset(p, sx, sy) + 4)));
        assert forall|k: int| 0 <= k < 4 implies #[trigger] q.data.subrange(o, o + 4)[k] == p.data.subrange(
            offset(p, sx, sy),
            offset(p, sx, sy) + 4,
        )[k] by {
            lemma_pixel_index(w as int, x, y, k);
            assert(o + k == (y * w + x) * 4 + k);
            assert(q.data[o + k] == scaled_byte(p, w as int, h as int, o + k));
        }
        assert(q.data.subrange(o, o + 4) =~= p.data.subrange(offset(p, sx, sy), offset(p, sx, sy) + 4));
    }
}

fn zeros(n: usize) -> (v: Vec<u8>)
    ensures
        v@ == Seq::new(n as nat, |i: int| 0u8),
{
    let mut v: Vec<u8> = Vec::new();
    let mut i: usize = 0;
    while i < n
        invariant
            i <= n,
            v@ == Seq::new(i as nat, |j: int| 0u8),
        decreases n - i,
    {
        v.push(0);
        assert(v@ =~= Seq::new((i + 1) as nat, |j: int| 0u8));
        i += 1;
    }
    v
}

/// Nearest-neighbour rescale. Icons are tiny and usually only ever scaled by
/// an integer factor, so this is both enough and cheap enough to run on every
/// update.
pub fn scale_nearest(pixmap: &Pixmap, width: i32, height: i32) -> (r: Pixmap)
    requires
        width > 0 && height > 0 ==> width * height * 4 <= usize::MAX,
    ensures
        r@ == scaled(pixmap@, width, height),
{
    if width <= 0 || height <= 0 {
        return Pixmap::default();
    }
    let w = width as usize;
    let h = height as usize;
    assert(w * h * 4 <= usize::MAX);
    assert(w * h <= w * h * 4);
    let n = w * h * 4;
    if !pixmap.is_valid() {
        return Pixmap::new(width, height, zeros(n));
    }
    if pixmap.width == width && pixmap.height == height {
        return pixmap.clone();
    }
    let ghost p = pixmap@;
    let ghost target = Seq::new((width * height * 4) as nat, |i: int| scaled_byte(p, w as int, h as int, i));
    let mut data: Vec<u8> = Vec::new();
    let mut y: i32 = 0;
    while y < height
        invariant
            p == pixmap@,
            pixmap_valid(p),
            w == width,
            h == height,
            0 < width,
            0 < height,
            0 <= y <= height,
            target == Seq::new((width * height * 4) as nat, |i: int| scaled_byte(p, w as int, h as int, i)),
            data@ == target.take(y * width * 4),
            width * height * 4 <= usize::MAX,
        decreases height - y,
    {
        proof {
            lemma_scale_coord(y as int, p.height as int, height as int);
        }
        assert((y as u64) * (pixmap.height as u64) < 0x4000_0000_0000_0000) by (nonlinear_arith)
            requires
                0 <= y < 0x8000_0000,
                0 <= pixmap.height < 0x8000_0000,
        ;
        let sy = (y as u64 * pixmap.height as u64 / height as u64) as i32;
        let mut x: i32 = 0;
        while x < width
            invariant
                p == pixmap@,
                pixmap_valid(p),
                w == width,
                h == height,
                0 < width,
                0 < height,
                0 <= y < height,
                0 <= x <= width,
                sy == y * p.height / (height as int),
                0 <= sy < p.height,
                target == Seq::new((width * height * 4) as nat, |i: int| scaled_byte(p, w as int, h as int, i)),
                data@ == target.take((y * width + x) * 4),
                width * height * 4 <= usize::MAX,
            decreases width - x,
        {
            proof {
                lemma_scale_coord(x as int, p.width as int, width as int);
            }
            assert((x as u64) * (pixmap.width as u64) < 0x4000_0000_0000_0000) by (nonlinear_arith)
                requires
                    0 <= x < 0x8000_0000,
                    0 <= pixmap.width < 0x8000_0000,
            ;
            let sx = (x as u64 * pixmap.width as u64 / width as u64) as i32;
            assert(sx == x * p.width / (width as int));
            let px = pixmap.pixel(sx, sy);
            let px = match px {
                Some(px) => px,
                None => {
                    assert(false);
                    [0, 0, 0, 0]
                },
            };
            let ghost before = data@;
            data.push(px[0]);
            data.push(px[1]);
            data.push(px[2]);
            data.push(px[3]);
            proof {
                let pix = y * width + x;
                assert((y * width + x + 1) * 4 <= width * height * 4) by (nonlinear_arith)
                    requires
                        0 <= x < width,
                        0 <= y < height,
                ;
                assert forall|j: int| pix * 4 <= j < pix * 4 + 4 implies #[trigger] target[j] == px@[j
                    - pix * 4] by {
                    let k = j - pix * 4;
                    lemma_pixel_index(width as int, x as int, y as int, k);
                    lemma_pixel_in_data(p.width as int, p.height as int, sx as int, sy as int);
                    assert(j / 4 == pix && j % 4 == k);
                    assert(pix % (w as int) == x && pix / (w as int) == y);
                    assert(target[j] == scaled_byte(p, w as int, h as int, j));
                    assert(scaled_byte(p, w as int, h as int, j) == p.data[offset(p, sx as int, sy as int) + k]);
                    assert(px@ == p.data.subrange(offset(p, sx as int, sy as int), offset(p, sx as int, sy as int) + 4));
                }
                assert(data@ =~= target.take((y * width + x + 1) * 4));
            }
            x += 1;
        }
        assert((y * width + width) * 4 == (y + 1) * width * 4) by (nonlinear_arith);
        y += 1;
    }
    assert(target.take(height * width * 4) =~= target) by {
        assert(height * width * 4 == width * height * 4) by (nonlinear_arith);
    }
    Pixmap::new(width, height, data)
}

/// Draw `overlay` on top of `base`, centred when it is the smaller of the two
/// and rescaled when it is bigger. Used for the overlay icons of the
/// StatusNotifierItem spec (unread counters, status badges).
pub fn composite(base: &Pixmap, overlay: &Pixmap) -> (r: Pixmap)
    ensures
        r@ == composited(base@, overlay@),
{
    if !base.is_valid() {
        return overlay.clone();
    }
    if !overlay.is_valid() {
        return base.clone();
    }
    let ghost b = base@;
    let ghost o = overlay@;
    let bw = base.width;
    let bh = base.height;
    let len = base.data.len();
    let (fit, offset_x, offset_y) = if overlay.width <= bw && overlay.height <= bh {
        (overlay.clone(), (bw - overlay.width) / 2, (bh - overlay.height) / 2)
    } else {
        (scale_nearest(overlay, bw, bh), 0, 0)
    };
    let ghost f = fit@;
    assert(f == fitted(b, o));
    assert(offset_x == fit_x(b, o) && offset_y == fit_y(b, o));
    assert(pixmap_valid(f));
    let ghost target = Seq::new(
        b.data.len(),
        |i: int| composite_pixel(b, o, (i / 4) % (b.width as int), (i / 4) / (b.width as int))[i % 4],
    );
    let mut data: Vec<u8> = Vec::new();
    let mut y: i32 = 0;
    while y < bh
        invariant
            b == base@,
            o == overlay@,
            f == fit@,
            f == fitted(b, o),
            pixmap_valid(b),
            pixmap_valid(o),
            pixmap_valid(f),
            offset_x == fit_x(b, o),
            offset_y == fit_y(b, o),
            0 <= offset_x <= bw,
            0 <= offset_y <= bh,
            bw == b.width,
            bh == b.height,
            len == b.data.len(),
            0 <= y <= bh,
            target == Seq::new(
                b.data.len(),
                |i: int| composite_pixel(b, o, (i / 4) % (b.width as int), (i / 4) / (b.width as int))[i % 4],
            ),
            data@ == target.take(y * bw * 4),
        decreases bh - y,
    {
        let mut x: i32 = 0;
        while x < bw
            invariant
                b == base@,
                o == overlay@,
                f == fit@,
                f == fitted(b, o),
                pixmap_valid(b),
                pixmap_valid(o),
                pixmap_valid(f),
                offset_x == fit_x(b, o),
                offset_y == fit_y(b, o),
                0 <= offset_x <= bw,
                0 <= offset_y <= bh,
                bw == b.width,
                bh == b.height,
                len == b.data.len(),
                0 <= y < bh,
                0 <= x <= bw,
                target == Seq::new(
                    b.data.len(),
                    |i: int| composite_pixel(b, o, (i / 4) % (b.width as int), (i / 4) / (b.width as int))[i % 4],
                ),
                data@ == target.take((y * bw + x) * 4),
            decreases bw - x,
        {
            let dst = match base.pixel(x, y) {
                Some(px) => px,
                None => {
                    assert(false);
                    [0, 0, 0, 0]
                },
            };
            let fx = x - offset_x;
            let fy = y - offset_y;
            let mut out = dst;
            if 0 <= fx && fx < fit.width && 0 <= fy && fy < fit.height {
                let src = match fit.pixel(fx, fy) {
                    Some(px) => px,
                    None => {
                        assert(false);
                        [0, 0, 0, 0]
                    },
                };
                blend_over(&mut out, src);
            }
            let ghost expected = composite_pixel(b, o, x as int, y as int);
            assert(out@ == expected);
            let ghost before = data@;
            data.push(out[0]);
            data.push(out[1]);
            data.push(out[2]);
            data.push(out[3]);
            proof {
                let pix = y * bw + x;
                lemma_pixel_in_data(bw as int, bh as int, x as int, y as int);
                assert((y * bw + x + 1) * 4 <= bw * bh * 4) by (nonlinear_arith)
                    requires
                        0 <= x < bw,
                        0 <= y < bh,
                ;
                assert(before.len() == (y * bw + x) * 4);
                assert(data@ == before + out@);
                assert forall|j: int| pix * 4 <= j < pix * 4 + 4 implies #[trigger] target[j] == out@[j
                    - pix * 4] by {
                    lemma_pixel_index(bw as int, x as int, y as int, j - pix * 4);
                }
                assert(data@ =~= target.take((y * bw + x + 1) * 4));
            }
            x += 1;
        }
        assert((y * bw + bw) * 4 == (y + 1) * bw * 4) by (nonlinear_arith);
        y += 1;
    }
    assert(target.take(bh * bw * 4) =~= target) by {
        assert(bh * bw * 4 == bw * bh * 4) by (nonlinear_arith);
    }
    Pixmap::new(bw, bh, data)
}

// ---------------------------------------------------------------------------
// PNG

/// The bytes the png crate's encoder writes for a `width` x `height` image of
/// 8-bit straight RGBA pixels, or `None` when it refuses the image.
pub uninterp spec fn png_encoding(width: u32, height: u32, rgba: Seq<u8>) -> Option<Seq<u8>>;

/// What the png crate's decoder reads from `png`: the image's width, height
/// and the pixel bytes of its first frame, or `None` when it cannot read it.
pub uninterp spec fn png_decoding(png: Seq<u8>) -> Option<(u32, u32, Seq<u8>)>;

/// The widest row, in bytes, for which the round trip through the png crate
/// is stated: half the decoder's default allocation limit of 64 MiB, which
/// the decoder charges with one output row and the header chunk (the pixel
/// data itself goes into the caller's buffer and is not charged).
pub const PNG_ROW_LIMIT: usize = 33554432;

/// Encodes 8-bit RGBA pixels with `png::Encoder` (colour type `Rgba`, depth
/// `Eight`, `write_header` then `write_image_data`), into a `Vec`. The buffer
/// must hold exactly `width * height` pixels: `write_image_data` multiplies
/// the row length by the height unchecked. The contract names the bytes:
/// `png_encoding` of the arguments. It claims what the source shows: the
/// encoder refuses only a zero width or height (`Writer::init`; writing into
/// a `Vec` cannot fail and the buffer size matches), and, as the crate's own
/// round-trip tests show, `png::Decoder` with its default identity
/// transformation reads the same size and the same bytes back when a row
/// stays within [`PNG_ROW_LIMIT`].
#[verifier::external_body]
fn encode_png(width: u32, height: u32, rgba: &[u8]) -> (r: Option<Vec<u8>>)
    requires
        rgba@.len() == width * height * 4,
    ensures
        match r {
            Some(bytes) => png_encoding(width, height, rgba@) == Some(bytes@),
            None => png_encoding(width, height, rgba@) is None,
        },
        r is Some <==> (0 < width && 0 < height),
        r is Some && width * 4 <= PNG_ROW_LIMIT ==> png_decoding(r->0@) == Some(
            (width, height, rgba@),
        ),
{
    let mut png = Vec::new();
    {
        let mut encoder = png::Encoder::new(&mut png, width, height);
        encoder.set_color(png::ColorType::Rgba);
        encoder.set_depth(png::BitDepth::Eight);
        let mut writer = encoder.write_header().ok()?;
        writer.write_image_data(rgba).ok()?;
    }
    Some(png)
}

/// Decodes a PNG with `png::Decoder` (`read_info`, then `next_frame` into a
/// buffer of `output_buffer_size` bytes, cut to the frame's `buffer_size`).
/// The contract only names the result: `png_decoding` of the bytes, `None`
/// when the decoder returns an error.
#[verifier::external_body]
fn decode_png(png: &[u8]) -> (r: Option<(u32, u32, Vec<u8>)>)
    ensures
        match r {
            Some((w, h, pixels)) => png_decoding(png@) == Some((w, h, pixels@)),
            None => png_decoding(png@) is None,
        },
{
    let decoder = png::Decoder::new(std::io::Cursor::new(png));
    let mut reader = decoder.read_info().ok()?;
    let mut rgba = vec![0; reader.output_buffer_size()];
    let info = reader.next_frame(&mut rgba).ok()?;
    rgba.truncate(info.buffer_size());
    Some((info.width, info.height, rgba))
}

/// Encode a pixmap as a PNG image.
///
/// This is the only form icons leave the daemon in: a PNG is a
/// self-describing image that gdk-pixbuf and GDK both decode in managed code.
pub fn to_png(pixmap: &Pixmap) -> (r: Option<Vec<u8>>)
    ensures
        !pixmap_valid(pixmap@) ==> r is None,
        pixmap_valid(pixmap@) ==> r is Some && png_encoding(
            pixmap.width as u32,
            pixmap.height as u32,
            argb_to_rgba(pixmap@.data),
        ) == Some(r->0@),
        pixmap_valid(pixmap@) && pixmap@.width * 4 <= PNG_ROW_LIMIT ==> png_read(r->0@) == Some(
            pixmap@,
        ),
{
    match pixmap.to_rgba() {
        None => None,
        Some(rgba) => {
            let ghost p = pixmap@;
            assert((p.width as u32) * (p.height as u32) * 4 == p.width * p.height * 4);
            let r = encode_png(pixmap.width as u32, pixmap.height as u32, rgba.as_slice());
            proof {
                if p.width * 4 <= PNG_ROW_LIMIT {
                    lemma_rgba_round_trip(p);
                    assert(png_read(r->0@) == Some(p));
                }
            }
            r
        },
    }
}

/// The picture a PNG holds, as [`from_png`] reads it.
pub open spec fn png_read(png: Seq<u8>) -> Option<SpecPixmap> {
    match png_decoding(png) {
        Some((w, h, pixels)) => Some(
            SpecPixmap { width: w as i32, height: h as i32, data: rgba_to_argb(pixels) },
        ),
        None => None,
    }
}

/// Decode a PNG image back into a pixmap.
pub fn from_png(png: &[u8]) -> (r: Option<Pixmap>)
    ensures
        match png_read(png@) {
            Some(p) => r is Some && r->0@ == p,
            None => r is None,
        },
{
    match decode_png(png) {
        None => None,
        Some((width, height, rgba)) => Some(
            Pixmap::from_rgba(width as i32, height as i32, rgba.as_slice()),
        ),
    }
}

} // verus!
