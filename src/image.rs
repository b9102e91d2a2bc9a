use vstd::prelude::*;

verus! {

/// An 8-bit RGB color.
#[derive(Clone, Copy, PartialEq, Eq, Structural, Debug)]
pub struct Color(pub u8, pub u8, pub u8);

/// The tint of channel `a` by channel `b`.
pub open spec fn tint(a: u8, b: u8) -> int {
    a as int * b as int / 255
}

impl Color {
    /// Full white.
    pub fn white() -> (r: Color)
        ensures
            r == Color(255, 255, 255),
    {
        Color(255, 255, 255)
    }

    /// Pure blue.
    pub fn blue() -> (r: Color)
        ensures
            r == Color(0, 0, 255),
    {
        Color(0, 0, 255)
    }

    /// Pure red.
    pub fn red() -> (r: Color)
        ensures
            r == Color(255, 0, 0),
    {
        Color(255, 0, 0)
    }

    /// Pure green.
    pub fn green() -> (r: Color)
        ensures
            r == Color(0, 255, 0),
    {
        Color(0, 255, 0)
    }

    /// Tints `self` by `other`: each channel becomes the product of the two
    /// channels divided by 255.
    pub fn multiply(self, other: &Color) -> (r: Color)
        ensures
            r.0 == tint(self.0, other.0),
            r.1 == tint(self.1, other.1),
            r.2 == tint(self.2, other.2),
    {
        Color(mul_channel(self.0, other.0), mul_channel(self.1, other.1), mul_channel(self.2, other.2))
    }
}

fn mul_channel(a: u8, b: u8) -> (r: u8)
    ensures
        r == tint(a, b),
{
    proof {
        assert(0 <= a as int * b as int <= 255 * 255) by (nonlinear_arith)
            requires
                0 <= a <= 255,
                0 <= b <= 255,
        ;
        assert(a as int * b as int / 255 <= 255) by (nonlinear_arith)
            requires
                0 <= a as int * b as int <= 255 * 255,
        ;
    }
    (a as u32 * b as u32 / 255) as u8
}

/// The abstract content of an image: its size, and for each pixel a color and
/// a depth, in storage order.
pub struct CanvasView {
    pub width: nat,
    pub height: nat,
    pub colors: Seq<Color>,
    pub depths: Seq<int>,
}

impl CanvasView {
    pub open spec fn well_formed(self) -> bool {
        &&& self.colors.len() == self.width * self.height
        &&& self.depths.len() == self.width * self.height
    }

    pub open spec fn in_bounds(self, x: int, y: int) -> bool {
        0 <= x < self.width && 0 <= y < self.height
    }

    /// Storage position of pixel `(x, y)`: rows are stored from the top, so
    /// row 0 of the image is the last stored row.
    pub open spec fn index(self, x: int, y: int) -> int {
        (self.height - y - 1) * self.width + x
    }

    pub open spec fn pixel(self, x: int, y: int) -> Color {
        self.colors[self.index(x, y)]
    }

    pub open spec fn depth(self, x: int, y: int) -> int {
        self.depths[self.index(x, y)]
    }

    /// The canvas after an unconditional write; writes outside are dropped.
    pub open spec fn put(self, x: int, y: int, c: Color) -> CanvasView {
        if self.in_bounds(x, y) {
            CanvasView {
                width: self.width,
                height: self.height,
                colors: self.colors.update(self.index(x, y), c),
                depths: self.depths,
            }
        } else {
            self
        }
    }

    /// The canvas after a depth-tested write: the pixel takes `c` and `d` only
    /// when `d` is strictly greater than its stored depth.
    pub open spec fn put_with_depth(self, x: int, y: int, c: Color, d: int) -> CanvasView {
        if self.in_bounds(x, y) && self.depth(x, y) < d {
            CanvasView {
                width: self.width,
                height: self.height,
                colors: self.colors.update(self.index(x, y), c),
                depths: self.depths.update(self.index(x, y), d),
            }
        } else {
            self
        }
    }

    /// A fresh canvas: every pixel black, every depth the least `isize`.
    pub open spec fn blank(width: nat, height: nat) -> CanvasView {
        CanvasView {
            width,
            height,
            colors: Seq::new(width * height, |i: int| Color(0, 0, 0)),
            depths: Seq::new((width * height) as nat, |i: int| isize::MIN as int),
        }
    }
}

/// Storage positions of in-bounds pixels lie inside the buffer.
pub proof fn lemma_index_in_range(w: int, h: int, x: int, y: int)
    requires
        0 <= x < w,
        0 <= y < h,
    ensures
        0 <= (h - y - 1) * w,
        (h - y - 1) * w + x < w * h,
{
    assert(0 <= (h - y - 1) * w && (h - y - 1) * w + x < w * h) by (nonlinear_arith)
        requires
            0 <= x < w,
            0 <= y < h,
    ;
}

/// Distinct in-bounds pixels have distinct storage positions.
pub proof fn lemma_index_injective(v: CanvasView, x1: int, y1: int, x2: int, y2: int)
    requires
        v.in_bounds(x1, y1),
        v.in_bounds(x2, y2),
        v.index(x1, y1) == v.index(x2, y2),
    ensures
        x1 == x2,
        y1 == y2,
{
    let w = v.width as int;
    let a1 = v.height - y1 - 1;
    let a2 = v.height - y2 - 1;
    assert(a1 == a2) by (nonlinear_arith)
        requires
            a1 * w + x1 == a2 * w + x2,
            0 <= x1 < w,
            0 <= x2 < w,
    ;
}

/// A depth-tested write touches only the pixel it targets.
pub proof fn lemma_put_with_depth_at(v: CanvasView, x: int, y: int, c: Color, d: int, px: int, py: int)
    requires
        v.well_formed(),
        v.in_bounds(px, py),
    ensures
        v.put_with_depth(x, y, c, d).well_formed(),
        v.put_with_depth(x, y, c, d).width == v.width,
        v.put_with_depth(x, y, c, d).height == v.height,
        v.put_with_depth(x, y, c, d).pixel(px, py) == (if px == x && py == y && v.depth(x, y) < d {
            c
        } else {
            v.pixel(px, py)
        }),
        v.put_with_depth(x, y, c, d).depth(px, py) == (if px == x && py == y && v.depth(x, y) < d {
            d
        } else {
            v.depth(px, py)
        }),
{
    lemma_index_in_range(v.width as int, v.height as int, px, py);
    if v.in_bounds(x, y) {
        lemma_index_in_range(v.width as int, v.height as int, x, y);
        if v.index(x, y) == v.index(px, py) {
            lemma_index_injective(v, x, y, px, py);
        }
    }
}

/// An unconditional write touches only the pixel it targets.
pub proof fn lemma_put_at(v: CanvasView, x: int, y: int, c: Color, px: int, py: int)
    requires
        v.well_formed(),
        v.in_bounds(px, py),
    ensures
        v.put(x, y, c).well_formed(),
        v.put(x, y, c).width == v.width,
        v.put(x, y, c).height == v.height,
        v.put(x, y, c).depths == v.depths,
        v.put(x, y, c).pixel(px, py) == (if px == x && py == y {
            c
        } else {
            v.pixel(px, py)
        }),
{
    lemma_index_in_range(v.width as int, v.height as int, px, py);
    if v.in_bounds(x, y) {
        lemma_index_in_range(v.width as int, v.height as int, x, y);
        if v.index(x, y) == v.index(px, py) {
            lemma_index_injective(v, x, y, px, py);
        }
    }
}

/// The depth test is monotone: once a pixel has been written with depth
/// `d1`, a later write at depth `d2 <= d1` changes nothing, while one at
/// `d2 > d1` replaces both its color and its depth.
pub proof fn lemma_depth_test_monotone(v: CanvasView, x: int, y: int, c1: Color, d1: int, c2: Color, d2: int)
    requires
        v.well_formed(),
        v.in_bounds(x, y),
        v.depth(x, y) < d1,
    ensures
        d2 <= d1 ==> v.put_with_depth(x, y, c1, d1).put_with_depth(x, y, c2, d2) == v.put_with_depth(
            x,
            y,
            c1,
            d1,
        ),
        d2 > d1 ==> v.put_with_depth(x, y, c1, d1).put_with_depth(x, y, c2, d2).pixel(x, y) == c2,
        d2 > d1 ==> v.put_with_depth(x, y, c1, d1).put_with_depth(x, y, c2, d2).depth(x, y) == d2,
{
    lemma_put_with_depth_at(v, x, y, c1, d1, x, y);
    lemma_put_with_depth_at(v.put_with_depth(x, y, c1, d1), x, y, c2, d2, x, y);
}

/// A color buffer with a parallel depth buffer.
pub struct Image {
    /// Three bytes (R, G, B) per pixel, row by row from the top row down.
    pub data: Vec<u8>,
    /// One depth per pixel, in the same order as `data`.
    zbuffer: Vec<isize>,
    pub width: usize,
    pub height: usize,
}

impl View for Image {
    type V = CanvasView;

    closed spec fn view(&self) -> CanvasView {
        CanvasView {
            width: self.width as nat,
            height: self.height as nat,
            colors: Seq::new(
                (self.data@.len() / 3) as nat,
                |i: int| Color(self.data@[3 * i], self.data@[3 * i + 1], self.data@[3 * i + 2]),
            ),
            depths: self.zbuffer@.map_values(|d: isize| d as int),
        }
    }
}

impl Image {
    /// A well-formed image has a well-formed view.
    pub proof fn lemma_wf(&self)
        requires
            self.wf(),
        ensures
            self@.well_formed(),
    {
    }

    /// The buffers match the size: three bytes and one depth per pixel.
    pub closed spec fn wf(&self) -> bool {
        &&& self@.well_formed()
        &&& self@.width == self.width
        &&& self@.height == self.height
        &&& self.data@.len() == 3 * self@.colors.len()
        &&& self.data@.len() <= usize::MAX
    }

    proof fn lemma_view_facts(&self)
        requires
            self.wf(),
        ensures
            self.data@.len() == 3 * (self.width * self.height),
            self.data@.len() <= usize::MAX,
            self.zbuffer@.len() == self.width * self.height,
            forall|i: int|
                0 <= i < self.width * self.height ==> #[trigger] self@.colors[i] == Color(
                    self.data@[3 * i],
                    self.data@[3 * i + 1],
                    self.data@[3 * i + 2],
                ),
            forall|i: int|
                0 <= i < self.width * self.height ==> #[trigger] self@.depths[i]
                    == self.zbuffer@[i] as int,
    {
    }

    pub fn width(&self) -> (r: usize)
        requires
            self.wf(),
        ensures
            r == self@.width,
    {
        self.width
    }

    pub fn height(&self) -> (r: usize)
        requires
            self.wf(),
        ensures
            r == self@.height,
    {
        self.height
    }

    /// Writes `color` at `(x, y)`; coordinates outside the image are ignored.
    pub fn set_pixel(&mut self, x: usize, y: usize, color: &Color)
        requires
            old(self).wf(),
        ensures
            final(self).wf(),
            final(self)@ == old(self)@.put(x as int, y as int, *color),
            !old(self)@.in_bounds(x as int, y as int) ==> final(self)@ == old(self)@,
    {
        if x < self.width && y < self.height {
            proof {
                self.lemma_view_facts();
                lemma_index_in_range(self.width as int, self.height as int, x as int, y as int);
            }
            let pos = (self.height - y - 1) * self.width + x;
            let index = pos * 3;
            let ghost before = self@;
            self.data.set(index, color.0);
            self.data.set(index + 1, color.1);
            self.data.set(index + 2, color.2);
            proof {
                assert(self@.colors =~= before.colors.update(pos as int, *color));
                assert(self@.depths =~= before.depths);
            }
        }
    }

    /// Writes `color` at `(x, y)` when `depth` is strictly greater than the
    /// depth stored there, and records `depth`; otherwise, and outside the
    /// image, nothing changes.
    pub fn set_pixel_with_depth(&mut self, x: usize, y: usize, color: &Color, depth: isize)
        requires
            old(self).wf(),
        ensures
            final(self).wf(),
            final(self)@ == old(self)@.put_with_depth(x as int, y as int, *color, depth as int),
            !old(self)@.in_bounds(x as int, y as int) ==> final(self)@ == old(self)@,
    {
        if x < self.width && y < self.height {
            proof {
                self.lemma_view_facts();
                lemma_index_in_range(self.width as int, self.height as int, x as int, y as int);
            }
            let zindex = (self.height - y - 1) * self.width + x;
            let index = zindex * 3;
            if self.zbuffer[zindex] < depth {
                let ghost before = self@;
                self.zbuffer.set(zindex, depth);
                self.data.set(index, color.0);
                self.data.set(index + 1, color.1);
                self.data.set(index + 2, color.2);
                proof {
                    assert(self@.colors =~= before.colors.update(zindex as int, *color));
                    assert(self@.depths =~= before.depths.update(zindex as int, depth as int));
                }
            }
        }
    }

    /// The color stored at `(x, y)`.
    pub fn get_pixel(&self, x: usize, y: usize) -> (r: Color)
        requires
            self.wf(),
            self@.in_bounds(x as int, y as int),
        ensures
            r == self@.pixel(x as int, y as int),
    {
        proof {
            self.lemma_view_facts();
            lemma_index_in_range(self.width as int, self.height as int, x as int, y as int);
        }
        let index = ((self.height - y - 1) * self.width + x) * 3;
        Color(self.data[index], self.data[index + 1], self.data[index + 2])
    }

    /// A black image of the given size with nothing drawn yet.
    pub fn new(width: usize, height: usize) -> (r: Image)
        requires
            width * height * 3 <= usize::MAX,
        ensures
            r.wf(),
            r@ == CanvasView::blank(width as nat, height as nat),
    {
        proof {
            assert(width * height * 3 == 3 * (width * height)) by (nonlinear_arith);
        }
        let mut data: Vec<u8> = Vec::with_capacity(width * height * 3);
        data.resize(width * height * 3, 0);
        let mut zbuffer: Vec<isize> = Vec::with_capacity(width * height);
        zbuffer.resize(width * height, isize::MIN);
        let r = Image { data, zbuffer, width, height };
        proof {
            assert(r@.colors =~= CanvasView::blank(width as nat, height as nat).colors);
            assert(r@.depths =~= CanvasView::blank(width as nat, height as nat).depths);
        }
        r
    }

    /// An image holding `data`, three bytes per pixel with the bottom row
    /// stored last, and nothing drawn yet; `None` when `data` does not hold
    /// exactly `width * height` pixels.
    pub fn from_rgb(width: usize, height: usize, data: Vec<u8>) -> (r: Option<Image>)
        ensures
            r is Some <==> data@.len() == width * height * 3,
            r matches Some(img) ==> {
                &&& img.wf()
                &&& img@ == CanvasView {
                    width: width as nat,
                    height: height as nat,
                    colors: Seq::new(
                        (width * height) as nat,
                        |i: int| Color(data@[3 * i], data@[3 * i + 1], data@[3 * i + 2]),
                    ),
                    depths: Seq::new((width * height) as nat, |i: int| isize::MIN as int),
                }
            },
    {
        let len = data.len();
        let pixels = match width.checked_mul(height) {
            Some(n) => n,
            None => {
                proof {
                    assert(width * height * 3 >= width * height) by (nonlinear_arith)
                        requires
                            width * height >= 0,
                    ;
                }
                return None;
            },
        };
        let bytes = match pixels.checked_mul(3) {
            Some(n) => n,
            None => {
                return None;
            },
        };
        if len != bytes {
            return None;
        }
        let mut zbuffer: Vec<isize> = Vec::with_capacity(pixels);
        zbuffer.resize(pixels, isize::MIN);
        let r = Image { data, zbuffer, width, height };
        proof {
            assert(width * height * 3 == 3 * (width * height)) by (nonlinear_arith);
            assert(r@.colors =~= Seq::new(
                (width * height) as nat,
                |i: int| Color(r.data@[3 * i], r.data@[3 * i + 1], r.data@[3 * i + 2]),
            ));
            assert(r@.depths =~= Seq::new((width * height) as nat, |i: int| isize::MIN as int));
        }
        Some(r)
    }
}

} // verus!
