//! The accumulation buffer: a grid of running sums and a count of completed passes.

use vstd::prelude::*;

verus! {

/// A `width` by `height` grid of accumulated values, stored row by row from
/// the bottom row up, with the number of full passes added so far.
///
/// The pixel type `P` is opaque here: values enter and change only through
/// the functions the caller hands in.
pub struct Image<P> {
    pub width: u32,
    pub height: u32,
    pub data: Vec<P>,
    pub samples: u32,
}

impl<P: Copy> Image<P> {
    /// The buffer holds exactly one value per pixel.
    pub open spec fn wf(&self) -> bool {
        self.data@.len() == self.width as int * self.height as int
    }

    /// The number of pixels of the grid.
    pub open spec fn area(&self) -> int {
        self.width as int * self.height as int
    }

    /// The count by which an accumulated value is divided for display:
    /// the number of passes, or one while no pass is complete.
    pub open spec fn spec_divisor(&self) -> u32 {
        if self.samples == 0 {
            1
        } else {
            self.samples
        }
    }

    /// The storage index shown at display index `q`, where display indices
    /// run row by row from the top row down.
    pub open spec fn mirrored(&self, q: int) -> int {
        (self.height - 1 - q / (self.width as int)) * self.width + q % (self.width as int)
    }

    /// Whether `bytes` are a display of the buffer under `tone`: three
    /// bytes per pixel, row by row from the top row down, each pixel what
    /// `tone` may make of its accumulated value and the display divisor.
    pub open spec fn is_snapshot<F: Fn(P, u32) -> (u8, u8, u8)>(
        &self,
        tone: F,
        bytes: Seq<u8>,
    ) -> bool {
        &&& bytes.len() == 3 * self.area()
        &&& forall|q: int|
            0 <= q < self.area() ==> call_ensures(
                tone,
                (self.data@[#[trigger] self.mirrored(q)], self.spec_divisor()),
                (bytes[3 * q], bytes[3 * q + 1], bytes[3 * q + 2]),
            )
    }

    /// A buffer of `width * height` copies of `fill` and no completed pass.
    pub fn new(width: u32, height: u32, fill: P) -> (img: Image<P>)
        requires
            width as int * height as int <= usize::MAX,
        ensures
            img.wf(),
            img.width == width,
            img.height == height,
            img.samples == 0,
            forall|k: int| 0 <= k < img.data@.len() ==> img.data@[k] == fill,
    {
        let n: usize = width as usize * height as usize;
        let mut data: Vec<P> = Vec::new();
        let mut k: usize = 0;
        while k < n
            invariant
                k <= n,
                data@.len() == k,
                forall|m: int| 0 <= m < k ==> data@[m] == fill,
            decreases n - k,
        {
            data.push(fill);
            k = k + 1;
        }
        Image { width, height, data, samples: 0 }
    }

    /// The storage index of the pixel in column `i` of row `j`, rows
    /// counted from the bottom.
    pub fn index_of(&self, i: u32, j: u32) -> (k: usize)
        requires
            self.wf(),
            i < self.width,
            j < self.height,
        ensures
            k == j as int * self.width as int + i as int,
            k < self.data@.len(),
            k as int % self.width as int == i,
            k as int / self.width as int == j,
    {
        proof {
            lemma_cell(i as int, j as int, self.width as int, self.height as int);
            assert(self.data@.len() == self.data.len() <= usize::MAX);
        }
        j as usize * self.width as usize + i as usize
    }

    /// The storage index of the pixel shown in column `i` of display row
    /// `j`, display rows counted from the top.
    pub fn shown_index(&self, i: u32, j: u32) -> (k: usize)
        requires
            self.wf(),
            i < self.width,
            j < self.height,
        ensures
            k == (self.height - 1 - j) * self.width + i,
            k == self.mirrored(j as int * self.width as int + i as int),
            k < self.data@.len(),
    {
        let row: u32 = self.height - 1 - j;
        proof {
            lemma_cell(i as int, j as int, self.width as int, self.height as int);
            lemma_cell(i as int, row as int, self.width as int, self.height as int);
            assert(self.data@.len() == self.data.len() <= usize::MAX);
        }
        row as usize * self.width as usize + i as usize
    }

    /// The displayable value of the pixel at storage index `i`: what `tone`
    /// makes of its accumulated value and the display divisor.
    pub fn val<Q>(&self, i: usize, tone: impl Fn(P, u32) -> Q) -> (shown: Q)
        requires
            i < self.data@.len(),
            call_requires(tone, (self.data@[i as int], self.spec_divisor())),
        ensures
            call_ensures(tone, (self.data@[i as int], self.spec_divisor()), shown),
    {
        tone(self.data[i], self.divisor())
    }

    /// The displayable value of the pixel in column `i` of display row `j`,
    /// display rows counted from the top.
    pub fn val_rgb(&self, i: u32, j: u32, tone: impl Fn(P, u32) -> (u8, u8, u8)) -> (rgb: (
        u8,
        u8,
        u8,
    ))
        requires
            self.wf(),
            i < self.width,
            j < self.height,
            forall|k: int|
                0 <= k < self.data@.len() ==> call_requires(
                    tone,
                    (#[trigger] self.data@[k], self.spec_divisor()),
                ),
        ensures
            call_ensures(
                tone,
                (
                    self.data@[self.mirrored(j as int * self.width as int + i as int)],
                    self.spec_divisor(),
                ),
                rgb,
            ),
    {
        let k: usize = self.shown_index(i, j);
        tone(self.data[k], self.divisor())
    }

    /// The buffer as displayable bytes: three per pixel, row by row from
    /// the top row down, each pixel what `tone` makes of its accumulated
    /// value and the display divisor.
    pub fn snapshot_rgb8<F: Fn(P, u32) -> (u8, u8, u8)>(&self, tone: F) -> (bytes: Vec<u8>)
        requires
            self.wf(),
            forall|k: int|
                0 <= k < self.data@.len() ==> call_requires(
                    tone,
                    (#[trigger] self.data@[k], self.spec_divisor()),
                ),
        ensures
            self.is_snapshot(tone, bytes@),
    {
        let divisor: u32 = self.divisor();
        let mut bytes: Vec<u8> = Vec::new();
        let mut j: u32 = 0;
        while j < self.height
            invariant
                self.wf(),
                j <= self.height,
                divisor == self.spec_divisor(),
                forall|k: int|
                        0 <= k < self.data@.len() ==> call_requires(
                            tone,
                            (#[trigger] self.data@[k], divisor),
                        ),
                bytes@.len() == 3 * (j as int * self.width as int),
                forall|q: int|
                    0 <= q < j as int * self.width as int ==> call_ensures(
                        tone,
                        (self.data@[#[trigger] self.mirrored(q)], divisor),
                        (bytes@[3 * q], bytes@[3 * q + 1], bytes@[3 * q + 2]),
                    ),
            decreases self.height - j,
        {
            let mut i: u32 = 0;
            while i < self.width
                invariant
                    self.wf(),
                    j < self.height,
                    i <= self.width,
                    divisor == self.spec_divisor(),
                    forall|k: int|
                        0 <= k < self.data@.len() ==> call_requires(
                            tone,
                            (#[trigger] self.data@[k], divisor),
                        ),
                    bytes@.len() == 3 * (j as int * self.width as int + i as int),
                    forall|q: int|
                        0 <= q < j as int * self.width as int + i as int ==> call_ensures(
                            tone,
                            (self.data@[#[trigger] self.mirrored(q)], divisor),
                            (bytes@[3 * q], bytes@[3 * q + 1], bytes@[3 * q + 2]),
                        ),
                decreases self.width - i,
            {
                let k: usize = self.shown_index(i, j);
                let (r, g, b) = tone(self.data[k], divisor);
                bytes.push(r);
                bytes.push(g);
                bytes.push(b);
                i = i + 1;
            }
            proof {
                assert((j as int + 1) * self.width as int == j as int * self.width as int
                    + self.width as int) by (nonlinear_arith);
            }
            j = j + 1;
        }
        proof {
            assert(self.height as int * self.width as int == self.area()) by (nonlinear_arith)
                requires
                    self.area() == self.width as int * self.height as int,
            ;
        }
        bytes
    }

    /// Turning the rows over is its own inverse: the display index of a
    /// pixel leads to a storage index inside the buffer, in the same column,
    /// and turning that one over again gives the display index back.
    pub proof fn lemma_mirrored_twice(&self, q: int)
        requires
            0 <= q < self.area(),
        ensures
            0 <= self.mirrored(q) < self.area(),
            self.mirrored(q) % (self.width as int) == q % (self.width as int),
            self.mirrored(q) / (self.width as int) == self.height - 1 - q / (self.width as int),
            self.mirrored(self.mirrored(q)) == q,
    {
        let w = self.width as int;
        let h = self.height as int;
        let i = q % w;
        let j = q / w;
        lemma_index_cell(q, w, h);
        lemma_cell(i, h - 1 - j, w, h);
        lemma_cell(i, j, w, h);
    }

    /// The divisor for display: `samples`, or 1 before the first pass.
    #[verifier::when_used_as_spec(spec_divisor)]
    pub fn divisor(&self) -> (d: u32)
        ensures
            d == self.spec_divisor(),
            d >= 1,
    {
        if self.samples == 0 {
            1
        } else {
            self.samples
        }
    }
}

/// One full pass over the buffer: every pixel's accumulated value is
/// replaced, exactly once, by what `shade` returns for its column, its row
/// and its value so far; the pass count goes up by one after the last pixel.
pub fn render_step<P: Copy>(image: &mut Image<P>, shade: impl Fn(u32, u32, P) -> P)
    requires
        old(image).wf(),
        old(image).samples < u32::MAX,
        forall|k: int|
            0 <= k < old(image).area() ==> call_requires(
                shade,
                (
                    (k % old(image).width as int) as u32,
                    (k / old(image).width as int) as u32,
                    #[trigger] old(image).data@[k],
                ),
            ),
    ensures
        final(image).wf(),
        final(image).width == old(image).width,
        final(image).height == old(image).height,
        final(image).samples == old(image).samples + 1,
        forall|k: int|
            0 <= k < old(image).area() ==> call_ensures(
                shade,
                (
                    (k % old(image).width as int) as u32,
                    (k / old(image).width as int) as u32,
                    old(image).data@[k],
                ),
                #[trigger] final(image).data@[k],
            ),
{
    let ghost before = image.data@;
    let width: u32 = image.width;
    let height: u32 = image.height;
    let mut j: u32 = 0;
    while j < height
        invariant
            j <= height,
            image.width == width,
            image.height == height,
            image.samples == old(image).samples,
            before == old(image).data@,
            image.data@.len() == before.len() == width as int * height as int,
            forall|k: int|
                0 <= k < before.len() ==> call_requires(
                    shade,
                    ((k % width as int) as u32, (k / width as int) as u32, #[trigger] before[k]),
                ),
            forall|k: int|
                0 <= k < j as int * width as int ==> call_ensures(
                    shade,
                    ((k % width as int) as u32, (k / width as int) as u32, before[k]),
                    #[trigger] image.data@[k],
                ),
            forall|k: int|
                j as int * width as int <= k < before.len() ==> #[trigger] image.data@[k]
                    == before[k],
        decreases height - j,
    {
        let mut i: u32 = 0;
        while i < width
            invariant
                i <= width,
                j < height,
                image.width == width,
                image.height == height,
                image.samples == old(image).samples,
                image.data@.len() == before.len() == width as int * height as int,
                forall|k: int|
                    0 <= k < before.len() ==> call_requires(
                        shade,
                        (
                            (k % width as int) as u32,
                            (k / width as int) as u32,
                            #[trigger] before[k],
                        ),
                    ),
                forall|k: int|
                    0 <= k < j as int * width as int + i as int ==> call_ensures(
                        shade,
                        ((k % width as int) as u32, (k / width as int) as u32, before[k]),
                        #[trigger] image.data@[k],
                    ),
                forall|k: int|
                    j as int * width as int + i as int <= k < before.len()
                        ==> #[trigger] image.data@[k] == before[k],
            decreases width - i,
        {
            let k: usize = image.index_of(i, j);
            let sum: P = shade(i, j, image.data[k]);
            image.data.set(k, sum);
            i = i + 1;
        }
        proof {
            assert((j as int + 1) * width as int == j as int * width as int + width as int)
                by (nonlinear_arith);
        }
        j = j + 1;
    }
    image.samples = image.samples + 1;
}

/// `to` can come out of `from` by `n` successive passes of `shade` over the
/// pixel in column `i` of row `j`.
pub open spec fn accumulated<P, F: Fn(u32, u32, P) -> P>(
    shade: F,
    i: u32,
    j: u32,
    from: P,
    to: P,
    n: nat,
) -> bool
    decreases n,
{
    if n == 0 {
        to == from
    } else {
        exists|mid: P|
            accumulated(shade, i, j, from, mid, (n - 1) as nat) && call_ensures(
                shade,
                (i, j, mid),
                to,
            )
    }
}

/// `samples` full passes, one after the other: the pass count goes up by
/// `samples`, and every pixel holds what that many passes of `shade` made of
/// its earlier value.
pub fn render<P: Copy, F: Fn(u32, u32, P) -> P>(image: &mut Image<P>, samples: u32, shade: &F)
    requires
        old(image).wf(),
        old(image).samples + samples <= u32::MAX,
        forall|i: u32, j: u32, p: P|
            i < old(image).width && j < old(image).height ==> call_requires(*shade, (i, j, p)),
    ensures
        final(image).wf(),
        final(image).width == old(image).width,
        final(image).height == old(image).height,
        final(image).samples == old(image).samples + samples,
        forall|k: int|
            0 <= k < old(image).area() ==> accumulated(
                *shade,
                (k % old(image).width as int) as u32,
                (k / old(image).width as int) as u32,
                old(image).data@[k],
                #[trigger] final(image).data@[k],
                samples as nat,
            ),
{
    let ghost before = image.data@;
    let ghost width = image.width;
    let mut done: u32 = 0;
    while done < samples
        invariant
            done <= samples,
            image.wf(),
            image.width == width == old(image).width,
            image.height == old(image).height,
            image.samples == old(image).samples + done,
            old(image).samples + samples <= u32::MAX,
            before == old(image).data@,
            forall|i: u32, j: u32, p: P|
                i < image.width && j < image.height ==> call_requires(*shade, (i, j, p)),
            forall|k: int|
                0 <= k < image.area() ==> accumulated(
                    *shade,
                    (k % width as int) as u32,
                    (k / width as int) as u32,
                    before[k],
                    #[trigger] image.data@[k],
                    done as nat,
                ),
        decreases samples - done,
    {
        let ghost earlier = image.data@;
        proof {
            assert forall|k: int| 0 <= k < image.area() implies call_requires(
                *shade,
                ((k % width as int) as u32, (k / width as int) as u32, #[trigger] image.data@[k]),
            ) by {
                lemma_index_cell(k, image.width as int, image.height as int);
            }
        }
        render_step(image, shade);
        proof {
            assert forall|k: int| 0 <= k < image.area() implies accumulated(
                *shade,
                (k % width as int) as u32,
                (k / width as int) as u32,
                before[k],
                #[trigger] image.data@[k],
                (done + 1) as nat,
            ) by {
                let i = (k % width as int) as u32;
                let j = (k / width as int) as u32;
                assert(accumulated(*shade, i, j, before[k], earlier[k], done as nat));
                assert(call_ensures(*shade, (i, j, earlier[k]), image.data@[k]));
            }
        }
        done = done + 1;
    }
}

/// Adds a worker's private buffer into the shared one: every shared pixel
/// becomes what `combine` makes of it and the worker's pixel in the same place,
/// and the shared pass count grows by the worker's.
pub fn merge<P: Copy>(shared: &mut Image<P>, passes: &Image<P>, combine: impl Fn(P, P) -> P)
    requires
        old(shared).wf(),
        passes.wf(),
        old(shared).width == passes.width,
        old(shared).height == passes.height,
        old(shared).samples + passes.samples <= u32::MAX,
        forall|k: int|
            0 <= k < old(shared).data@.len() ==> call_requires(
                combine,
                (#[trigger] old(shared).data@[k], passes.data@[k]),
            ),
    ensures
        final(shared).wf(),
        final(shared).width == old(shared).width,
        final(shared).height == old(shared).height,
        final(shared).samples == old(shared).samples + passes.samples,
        forall|k: int|
            0 <= k < old(shared).area() ==> call_ensures(
                combine,
                (old(shared).data@[k], passes.data@[k]),
                #[trigger] final(shared).data@[k],
            ),
{
    let ghost before = shared.data@;
    let n: usize = shared.data.len();
    let mut k: usize = 0;
    while k < n
        invariant
            k <= n,
            n == before.len() == shared.data@.len() == passes.data@.len(),
            shared.width == old(shared).width,
            shared.height == old(shared).height,
            shared.samples == old(shared).samples,
            before == old(shared).data@,
            forall|m: int|
                0 <= m < n ==> call_requires(combine, (#[trigger] before[m], passes.data@[m])),
            forall|m: int|
                0 <= m < k ==> call_ensures(
                    combine,
                    (before[m], passes.data@[m]),
                    #[trigger] shared.data@[m],
                ),
            forall|m: int| k <= m < n ==> #[trigger] shared.data@[m] == before[m],
        decreases n - k,
    {
        let sum: P = combine(shared.data[k], passes.data[k]);
        shared.data.set(k, sum);
        k = k + 1;
    }
    shared.samples = shared.samples + passes.samples;
}

/// A cell of a `w` by `h` grid has its row-major index inside the grid, and
/// the index gives the cell back by division.
pub proof fn lemma_cell(i: int, j: int, w: int, h: int)
    requires
        0 <= i < w,
        0 <= j < h,
    ensures
        0 <= j * w <= j * w + i < w * h,
        (j * w + i) % w == i,
        (j * w + i) / w == j,
{
    assert(j * w + i < w * h) by (nonlinear_arith)
        requires
            0 <= i < w,
            0 <= j < h,
    {
        assert((j + 1) * w <= h * w);
    }
    assert(0 <= j * w) by (nonlinear_arith)
        requires
            0 <= i < w,
            0 <= j < h,
    ;
    vstd::arithmetic::div_mod::lemma_fundamental_div_mod_converse(j * w + i, w, j, i);
}

/// A row-major index inside a `w` by `h` grid names a cell of the grid: its
/// remainder by `w` is a column, its quotient a row, and they give it back.
pub proof fn lemma_index_cell(k: int, w: int, h: int)
    requires
        0 <= w,
        0 <= h,
        0 <= k < w * h,
    ensures
        0 <= k % w < w,
        0 <= k / w < h,
        k == (k / w) * w + k % w,
{
    assert(w > 0) by (nonlinear_arith)
        requires
            0 <= k < w * h,
            w >= 0,
    ;
    vstd::arithmetic::div_mod::lemma_fundamental_div_mod(k, w);
    assert(0 <= k / w < h && k == (k / w) * w + k % w) by (nonlinear_arith)
        requires
            k == w * (k / w) + k % w,
            0 <= k % w < w,
            0 <= k < w * h,
    ;
}

} // verus!
