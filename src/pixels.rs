use image::imageops::FilterType;
use vstd::prelude::*;

verus! {

/// Side length of the square grid every image is resized to.
pub const SIDE: u32 = 28;

/// Number of pixels of one preprocessed image.
pub const PIXELS: usize = 784;

/// Whether the bytes decode as an image.
pub uninterp spec fn decodes(bytes: Seq<u8>) -> bool;

/// The decoded image resized to 28 x 28 with a Gaussian filter, as grayscale pixels in
/// row-major order.
pub uninterp spec fn gray28_of(bytes: Seq<u8>) -> Seq<u8>;

/// Relies on image::load_from_memory (decodes the bytes, guessing the format, or fails),
/// DynamicImage::resize_exact (the result is exactly the requested width and height) and
/// DynamicImage::to_luma8 (a grayscale copy of the same size, one byte per pixel).
#[verifier::external_body]
fn decode_gray28(bytes: &Vec<u8>) -> (r: Option<Vec<u8>>)
    ensures
        r is Some <==> decodes(bytes@),
        r matches Some(g) ==> g@ == gray28_of(bytes@) && g@.len() == PIXELS,
{
    match image::load_from_memory(bytes.as_slice()) {
        Ok(img) => Some(img.resize_exact(SIDE, SIDE, FilterType::Gaussian).to_luma8().into_raw()),
        Err(_) => None,
    }
}

/// A pixel, read as `p / 255`, lies strictly below the cutoff `num / den`.
pub open spec fn below_threshold(p: u8, num: u32, den: u32) -> bool {
    (p as int) * (den as int) < (num as int) * 255
}

/// Pixels below the cutoff become background (0); the others are kept as they are.
pub open spec fn thresholded(raw: Seq<u8>, num: u32, den: u32) -> Seq<u8> {
    Seq::new(raw.len(), |i: int| if below_threshold(raw[i], num, den) { 0u8 } else { raw[i] })
}

/// A preprocessed image: 28 x 28 pixels, none of them left below the cutoff.
pub open spec fn valid_image(img: Seq<u8>, num: u32, den: u32) -> bool {
    &&& img.len() == PIXELS
    &&& forall|i: int| 0 <= i < img.len() ==> img[i] == 0 || !below_threshold(img[i], num, den)
}

/// The preprocessed image of encoded bytes.
pub open spec fn image_of(bytes: Seq<u8>, num: u32, den: u32) -> Seq<u8> {
    thresholded(gray28_of(bytes), num, den)
}

/// Every item's bytes decode.
pub open spec fn all_decode(items: Seq<LoadedItem>) -> bool {
    forall|i: int| 0 <= i < items.len() ==> decodes(#[trigger] items[i].bytes@)
}

/// The images of a batch of items, in order.
pub open spec fn batch_images(items: Seq<LoadedItem>, num: u32, den: u32) -> Seq<Seq<u8>> {
    Seq::new(items.len(), |i: int| image_of(items[i].bytes@, num, den))
}

/// The labels of a batch of items, in order.
pub open spec fn batch_targets(items: Seq<LoadedItem>) -> Seq<usize> {
    Seq::new(items.len(), |i: int| items[i].label)
}

/// Zeroes every pixel below the cutoff `num / den` and keeps the rest unchanged.
pub fn apply_threshold(raw: &Vec<u8>, num: u32, den: u32) -> (r: Vec<u8>)
    ensures
        r@ == thresholded(raw@, num, den),
{
    let mut out: Vec<u8> = Vec::new();
    let mut i: usize = 0;
    while i < raw.len()
        invariant
            0 <= i <= raw@.len(),
            out@ == thresholded(raw@, num, den).subrange(0, i as int),
        decreases raw@.len() - i,
    {
        let p = raw[i];
        assert((p as u64) * (den as u64) <= 255 * 0xffff_ffff) by (nonlinear_arith)
            requires
                p <= 255,
                den <= 0xffff_ffff,
        ;
        let below = (p as u64) * (den as u64) < (num as u64) * 255;
        if below {
            out.push(0);
        } else {
            out.push(p);
        }
        assert(out@ =~= thresholded(raw@, num, den).subrange(0, i + 1));
        i += 1;
    }
    assert(out@ =~= thresholded(raw@, num, den));
    out
}

/// Why one image could not be preprocessed.
#[derive(Clone, Copy, Debug, PartialEq, Eq, Structural)]
pub enum PixelError {
    /// The bytes are not a decodable image.
    Decode,
}

/// Why a batch could not be assembled: the first item that failed, and how.
#[derive(Clone, Copy, Debug, PartialEq, Eq, Structural)]
pub struct BatchError {
    pub index: usize,
    pub kind: PixelError,
}

/// One dataset item with the contents of its image file.
pub struct LoadedItem {
    pub bytes: Vec<u8>,
    pub label: usize,
}

/// A batch: one 28 x 28 grid per item, row-major, with values read as `p / 255`,
/// and the items' labels in the same order.
pub struct FileBatch {
    pub images: Vec<Vec<u8>>,
    pub targets: Vec<usize>,
}

/// Turns encoded images into thresholded 28 x 28 grayscale grids.
#[derive(Clone, Copy, Debug)]
pub struct FileBatcher {
    threshold_num: u32,
    threshold_den: u32,
}

impl FileBatcher {
    pub closed spec fn num(&self) -> u32 {
        self.threshold_num
    }

    pub closed spec fn den(&self) -> u32 {
        self.threshold_den
    }

    pub closed spec fn wf(&self) -> bool {
        self.threshold_den > 0
    }

    /// A batcher with the default cutoff of 0.3.
    pub fn new() -> (r: FileBatcher)
        ensures
            r.wf(),
            r.num() == 3,
            r.den() == 10,
    {
        FileBatcher { threshold_num: 3, threshold_den: 10 }
    }

    /// A batcher with the cutoff `num / den`.
    pub fn with_threshold(num: u32, den: u32) -> (r: FileBatcher)
        requires
            den > 0,
        ensures
            r.wf(),
            r.num() == num,
            r.den() == den,
    {
        FileBatcher { threshold_num: num, threshold_den: den }
    }

    /// Decodes one image, resizes it to 28 x 28, converts it to grayscale and applies
    /// the cutoff. Fails exactly when the bytes do not decode.
    pub fn preprocess(&self, bytes: &Vec<u8>) -> (r: Result<Vec<u8>, PixelError>)
        ensures
            r is Ok <==> decodes(bytes@),
            r matches Ok(img) ==> img@ == image_of(bytes@, self.num(), self.den()) && valid_image(
                img@,
                self.num(),
                self.den(),
            ),
            r matches Err(e) ==> e == PixelError::Decode,
    {
        match decode_gray28(bytes) {
            Some(raw) => Ok(self.threshold_pixels(&raw)),
            None => Err(PixelError::Decode),
        }
    }

    /// Applies this batcher's cutoff to a 28 x 28 grayscale grid.
    pub fn threshold_pixels(&self, raw: &Vec<u8>) -> (r: Vec<u8>)
        ensures
            r@ == thresholded(raw@, self.num(), self.den()),
            raw@.len() == PIXELS ==> valid_image(r@, self.num(), self.den()),
    {
        apply_threshold(raw, self.threshold_num, self.threshold_den)
    }

    /// Preprocesses every item in order and collects the images and labels; stops at the
    /// first item that does not decode.
    pub fn batch(&self, items: &Vec<LoadedItem>) -> (r: Result<FileBatch, BatchError>)
        ensures
            r is Ok <==> all_decode(items@),
            r matches Ok(b) ==> {
                &&& b.images@.len() == items@.len()
                &&& b.targets@ == batch_targets(items@)
                &&& forall|i: int| 0 <= i < items@.len()
                    ==> #[trigger] b.images@[i]@ == batch_images(items@, self.num(), self.den())[i]
                &&& forall|i: int| 0 <= i < items@.len()
                    ==> valid_image(#[trigger] b.images@[i]@, self.num(), self.den())
            },
            r matches Err(e) ==> {
                &&& e.index < items@.len()
                &&& e.kind == PixelError::Decode
                &&& !decodes(items@[e.index as int].bytes@)
                &&& forall|k: int| 0 <= k < e.index ==> decodes(#[trigger] items@[k].bytes@)
            },
    {
        let mut images: Vec<Vec<u8>> = Vec::new();
        let mut targets: Vec<usize> = Vec::new();
        let mut i: usize = 0;
        while i < items.len()
            invariant
                0 <= i <= items@.len(),
                images@.len() == i,
                targets@ == batch_targets(items@).subrange(0, i as int),
                forall|k: int| 0 <= k < i ==> decodes(#[trigger] items@[k].bytes@),
                forall|k: int| 0 <= k < i
                    ==> #[trigger] images@[k]@ == batch_images(items@, self.num(), self.den())[k],
                forall|k: int| 0 <= k < i
                    ==> valid_image(#[trigger] images@[k]@, self.num(), self.den()),
            decreases items@.len() - i,
        {
            match self.preprocess(&items[i].bytes) {
                Ok(img) => {
                    images.push(img);
                    targets.push(items[i].label);
                    assert(targets@ =~= batch_targets(items@).subrange(0, i + 1));
                },
                Err(kind) => {
                    return Err(BatchError { index: i, kind });
                },
            }
            i += 1;
        }
        assert(targets@ =~= batch_targets(items@));
        Ok(FileBatch { images, targets })
    }
}

/// Batching is compositional: the images and labels of two lists of items put together
/// are those of the first list followed by those of the second.
pub proof fn lemma_batch_concat(a: Seq<LoadedItem>, b: Seq<LoadedItem>, num: u32, den: u32)
    ensures
        batch_images(a + b, num, den) == batch_images(a, num, den) + batch_images(b, num, den),
        batch_targets(a + b) == batch_targets(a) + batch_targets(b),
        all_decode(a + b) <==> all_decode(a) && all_decode(b),
{
    assert(batch_images(a + b, num, den) =~= batch_images(a, num, den) + batch_images(b, num, den));
    assert(batch_targets(a + b) =~= batch_targets(a) + batch_targets(b));
    if all_decode(a) && all_decode(b) {
        assert forall|i: int| 0 <= i < (a + b).len() implies decodes(#[trigger] (a + b)[i].bytes@) by {
            if i >= a.len() {
                assert((a + b)[i] == b[i - a.len()]);
            }
        }
    }
    if all_decode(a + b) {
        assert forall|i: int| 0 <= i < a.len() implies decodes(#[trigger] a[i].bytes@) by {
            assert((a + b)[i] == a[i]);
        }
        assert forall|i: int| 0 <= i < b.len() implies decodes(#[trigger] b[i].bytes@) by {
            assert((a + b)[a.len() + i] == b[i]);
        }
    }
}

/// Raising the cutoff only zeroes more pixels: thresholding at the higher cutoff is
/// thresholding again, at that cutoff, what the lower cutoff left.
pub proof fn lemma_threshold_monotone(raw: Seq<u8>, n1: u32, d1: u32, n2: u32, d2: u32)
    requires
        d1 > 0,
        d2 > 0,
        (n1 as int) * (d2 as int) <= (n2 as int) * (d1 as int),
    ensures
        thresholded(raw, n2, d2) == thresholded(thresholded(raw, n1, d1), n2, d2),
{
    assert forall|i: int| 0 <= i < raw.len() implies #[trigger] thresholded(raw, n2, d2)[i]
        == thresholded(thresholded(raw, n1, d1), n2, d2)[i] by {
        let p = raw[i];
        if below_threshold(p, n1, d1) {
            assert((p as int) * (d2 as int) < (n2 as int) * 255) by (nonlinear_arith)
                requires
                    (p as int) * (d1 as int) < (n1 as int) * 255,
                    (n1 as int) * (d2 as int) <= (n2 as int) * (d1 as int),
                    d1 > 0,
                    d2 > 0,
                    p >= 0,
            ;
        }
    }
    assert(thresholded(raw, n2, d2) =~= thresholded(thresholded(raw, n1, d1), n2, d2));
}

/// A cutoff of 0 keeps every pixel; a cutoff above 1 zeroes them all.
pub proof fn lemma_threshold_extremes(raw: Seq<u8>, num: u32, den: u32)
    requires
        den > 0,
    ensures
        num == 0 ==> thresholded(raw, num, den) == raw,
        num > den ==> thresholded(raw, num, den) == Seq::new(raw.len(), |i: int| 0u8),
{
    if num == 0 {
        assert forall|i: int| 0 <= i < raw.len() implies !below_threshold(raw[i], num, den) by {
            assert((raw[i] as int) * (den as int) >= 0) by (nonlinear_arith)
                requires
                    raw[i] >= 0,
                    den > 0,
            ;
        }
        assert(thresholded(raw, num, den) =~= raw);
    }
    if num > den {
        assert forall|i: int| 0 <= i < raw.len() implies below_threshold(raw[i], num, den) by {
            assert((raw[i] as int) * (den as int) < (num as int) * 255) by (nonlinear_arith)
                requires
                    raw[i] <= 255,
                    num > den,
                    den > 0,
            ;
        }
        assert(thresholded(raw, num, den) =~= Seq::new(raw.len(), |i: int| 0u8));
    }
}

} // verus!
