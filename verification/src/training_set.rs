//! Reader for a labelled image set held in two byte streams: one with the
//! images, one with their labels.
//!
//! The image stream opens with four big-endian 32-bit integers: a magic
//! number, the number of items, the height and the width of an image. The
//! label stream opens with two: a magic number and the number of items.
//! After the headers come the pixels, image after image, and the labels, one
//! byte each.

use byteorder::{BigEndian, ReadBytesExt};
use vstd::prelude::*;

verus! {

/// Magic number that opens an image stream.
pub const IMAGE_MAGIC: i32 = 2051;

/// Magic number that opens a label stream.
pub const LABEL_MAGIC: i32 = 2049;

/// Bytes of the header of an image stream.
pub const IMAGE_HEADER_LEN: usize = 16;

/// Bytes of the header of a label stream.
pub const LABEL_HEADER_LEN: usize = 8;

/// One image with its label.
#[derive(Debug)]
pub struct TrainingItem {
    /// Pixel values, 0 (white) to 255 (black), row after row.
    pub image: Vec<u8>,
    /// The digit that the image shows.
    pub label: u8,
}

/// Why two streams were not accepted as an image set.
#[derive(Clone, Copy, Debug, PartialEq, Eq, Structural)]
pub enum TrainingSetError {
    /// A stream ends inside its header.
    Truncated,
    /// The image stream does not open with `IMAGE_MAGIC`.
    ImageMagic,
    /// The label stream does not open with `LABEL_MAGIC`.
    LabelMagic,
    /// The two streams announce different numbers of items.
    ItemCount {
        /// Number of items that the image stream announces.
        images: i32,
        /// Number of items that the label stream announces.
        labels: i32,
    },
    /// Height times width does not fit in 32 bits.
    PixelCount,
}

/// What is left to read of an image set.
pub struct Remaining {
    /// Bytes of the image stream not read yet.
    pub images: Seq<u8>,
    /// Bytes of the label stream not read yet.
    pub labels: Seq<u8>,
    /// Height times width, as the header gave them.
    pub number_of_pixels: int,
}

/// The items of an image set, one per call of `next`.
pub struct TrainingItemIter {
    image_src: Vec<u8>,
    label_src: Vec<u8>,
    image_at: usize,
    label_at: usize,
    number_of_pixels: i32,
}

/// The signed 32-bit integer that four bytes spell, most significant first.
pub open spec fn be_i32(b: Seq<u8>) -> int
    recommends
        b.len() == 4,
{
    let unsigned = b[0] as int * 0x100_0000 + b[1] as int * 0x1_0000 + b[2] as int * 0x100
        + b[3] as int;
    if unsigned >= 0x8000_0000 {
        unsigned - 0x1_0000_0000
    } else {
        unsigned
    }
}

/// The header field that starts at byte `at`, if the stream reaches that far.
pub open spec fn field(stream: Seq<u8>, at: int) -> Option<int> {
    if 0 <= at && at + 4 <= stream.len() {
        Some(be_i32(stream.subrange(at, at + 4)))
    } else {
        None
    }
}

/// What the two headers say: the number of pixels of an image, or the first
/// fault met when the fields are read in the order magic numbers, item
/// counts, height, width.
pub open spec fn read_headers(images: Seq<u8>, labels: Seq<u8>) -> Result<int, TrainingSetError> {
    if field(images, 0) is None {
        Err(TrainingSetError::Truncated)
    } else if field(images, 0) != Some(IMAGE_MAGIC as int) {
        Err(TrainingSetError::ImageMagic)
    } else if field(labels, 0) is None {
        Err(TrainingSetError::Truncated)
    } else if field(labels, 0) != Some(LABEL_MAGIC as int) {
        Err(TrainingSetError::LabelMagic)
    } else if field(images, 4) is None || field(labels, 4) is None {
        Err(TrainingSetError::Truncated)
    } else if field(images, 4) != field(labels, 4) {
        Err(
            TrainingSetError::ItemCount {
                images: field(images, 4)->Some_0 as i32,
                labels: field(labels, 4)->Some_0 as i32,
            },
        )
    } else if field(images, 8) is None || field(images, 12) is None {
        Err(TrainingSetError::Truncated)
    } else {
        let pixels = field(images, 8)->Some_0 * field(images, 12)->Some_0;
        if i32::MIN <= pixels <= i32::MAX {
            Ok(pixels)
        } else {
            Err(TrainingSetError::PixelCount)
        }
    }
}

/// Bytes that one image takes in the stream: none where the header gave a
/// negative number of pixels.
pub open spec fn image_len(number_of_pixels: int) -> nat {
    if number_of_pixels > 0 {
        number_of_pixels as nat
    } else {
        0
    }
}

impl Remaining {
    /// Whether another item can be read: a whole image and a label are left.
    pub open spec fn has_item(self) -> bool {
        self.images.len() >= image_len(self.number_of_pixels) && self.labels.len() >= 1
    }

    /// What is left after one call of `next`. A call that finds no whole
    /// image uses up the image stream and leaves the labels; one that
    /// finds an image reads it, whether or not a label follows.
    pub open spec fn after_next(self) -> Remaining {
        let n = image_len(self.number_of_pixels) as int;
        if self.images.len() < n {
            Remaining { images: Seq::empty(), ..self }
        } else if self.labels.len() < 1 {
            Remaining { images: self.images.skip(n), ..self }
        } else {
            Remaining { images: self.images.skip(n), labels: self.labels.skip(1), ..self }
        }
    }
}

/// `byteorder::ReadBytesExt::read_i32::<BigEndian>` on the bytes of `stream`
/// from `at` on. The call reads four bytes and fails where fewer are left;
/// the result is the integer that the four bytes spell, most significant
/// first.
#[verifier::external_body]
fn read_i32_at(stream: &[u8], at: usize) -> (r: Option<i32>)
    requires
        at <= stream@.len(),
    ensures
        r == match field(stream@, at as int) {
            Some(v) => Some(v as i32),
            None => None,
        },
{
    let mut rest: &[u8] = &stream[at..];
    rest.read_i32::<BigEndian>().ok()
}

/// `byteorder::ReadBytesExt::read_u8` on the bytes of `stream` from `at` on.
/// The call reads one byte and fails where none is left.
#[verifier::external_body]
fn read_u8_at(stream: &[u8], at: usize) -> (r: Option<u8>)
    requires
        at <= stream@.len(),
    ensures
        r == if at < stream@.len() {
            Some(stream@[at as int])
        } else {
            None
        },
{
    let mut rest: &[u8] = &stream[at..];
    rest.read_u8().ok()
}

/// Once no item is left, none comes back: where a call of `next` finds no
/// item, neither does the call after it.
pub proof fn lemma_no_item_is_final(remaining: Remaining)
    requires
        !remaining.has_item(),
    ensures
        !remaining.after_next().has_item(),
{
}

impl TrainingItem {
    /// Reads the headers of an image stream and a label stream and hands
    /// back the reader of their items.
    pub fn iter_from_read(image_src: Vec<u8>, label_src: Vec<u8>) -> (r: Result<
        TrainingItemIter,
        TrainingSetError,
    >)
        ensures
            match read_headers(image_src@, label_src@) {
                Ok(pixels) => r is Ok && r->Ok_0@ == (Remaining {
                    images: image_src@.skip(IMAGE_HEADER_LEN as int),
                    labels: label_src@.skip(LABEL_HEADER_LEN as int),
                    number_of_pixels: pixels,
                }),
                Err(e) => r == Err::<TrainingItemIter, _>(e),
            },
    {
        let image_magic: i32 = match read_i32_at(image_src.as_slice(), 0) {
            Some(v) => v,
            None => return Err(TrainingSetError::Truncated),
        };
        if image_magic != IMAGE_MAGIC {
            return Err(TrainingSetError::ImageMagic);
        }
        let label_magic: i32 = match read_i32_at(label_src.as_slice(), 0) {
            Some(v) => v,
            None => return Err(TrainingSetError::Truncated),
        };
        if label_magic != LABEL_MAGIC {
            return Err(TrainingSetError::LabelMagic);
        }
        let number_of_items: i32 = match read_i32_at(image_src.as_slice(), 4) {
            Some(v) => v,
            None => return Err(TrainingSetError::Truncated),
        };
        let number_of_labels: i32 = match read_i32_at(label_src.as_slice(), 4) {
            Some(v) => v,
            None => return Err(TrainingSetError::Truncated),
        };
        if number_of_labels != number_of_items {
            return Err(
                TrainingSetError::ItemCount { images: number_of_items, labels: number_of_labels },
            );
        }
        let height: i32 = match read_i32_at(image_src.as_slice(), 8) {
            Some(v) => v,
            None => return Err(TrainingSetError::Truncated),
        };
        let width: i32 = match read_i32_at(image_src.as_slice(), 12) {
            Some(v) => v,
            None => return Err(TrainingSetError::Truncated),
        };
        let number_of_pixels: i32 = match height.checked_mul(width) {
            Some(v) => v,
            None => return Err(TrainingSetError::PixelCount),
        };
        Ok(
            TrainingItemIter {
                image_src,
                label_src,
                image_at: IMAGE_HEADER_LEN,
                label_at: LABEL_HEADER_LEN,
                number_of_pixels,
            },
        )
    }
}

impl View for TrainingItemIter {
    type V = Remaining;

    closed spec fn view(&self) -> Remaining {
        Remaining {
            images: self.image_src@.skip(self.image_at as int),
            labels: self.label_src@.skip(self.label_at as int),
            number_of_pixels: self.number_of_pixels as int,
        }
    }
}

impl TrainingItemIter {
    #[verifier::type_invariant]
    spec fn within_streams(self) -> bool {
        self.image_at <= self.image_src@.len() && self.label_at <= self.label_src@.len()
    }

    /// The next item: the next image and the next label. `None` where the
    /// image stream holds no whole image any more, or the label stream no
    /// label; after that every call gives `None`.
    pub fn next(&mut self) -> (r: Option<TrainingItem>)
        ensures
            final(self)@ == old(self)@.after_next(),
            old(self)@.has_item() ==> r is Some && r->Some_0.image@ == old(self)@.images.take(
                image_len(old(self)@.number_of_pixels) as int,
            ) && r->Some_0.label == old(self)@.labels[0],
            !old(self)@.has_item() ==> r is None,
    {
        proof {
            use_type_invariant(&*self);
        }
        let mut image: Vec<u8> = Vec::new();
        let mut read: i32 = 0;
        while read < self.number_of_pixels
            invariant
                self.number_of_pixels == old(self).number_of_pixels,
                self.image_src == old(self).image_src,
                self.label_src == old(self).label_src,
                self.label_at == old(self).label_at,
                old(self).image_at <= old(self).image_src@.len(),
                self.label_at <= self.label_src@.len(),
                0 <= read,
                read as int <= image_len(self.number_of_pixels as int),
                self.image_at == old(self).image_at + read,
                self.image_at <= self.image_src@.len(),
                image@ == old(self)@.images.take(read as int),
            decreases self.number_of_pixels - read,
        {
            match read_u8_at(self.image_src.as_slice(), self.image_at) {
                Some(pixel) => {
                    assert(self.image_at < self.image_src.len());
                    image.push(pixel);
                    self.image_at = self.image_at + 1;
                    read = read + 1;
                    assert(image@ =~= old(self)@.images.take(read as int));
                },
                None => {
                    assert(self@.images =~= Seq::<u8>::empty());
                    assert(self@.labels =~= old(self)@.labels);
                    return None;
                },
            }
        }
        assert(read as int == image_len(self.number_of_pixels as int));
        match read_u8_at(self.label_src.as_slice(), self.label_at) {
            Some(label) => {
                assert(self.label_at < self.label_src.len());
                self.label_at = self.label_at + 1;
                assert(self@.images =~= old(self)@.images.skip(read as int));
                assert(self@.labels =~= old(self)@.labels.skip(1));
                Some(TrainingItem { image, label })
            },
            None => {
                assert(self@.images =~= old(self)@.images.skip(read as int));
                assert(self@.labels =~= old(self)@.labels);
                None
            },
        }
    }
}

} // verus!
