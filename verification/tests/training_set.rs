use neurons::{TrainingItem, TrainingSetError};

fn be(x: i32) -> [u8; 4] {
    x.to_be_bytes()
}

fn image_stream(magic: i32, items: i32, height: i32, width: i32, pixels: &[u8]) -> Vec<u8> {
    let mut out = Vec::new();
    out.extend_from_slice(&be(magic));
    out.extend_from_slice(&be(items));
    out.extend_from_slice(&be(height));
    out.extend_from_slice(&be(width));
    out.extend_from_slice(pixels);
    out
}

fn label_stream(magic: i32, items: i32, labels: &[u8]) -> Vec<u8> {
    let mut out = Vec::new();
    out.extend_from_slice(&be(magic));
    out.extend_from_slice(&be(items));
    out.extend_from_slice(labels);
    out
}

#[test]
fn reads_items_in_order() {
    let images = image_stream(2051, 2, 2, 3, &[1, 2, 3, 4, 5, 6, 7, 8, 9, 10, 11, 12]);
    let labels = label_stream(2049, 2, &[7, 3]);
    let mut items = TrainingItem::iter_from_read(images, labels).unwrap();

    let first = items.next().unwrap();
    assert_eq!(first.image, vec![1, 2, 3, 4, 5, 6]);
    assert_eq!(first.label, 7);
    let second = items.next().unwrap();
    assert_eq!(second.image, vec![7, 8, 9, 10, 11, 12]);
    assert_eq!(second.label, 3);
    assert!(items.next().is_none());
    assert!(items.next().is_none());
}

#[test]
fn magic_numbers_are_big_endian() {
    // 2051 is 0x00000803: the same bytes in the other order are refused.
    let mut images = vec![0x03, 0x08, 0x00, 0x00];
    images.extend_from_slice(&[0, 0, 0, 0, 0, 0, 0, 1, 0, 0, 0, 1]);
    let labels = label_stream(2049, 0, &[]);
    assert_eq!(
        TrainingItem::iter_from_read(images, labels).err(),
        Some(TrainingSetError::ImageMagic)
    );

    let images = vec![0x00, 0x00, 0x08, 0x03, 0, 0, 0, 0, 0, 0, 0, 1, 0, 0, 0, 1];
    let labels = vec![0x00, 0x00, 0x08, 0x01, 0, 0, 0, 0];
    assert!(TrainingItem::iter_from_read(images, labels).is_ok());
}

#[test]
fn wrong_image_magic_is_refused() {
    let images = image_stream(2049, 1, 1, 1, &[0]);
    let labels = label_stream(2049, 1, &[0]);
    assert_eq!(
        TrainingItem::iter_from_read(images, labels).err(),
        Some(TrainingSetError::ImageMagic)
    );
}

#[test]
fn wrong_label_magic_is_refused() {
    let images = image_stream(2051, 1, 1, 1, &[0]);
    let labels = label_stream(2051, 1, &[0]);
    assert_eq!(
        TrainingItem::iter_from_read(images, labels).err(),
        Some(TrainingSetError::LabelMagic)
    );
}

#[test]
fn image_magic_is_checked_before_the_label_stream_is_read() {
    let images = image_stream(1, 1, 1, 1, &[0]);
    let labels = vec![];
    assert_eq!(
        TrainingItem::iter_from_read(images, labels).err(),
        Some(TrainingSetError::ImageMagic)
    );
}

#[test]
fn differing_item_counts_are_refused() {
    let images = image_stream(2051, 5, 1, 1, &[0]);
    let labels = label_stream(2049, 4, &[0]);
    assert_eq!(
        TrainingItem::iter_from_read(images, labels).err(),
        Some(TrainingSetError::ItemCount { images: 5, labels: 4 })
    );
}

#[test]
fn negative_item_counts_are_read_as_signed() {
    let images = image_stream(2051, -1, 1, 1, &[0]);
    let labels = label_stream(2049, 1, &[0]);
    assert_eq!(
        TrainingItem::iter_from_read(images, labels).err(),
        Some(TrainingSetError::ItemCount { images: -1, labels: 1 })
    );
}

#[test]
fn short_headers_are_refused() {
    let whole_images = image_stream(2051, 1, 1, 1, &[]);
    let whole_labels = label_stream(2049, 1, &[]);
    for cut in 0..16 {
        let images = whole_images[..cut].to_vec();
        assert_eq!(
            TrainingItem::iter_from_read(images, whole_labels.clone()).err(),
            Some(TrainingSetError::Truncated),
            "image header cut at {}",
            cut
        );
    }
    for cut in 0..8 {
        let labels = whole_labels[..cut].to_vec();
        assert_eq!(
            TrainingItem::iter_from_read(whole_images.clone(), labels).err(),
            Some(TrainingSetError::Truncated),
            "label header cut at {}",
            cut
        );
    }
    assert!(TrainingItem::iter_from_read(whole_images, whole_labels).is_ok());
}

#[test]
fn too_many_pixels_are_refused() {
    let images = image_stream(2051, 1, 65536, 65536, &[]);
    let labels = label_stream(2049, 1, &[]);
    assert_eq!(
        TrainingItem::iter_from_read(images, labels).err(),
        Some(TrainingSetError::PixelCount)
    );
    // The largest product that fits.
    let images = image_stream(2051, 1, 46340, 46340, &[]);
    let labels = label_stream(2049, 1, &[]);
    assert!(TrainingItem::iter_from_read(images, labels).is_ok());
}

#[test]
fn an_incomplete_image_ends_the_items() {
    let images = image_stream(2051, 2, 2, 2, &[1, 2, 3, 4, 5, 6]);
    let labels = label_stream(2049, 2, &[8, 9]);
    let mut items = TrainingItem::iter_from_read(images, labels).unwrap();
    let first = items.next().unwrap();
    assert_eq!(first.image, vec![1, 2, 3, 4]);
    assert_eq!(first.label, 8);
    assert!(items.next().is_none());
    assert!(items.next().is_none());
}

#[test]
fn a_missing_label_ends_the_items() {
    let images = image_stream(2051, 2, 1, 2, &[1, 2, 3, 4, 5, 6]);
    let labels = label_stream(2049, 2, &[8]);
    let mut items = TrainingItem::iter_from_read(images, labels).unwrap();
    assert_eq!(items.next().unwrap().image, vec![1, 2]);
    // The second image is read and dropped for want of a label; the third
    // stays unread, and without a label it is never handed out.
    assert!(items.next().is_none());
    assert!(items.next().is_none());
}

#[test]
fn images_without_pixels_carry_only_labels() {
    for (height, width) in [(0, 5), (-1, 3), (2, -2)] {
        let images = image_stream(2051, 2, height, width, &[]);
        let labels = label_stream(2049, 2, &[4, 5]);
        let mut items = TrainingItem::iter_from_read(images, labels).unwrap();
        let first = items.next().unwrap();
        assert!(first.image.is_empty());
        assert_eq!(first.label, 4);
        assert_eq!(items.next().unwrap().label, 5);
        assert!(items.next().is_none());
    }
}

#[test]
fn items_go_on_beyond_the_announced_count() {
    let images = image_stream(2051, 1, 1, 1, &[1, 2, 3]);
    let labels = label_stream(2049, 1, &[4, 5, 6]);
    let mut items = TrainingItem::iter_from_read(images, labels).unwrap();
    let mut seen = Vec::new();
    while let Some(item) = items.next() {
        seen.push((item.image, item.label));
    }
    assert_eq!(seen, vec![(vec![1], 4), (vec![2], 5), (vec![3], 6)]);
}
