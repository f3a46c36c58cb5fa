use dupfinder::errors::DupfinderError;
use dupfinder::images::{
    cluster_similar_images, compute_perceptual_hash, hash_distance, image_candidates, is_supported_image,
};
use dupfinder::types::FileEntry;
use image::{DynamicImage, ImageFormat, Rgb, RgbImage};
use image_hasher::HasherConfig;
use std::io::Cursor;

fn entry(path: &str, size: u64) -> FileEntry {
    FileEntry { path: path.to_string(), size, mtime: 0, dev: 0, ino: 0 }
}

/// The bytes of a PNG file holding `img`.
fn png_bytes(img: &DynamicImage) -> Vec<u8> {
    let mut out = Cursor::new(Vec::new());
    img.write_to(&mut out, ImageFormat::Png).unwrap();
    out.into_inner()
}

/// The perceptual hash of `img`, saved as a PNG file at `path`.
fn perceptual_hash(path: &str, img: &DynamicImage) -> Vec<u8> {
    compute_perceptual_hash(path, &png_bytes(img)).unwrap()
}

/// The largest Hamming distance a similarity threshold allows (64-bit hash).
fn max_distance(similarity_threshold: f64) -> u32 {
    ((1.0 - similarity_threshold.clamp(0.0, 1.0)) * 64.0).floor() as u32
}

#[test]
fn test_identical_and_similar_images_detection() {
    let mut img1 = RgbImage::new(100, 100);
    for (x, y, pixel) in img1.enumerate_pixels_mut() {
        *pixel = Rgb([(x * 2) as u8, (y * 2) as u8, 128]);
    }
    let dynamic = DynamicImage::ImageRgb8(img1);
    let img3_resized = dynamic.resize(50, 50, image::imageops::FilterType::Nearest);
    let mut img4 = RgbImage::new(100, 100);
    for pixel in img4.pixels_mut() {
        *pixel = Rgb([255, 255, 255]);
    }
    let img4_diff = DynamicImage::ImageRgb8(img4);

    let entries = vec![
        entry("/t/img1.png", 1000),
        entry("/t/img2_copy.png", 1000),
        entry("/t/img3_resized.png", 500),
        entry("/t/img4_diff.png", 1000),
    ];
    assert_eq!(image_candidates(&entries), vec![0, 1, 2, 3]);
    let hashes = vec![
        perceptual_hash("/t/img1.png", &dynamic),
        perceptual_hash("/t/img2_copy.png", &dynamic),
        perceptual_hash("/t/img3_resized.png", &img3_resized),
        perceptual_hash("/t/img4_diff.png", &img4_diff),
    ];
    let images: Vec<(FileEntry, Vec<u8>)> = entries.iter().cloned().zip(hashes).collect();
    let report = cluster_similar_images(&images, max_distance(0.90));

    // Should cluster img1, img2, and img3 together
    assert_eq!(report.total_groups, 1);
    assert_eq!(report.total_similar_files, 2);

    let group = &report.groups[0];
    assert_eq!(group.canonical.path, "/t/img1.png");

    let matched_paths: Vec<&str> = group.similar_files.iter().map(|f| f.file.path.as_str()).collect();
    assert!(matched_paths.contains(&"/t/img2_copy.png"));
    assert!(matched_paths.contains(&"/t/img3_resized.png"));
    assert!(!matched_paths.contains(&"/t/img4_diff.png"));
    assert_eq!(report.reclaimable_bytes, 1500);
}

#[test]
fn hamming_distances() {
    assert_eq!(hash_distance(&vec![0u8; 8], &vec![0u8; 8]), 0);
    assert_eq!(hash_distance(&vec![0xFF; 8], &vec![0u8; 8]), 64);
    assert_eq!(hash_distance(&vec![0b1010_0001, 7], &vec![0b0010_0000, 7]), 2);
    // Only the bytes both hashes have count.
    assert_eq!(hash_distance(&vec![1, 0xFF, 0xFF], &vec![0]), 1);
    assert_eq!(hash_distance(&vec![], &vec![0xFF]), 0);
}

#[test]
fn clustering_takes_each_image_once_and_sorts_groups() {
    let images = vec![
        (entry("/a", 10), vec![0b0000_0000]),
        (entry("/b", 20), vec![0b1111_0000]),
        (entry("/c", 30), vec![0b0000_0001]),
        (entry("/d", 40), vec![0b1111_0001]),
        (entry("/e", 50), vec![0b0000_0011]),
        (entry("/f", 60), vec![0b1010_1010]),
    ];
    let report = cluster_similar_images(&images, 1);
    // /a gathers /c (distance 1); /b gathers /d (distance 1); /e is 1 away
    // from /c, which is taken, and 2 from /a.
    assert_eq!(report.total_groups, 2);
    assert_eq!(report.groups[0].canonical.path, "/b");
    assert_eq!(report.groups[0].similar_files[0].file.path, "/d");
    assert_eq!(report.groups[0].similar_files[0].distance, 1);
    assert_eq!(report.groups[1].canonical.path, "/a");
    assert_eq!(report.groups[1].similar_files.len(), 1);
    assert_eq!(report.groups[1].hash, vec![0]);
    assert_eq!(report.total_similar_files, 2);
    assert_eq!(report.reclaimable_bytes, 70);

    let none = cluster_similar_images(&images, 0);
    assert_eq!(none.total_groups, 0);
    let all = cluster_similar_images(&images, 8);
    assert_eq!(all.total_groups, 1);
    assert_eq!(all.total_similar_files, 5);
}

#[test]
fn candidates_are_supported_images_in_order() {
    let files = vec![entry("/a.txt", 1), entry("/b.GIF", 1), entry("/c.jpeg", 1), entry("/d", 1)];
    assert_eq!(image_candidates(&files), vec![1, 2]);
}

#[test]
fn image_extensions_ignore_case() {
    assert!(is_supported_image("/p/PHOTO.JPG"));
    assert!(is_supported_image("/p/scan.Tiff"));
    assert!(!is_supported_image("/p/vector.svg"));
    assert!(!is_supported_image("/p/noext"));
}

#[test]
fn test_corrupt_images_handled_gracefully() {
    let bytes = b"not a real image data".to_vec();
    match compute_perceptual_hash("/t/corrupt.png", &bytes) {
        Err(DupfinderError::IoError { path, .. }) => assert_eq!(path, "/t/corrupt.png"),
        other => panic!("unexpected {:?}", other),
    }
    // Images that cannot be hashed are left out, so nothing is clustered.
    let images: Vec<(FileEntry, Vec<u8>)> = Vec::new();
    assert_eq!(cluster_similar_images(&images, max_distance(0.90)).total_groups, 0);
}

#[test]
fn perceptual_hash_is_the_hashers_on_the_decoded_image() {
    let mut img = RgbImage::new(40, 30);
    for (x, y, pixel) in img.enumerate_pixels_mut() {
        *pixel = Rgb([(x * 5) as u8, (y * 7) as u8, 60]);
    }
    let dynamic = DynamicImage::ImageRgb8(img);
    let expected = HasherConfig::new().hash_size(8, 8).to_hasher().hash_image(&dynamic).as_bytes().to_vec();
    let bytes = png_bytes(&dynamic);
    let hash = compute_perceptual_hash("/t/a.png", &bytes).unwrap();
    assert_eq!(hash, expected);
    assert_eq!(hash.len(), 8);
    assert_ne!(hash, bytes[..8].to_vec());
    // The format comes from the extension: PNG bytes under `.bmp` do not decode.
    assert!(compute_perceptual_hash("/t/a.bmp", &bytes).is_err());
    assert!(compute_perceptual_hash("/t/a", &bytes).is_err());
}
