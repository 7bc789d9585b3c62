use letter_trainer::dataset::{is_png_name, load_dataset, CustomDataset, DirEntry, FileEntry, FileItem};
use letter_trainer::labels::LabelMap;
use letter_trainer::pixels::{apply_threshold, FileBatcher, LoadedItem, PixelError};
use letter_trainer::split::{shuffle_items, split_dataset, split_sizes};
use letter_trainer::training::{prepare_datasets, CustomTrainingConfig, EarlyStopping};

fn png_bytes(width: u32, height: u32, shade: u8) -> Vec<u8> {
    let img = image::GrayImage::from_pixel(width, height, image::Luma([shade]));
    let mut out = std::io::Cursor::new(Vec::new());
    img.write_to(&mut out, image::ImageFormat::Png).unwrap();
    out.into_inner()
}

fn gradient_png() -> Vec<u8> {
    let img = image::GrayImage::from_fn(28, 28, |x, _y| image::Luma([(x * 9) as u8]));
    let mut out = std::io::Cursor::new(Vec::new());
    img.write_to(&mut out, image::ImageFormat::Png).unwrap();
    out.into_inner()
}

fn file(dir: &str, name: &str) -> FileEntry {
    FileEntry { name: name.to_string(), path: format!("root/{}/{}", dir, name) }
}

fn dir(name: &str, files: Vec<FileEntry>) -> DirEntry {
    DirEntry { name: name.to_string(), is_dir: true, files }
}

fn item(path: &str, label: usize) -> FileItem {
    FileItem { image_path: path.to_string(), label }
}

#[test]
fn latin_labels_follow_alphabet() {
    let m = LabelMap::latin();
    assert_eq!(m.len(), 26);
    assert_eq!(m.get("A"), Some(0));
    assert_eq!(m.get("B"), Some(1));
    assert_eq!(m.get("M"), Some(12));
    assert_eq!(m.get("Z"), Some(25));
    assert_eq!(m.get("a"), None);
    assert_eq!(m.get("1"), None);
    assert_eq!(m.get("AB"), None);
    assert_eq!(m.get(""), None);
}

#[test]
fn png_extension_is_exact() {
    assert!(is_png_name("x.png"));
    assert!(is_png_name("a.b.png"));
    assert!(!is_png_name("x.jpg"));
    assert!(!is_png_name("x.PNG"));
    assert!(!is_png_name(".png"));
    assert!(!is_png_name("png"));
    assert!(!is_png_name("x.png.bak"));
}

#[test]
fn scan_skips_decoys() {
    let entries = vec![
        dir("1", vec![file("1", "a.png")]),
        dir("A", vec![file("A", "x.jpg"), file("A", "a.png")]),
        DirEntry { name: "B".to_string(), is_dir: false, files: vec![] },
        dir("ab", vec![file("ab", "b.png")]),
    ];
    let (items, map) = load_dataset(&entries);
    assert_eq!(map.len(), 26);
    assert_eq!(items.len(), 1);
    assert_eq!(items[0].image_path, "root/A/a.png");
    assert_eq!(items[0].label, 0);
}

#[test]
fn label_map_ignores_scan_order() {
    let e1 = vec![dir("Z", vec![file("Z", "z.png")]), dir("A", vec![file("A", "a.png")])];
    let e2 = vec![dir("A", vec![file("A", "a.png")]), dir("Z", vec![file("Z", "z.png")])];
    let (i1, m1) = load_dataset(&e1);
    let (i2, m2) = load_dataset(&e2);
    assert_eq!(m1.alphabet, m2.alphabet);
    assert_eq!(m1.get("Z"), Some(25));
    assert_eq!(i1[0].label, 25);
    assert_eq!(i2[0].label, 0);
}

#[test]
fn end_to_end_scan_and_split() {
    let entries = vec![
        dir("A", vec![file("A", "1.png"), file("A", "2.png"), file("A", "3.png")]),
        dir("B", vec![file("B", "1.png"), file("B", "2.png")]),
        dir("Z", vec![file("Z", "1.png")]),
    ];
    let (items, map) = load_dataset(&entries);
    assert_eq!(items.len(), 6);
    assert_eq!(map.len(), 26);
    assert_eq!(map.get("A"), Some(0));
    assert_eq!(map.get("B"), Some(1));
    assert_eq!(map.get("Z"), Some(25));
    let (train, valid) = prepare_datasets(12, &items);
    assert_eq!(train.len(), 4);
    assert_eq!(valid.len(), 2);
    let mut labels: Vec<usize> = Vec::new();
    for i in 0..train.len() {
        labels.push(train.get(i).unwrap().label);
    }
    for i in 0..valid.len() {
        labels.push(valid.get(i).unwrap().label);
    }
    labels.sort();
    assert_eq!(labels, vec![0, 0, 0, 1, 1, 25]);
}

#[test]
fn split_sizes_floor_eighty_percent() {
    assert_eq!(split_sizes(0), (0, 0));
    assert_eq!(split_sizes(1), (0, 1));
    assert_eq!(split_sizes(5), (4, 1));
    assert_eq!(split_sizes(6), (4, 2));
    assert_eq!(split_sizes(10), (8, 2));
    assert_eq!(split_sizes(usize::MAX).0 + split_sizes(usize::MAX).1, usize::MAX);
}

#[test]
fn split_keeps_order() {
    let items: Vec<FileItem> = (0..6).map(|i| item(&format!("p{}", i), i)).collect();
    let (train, valid) = split_dataset(items);
    let t: Vec<usize> = train.iter().map(|i| i.label).collect();
    let v: Vec<usize> = valid.iter().map(|i| i.label).collect();
    assert_eq!(t, vec![0, 1, 2, 3]);
    assert_eq!(v, vec![4, 5]);
}

#[test]
fn shuffle_is_reproducible_and_permutes() {
    let items: Vec<FileItem> = (0..50).map(|i| item(&format!("p{}", i), i)).collect();
    let a = shuffle_items(12, &items);
    let b = shuffle_items(12, &items);
    let la: Vec<usize> = a.iter().map(|i| i.label).collect();
    let lb: Vec<usize> = b.iter().map(|i| i.label).collect();
    assert_eq!(la, lb);
    let mut sorted = la.clone();
    sorted.sort();
    assert_eq!(sorted, (0..50).collect::<Vec<usize>>());
    assert_ne!(la, sorted);
    for it in a.iter() {
        assert_eq!(it.image_path, format!("p{}", it.label));
    }
}

#[test]
fn threshold_zeroes_background() {
    let raw = vec![0u8, 76, 77, 128, 255];
    assert_eq!(apply_threshold(&raw, 3, 10), vec![0, 0, 77, 128, 255]);
    assert_eq!(apply_threshold(&raw, 0, 1), raw);
    assert_eq!(apply_threshold(&raw, 1, 1), vec![0, 0, 0, 0, 255]);
    let b = FileBatcher::with_threshold(1, 2);
    assert_eq!(b.threshold_pixels(&vec![127, 128]), vec![0, 128]);
}

#[test]
fn batch_shapes_and_threshold() {
    let batcher = FileBatcher::new();
    let items = vec![
        LoadedItem { bytes: png_bytes(56, 40, 200), label: 3 },
        LoadedItem { bytes: png_bytes(28, 28, 20), label: 7 },
        LoadedItem { bytes: gradient_png(), label: 25 },
    ];
    let b = batcher.batch(&items).unwrap();
    assert_eq!(b.images.len(), 3);
    assert_eq!(b.targets, vec![3, 7, 25]);
    for img in b.images.iter() {
        assert_eq!(img.len(), 28 * 28);
        for &p in img.iter() {
            assert!(p == 0 || (p as f32) / 255.0 >= 0.3);
        }
    }
    assert!(b.images[0].iter().all(|&p| p == 200));
    assert!(b.images[1].iter().all(|&p| p == 0));
    assert_eq!(b.images[2][0], 0);
    assert_eq!(b.images[2][27], 243);
}

#[test]
fn empty_batch_is_ok() {
    let b = FileBatcher::new().batch(&Vec::new()).unwrap();
    assert!(b.images.is_empty());
    assert!(b.targets.is_empty());
}

#[test]
fn corrupt_image_aborts_batch() {
    let batcher = FileBatcher::new();
    let items = vec![
        LoadedItem { bytes: png_bytes(28, 28, 200), label: 0 },
        LoadedItem { bytes: vec![1, 2, 3, 4], label: 1 },
        LoadedItem { bytes: png_bytes(28, 28, 200), label: 2 },
    ];
    let e = batcher.batch(&items).err().unwrap();
    assert_eq!(e.index, 1);
    assert_eq!(e.kind, PixelError::Decode);
    assert_eq!(batcher.preprocess(&Vec::new()), Err(PixelError::Decode));
}

#[test]
fn early_stopping_halts_after_first_stale_epoch() {
    let mut es = EarlyStopping::new(1);
    assert!(!es.observe(500));
    assert!(!es.observe(400));
    assert!(es.observe(400));
    assert_eq!(es.epochs(), 3);
    assert_eq!(es.best_epoch(), 1);
}

#[test]
fn early_stopping_with_more_patience() {
    let mut es = EarlyStopping::new(2);
    assert!(!es.observe(500));
    assert!(!es.observe(500));
    assert!(!es.observe(300));
    assert!(!es.observe(400));
    assert!(es.observe(300));
    assert_eq!(es.best_epoch(), 2);
}

#[test]
fn config_defaults() {
    let c = CustomTrainingConfig::new();
    assert_eq!(c.num_epochs, 20);
    assert_eq!(c.batch_size, 64);
    assert_eq!(c.num_workers, 4);
    assert_eq!(c.seed, 12);
}

#[test]
fn dataset_get_past_end_is_none() {
    let ds = CustomDataset::new(vec![item("a", 0), item("b", 1)]);
    assert_eq!(ds.len(), 2);
    assert_eq!(ds.get(1).unwrap().image_path, "b");
    assert!(ds.get(2).is_none());
}

#[test]
fn batching_is_deterministic_and_compositional() {
    let batcher = FileBatcher::new();
    let a = vec![
        LoadedItem { bytes: gradient_png(), label: 1 },
        LoadedItem { bytes: png_bytes(3, 90, 150), label: 2 },
    ];
    let b = vec![LoadedItem { bytes: png_bytes(28, 28, 60), label: 4 }];
    let mut ab = vec![
        LoadedItem { bytes: gradient_png(), label: 1 },
        LoadedItem { bytes: png_bytes(3, 90, 150), label: 2 },
    ];
    ab.push(LoadedItem { bytes: png_bytes(28, 28, 60), label: 4 });
    let first = batcher.batch(&a).unwrap();
    let again = batcher.batch(&a).unwrap();
    assert_eq!(first.images, again.images);
    let rest = batcher.batch(&b).unwrap();
    let whole = batcher.batch(&ab).unwrap();
    let mut images = first.images.clone();
    images.extend(rest.images.clone());
    let mut targets = first.targets.clone();
    targets.extend(rest.targets.clone());
    assert_eq!(whole.images, images);
    assert_eq!(whole.targets, targets);
    assert!(whole.images[1].iter().all(|&p| p == 150));
    assert!(whole.images[2].iter().all(|&p| p == 0));
}

#[test]
fn cutoff_extremes_and_order() {
    let items = vec![LoadedItem { bytes: gradient_png(), label: 0 }];
    let keep = FileBatcher::with_threshold(0, 1).batch(&items).unwrap();
    let all_zero = FileBatcher::with_threshold(11, 10).batch(&items).unwrap();
    let low = FileBatcher::with_threshold(3, 10).batch(&items).unwrap();
    let high = FileBatcher::with_threshold(6, 10).batch(&items).unwrap();
    assert_eq!(keep.images[0][27], 243);
    assert_eq!(keep.images[0][1], 9);
    assert!(all_zero.images[0].iter().all(|&p| p == 0));
    for (l, h) in low.images[0].iter().zip(high.images[0].iter()) {
        assert!(*h == *l || *h == 0);
    }
    assert_eq!(low.images[0][10], 90);
    assert_eq!(high.images[0][10], 0);
}

#[test]
fn corrupt_first_item_fails_at_index_zero() {
    let items = vec![
        LoadedItem { bytes: vec![0x89, b'P', b'N', b'G'], label: 0 },
        LoadedItem { bytes: png_bytes(28, 28, 200), label: 1 },
    ];
    let e = FileBatcher::new().batch(&items).err().unwrap();
    assert_eq!(e.index, 0);
    assert_eq!(e.kind, PixelError::Decode);
}
