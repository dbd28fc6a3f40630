use slideshow_service::images::{parse_ordinal, segment_durations, sequence, AssetError};
use slideshow_service::transcript::{Sentence, Transcript};

fn paths(names: &[&str]) -> Vec<String> {
    names.iter().map(|s| s.to_string()).collect()
}

fn sentence(start: u64, end: u64) -> Sentence {
    Sentence { start, end, text: String::new() }
}

#[test]
fn ordinal_from_file_name() {
    assert_eq!(parse_ordinal("/home/x/reels/abc/images/image_12.png"), Some(12));
    assert_eq!(parse_ordinal("image_0.jpg"), Some(0));
    assert_eq!(parse_ordinal("dir_9/image_3"), Some(3));
    assert_eq!(parse_ordinal("7.png"), Some(7));
    assert_eq!(parse_ordinal("image_4294967295.png"), Some(4294967295));
}

#[test]
fn ordinal_missing_or_too_large() {
    assert_eq!(parse_ordinal("image_.png"), None);
    assert_eq!(parse_ordinal("image_x1.png"), None);
    assert_eq!(parse_ordinal("image_3/"), None);
    assert_eq!(parse_ordinal("image_4294967296.png"), None);
}

#[test]
fn images_sorted_by_ordinal() {
    let r = sequence(&paths(&["a/image_10.png", "a/image_2.png", "a/image_1.png"]), 3).unwrap();
    let order: Vec<&str> = r.iter().map(|a| a.path.as_str()).collect();
    assert_eq!(order, vec!["a/image_1.png", "a/image_2.png", "a/image_10.png"]);
    let ords: Vec<u32> = r.iter().map(|a| a.ordinal).collect();
    assert_eq!(ords, vec![1, 2, 10]);
}

#[test]
fn three_images_four_sentences_is_count_mismatch() {
    let r = sequence(&paths(&["image_1.png", "image_2.png", "image_3.png"]), 4);
    assert!(matches!(r, Err(AssetError::CountMismatch)));
}

#[test]
fn unparsable_ordinal_is_reported() {
    let r = sequence(&paths(&["image_1.png", "image_two.png"]), 2);
    assert!(matches!(r, Err(AssetError::UnparsableOrdinal)));
}

#[test]
fn duplicate_ordinal_is_reported() {
    let r = sequence(&paths(&["a/image_1.png", "b/image_1.jpg"]), 2);
    assert!(matches!(r, Err(AssetError::DuplicateOrdinal)));
}

#[test]
fn no_images_for_no_sentences() {
    let r = sequence(&vec![], 0).unwrap();
    assert!(r.is_empty());
}

#[test]
fn segment_durations_sum_to_total() {
    let t = Transcript::new(vec![sentence(0, 1500), sentence(1600, 4000), sentence(4000, 4250)], vec![]).unwrap();
    let d = segment_durations(&t);
    assert_eq!(d, vec![1500, 2500, 250]);
    assert_eq!(d.iter().sum::<u64>(), t.total_duration());
}
