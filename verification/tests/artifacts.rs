use kebisafe::action::artifact::{
    original_path, plan_artifacts, plan_removals, settle_writes, thumbnail_path, ArtifactError,
    ArtifactStore,
};
use kebisafe::action::media::Image;
use kebisafe::entity::Media;

fn record(hash_id: &str, extension: &str, has_thumbnail: bool) -> Media {
    Media {
        hash_id: hash_id.to_string(),
        extension: extension.to_string(),
        has_thumbnail,
        is_private: false,
        width: 1,
        height: 1,
        filesize: 1,
        comment: None,
        uploaded: 0,
    }
}

#[test]
fn original_is_kept_under_identifier_and_extension() {
    assert_eq!(original_path(&record("abc123", "png", false)), "abc123.png");
    assert_eq!(original_path(&record("0z9y8x7", "jpg", true)), "0z9y8x7.jpg");
}

#[test]
fn thumbnail_is_kept_as_jpg_in_its_directory() {
    assert_eq!(thumbnail_path(&record("abc123", "png", true)), "thumbnails/abc123.jpg");
    assert_eq!(thumbnail_path(&record("0z9y8x7", "gif", true)), "thumbnails/0z9y8x7.jpg");
}

#[test]
fn medium_without_thumbnail_has_one_file() {
    let files = plan_artifacts(&record("abc123", "gif", false), b"upload", &None).unwrap();
    assert_eq!(files.len(), 1);
    assert_eq!(files[0].path, "abc123.gif");
    assert_eq!(files[0].bytes, b"upload");
}

#[test]
fn medium_with_thumbnail_has_two_files() {
    let thumbnail = Image::from_rgba(2, 2, vec![200; 16]).unwrap();
    let files = plan_artifacts(&record("abc123", "png", true), b"upload", &Some(thumbnail)).unwrap();
    assert_eq!(files.len(), 2);
    assert_eq!(files[0].path, "abc123.png");
    assert_eq!(files[0].bytes, b"upload");
    assert_eq!(files[1].path, "thumbnails/abc123.jpg");
    assert_eq!(&files[1].bytes[..3], &[0xff, 0xd8, 0xff]);
}

#[test]
fn thumbnail_without_encoding_fails_the_plan() {
    let thumbnail = Image::from_rgba(70_000, 1, vec![0; 280_000]).unwrap();
    let planned = plan_artifacts(&record("abc123", "png", true), b"upload", &Some(thumbnail));
    assert_eq!(planned.unwrap_err(), ArtifactError::Encoding);
}

#[test]
fn original_is_removed_before_the_thumbnail() {
    assert_eq!(plan_removals(&record("abc123", "png", true)), ["abc123.png", "thumbnails/abc123.jpg"]);
    assert_eq!(plan_removals(&record("abc123", "png", false)), ["abc123.png"]);
}

#[test]
fn written_file_is_read_back() {
    let mut store = ArtifactStore::new();
    assert!(store.read("a.png").is_none());
    assert_eq!(store.write("a.png", vec![1, 2, 3]), Ok(()));
    assert_eq!(store.read("a.png"), Some(vec![1, 2, 3]));
    assert!(store.read("a.pn").is_none());
    assert!(store.read("thumbnails/a.png").is_none());
}

#[test]
fn second_write_replaces_the_file() {
    let mut store = ArtifactStore::new();
    store.write("a.png", vec![1]).unwrap();
    store.write("b.png", vec![2]).unwrap();
    store.write("a.png", vec![3, 4]).unwrap();
    assert_eq!(store.read("a.png"), Some(vec![3, 4]));
    assert_eq!(store.read("b.png"), Some(vec![2]));
}

#[test]
fn removed_file_is_gone() {
    let mut store = ArtifactStore::new();
    store.write("a.png", vec![1]).unwrap();
    store.write("b.png", vec![2]).unwrap();
    assert_eq!(store.delete("a.png"), Ok(()));
    assert!(store.read("a.png").is_none());
    assert_eq!(store.read("b.png"), Some(vec![2]));
}

#[test]
fn removal_of_a_missing_file_fails() {
    let mut store = ArtifactStore::new();
    assert_eq!(store.delete("a.png"), Err(ArtifactError::Io));
    store.write("a.png", vec![1]).unwrap();
    assert_eq!(store.delete("a.png"), Ok(()));
    assert_eq!(store.delete("a.png"), Err(ArtifactError::Io));
}

#[test]
fn full_storage_takes_no_new_file() {
    let mut store = ArtifactStore::with_capacity(2);
    assert_eq!(store.write("a.png", vec![1]), Ok(()));
    assert_eq!(store.write("b.png", vec![2]), Ok(()));
    assert_eq!(store.write("c.png", vec![3]), Err(ArtifactError::Io));
    assert!(store.read("c.png").is_none());
    assert_eq!(store.read("a.png"), Some(vec![1]));
    assert_eq!(store.read("b.png"), Some(vec![2]));
}

#[test]
fn full_storage_still_replaces_a_file() {
    let mut store = ArtifactStore::with_capacity(1);
    store.write("a.png", vec![1]).unwrap();
    assert_eq!(store.write("a.png", vec![9, 9]), Ok(()));
    assert_eq!(store.read("a.png"), Some(vec![9, 9]));
    assert_eq!(store.write("b.png", vec![2]), Err(ArtifactError::Io));
}

#[test]
fn removal_makes_room_again() {
    let mut store = ArtifactStore::with_capacity(1);
    store.write("a.png", vec![1]).unwrap();
    assert_eq!(store.write("b.png", vec![2]), Err(ArtifactError::Io));
    store.delete("a.png").unwrap();
    assert_eq!(store.write("b.png", vec![2]), Ok(()));
    assert_eq!(store.read("b.png"), Some(vec![2]));
}

#[test]
fn storage_without_room_takes_nothing() {
    let mut store = ArtifactStore::with_capacity(0);
    assert_eq!(store.write("a.png", vec![1]), Err(ArtifactError::Io));
    assert!(store.read("a.png").is_none());
}

#[test]
fn writes_succeed_together_or_fail_with_the_first_failure() {
    assert_eq!(settle_writes(&vec![]), Ok(()));
    assert_eq!(settle_writes(&vec![Ok(())]), Ok(()));
    assert_eq!(settle_writes(&vec![Ok(()), Ok(())]), Ok(()));
    assert_eq!(settle_writes(&vec![Err(ArtifactError::Io), Ok(())]), Err(ArtifactError::Io));
    assert_eq!(settle_writes(&vec![Ok(()), Err(ArtifactError::Io)]), Err(ArtifactError::Io));
    assert_eq!(
        settle_writes(&vec![Ok(()), Err(ArtifactError::Encoding), Err(ArtifactError::Io)]),
        Err(ArtifactError::Encoding)
    );
    assert_eq!(
        settle_writes(&vec![Err(ArtifactError::Io), Err(ArtifactError::Encoding)]),
        Err(ArtifactError::Io)
    );
}
