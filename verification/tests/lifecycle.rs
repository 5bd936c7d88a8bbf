use kebisafe::action::database::{reserve_media_record, InsertOutcome, MediaTable, ReserveError};
use kebisafe::action::identifier::generate_hash_id;
use kebisafe::action::media::{encode_image, validate_image_file, Image, ImageFormat, ValidationError};
use kebisafe::entity::Media;
use kebisafe::lifecycle::{LifecycleError, MediaLibrary};
use rand::rngs::StdRng;
use rand::SeedableRng;

fn picture(width: u32, height: u32) -> Image {
    let mut pixels = Vec::with_capacity((width * height * 4) as usize);
    for y in 0..height {
        for x in 0..width {
            pixels.extend_from_slice(&[(x % 256) as u8, (y % 256) as u8, 99, 255]);
        }
    }
    Image::from_rgba(width, height, pixels).unwrap()
}

fn upload(width: u32, height: u32, format: ImageFormat) -> Vec<u8> {
    encode_image(&picture(width, height), format).unwrap()
}

fn same(a: &Media, b: &Media) -> bool {
    a.hash_id == b.hash_id
        && a.extension == b.extension
        && a.has_thumbnail == b.has_thumbnail
        && a.is_private == b.is_private
        && a.width == b.width
        && a.height == b.height
        && a.filesize == b.filesize
        && a.comment == b.comment
        && a.uploaded == b.uploaded
}

fn is_identifier(text: &str) -> bool {
    let symbols: Vec<char> = text.chars().collect();
    symbols.iter().all(|c| c.is_ascii_digit() || c.is_ascii_lowercase())
        && (0..symbols.len()).all(|i| (i + 1..symbols.len()).all(|j| symbols[i] != symbols[j]))
}

#[test]
fn created_record_describes_the_upload() {
    let mut library = MediaLibrary::new();
    let mut rng = StdRng::seed_from_u64(11);
    let data = upload(40, 30, ImageFormat::Png);
    let comment = Some("first".to_string());
    let record = library.create(&mut rng, "cat.png", &data, true, &comment, 1_000).unwrap();
    assert_eq!(record.hash_id.len(), 6);
    assert!(is_identifier(&record.hash_id));
    assert_eq!(record.extension, "png");
    assert!(!record.has_thumbnail);
    assert!(record.is_private);
    assert_eq!((record.width, record.height), (40, 30));
    assert_eq!(record.filesize, data.len() as u64);
    assert_eq!(record.comment.as_deref(), Some("first"));
    assert_eq!(record.uploaded, 1_000);
    assert_eq!(library.count(), 1);
}

#[test]
fn created_record_is_fetched_field_for_field() {
    let mut library = MediaLibrary::new();
    let mut rng = StdRng::seed_from_u64(12);
    let small = library.create(&mut rng, "a.gif", &upload(8, 8, ImageFormat::Gif), false, &None, 5).unwrap();
    let large = library
        .create(&mut rng, "b.jpeg", &upload(400, 300, ImageFormat::Jpeg), true, &Some("big".to_string()), 6)
        .unwrap();
    assert!(same(&library.fetch(&small.hash_id).unwrap(), &small));
    assert!(same(&library.fetch(&large.hash_id).unwrap(), &large));
    assert_eq!(large.extension, "jpg");
    assert!(large.has_thumbnail);
}

#[test]
fn original_is_stored_as_it_was_uploaded() {
    let mut library = MediaLibrary::new();
    let mut rng = StdRng::seed_from_u64(13);
    let data = upload(30, 20, ImageFormat::Jpeg);
    let record = library.create(&mut rng, "photo.jpg", &data, false, &None, 1).unwrap();
    let path = format!("{}.jpg", record.hash_id);
    assert_eq!(library.read_artifact(&path), Some(data));
    assert!(library.read_artifact(&format!("thumbnails/{}.jpg", record.hash_id)).is_none());
}

#[test]
fn thumbnail_is_stored_as_jpeg_whatever_the_upload_is() {
    let mut library = MediaLibrary::new();
    let mut rng = StdRng::seed_from_u64(14);
    let data = upload(200, 800, ImageFormat::Png);
    let record = library.create(&mut rng, "tall.png", &data, false, &None, 1).unwrap();
    assert!(record.has_thumbnail);
    assert_eq!(library.read_artifact(&format!("{}.png", record.hash_id)), Some(data));
    let thumbnail = library.read_artifact(&format!("thumbnails/{}.jpg", record.hash_id)).unwrap();
    let decoded = validate_image_file("t.jpg", &thumbnail).unwrap();
    assert_eq!(decoded.format, ImageFormat::Jpeg);
    assert_eq!((decoded.image.width(), decoded.image.height()), (200, 180));
}

#[test]
fn refused_upload_leaves_the_library_as_it_was() {
    let mut library = MediaLibrary::new();
    let mut rng = StdRng::seed_from_u64(15);
    let png = upload(5, 5, ImageFormat::Png);
    let kept = library.create(&mut rng, "kept.png", &png, false, &None, 1).unwrap();
    let refusals = [
        ("spoofed.jpg", ValidationError::TypeMismatch),
        ("noextension", ValidationError::UnknownType),
        ("notes.txt", ValidationError::UnsupportedType),
    ];
    for (name, error) in refusals {
        let refused = library.create(&mut rng, name, &png, false, &None, 2).unwrap_err();
        assert_eq!(refused, LifecycleError::Validation(error));
    }
    let refused = library.create(&mut rng, "a.png", b"\x89PNG\r\n\x1a\n", false, &None, 2);
    assert_eq!(refused.unwrap_err(), LifecycleError::Validation(ValidationError::Undecodable));
    assert_eq!(library.count(), 1);
    assert_eq!(library.list(None, 10, true).len(), 1);
    assert!(same(&library.fetch(&kept.hash_id).unwrap(), &kept));
}

#[test]
fn many_uploads_get_distinct_identifiers() {
    let mut library = MediaLibrary::new();
    let mut rng = StdRng::seed_from_u64(16);
    let data = upload(4, 4, ImageFormat::Png);
    let mut identifiers = Vec::new();
    for n in 0..200 {
        let record = library.create(&mut rng, "a.png", &data, false, &None, n).unwrap();
        assert!(is_identifier(&record.hash_id), "{}", record.hash_id);
        assert!((6..=10).contains(&record.hash_id.len()));
        identifiers.push(record.hash_id);
    }
    assert_eq!(library.count(), 200);
    let mut unique = identifiers.clone();
    unique.sort();
    unique.dedup();
    assert_eq!(unique.len(), identifiers.len());
    for hash_id in &identifiers {
        assert_eq!(&library.fetch(hash_id).unwrap().hash_id, hash_id);
    }
}

#[test]
fn taken_candidate_is_answered_with_a_longer_one() {
    let data = upload(4, 4, ImageFormat::Png);
    let validated = validate_image_file("a.png", &data).unwrap();
    let taken = generate_hash_id(&mut StdRng::seed_from_u64(17), 6);
    let mut table = MediaTable::new();
    let row = Media {
        hash_id: taken.clone(),
        extension: "gif".to_string(),
        has_thumbnail: false,
        is_private: false,
        width: 1,
        height: 1,
        filesize: 1,
        comment: None,
        uploaded: 0,
    };
    assert!(matches!(table.insert(row), InsertOutcome::Inserted(_)));
    let mut rng = StdRng::seed_from_u64(17);
    let record = reserve_media_record(&mut table, &mut rng, &validated, false, false, &None, 9).unwrap();
    assert_eq!(record.hash_id.len(), 7);
    assert!(is_identifier(&record.hash_id));
    assert_ne!(record.hash_id, taken);
}

#[test]
fn five_taken_candidates_exhaust_the_reservation() {
    let data = upload(4, 4, ImageFormat::Png);
    let validated = validate_image_file("a.png", &data).unwrap();
    let mut table = MediaTable::new();
    let mut preview = StdRng::seed_from_u64(18);
    for length in 6..=10 {
        let row = Media {
            hash_id: generate_hash_id(&mut preview, length),
            extension: "gif".to_string(),
            has_thumbnail: false,
            is_private: false,
            width: 1,
            height: 1,
            filesize: 1,
            comment: None,
            uploaded: length as i128,
        };
        assert!(matches!(table.insert(row), InsertOutcome::Inserted(_)));
    }
    let mut rng = StdRng::seed_from_u64(18);
    let reserved = reserve_media_record(&mut table, &mut rng, &validated, false, false, &None, 99);
    assert_eq!(reserved.unwrap_err(), ReserveError::Exhausted);
    assert_eq!(kebisafe::action::database::fetch_records_count(&table), 5);
}

#[test]
fn unknown_identifier_is_not_found() {
    let mut library = MediaLibrary::new();
    assert_eq!(library.fetch("abc123").unwrap_err(), LifecycleError::NotFound);
    assert_eq!(library.update("abc123", "x", true).unwrap_err(), LifecycleError::NotFound);
    assert_eq!(library.delete("abc123").unwrap_err(), LifecycleError::NotFound);
}

#[test]
fn update_changes_comment_and_privacy_and_no_file() {
    let mut library = MediaLibrary::new();
    let mut rng = StdRng::seed_from_u64(19);
    let data = upload(500, 400, ImageFormat::Png);
    let record = library.create(&mut rng, "a.png", &data, false, &None, 3).unwrap();
    let original = library.read_artifact(&format!("{}.png", record.hash_id));
    let thumbnail = library.read_artifact(&format!("thumbnails/{}.jpg", record.hash_id));
    let updated = library.update(&record.hash_id, "a comment", true).unwrap();
    let expected = Media { comment: Some("a comment".to_string()), is_private: true, ..record.clone() };
    assert!(same(&updated, &expected));
    assert!(same(&library.fetch(&record.hash_id).unwrap(), &expected));
    assert_eq!(library.read_artifact(&format!("{}.png", record.hash_id)), original);
    assert_eq!(library.read_artifact(&format!("thumbnails/{}.jpg", record.hash_id)), thumbnail);
}

#[test]
fn update_twice_is_update_once() {
    let mut library = MediaLibrary::new();
    let mut rng = StdRng::seed_from_u64(20);
    let data = upload(5, 4, ImageFormat::Png);
    let record = library.create(&mut rng, "a.png", &data, false, &None, 3).unwrap();
    let once = library.update(&record.hash_id, "same", true).unwrap();
    let stored_once = library.fetch(&record.hash_id).unwrap();
    let twice = library.update(&record.hash_id, "same", true).unwrap();
    let stored_twice = library.fetch(&record.hash_id).unwrap();
    assert!(same(&once, &twice));
    assert!(same(&stored_once, &stored_twice));
    assert_eq!(library.count(), 1);
}

#[test]
fn deleted_medium_is_not_found() {
    let mut library = MediaLibrary::new();
    let mut rng = StdRng::seed_from_u64(21);
    let data = upload(5, 4, ImageFormat::Png);
    let record = library.create(&mut rng, "a.png", &data, false, &None, 3).unwrap();
    assert_eq!(library.delete(&record.hash_id), Ok(()));
    assert_eq!(library.fetch(&record.hash_id).unwrap_err(), LifecycleError::NotFound);
    assert_eq!(library.count(), 0);
}

#[test]
fn second_deletion_is_not_found() {
    let mut library = MediaLibrary::new();
    let mut rng = StdRng::seed_from_u64(22);
    let data = upload(5, 4, ImageFormat::Png);
    let record = library.create(&mut rng, "a.png", &data, false, &None, 3).unwrap();
    assert_eq!(library.delete(&record.hash_id), Ok(()));
    assert_eq!(library.delete(&record.hash_id), Err(LifecycleError::NotFound));
}

#[test]
fn deletion_removes_the_files_of_the_medium_only() {
    let mut library = MediaLibrary::new();
    let mut rng = StdRng::seed_from_u64(23);
    let data = upload(400, 400, ImageFormat::Gif);
    let gone = library.create(&mut rng, "a.gif", &data, false, &None, 3).unwrap();
    let kept = library.create(&mut rng, "b.gif", &data, false, &None, 4).unwrap();
    assert_eq!(library.delete(&gone.hash_id), Ok(()));
    assert!(library.read_artifact(&format!("{}.gif", gone.hash_id)).is_none());
    assert!(library.read_artifact(&format!("thumbnails/{}.jpg", gone.hash_id)).is_none());
    assert!(library.read_artifact(&format!("{}.gif", kept.hash_id)).is_some());
    assert!(library.read_artifact(&format!("thumbnails/{}.jpg", kept.hash_id)).is_some());
    assert!(same(&library.fetch(&kept.hash_id).unwrap(), &kept));
}

#[test]
fn listing_pages_through_the_uploads() {
    let mut library = MediaLibrary::new();
    let mut rng = StdRng::seed_from_u64(24);
    let data = upload(4, 4, ImageFormat::Png);
    let mut newest_first = Vec::new();
    for n in 0..7 {
        let record = library.create(&mut rng, "a.png", &data, n % 3 == 0, &None, 100 + n).unwrap();
        newest_first.insert(0, record);
    }
    let first = library.list(None, 3, true);
    assert_eq!(first.len(), 3);
    assert!(first.iter().zip(&newest_first[..3]).all(|(a, b)| same(a, b)));
    let second = library.list(Some(first[2].uploaded), 3, true);
    assert!(second.iter().zip(&newest_first[3..6]).all(|(a, b)| same(a, b)));
    let third = library.list(Some(second[2].uploaded), 3, true);
    assert_eq!(third.len(), 1);
    assert!(same(&third[0], &newest_first[6]));
    assert!(library.list(Some(third[0].uploaded), 3, true).is_empty());
    let public = library.list(None, 10, false);
    assert_eq!(public.len(), 4);
    assert!(public.iter().all(|r| !r.is_private));
    assert!(public.windows(2).all(|w| w[0].uploaded > w[1].uploaded));
}

#[test]
fn thumbnail_of_a_very_wide_upload_fits_the_box() {
    let mut library = MediaLibrary::new();
    let mut rng = StdRng::seed_from_u64(25);
    let wide = Image::from_rgba(70_000, 1, vec![7; 280_000]).unwrap();
    let data = encode_image(&wide, ImageFormat::Png).unwrap();
    let record = library.create(&mut rng, "wide.png", &data, false, &None, 1).unwrap();
    assert!(record.has_thumbnail);
    assert_eq!((record.width, record.height), (70_000, 1));
    let thumbnail = library.read_artifact(&format!("thumbnails/{}.jpg", record.hash_id)).unwrap();
    let decoded = validate_image_file("t.jpg", &thumbnail).unwrap();
    assert_eq!((decoded.image.width(), decoded.image.height()), (320, 1));
}

#[test]
fn refusals_are_told_and_failures_are_not() {
    let refusals = [
        (ValidationError::UnknownType, "Cannot determine file type"),
        (ValidationError::UnsupportedType, "Unsupported file type"),
        (ValidationError::TypeMismatch, "Unsupported image type"),
        (ValidationError::Undecodable, "Cannot decode image"),
    ];
    for (error, message) in refusals {
        assert_eq!(error.message(), message);
        assert!(LifecycleError::Validation(error).is_rejection());
        assert_eq!(LifecycleError::Validation(error).message(), message);
    }
    assert!(LifecycleError::NotFound.is_rejection());
    assert_eq!(LifecycleError::NotFound.message(), "Media not found");
    let failures = [
        LifecycleError::Reservation(ReserveError::Exhausted),
        LifecycleError::Reservation(ReserveError::Store),
        LifecycleError::Artifact(kebisafe::action::artifact::ArtifactError::Io),
        LifecycleError::Artifact(kebisafe::action::artifact::ArtifactError::Encoding),
    ];
    for failure in failures {
        assert!(!failure.is_rejection());
        assert_eq!(failure.message(), "Internal error");
    }
}

#[test]
fn upload_fails_once_every_candidate_is_taken() {
    let mut library = MediaLibrary::new();
    let data = upload(4, 4, ImageFormat::Png);
    for length in 6..=10 {
        let mut rng = StdRng::seed_from_u64(26);
        let record = library.create(&mut rng, "a.png", &data, false, &None, 1).unwrap();
        assert_eq!(record.hash_id.len(), length);
    }
    let mut rng = StdRng::seed_from_u64(26);
    let failed = library.create(&mut rng, "a.png", &data, false, &None, 2);
    assert_eq!(failed.unwrap_err(), LifecycleError::Reservation(ReserveError::Exhausted));
    assert_eq!(library.count(), 5);
    let mut other = StdRng::seed_from_u64(27);
    assert!(library.create(&mut other, "a.png", &data, false, &None, 3).is_ok());
}

#[test]
fn upload_fails_where_the_storage_takes_no_file() {
    let mut library = MediaLibrary::with_capacity(0);
    let mut rng = StdRng::seed_from_u64(28);
    let data = upload(5, 4, ImageFormat::Png);
    let failed = library.create(&mut rng, "a.png", &data, false, &None, 1);
    let io = LifecycleError::Artifact(kebisafe::action::artifact::ArtifactError::Io);
    assert_eq!(failed.unwrap_err(), io);
    // The record was reserved before the write was tried, and stays.
    assert_eq!(library.count(), 1);
    let orphan = library.list(None, 1, true).remove(0);
    assert_eq!((orphan.width, orphan.height), (5, 4));
    assert!(library.read_artifact(&format!("{}.png", orphan.hash_id)).is_none());
    assert!(!io.is_rejection());
    assert_eq!(io.message(), "Internal error");
}

#[test]
fn upload_whose_thumbnail_finds_no_room_keeps_its_original() {
    let mut library = MediaLibrary::with_capacity(1);
    let mut rng = StdRng::seed_from_u64(29);
    let data = upload(400, 300, ImageFormat::Png);
    let failed = library.create(&mut rng, "a.png", &data, false, &None, 1);
    assert_eq!(
        failed.unwrap_err(),
        LifecycleError::Artifact(kebisafe::action::artifact::ArtifactError::Io)
    );
    let orphan = library.list(None, 1, true).remove(0);
    assert!(orphan.has_thumbnail);
    assert_eq!(library.read_artifact(&format!("{}.png", orphan.hash_id)), Some(data));
    assert!(library.read_artifact(&format!("thumbnails/{}.jpg", orphan.hash_id)).is_none());
}

#[test]
fn removal_of_a_medium_without_its_files_stops_at_the_missing_file() {
    let mut library = MediaLibrary::with_capacity(1);
    let mut rng = StdRng::seed_from_u64(30);
    let data = upload(400, 300, ImageFormat::Png);
    assert!(library.create(&mut rng, "a.png", &data, false, &None, 1).is_err());
    let orphan = library.list(None, 1, true).remove(0);
    let io = LifecycleError::Artifact(kebisafe::action::artifact::ArtifactError::Io);
    // The original is removed, the thumbnail is missing: the record stays.
    assert_eq!(library.delete(&orphan.hash_id), Err(io));
    assert!(library.read_artifact(&format!("{}.png", orphan.hash_id)).is_none());
    assert!(library.fetch(&orphan.hash_id).is_ok());
    assert_eq!(library.delete(&orphan.hash_id), Err(io));
}

#[test]
fn storage_with_room_for_both_files_takes_the_upload() {
    let mut library = MediaLibrary::with_capacity(2);
    let mut rng = StdRng::seed_from_u64(31);
    let data = upload(400, 300, ImageFormat::Png);
    let record = library.create(&mut rng, "a.png", &data, false, &None, 1).unwrap();
    assert!(library.read_artifact(&format!("{}.png", record.hash_id)).is_some());
    assert!(library.read_artifact(&format!("thumbnails/{}.jpg", record.hash_id)).is_some());
    let small = upload(4, 3, ImageFormat::Png);
    assert!(library.create(&mut rng, "b.png", &small, false, &None, 2).is_err());
    assert_eq!(library.delete(&record.hash_id), Ok(()));
    assert!(library.create(&mut rng, "b.png", &small, false, &None, 3).is_ok());
}
