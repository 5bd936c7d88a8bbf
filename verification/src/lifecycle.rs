//! The life of a medium from upload to removal.
//!
//! [`MediaLibrary`] holds the records and the files of the service in
//! memory and takes every medium through its life as the service does:
//! an upload is validated, given a thumbnail, recorded under a fresh
//! identifier and only then written to storage; a removal takes the files
//! away before the record.

use crate::action::artifact::{
    artifact_views, artifacts_of, is_slash_free, lemma_extensions_are_slash_free,
    lemma_original_is_no_thumbnail, lemma_originals_differ, lemma_thumbnails_differ,
    first_failure, has_room, original_path_of, plan_artifacts, plan_removals, removals_of,
    settle_writes, string_views, thumbnail_path_of, ArtifactError, ArtifactStore,
    ArtifactView,
};
use crate::action::database::{
    fetch_media, fetch_media_list, fetch_records_count, holds_length, remove_media_record,
    reserve_media_record, update_media_record, MediaTable, ReserveError, HASH_MIN_LENGTH,
    MAX_RETRY,
};
use crate::action::identifier::is_hash_id;
use crate::action::media::{
    create_thumbnail, thumbnail_of, validate_image_file, validated, ImageFormat, ImageView,
    ValidationError,
};
use crate::action::relation::{
    cursor_view, holds_id, lemma_position, lemma_removed_row_is_gone, lemma_slot,
    lemma_stored_row_is_fetched, page, position, revised, row_of, slot, table_ok, views,
};
use crate::entity::{opt_view, Media, MediaView};
use rand::rngs::StdRng;
use vstd::prelude::*;

verus! {

/// Why an operation on the library failed.
#[derive(Debug, Clone, Copy, PartialEq, Eq, Structural)]
pub enum LifecycleError {
    /// The upload was refused.
    Validation(ValidationError),
    /// No record could be reserved.
    Reservation(ReserveError),
    /// A file could not be written or removed.
    Artifact(ArtifactError),
    /// No medium has the identifier.
    NotFound,
}

impl LifecycleError {
    /// Whether the failure is the caller's to mend: an upload that was
    /// refused or an identifier that no medium has. Any other failure is
    /// the service's own.
    pub fn is_rejection(self) -> (rejection: bool)
        ensures
            rejection == (self is Validation || self is NotFound),
    {
        match self {
            LifecycleError::Validation(_) => true,
            LifecycleError::NotFound => true,
            LifecycleError::Reservation(_) => false,
            LifecycleError::Artifact(_) => false,
        }
    }

    /// What the caller is told: the reason of a rejection, and nothing of
    /// what went wrong inside the service.
    pub fn message(self) -> (message: &'static str)
        ensures
            message@ == match self {
                LifecycleError::Validation(error) => match error {
                    ValidationError::UnknownType => "Cannot determine file type"@,
                    ValidationError::UnsupportedType => "Unsupported file type"@,
                    ValidationError::TypeMismatch => "Unsupported image type"@,
                    ValidationError::Undecodable => "Cannot decode image"@,
                },
                LifecycleError::NotFound => "Media not found"@,
                _ => "Internal error"@,
            },
    {
        match self {
            LifecycleError::Validation(error) => error.message(),
            LifecycleError::NotFound => "Media not found",
            LifecycleError::Reservation(_) => "Internal error",
            LifecycleError::Artifact(_) => "Internal error",
        }
    }
}

/// The record of an accepted upload under the given identifier.
pub open spec fn upload_row(
    hash_id: Seq<char>,
    format: ImageFormat,
    image: ImageView,
    filesize: nat,
    private: bool,
    comment: Option<Seq<char>>,
    now: int,
) -> MediaView {
    MediaView {
        hash_id,
        extension: format.extension_view(),
        has_thumbnail: thumbnail_of(image).is_some(),
        is_private: private,
        width: image.width,
        height: image.height,
        filesize,
        comment,
        uploaded: now,
    }
}

/// Whether `after` is `before` with the record of the upload: a record
/// under a fresh identifier of digits and lowercase letters, as long as
/// the candidates that were taken before it made it.
pub open spec fn committed(
    before: Seq<MediaView>,
    after: Seq<MediaView>,
    format: ImageFormat,
    image: ImageView,
    data: Seq<u8>,
    private: bool,
    comment: Option<Seq<char>>,
    now: int,
) -> bool {
    let at = slot(before, now);
    let row = after[at];
    &&& after == before.insert(at, row)
    &&& row == upload_row(row.hash_id, format, image, data.len(), private, comment, now)
    &&& is_hash_id(row.hash_id)
    &&& HASH_MIN_LENGTH <= row.hash_id.len() < HASH_MIN_LENGTH + MAX_RETRY
    &&& forall|length: int|
        HASH_MIN_LENGTH <= length < row.hash_id.len() ==> holds_length(before, length)
    &&& !holds_id(before, row.hash_id)
}

/// The record that an upload at the time `now` put into the table.
pub open spec fn committed_row(before: Seq<MediaView>, after: Seq<MediaView>, now: int) -> MediaView {
    after[slot(before, now)]
}

/// The storage after the files were written one after the other.
pub open spec fn with_files(store: Map<Seq<char>, Seq<u8>>, files: Seq<ArtifactView>) -> Map<
    Seq<char>,
    Seq<u8>,
>
    decreases files.len(),
{
    if files.len() == 0 {
        store
    } else {
        with_files(store.insert(files[0].0, files[0].1), files.drop_first())
    }
}

/// The storage after each of the files was handed to it: a file is
/// written where the storage has room for it at its turn and left out
/// where it has not, and the files behind it are handed on all the same.
pub open spec fn after_writes(
    store: Map<Seq<char>, Seq<u8>>,
    capacity: nat,
    files: Seq<ArtifactView>,
) -> Map<Seq<char>, Seq<u8>>
    decreases files.len(),
{
    if files.len() == 0 {
        store
    } else if has_room(store, capacity, files[0].0) {
        after_writes(store.insert(files[0].0, files[0].1), capacity, files.drop_first())
    } else {
        after_writes(store, capacity, files.drop_first())
    }
}

/// Whether the storage has room for each of the files at its turn.
pub open spec fn all_written(
    store: Map<Seq<char>, Seq<u8>>,
    capacity: nat,
    files: Seq<ArtifactView>,
) -> bool
    decreases files.len(),
{
    if files.len() == 0 {
        true
    } else {
        has_room(store, capacity, files[0].0) && all_written(
            store.insert(files[0].0, files[0].1),
            capacity,
            files.drop_first(),
        )
    }
}

/// Where the storage has room for each of the files, handing them to it
/// is writing them one after the other.
pub proof fn lemma_all_written(
    store: Map<Seq<char>, Seq<u8>>,
    capacity: nat,
    files: Seq<ArtifactView>,
)
    requires
        all_written(store, capacity, files),
    ensures
        after_writes(store, capacity, files) == with_files(store, files),
    decreases files.len(),
{
    if files.len() > 0 {
        lemma_all_written(store.insert(files[0].0, files[0].1), capacity, files.drop_first());
    }
}

/// The storage after the removal of the paths one after the other, and
/// whether every path led to a file at its turn; the removal stops at the
/// first that does not.
pub open spec fn after_removals(store: Map<Seq<char>, Seq<u8>>, paths: Seq<Seq<char>>) -> (
    Map<Seq<char>, Seq<u8>>,
    bool,
)
    decreases paths.len(),
{
    if paths.len() == 0 {
        (store, true)
    } else if !store.contains_key(paths[0]) {
        (store, false)
    } else {
        after_removals(store.remove(paths[0]), paths.drop_first())
    }
}

/// Whether the record is named as the service names its media: by an
/// identifier of digits and lowercase letters, none of them twice, and an
/// extension without path separator.
pub open spec fn well_named(row: MediaView) -> bool {
    is_hash_id(row.hash_id) && is_slash_free(row.extension)
}

/// Whether the storage holds the files of the record: its original, and
/// its thumbnail where the record says that it has one.
pub open spec fn has_files(row: MediaView, artifacts: Map<Seq<char>, Seq<u8>>) -> bool {
    &&& artifacts.contains_key(original_path_of(row.hash_id, row.extension))
    &&& row.has_thumbnail ==> artifacts.contains_key(thumbnail_path_of(row.hash_id))
}

/// Whether records and storage belong together: the records are a table,
/// each of them is well named, and the storage holds the files of each.
pub open spec fn consistent(records: Seq<MediaView>, artifacts: Map<Seq<char>, Seq<u8>>) -> bool {
    &&& table_ok(records)
    &&& forall|i: int|
        0 <= i < records.len() ==> well_named(#[trigger] records[i]) && has_files(
            records[i],
            artifacts,
        )
}

/// Writing files takes no file away, and each file that is written is
/// there afterwards.
proof fn lemma_with_files(store: Map<Seq<char>, Seq<u8>>, files: Seq<ArtifactView>)
    ensures
        forall|path: Seq<char>|
            store.contains_key(path) ==> #[trigger] with_files(store, files).contains_key(path),
        forall|k: int|
            0 <= k < files.len() ==> with_files(store, files).contains_key((#[trigger] files[k]).0),
    decreases files.len(),
{
    if files.len() > 0 {
        let next = store.insert(files[0].0, files[0].1);
        let rest = files.drop_first();
        lemma_with_files(next, rest);
        assert forall|k: int| 0 <= k < files.len() implies with_files(store, files).contains_key(
            (#[trigger] files[k]).0,
        ) by {
            if k == 0 {
                assert(next.contains_key(files[0].0));
                assert(with_files(next, rest).contains_key(files[0].0));
            } else {
                assert(rest[k - 1] == files[k]);
                assert(with_files(next, rest).contains_key(rest[k - 1].0));
            }
        }
        assert forall|path: Seq<char>| store.contains_key(path) implies #[trigger] with_files(
            store,
            files,
        ).contains_key(path) by {
            assert(next.contains_key(path));
            assert(with_files(next, rest).contains_key(path));
        }
    }
}

/// The record of an upload that was stored with its files keeps records
/// and storage together.
proof fn lemma_create_keeps_consistent(
    records: Seq<MediaView>,
    artifacts: Map<Seq<char>, Seq<u8>>,
    row: MediaView,
    files: Seq<ArtifactView>,
    data: Seq<u8>,
    thumbnail: Option<ImageView>,
)
    requires
        consistent(records, artifacts),
        well_named(row),
        !holds_id(records, row.hash_id),
        row.has_thumbnail == thumbnail.is_some(),
        artifacts_of(row, data, thumbnail) == Some(files),
    ensures
        consistent(records.insert(slot(records, row.uploaded), row), with_files(artifacts, files)),
{
    let at = slot(records, row.uploaded);
    lemma_slot(records, row.uploaded);
    lemma_stored_row_is_fetched(records, row);
    let after = records.insert(at, row);
    let stored = with_files(artifacts, files);
    lemma_with_files(artifacts, files);
    assert forall|i: int| 0 <= i < after.len() implies well_named(#[trigger] after[i])
        && has_files(after[i], stored) by {
        if i < at {
            assert(after[i] == records[i]);
        } else if i > at {
            assert(after[i] == records[i - 1]);
        } else {
            assert(after[i] == row);
            assert(files[0].0 == original_path_of(row.hash_id, row.extension));
            if row.has_thumbnail {
                assert(files[1].0 == thumbnail_path_of(row.hash_id));
            }
        }
    }
}

/// In a library whose records and storage belong together the files of a
/// record are removed without failure, and the removal of the record with
/// its files keeps them together.
proof fn lemma_delete_keeps_consistent(
    records: Seq<MediaView>,
    artifacts: Map<Seq<char>, Seq<u8>>,
    hash_id: Seq<char>,
)
    requires
        consistent(records, artifacts),
        holds_id(records, hash_id),
    ensures
        after_removals(artifacts, removals_of(records[position(records, hash_id)])).1,
        consistent(
            records.remove(position(records, hash_id)),
            after_removals(artifacts, removals_of(records[position(records, hash_id)])).0,
        ),
{
    lemma_position(records, hash_id);
    lemma_removed_row_is_gone(records, hash_id);
    let at = position(records, hash_id);
    let row = records[at];
    let paths = removals_of(row);
    let original = original_path_of(row.hash_id, row.extension);
    let thumbnail = thumbnail_path_of(row.hash_id);
    assert(well_named(row) && has_files(row, artifacts));
    lemma_original_is_no_thumbnail(row.hash_id, row.extension, row.hash_id);
    reveal_with_fuel(after_removals, 3);
    assert(paths.drop_first().len() == paths.len() - 1);
    if row.has_thumbnail {
        assert(paths[0] == original && paths[1] == thumbnail);
        assert(paths.drop_first()[0] == thumbnail);
        assert(paths.drop_first().drop_first().len() == 0);
    } else {
        assert(paths[0] == original);
    }
    let left = after_removals(artifacts, paths).0;
    let after = records.remove(at);
    assert forall|i: int| 0 <= i < after.len() implies well_named(#[trigger] after[i])
        && has_files(after[i], left) by {
        let j = if i < at { i } else { i + 1 };
        assert(after[i] == records[j]);
        let other = records[j];
        assert(well_named(other) && has_files(other, artifacts));
        assert(other.hash_id != row.hash_id);
        lemma_originals_differ(other.hash_id, other.extension, row.hash_id, row.extension);
        lemma_original_is_no_thumbnail(other.hash_id, other.extension, row.hash_id);
        lemma_original_is_no_thumbnail(row.hash_id, row.extension, other.hash_id);
        lemma_thumbnails_differ(other.hash_id, row.hash_id);
    }
}

/// In a library whose records and storage belong together no two media
/// share a file: the original and the thumbnail of one medium are at other
/// paths than those of any other medium, and at different paths themselves.
pub proof fn lemma_files_are_not_shared(
    records: Seq<MediaView>,
    artifacts: Map<Seq<char>, Seq<u8>>,
    one: int,
    other: int,
)
    requires
        consistent(records, artifacts),
        0 <= one < records.len(),
        0 <= other < records.len(),
        one != other,
    ensures
        original_path_of(records[one].hash_id, records[one].extension) != thumbnail_path_of(
            records[one].hash_id,
        ),
        original_path_of(records[one].hash_id, records[one].extension) != original_path_of(
            records[other].hash_id,
            records[other].extension,
        ),
        original_path_of(records[one].hash_id, records[one].extension) != thumbnail_path_of(
            records[other].hash_id,
        ),
        thumbnail_path_of(records[one].hash_id) != thumbnail_path_of(records[other].hash_id),
{
    let a = records[one];
    let b = records[other];
    assert(well_named(a) && well_named(b));
    assert(a.hash_id != b.hash_id);
    lemma_original_is_no_thumbnail(a.hash_id, a.extension, a.hash_id);
    lemma_original_is_no_thumbnail(a.hash_id, a.extension, b.hash_id);
    lemma_originals_differ(a.hash_id, a.extension, b.hash_id, b.extension);
    lemma_thumbnails_differ(a.hash_id, b.hash_id);
}

/// The records and files of the service.
pub struct MediaLibrary {
    records: MediaTable,
    artifacts: ArtifactStore,
}

impl MediaLibrary {
    /// The records, newest first.
    pub closed spec fn records(&self) -> Seq<MediaView> {
        self.records@
    }

    /// The files by their paths.
    pub closed spec fn artifacts(&self) -> Map<Seq<char>, Seq<u8>> {
        self.artifacts@
    }

    /// Number of files that the library's storage takes at most.
    pub closed spec fn capacity(&self) -> nat {
        self.artifacts.capacity()
    }

    /// Whether the library's records and files belong together.
    pub open spec fn is_consistent(&self) -> bool {
        consistent(self.records(), self.artifacts())
    }

    /// A library that holds nothing, with storage for as many files as
    /// can be counted.
    pub fn new() -> (library: MediaLibrary)
        ensures
            library.records() == Seq::<MediaView>::empty(),
            library.artifacts() == Map::<Seq<char>, Seq<u8>>::empty(),
            library.capacity() == usize::MAX,
            library.is_consistent(),
    {
        MediaLibrary { records: MediaTable::new(), artifacts: ArtifactStore::new() }
    }

    /// A library that holds nothing, with storage for `capacity` files at
    /// most.
    pub fn with_capacity(capacity: usize) -> (library: MediaLibrary)
        ensures
            library.records() == Seq::<MediaView>::empty(),
            library.artifacts() == Map::<Seq<char>, Seq<u8>>::empty(),
            library.capacity() == capacity,
            library.is_consistent(),
    {
        MediaLibrary {
            records: MediaTable::new(),
            artifacts: ArtifactStore::with_capacity(capacity),
        }
    }

    /// Number of media.
    pub fn count(&self) -> (count: usize)
        ensures
            count == self.records().len(),
            table_ok(self.records()),
    {
        fetch_records_count(&self.records)
    }

    /// The content of the file at the path.
    pub fn read_artifact(&self, path: &str) -> (content: Option<Vec<u8>>)
        ensures
            match content {
                Some(bytes) => self.artifacts().contains_key(path@) && self.artifacts()[path@]
                    == bytes@,
                None => !self.artifacts().contains_key(path@),
            },
    {
        self.artifacts.read(path)
    }

    /// Takes an upload into the library: validates it, derives its
    /// thumbnail, reserves its record under a fresh identifier and then
    /// hands its files to the storage, each of them whatever becomes of
    /// the other. An upload that is refused, or for which no identifier is
    /// free, leaves the library as it was. A thumbnail that cannot be
    /// encoded, or a file that the storage does not take, fails the upload
    /// after its record was reserved: the record stays, with those of its
    /// files that were written.
    pub fn create(
        &mut self,
        rng: &mut StdRng,
        filename: &str,
        data: &[u8],
        private: bool,
        comment: &Option<String>,
        now: i128,
    ) -> (created: Result<Media, LifecycleError>)
        ensures
            table_ok(old(self).records()),
            table_ok(final(self).records()),
            final(self).capacity() == old(self).capacity(),
            old(self).is_consistent() && !(created matches Err(LifecycleError::Artifact(_)))
                ==> final(self).is_consistent(),
            match created {
                Ok(record) => {
                    &&& validated(filename@, data@) matches Ok((format, image))
                    &&& committed(
                        old(self).records(),
                        final(self).records(),
                        format,
                        image,
                        data@,
                        private,
                        opt_view(*comment),
                        now as int,
                    )
                    &&& record@ == committed_row(
                        old(self).records(),
                        final(self).records(),
                        now as int,
                    )
                    &&& artifacts_of(record@, data@, thumbnail_of(image)) matches Some(files)
                    &&& all_written(old(self).artifacts(), old(self).capacity(), files)
                    &&& final(self).artifacts() == with_files(old(self).artifacts(), files)
                },
                Err(LifecycleError::Validation(error)) => {
                    &&& validated(filename@, data@) == Err::<
                        (ImageFormat, ImageView),
                        ValidationError,
                    >(error)
                    &&& final(self).records() == old(self).records()
                    &&& final(self).artifacts() == old(self).artifacts()
                },
                Err(LifecycleError::Reservation(error)) => {
                    &&& error == ReserveError::Exhausted
                    &&& validated(filename@, data@).is_ok()
                    &&& forall|length: int|
                        HASH_MIN_LENGTH <= length < HASH_MIN_LENGTH + MAX_RETRY ==> holds_length(
                            old(self).records(),
                            length,
                        )
                    &&& final(self).records() == old(self).records()
                    &&& final(self).artifacts() == old(self).artifacts()
                },
                Err(LifecycleError::Artifact(error)) => {
                    &&& validated(filename@, data@) matches Ok((format, image))
                    &&& committed(
                        old(self).records(),
                        final(self).records(),
                        format,
                        image,
                        data@,
                        private,
                        opt_view(*comment),
                        now as int,
                    )
                    &&& match artifacts_of(
                        committed_row(old(self).records(), final(self).records(), now as int),
                        data@,
                        thumbnail_of(image),
                    ) {
                        None => {
                            &&& error == ArtifactError::Encoding
                            &&& final(self).artifacts() == old(self).artifacts()
                        },
                        Some(files) => {
                            &&& error == ArtifactError::Io
                            &&& !all_written(old(self).artifacts(), old(self).capacity(), files)
                            &&& final(self).artifacts() == after_writes(
                                old(self).artifacts(),
                                old(self).capacity(),
                                files,
                            )
                        },
                    }
                },
                Err(LifecycleError::NotFound) => false,
            },
    {
        let upload = match validate_image_file(filename, data) {
            Ok(upload) => upload,
            Err(error) => {
                let _ = self.count();
                return Err(LifecycleError::Validation(error));
            },
        };
        let thumbnail = create_thumbnail(&upload.image);
        let reserved = reserve_media_record(
            &mut self.records,
            rng,
            &upload,
            thumbnail.is_some(),
            private,
            comment,
            now,
        );
        let record = match reserved {
            Ok(record) => record,
            Err(error) => {
                return Err(LifecycleError::Reservation(error));
            },
        };
        proof {
            lemma_slot(old(self).records(), now as int);
            assert(self.records()[slot(old(self).records(), now as int)] == record@);
        }
        let mut files = match plan_artifacts(&record, data, &thumbnail) {
            Ok(files) => files,
            Err(error) => {
                return Err(LifecycleError::Artifact(error));
            },
        };
        let ghost planned = artifact_views(files@);
        let ghost before = self.artifacts@;
        let ghost capacity = self.artifacts.capacity();
        let ghost recorded = self.records@;
        let mut outcomes: Vec<Result<(), ArtifactError>> = Vec::new();
        while files.len() > 0
            invariant
                self.records@ == recorded,
                self.artifacts.capacity() == capacity,
                after_writes(self.artifacts@, capacity, artifact_views(files@)) == after_writes(
                    before,
                    capacity,
                    planned,
                ),
                all_written(before, capacity, planned) == (first_failure(outcomes@).is_none()
                    && all_written(self.artifacts@, capacity, artifact_views(files@))),
                first_failure(outcomes@).is_none() || first_failure(outcomes@) == Some(
                    ArtifactError::Io,
                ),
                first_failure(outcomes@).is_some() ==> !all_written(before, capacity, planned),
            decreases files.len(),
        {
            let ghost rest = artifact_views(files@);
            let ghost done = outcomes@;
            let file = files.remove(0);
            let written = self.artifacts.write(file.path.as_str(), file.bytes);
            outcomes.push(written);
            assert(artifact_views(files@) =~= rest.drop_first());
            assert(outcomes@.drop_last() =~= done);
        }
        match settle_writes(&outcomes) {
            Ok(_) => {
                proof {
                    lemma_all_written(before, capacity, planned);
                    if old(self).is_consistent() {
                        lemma_extensions_are_slash_free(upload.format);
                        lemma_create_keeps_consistent(
                            old(self).records(),
                            before,
                            record@,
                            planned,
                            data@,
                            thumbnail_of(upload.image@),
                        );
                    }
                }
                Ok(record)
            },
            Err(error) => Err(LifecycleError::Artifact(error)),
        }
    }

    /// The record of the medium with the identifier.
    pub fn fetch(&self, hash_id: &str) -> (fetched: Result<Media, LifecycleError>)
        ensures
            table_ok(self.records()),
            match fetched {
                Ok(record) => row_of(self.records(), hash_id@) == Some(record@),
                Err(error) => error == LifecycleError::NotFound && row_of(
                    self.records(),
                    hash_id@,
                ).is_none(),
            },
    {
        match fetch_media(&self.records, hash_id) {
            Some(record) => Ok(record),
            None => Err(LifecycleError::NotFound),
        }
    }

    /// One page of records, newest first: at most `limit` of them, all
    /// older than `latest` where that is given, private ones only where
    /// `private_included` says so.
    pub fn list(&self, latest: Option<i128>, limit: usize, private_included: bool) -> (listed: Vec<
        Media,
    >)
        ensures
            table_ok(self.records()),
            views(listed@) == page(
                self.records(),
                cursor_view(latest),
                limit as nat,
                private_included,
            ),
    {
        fetch_media_list(&self.records, latest, limit, private_included)
    }

    /// Gives the medium with the identifier a new comment and privacy
    /// flag. Nothing else of the record changes, and no file does.
    pub fn update(&mut self, hash_id: &str, comment: &str, private: bool) -> (updated: Result<
        Media,
        LifecycleError,
    >)
        ensures
            table_ok(final(self).records()),
            final(self).artifacts() == old(self).artifacts(),
            final(self).capacity() == old(self).capacity(),
            old(self).is_consistent() ==> final(self).is_consistent(),
            match updated {
                Ok(record) => {
                    &&& holds_id(old(self).records(), hash_id@)
                    &&& record@ == revised(
                        old(self).records()[position(old(self).records(), hash_id@)],
                        private,
                        comment@,
                    )
                    &&& final(self).records() == old(self).records().update(
                        position(old(self).records(), hash_id@),
                        record@,
                    )
                },
                Err(error) => {
                    &&& error == LifecycleError::NotFound
                    &&& !holds_id(old(self).records(), hash_id@)
                    &&& final(self).records() == old(self).records()
                },
            },
    {
        proof {
            lemma_position(self.records(), hash_id@);
        }
        match update_media_record(&mut self.records, hash_id, private, comment) {
            Ok(record) => {
                proof {
                    if old(self).is_consistent() {
                        let at = position(old(self).records(), hash_id@);
                        assert forall|i: int| 0 <= i < self.records().len() implies well_named(
                            #[trigger] self.records()[i],
                        ) && has_files(self.records()[i], self.artifacts()) by {
                            let row = old(self).records()[i];
                            assert(well_named(row) && has_files(row, old(self).artifacts()));
                        }
                    }
                }
                Ok(record)
            },
            Err(_) => Err(LifecycleError::NotFound),
        }
    }

    /// Removes the medium with the identifier: first its original file,
    /// then its thumbnail where it has one, then its record. Where one of
    /// the files is missing the removal stops there with an error: the
    /// files before it are gone and the record stays.
    pub fn delete(&mut self, hash_id: &str) -> (deleted: Result<(), LifecycleError>)
        ensures
            table_ok(old(self).records()),
            table_ok(final(self).records()),
            final(self).capacity() == old(self).capacity(),
            old(self).is_consistent() ==> final(self).is_consistent() && !(deleted matches Err(
                LifecycleError::Artifact(_),
            )),
            match row_of(old(self).records(), hash_id@) {
                None => {
                    &&& deleted == Err::<(), LifecycleError>(LifecycleError::NotFound)
                    &&& final(self).records() == old(self).records()
                    &&& final(self).artifacts() == old(self).artifacts()
                },
                Some(row) => {
                    let (store, complete) = after_removals(
                        old(self).artifacts(),
                        removals_of(row),
                    );
                    &&& final(self).artifacts() == store
                    &&& if complete {
                        &&& deleted.is_ok()
                        &&& final(self).records() == old(self).records().remove(
                            position(old(self).records(), hash_id@),
                        )
                    } else {
                        &&& deleted == Err::<(), LifecycleError>(
                            LifecycleError::Artifact(ArtifactError::Io),
                        )
                        &&& final(self).records() == old(self).records()
                    }
                },
            },
    {
        let record = match fetch_media(&self.records, hash_id) {
            Some(record) => record,
            None => {
                return Err(LifecycleError::NotFound);
            },
        };
        let paths = plan_removals(&record);
        let ghost all = string_views(paths@);
        let ghost before = self.artifacts@;
        let ghost recorded = self.records@;
        let mut at: usize = 0;
        assert(all.skip(0) =~= all);
        proof {
            if old(self).is_consistent() {
                lemma_delete_keeps_consistent(recorded, before, hash_id@);
            }
        }
        while at < paths.len()
            invariant
                at <= paths.len(),
                all == string_views(paths@),
                all == removals_of(record@),
                self.records@ == recorded,
                recorded == old(self).records(),
                before == old(self).artifacts(),
                self.capacity() == old(self).capacity(),
                table_ok(recorded),
                row_of(recorded, hash_id@) == Some(record@),
                old(self).is_consistent() ==> after_removals(before, all).1 && consistent(
                    recorded.remove(position(recorded, hash_id@)),
                    after_removals(before, all).0,
                ),
                after_removals(before, all) == after_removals(self.artifacts@, all.skip(at as int)),
            decreases paths.len() - at,
        {
            let ghost rest = all.skip(at as int);
            assert(rest[0] == paths@[at as int]@);
            assert(rest.drop_first() =~= all.skip(at + 1));
            match self.artifacts.delete(paths[at].as_str()) {
                Ok(_) => {},
                Err(_) => {
                    return Err(LifecycleError::Artifact(ArtifactError::Io));
                },
            }
            at += 1;
        }
        assert(all.skip(at as int).len() == 0);
        let _ = remove_media_record(&mut self.records, hash_id);
        Ok(())
    }
}

} // verus!
