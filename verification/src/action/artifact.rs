//! Where the files of a medium are kept.
//!
//! Every medium has its original file at `{id}.{extension}`; one with a
//! thumbnail has it at `thumbnails/{id}.jpg`. [`ArtifactStore`] is such
//! storage held in memory: a map from paths to contents.

use crate::action::identifier::{is_hash_char, is_hash_id};
use crate::action::media::{encode_image, encoding, opt_image_view, Image, ImageFormat, ImageView};
use crate::entity::{Media, MediaView};
use crate::text::str_eq;
use vstd::prelude::*;

verus! {

/// Path of the original file of a medium.
pub open spec fn original_path_of(hash_id: Seq<char>, extension: Seq<char>) -> Seq<char> {
    hash_id + seq!['.'] + extension
}

/// Path of the thumbnail of a medium.
pub open spec fn thumbnail_path_of(hash_id: Seq<char>) -> Seq<char> {
    "thumbnails/"@ + hash_id + ".jpg"@
}

/// Path of the original file of a medium.
pub fn original_path(media: &Media) -> (path: String)
    ensures
        path@ == original_path_of(media@.hash_id, media@.extension),
{
    proof {
        reveal_strlit(".");
    }
    let mut path = media.hash_id.clone();
    path.append(".");
    path.append(media.extension.as_str());
    assert("."@ =~= seq!['.']);
    path
}

/// Path of the thumbnail of a medium.
pub fn thumbnail_path(media: &Media) -> (path: String)
    ensures
        path@ == thumbnail_path_of(media@.hash_id),
{
    let mut path = String::from_str("thumbnails/");
    path.append(media.hash_id.as_str());
    path.append(".jpg");
    path
}

/// A file to be written.
#[derive(Debug)]
pub struct Artifact {
    /// Where the file goes.
    pub path: String,
    /// What the file holds.
    pub bytes: Vec<u8>,
}

/// A file as mathematical values: its path and its content.
pub type ArtifactView = (Seq<char>, Seq<u8>);

impl View for Artifact {
    type V = ArtifactView;

    open spec fn view(&self) -> ArtifactView {
        (self.path@, self.bytes@)
    }
}

/// The views of a sequence of files.
pub open spec fn artifact_views(files: Seq<Artifact>) -> Seq<ArtifactView> {
    files.map_values(|file: Artifact| file@)
}

/// The files of a medium: its original, holding the upload as it came, and
/// behind it the thumbnail as a JPEG file, where there is one.
pub open spec fn artifacts_of(
    media: MediaView,
    data: Seq<u8>,
    thumbnail: Option<ImageView>,
) -> Option<Seq<ArtifactView>> {
    let original = (original_path_of(media.hash_id, media.extension), data);
    match thumbnail {
        Some(thumbnail) => match encoding(thumbnail, ImageFormat::Jpeg) {
            Some(bytes) => Some(seq![original, (thumbnail_path_of(media.hash_id), bytes)]),
            None => None,
        },
        None => Some(seq![original]),
    }
}

/// A file could not be written or removed.
#[derive(Debug, Clone, Copy, PartialEq, Eq, Structural)]
pub enum ArtifactError {
    /// The thumbnail has no JPEG encoding.
    Encoding,
    /// The storage failed.
    Io,
}

/// The files to write for a medium, in the order of `artifacts_of`; an
/// error where the thumbnail cannot be encoded.
pub fn plan_artifacts(media: &Media, data: &[u8], thumbnail: &Option<Image>) -> (files: Result<
    Vec<Artifact>,
    ArtifactError,
>)
    ensures
        match files {
            Ok(files) => artifacts_of(media@, data@, opt_image_view(*thumbnail)) == Some(
                artifact_views(files@),
            ),
            Err(error) => error == ArtifactError::Encoding && artifacts_of(
                media@,
                data@,
                opt_image_view(*thumbnail),
            ).is_none(),
        },
{
    let mut files: Vec<Artifact> = Vec::new();
    files.push(Artifact { path: original_path(media), bytes: vstd::slice::slice_to_vec(data) });
    if let Some(thumbnail) = thumbnail {
        match encode_image(thumbnail, ImageFormat::Jpeg) {
            Ok(bytes) => {
                files.push(Artifact { path: thumbnail_path(media), bytes });
            },
            Err(_) => {
                return Err(ArtifactError::Encoding);
            },
        }
    }
    assert(artifact_views(files@) =~= artifacts_of(
        media@,
        data@,
        opt_image_view(*thumbnail),
    ).unwrap());
    Ok(files)
}

/// The paths of the files of a medium in the order of their removal: the
/// original, then the thumbnail where the medium has one.
pub open spec fn removals_of(media: MediaView) -> Seq<Seq<char>> {
    if media.has_thumbnail {
        seq![
            original_path_of(media.hash_id, media.extension),
            thumbnail_path_of(media.hash_id),
        ]
    } else {
        seq![original_path_of(media.hash_id, media.extension)]
    }
}

/// The views of a sequence of strings.
pub open spec fn string_views(texts: Seq<String>) -> Seq<Seq<char>> {
    texts.map_values(|text: String| text@)
}

/// The paths to remove for a medium, in the order of `removals_of`.
pub fn plan_removals(media: &Media) -> (paths: Vec<String>)
    ensures
        string_views(paths@) == removals_of(media@),
{
    let mut paths: Vec<String> = Vec::new();
    paths.push(original_path(media));
    if media.has_thumbnail {
        paths.push(thumbnail_path(media));
    }
    assert(string_views(paths@) =~= removals_of(media@));
    paths
}


/// The map from paths to contents that a sequence of files makes, a later
/// file replacing an earlier one at the same path.
pub open spec fn files_map(files: Seq<ArtifactView>) -> Map<Seq<char>, Seq<u8>>
    decreases files.len(),
{
    if files.len() == 0 {
        Map::empty()
    } else {
        files_map(files.drop_last()).insert(files.last().0, files.last().1)
    }
}

/// No two files share a path.
pub open spec fn paths_distinct(files: Seq<ArtifactView>) -> bool {
    forall|i: int, j: int| 0 <= i < j < files.len() ==> files[i].0 != files[j].0
}

/// Whether some file is at the path.
pub open spec fn holds_path(files: Seq<ArtifactView>, path: Seq<char>) -> bool {
    exists|i: int| 0 <= i < files.len() && (#[trigger] files[i]).0 == path
}

/// The map has a path where a file is at it.
proof fn lemma_files_map_key(files: Seq<ArtifactView>, path: Seq<char>)
    ensures
        files_map(files).contains_key(path) == holds_path(files, path),
    decreases files.len(),
{
    if files.len() > 0 {
        let front = files.drop_last();
        lemma_files_map_key(front, path);
        if holds_path(front, path) {
            let i = choose|i: int| 0 <= i < front.len() && (#[trigger] front[i]).0 == path;
            assert(files[i] == front[i]);
            assert(holds_path(files, path));
        }
        if path == files.last().0 {
            assert(files[files.len() - 1].0 == path);
        }
        if holds_path(files, path) && path != files.last().0 {
            let i = choose|i: int| 0 <= i < files.len() && (#[trigger] files[i]).0 == path;
            assert(front[i] == files[i]);
            assert(holds_path(front, path));
        }
    }
}

/// Where no two files share a path, each path leads to the content of its
/// file.
proof fn lemma_files_map_value(files: Seq<ArtifactView>, at: int)
    requires
        paths_distinct(files),
        0 <= at < files.len(),
    ensures
        files_map(files).contains_key(files[at].0),
        files_map(files)[files[at].0] == files[at].1,
    decreases files.len(),
{
    let front = files.drop_last();
    if at < front.len() {
        assert(paths_distinct(front));
        assert(front[at] == files[at]);
        lemma_files_map_value(front, at);
        assert(files[at].0 != files[files.len() - 1].0);
    }
}

/// Taking a file out of the sequence takes its path out of the map, where
/// no two files share a path.
proof fn lemma_files_map_remove(files: Seq<ArtifactView>, at: int)
    requires
        paths_distinct(files),
        0 <= at < files.len(),
    ensures
        files_map(files.remove(at)) == files_map(files).remove(files[at].0),
        paths_distinct(files.remove(at)),
    decreases files.len(),
{
    let front = files.drop_last();
    let last = files.last();
    assert(paths_distinct(front));
    assert(paths_distinct(files.remove(at))) by {
        let rest = files.remove(at);
        assert forall|i: int, j: int| 0 <= i < j < rest.len() implies rest[i].0 != rest[j].0 by {
            let a = if i < at { i } else { i + 1 };
            let b = if j < at { j } else { j + 1 };
            assert(rest[i] == files[a] && rest[j] == files[b]);
        }
    }
    if at == files.len() - 1 {
        assert(files.remove(at) =~= front);
        lemma_files_map_key(front, last.0);
        assert(!files_map(front).contains_key(last.0)) by {
            if holds_path(front, last.0) {
                let i = choose|i: int| 0 <= i < front.len() && (#[trigger] front[i]).0 == last.0;
                assert(files[i] == front[i]);
                assert(files[i].0 == files[files.len() - 1].0);
            }
        }
        assert(files_map(front) =~= files_map(files).remove(last.0));
    } else {
        lemma_files_map_remove(front, at);
        assert(files.remove(at) =~= front.remove(at).push(last));
        assert(files.remove(at).drop_last() =~= front.remove(at));
        assert(files[at].0 != files[files.len() - 1].0);
        assert(front[at] == files[at]);
        assert(files_map(files.remove(at)) =~= files_map(files).remove(files[at].0));
    }
}

/// Where no two files share a path, the map has as many paths as there
/// are files.
proof fn lemma_files_map_len(files: Seq<ArtifactView>)
    requires
        paths_distinct(files),
    ensures
        files_map(files).dom().finite(),
        files_map(files).dom().len() == files.len(),
    decreases files.len(),
{
    if files.len() > 0 {
        let front = files.drop_last();
        let last = files.last();
        assert(paths_distinct(front));
        lemma_files_map_len(front);
        lemma_files_map_key(front, last.0);
        assert(!files_map(front).contains_key(last.0)) by {
            if holds_path(front, last.0) {
                let i = choose|i: int| 0 <= i < front.len() && (#[trigger] front[i]).0 == last.0;
                assert(files[i] == front[i]);
                assert(files[i].0 == files[files.len() - 1].0);
            }
        }
        assert(files_map(files).dom() =~= files_map(front).dom().insert(last.0));
    } else {
        assert(files_map(files).dom() =~= Set::<Seq<char>>::empty());
    }
}

/// Whether storage that takes `capacity` files at most takes a file at
/// the path: it does where a file is at the path already, which the new
/// one replaces, and where it holds fewer files than it takes.
pub open spec fn has_room(store: Map<Seq<char>, Seq<u8>>, capacity: nat, path: Seq<char>) -> bool {
    store.contains_key(path) || store.dom().len() < capacity
}

/// The failure that storage answered first to a row of requests, if it
/// answered any of them with one.
pub open spec fn first_failure(outcomes: Seq<Result<(), ArtifactError>>) -> Option<ArtifactError>
    decreases outcomes.len(),
{
    if outcomes.len() == 0 {
        None
    } else {
        match first_failure(outcomes.drop_last()) {
            Some(error) => Some(error),
            None => match outcomes.last() {
                Ok(_) => None,
                Err(error) => Some(error),
            },
        }
    }
}

/// Makes one outcome of the outcomes of the writes of a medium's files,
/// which may have run side by side: success where every write succeeded,
/// else the failure of the first file that was not written.
pub fn settle_writes(outcomes: &Vec<Result<(), ArtifactError>>) -> (settled: Result<
    (),
    ArtifactError,
>)
    ensures
        settled == match first_failure(outcomes@) {
            Some(error) => Err::<(), ArtifactError>(error),
            None => Ok(()),
        },
{
    let mut at: usize = 0;
    assert(outcomes@.take(0) =~= Seq::<Result<(), ArtifactError>>::empty());
    while at < outcomes.len()
        invariant
            at <= outcomes.len(),
            first_failure(outcomes@.take(at as int)).is_none(),
        decreases outcomes.len() - at,
    {
        assert(outcomes@.take(at + 1).drop_last() =~= outcomes@.take(at as int));
        assert(outcomes@.take(at + 1).last() == outcomes@[at as int]);
        match outcomes[at] {
            Ok(_) => {},
            Err(error) => {
                proof {
                    lemma_first_failure_stays(outcomes@, at + 1);
                }
                return Err(error);
            },
        }
        at += 1;
    }
    assert(outcomes@.take(at as int) =~= outcomes@);
    Ok(())
}

/// A failure among the first outcomes is the first failure of all.
proof fn lemma_first_failure_stays(outcomes: Seq<Result<(), ArtifactError>>, count: int)
    requires
        0 <= count <= outcomes.len(),
        first_failure(outcomes.take(count)).is_some(),
    ensures
        first_failure(outcomes) == first_failure(outcomes.take(count)),
    decreases outcomes.len() - count,
{
    if count < outcomes.len() {
        assert(outcomes.take(count + 1).drop_last() =~= outcomes.take(count));
        lemma_first_failure_stays(outcomes, count + 1);
    } else {
        assert(outcomes.take(count) =~= outcomes);
    }
}

/// File storage held in memory, for a limited number of files.
pub struct ArtifactStore {
    files: Vec<Artifact>,
    limit: usize,
}

impl View for ArtifactStore {
    type V = Map<Seq<char>, Seq<u8>>;

    closed spec fn view(&self) -> Map<Seq<char>, Seq<u8>> {
        files_map(artifact_views(self.files@))
    }
}

impl ArtifactStore {
    #[verifier::type_invariant]
    spec fn well_formed(self) -> bool {
        paths_distinct(artifact_views(self.files@)) && self.files@.len() <= self.limit
    }

    /// Number of files that the storage takes at most.
    pub closed spec fn capacity(&self) -> nat {
        self.limit as nat
    }

    /// Storage that holds no file and takes as many as can be counted.
    pub fn new() -> (store: ArtifactStore)
        ensures
            store@ == Map::<Seq<char>, Seq<u8>>::empty(),
            store.capacity() == usize::MAX,
    {
        ArtifactStore::with_capacity(usize::MAX)
    }

    /// Storage that holds no file and takes `capacity` files at most.
    pub fn with_capacity(capacity: usize) -> (store: ArtifactStore)
        ensures
            store@ == Map::<Seq<char>, Seq<u8>>::empty(),
            store.capacity() == capacity,
    {
        let store = ArtifactStore { files: Vec::new(), limit: capacity };
        assert(artifact_views(store.files@) =~= Seq::<ArtifactView>::empty());
        store
    }

    /// Index of the file at the path, or the number of files where there
    /// is none.
    fn find(&self, path: &str) -> (at: usize)
        ensures
            at <= self.files.len(),
            at < self.files.len() ==> self.files[at as int]@.0 == path@,
            at < self.files.len() <==> self@.contains_key(path@),
    {
        let ghost files = artifact_views(self.files@);
        proof {
            lemma_files_map_key(files, path@);
        }
        let mut at: usize = 0;
        while at < self.files.len()
            invariant
                at <= self.files.len(),
                files == artifact_views(self.files@),
                self@.contains_key(path@) == holds_path(files, path@),
                forall|k: int| 0 <= k < at ==> (#[trigger] files[k]).0 != path@,
            decreases self.files.len() - at,
        {
            if str_eq(self.files[at].path.as_str(), path) {
                assert(files[at as int].0 == path@);
                return at;
            }
            at += 1;
        }
        assert(!holds_path(files, path@));
        at
    }

    /// The content of the file at the path.
    pub fn read(&self, path: &str) -> (content: Option<Vec<u8>>)
        ensures
            match content {
                Some(bytes) => self@.contains_key(path@) && self@[path@] == bytes@,
                None => !self@.contains_key(path@),
            },
    {
        proof {
            use_type_invariant(self);
        }
        let at = self.find(path);
        if at < self.files.len() {
            proof {
                assert(artifact_views(self.files@)[at as int] == self.files[at as int]@);
                lemma_files_map_value(artifact_views(self.files@), at as int);
            }
            Some(self.files[at].bytes.clone())
        } else {
            None
        }
    }

    /// Writes a file, in place of the one at the path where there is one;
    /// fails where the storage is full and no file is at the path.
    pub fn write(&mut self, path: &str, bytes: Vec<u8>) -> (written: Result<(), ArtifactError>)
        ensures
            final(self).capacity() == old(self).capacity(),
            if has_room(old(self)@, old(self).capacity(), path@) {
                written.is_ok() && final(self)@ == old(self)@.insert(path@, bytes@)
            } else {
                written == Err::<(), ArtifactError>(ArtifactError::Io) && final(self)@ == old(
                    self,
                )@
            },
    {
        proof {
            use_type_invariant(&*self);
            lemma_files_map_len(artifact_views(self.files@));
        }
        let ghost before = artifact_views(self.files@);
        let at = self.find(path);
        if at >= self.files.len() && self.files.len() >= self.limit {
            return Err(ArtifactError::Io);
        }
        let limit = self.limit;
        let mut files: Vec<Artifact> = Vec::new();
        std::mem::swap(&mut files, &mut self.files);
        assert(artifact_views(self.files@) =~= Seq::<ArtifactView>::empty());
        if at < files.len() {
            proof {
                lemma_files_map_remove(before, at as int);
            }
            let _ = files.remove(at);
            assert(artifact_views(files@) =~= before.remove(at as int));
        }
        let ghost between = artifact_views(files@);
        proof {
            lemma_files_map_key(between, path@);
        }
        files.push(Artifact { path: path.to_owned(), bytes });
        proof {
            let after = artifact_views(files@);
            assert(after =~= between.push((path@, bytes@)));
            assert(after.drop_last() =~= between);
            assert(files_map(after) =~= files_map(before).insert(path@, bytes@));
            assert(paths_distinct(after)) by {
                assert forall|i: int, j: int| 0 <= i < j < after.len() implies after[i].0
                    != after[j].0 by {
                    assert(after[i] == between[i]);
                    if j < between.len() {
                        assert(after[j] == between[j]);
                    } else if between[i].0 == path@ {
                        assert(holds_path(between, path@));
                    }
                }
            }
        }
        self.files = files;
        Ok(())
    }

    /// Removes the file at the path; fails where there is none.
    pub fn delete(&mut self, path: &str) -> (removed: Result<(), ArtifactError>)
        ensures
            final(self).capacity() == old(self).capacity(),
            match removed {
                Ok(_) => old(self)@.contains_key(path@) && final(self)@ == old(self)@.remove(
                    path@,
                ),
                Err(error) => error == ArtifactError::Io && !old(self)@.contains_key(path@)
                    && final(self)@ == old(self)@,
            },
    {
        proof {
            use_type_invariant(&*self);
        }
        let ghost before = artifact_views(self.files@);
        let at = self.find(path);
        if at >= self.files.len() {
            return Err(ArtifactError::Io);
        }
        let mut files: Vec<Artifact> = Vec::new();
        std::mem::swap(&mut files, &mut self.files);
        assert(artifact_views(self.files@) =~= Seq::<ArtifactView>::empty());
        proof {
            lemma_files_map_remove(before, at as int);
        }
        let _ = files.remove(at);
        assert(artifact_views(files@) =~= before.remove(at as int));
        self.files = files;
        Ok(())
    }
}


/// Whether the text holds no path separator.
pub open spec fn is_slash_free(text: Seq<char>) -> bool {
    forall|k: int| 0 <= k < text.len() ==> text[k] != '/'
}

/// The extensions of the accepted formats hold no path separator.
pub proof fn lemma_extensions_are_slash_free(format: ImageFormat)
    ensures
        is_slash_free(format.extension_view()),
{
    reveal_strlit("png");
    reveal_strlit("jpg");
    reveal_strlit("gif");
}

/// No original file is at the path of a thumbnail, where the medium of the
/// original has an identifier of digits and lowercase letters and an
/// extension without separator.
pub proof fn lemma_original_is_no_thumbnail(
    hash_id: Seq<char>,
    extension: Seq<char>,
    other_id: Seq<char>,
)
    requires
        is_hash_id(hash_id),
        is_slash_free(extension),
    ensures
        original_path_of(hash_id, extension) != thumbnail_path_of(other_id),
{
    reveal_strlit("thumbnails/");
    reveal_strlit(".jpg");
    let original = original_path_of(hash_id, extension);
    let thumbnail = thumbnail_path_of(other_id);
    if original == thumbnail {
        assert(thumbnail.len() == 11 + other_id.len() + 4);
        assert(original.len() == hash_id.len() + 1 + extension.len());
        assert(thumbnail[10] == '/');
        if 10 < hash_id.len() {
            assert(original[10] == hash_id[10]);
            assert(is_hash_char(hash_id[10]));
        } else if 10 == hash_id.len() {
            assert(original[10] == '.');
        } else {
            assert(original[10] == extension[10 - hash_id.len() - 1]);
        }
    }
}

/// Media with different identifiers of digits and lowercase letters have
/// their original files at different paths.
pub proof fn lemma_originals_differ(
    hash_id: Seq<char>,
    extension: Seq<char>,
    other_id: Seq<char>,
    other_extension: Seq<char>,
)
    requires
        is_hash_id(hash_id),
        is_hash_id(other_id),
        hash_id != other_id,
    ensures
        original_path_of(hash_id, extension) != original_path_of(other_id, other_extension),
{
    let one = original_path_of(hash_id, extension);
    let other = original_path_of(other_id, other_extension);
    if one == other {
        if hash_id.len() == other_id.len() {
            assert forall|k: int| 0 <= k < hash_id.len() implies hash_id[k] == other_id[k] by {
                assert(one[k] == hash_id[k]);
                assert(other[k] == other_id[k]);
            }
            assert(hash_id =~= other_id);
        } else if hash_id.len() < other_id.len() {
            let at = hash_id.len() as int;
            assert(one[at] == '.');
            assert(other[at] == other_id[at]);
            assert(is_hash_char(other_id[at]));
        } else {
            let at = other_id.len() as int;
            assert(other[at] == '.');
            assert(one[at] == hash_id[at]);
            assert(is_hash_char(hash_id[at]));
        }
    }
}

/// Media with different identifiers have their thumbnails at different
/// paths.
pub proof fn lemma_thumbnails_differ(hash_id: Seq<char>, other_id: Seq<char>)
    requires
        hash_id != other_id,
    ensures
        thumbnail_path_of(hash_id) != thumbnail_path_of(other_id),
{
    reveal_strlit("thumbnails/");
    reveal_strlit(".jpg");
    let one = thumbnail_path_of(hash_id);
    let other = thumbnail_path_of(other_id);
    if one == other {
        assert(one.len() == 11 + hash_id.len() + 4);
        assert(other.len() == 11 + other_id.len() + 4);
        assert forall|k: int| 0 <= k < hash_id.len() implies hash_id[k] == other_id[k] by {
            assert(one[11 + k] == hash_id[k]);
            assert(other[11 + k] == other_id[k]);
        }
        assert(hash_id =~= other_id);
    }
}

} // verus!
