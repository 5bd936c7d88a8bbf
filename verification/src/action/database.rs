//! Contains database manipulation.
//!
//! [`MediaTable`] is the `media` relation held in memory: rows with pairwise
//! distinct identifiers, kept newest first. The functions of this module are
//! the relation's queries, each stated over the table's view, and the
//! reservation of a record under a fresh identifier.

use crate::action::identifier::{generate_hash_id, is_hash_id};
use crate::action::media::ValidatedImage;
use crate::action::relation::{
    cursor_view, first_n, holds_id, lemma_position, lemma_position_is,
    lemma_removed_row_is_gone, lemma_slot_is, lemma_stored_row_is_fetched,
    lemma_update_idempotent, listable, page, position, revised, row_of, shown, slot, table_ok,
    views,
};
use crate::entity::{opt_view, Media, MediaView};
use crate::text::str_eq;
use rand::rngs::StdRng;
use vstd::prelude::*;

verus! {

/// What the record store answers to an insertion.
#[derive(Debug)]
pub enum InsertOutcome {
    /// The row was stored; this is the stored row.
    Inserted(Media),
    /// A row with the same identifier exists already.
    Conflict,
    /// The store failed for another reason.
    Failed,
}

/// No row carries the identifier that was asked for.
#[derive(Debug, Clone, Copy, PartialEq, Eq, Structural)]
pub struct NotFound;

/// The `media` relation.
pub struct MediaTable {
    rows: Vec<Media>,
}

impl View for MediaTable {
    type V = Seq<MediaView>;

    closed spec fn view(&self) -> Seq<MediaView> {
        views(self.rows@)
    }
}

impl MediaTable {
    #[verifier::type_invariant]
    spec fn well_formed(self) -> bool {
        table_ok(views(self.rows@))
    }

    /// The empty table.
    pub fn new() -> (table: MediaTable)
        ensures
            table@ == Seq::<MediaView>::empty(),
    {
        let table = MediaTable { rows: Vec::new() };
        assert(views(table.rows@) =~= Seq::<MediaView>::empty());
        table
    }

    /// Index of the row that carries the identifier, or the number of rows.
    fn find(&self, hash_id: &str) -> (at: usize)
        ensures
            at == position(self@, hash_id@),
            at <= self.rows.len(),
            self@.len() == self.rows.len(),
            at < self.rows.len() ==> self.rows[at as int]@ == self@[at as int],
    {
        let mut at: usize = 0;
        while at < self.rows.len()
            invariant
                at <= self.rows.len(),
                forall|k: int| 0 <= k < at ==> (#[trigger] self@[k]).hash_id != hash_id@,
            decreases self.rows.len() - at,
        {
            if str_eq(self.rows[at].hash_id.as_str(), hash_id) {
                proof {
                    lemma_position_is(self@, hash_id@, at as int);
                }
                return at;
            }
            at += 1;
        }
        proof {
            lemma_position_is(self@, hash_id@, at as int);
        }
        at
    }

    /// Stores a row, unless its identifier is taken.
    pub fn insert(&mut self, row: Media) -> (outcome: InsertOutcome)
        ensures
            table_ok(final(self)@),
            holds_id(old(self)@, row@.hash_id) ==> {
                &&& outcome is Conflict
                &&& final(self)@ == old(self)@
            },
            !holds_id(old(self)@, row@.hash_id) ==> {
                &&& outcome matches InsertOutcome::Inserted(stored) && stored@ == row@
                &&& final(self)@ == old(self)@.insert(slot(old(self)@, row@.uploaded), row@)
            },
    {
        proof {
            use_type_invariant(&*self);
            lemma_position(self@, row@.hash_id);
        }
        let found = self.find(row.hash_id.as_str());
        if found < self.rows.len() {
            return InsertOutcome::Conflict;
        }
        let ghost before = self@;
        let mut at: usize = 0;
        while at < self.rows.len() && self.rows[at].uploaded >= row.uploaded
            invariant
                at <= self.rows.len(),
                self@ == before,
                self@.len() == self.rows.len(),
                forall|k: int| 0 <= k < at ==> (#[trigger] self@[k]).uploaded >= row@.uploaded,
            decreases self.rows.len() - at,
        {
            at += 1;
        }
        proof {
            lemma_slot_is(before, row@.uploaded, at as int);
        }
        let stored = row.clone();
        let mut rows: Vec<Media> = Vec::new();
        std::mem::swap(&mut rows, &mut self.rows);
        assert(views(self.rows@) =~= Seq::<MediaView>::empty());
        rows.insert(at, row);
        proof {
            assert(views(rows@) =~= before.insert(at as int, row@));
            lemma_stored_row_is_fetched(before, row@);
        }
        self.rows = rows;
        InsertOutcome::Inserted(stored)
    }
}


/// Counts all records.
pub fn fetch_records_count(table: &MediaTable) -> (count: usize)
    ensures
        count == table@.len(),
        table_ok(table@),
{
    proof {
        use_type_invariant(table);
    }
    table.rows.len()
}

/// Fetches a media record.
pub fn fetch_media(table: &MediaTable, hash_id: &str) -> (media: Option<Media>)
    ensures
        table_ok(table@),
        match media {
            Some(record) => row_of(table@, hash_id@) == Some(record@),
            None => row_of(table@, hash_id@).is_none(),
        },
{
    proof {
        use_type_invariant(table);
        lemma_position(table@, hash_id@);
    }
    let at = table.find(hash_id);
    if at < table.rows.len() {
        Some(table.rows[at].clone())
    } else {
        None
    }
}

/// Fetches media list: the newest `limit` records that are older than
/// `latest`, where one is given, private ones only where they are asked for.
pub fn fetch_media_list(
    table: &MediaTable,
    latest: Option<i128>,
    limit: usize,
    private_included: bool,
) -> (media: Vec<Media>)
    ensures
        table_ok(table@),
        views(media@) == page(table@, cursor_view(latest), limit as nat, private_included),
{
    proof {
        use_type_invariant(table);
    }
    let ghost rows = table@;
    let ghost cursor = cursor_view(latest);
    let ghost wanted = |row: MediaView| listable(row, cursor, private_included);
    let mut media: Vec<Media> = Vec::new();
    let mut at: usize = 0;
    assert(rows.take(0) =~= Seq::<MediaView>::empty());
    assert(views(media@) =~= rows.take(0).filter(wanted)) by {
        reveal(Seq::filter);
    }
    while at < table.rows.len() && media.len() < limit
        invariant
            at <= table.rows.len(),
            rows == table@,
            rows.len() == table.rows.len(),
            cursor == cursor_view(latest),
            wanted == |row: MediaView| listable(row, cursor, private_included),
            views(media@) == rows.take(at as int).filter(wanted),
            media.len() <= limit,
        decreases table.rows.len() - at,
    {
        let row = &table.rows[at];
        let newer = match latest {
            Some(bound) => row.uploaded < bound,
            None => true,
        };
        proof {
            assert(rows.take(at + 1) =~= rows.take(at as int).push(rows[at as int]));
            rows.take(at as int).lemma_filter_push(rows[at as int], wanted);
            assert(row@ == rows[at as int]);
        }
        if newer && (private_included || !row.is_private) {
            media.push(row.clone());
            assert(views(media@) =~= rows.take(at as int).filter(wanted).push(rows[at as int]));
        }
        at += 1;
    }
    proof {
        let all = shown(rows, cursor, private_included);
        assert(all == rows.filter(wanted));
        assert(rows =~= rows.take(at as int) + rows.skip(at as int));
        Seq::filter_distributes_over_add(rows.take(at as int), rows.skip(at as int), wanted);
        if at == rows.len() {
            assert(rows.take(at as int) =~= rows);
            assert(first_n(all, limit as nat) =~= all);
        } else {
            assert(views(media@).len() == limit);
            assert(first_n(all, limit as nat) =~= views(media@));
        }
    }
    media
}

/// Updates media information.
pub fn update_media_record(table: &mut MediaTable, hash_id: &str, private: bool, comment: &str) -> (updated:
    Result<Media, NotFound>)
    ensures
        table_ok(final(table)@),
        match updated {
            Ok(record) => {
                &&& holds_id(old(table)@, hash_id@)
                &&& record@ == revised(old(table)@[position(old(table)@, hash_id@)], private, comment@)
                &&& final(table)@ == old(table)@.update(position(old(table)@, hash_id@), record@)
            },
            Err(_) => !holds_id(old(table)@, hash_id@) && final(table)@ == old(table)@,
        },
{
    proof {
        use_type_invariant(&*table);
        lemma_position(table@, hash_id@);
    }
    let ghost before = table@;
    let at = table.find(hash_id);
    if at >= table.rows.len() {
        return Err(NotFound);
    }
    let mut rows: Vec<Media> = Vec::new();
    std::mem::swap(&mut rows, &mut table.rows);
    assert(views(table.rows@) =~= Seq::<MediaView>::empty());
    let mut row = rows[at].clone();
    row.is_private = private;
    row.comment = Some(comment.to_owned());
    let record = row.clone();
    rows.set(at, row);
    proof {
        assert(views(rows@) =~= before.update(at as int, record@));
        lemma_update_idempotent(before, hash_id@, private, comment@);
    }
    table.rows = rows;
    Ok(record)
}

/// Deletes a record.
pub fn remove_media_record(table: &mut MediaTable, hash_id: &str) -> (removed: Result<(), NotFound>)
    ensures
        table_ok(final(table)@),
        match removed {
            Ok(_) => holds_id(old(table)@, hash_id@) && final(table)@ == old(table)@.remove(
                position(old(table)@, hash_id@),
            ),
            Err(_) => !holds_id(old(table)@, hash_id@) && final(table)@ == old(table)@,
        },
{
    proof {
        use_type_invariant(&*table);
        lemma_position(table@, hash_id@);
    }
    let ghost before = table@;
    let at = table.find(hash_id);
    if at >= table.rows.len() {
        return Err(NotFound);
    }
    let mut rows: Vec<Media> = Vec::new();
    std::mem::swap(&mut rows, &mut table.rows);
    assert(views(table.rows@) =~= Seq::<MediaView>::empty());
    let _ = rows.remove(at);
    proof {
        assert(views(rows@) =~= before.remove(at as int));
        lemma_removed_row_is_gone(before, hash_id@);
    }
    table.rows = rows;
    Ok(())
}

/// Length of the first identifier that is tried.
pub const HASH_MIN_LENGTH: usize = 6;

/// Number of identifiers that are tried before a reservation is given up.
pub const MAX_RETRY: usize = 5;

/// Judges whether the SQLSTATE of a database error says that the
/// identifier is taken: that is the code `23505`, the violation of a
/// uniqueness constraint. Any other code, those of the other integrity
/// constraints among them, is a failure of the store.
pub fn is_conflicting(code: Option<&str>) -> (conflicting: bool)
    ensures
        conflicting == (code matches Some(sqlstate) && sqlstate@ == "23505"@),
{
    match code {
        Some(sqlstate) => str_eq(sqlstate, "23505"),
        None => false,
    }
}

/// Why no record could be reserved.
#[derive(Debug, Clone, Copy, PartialEq, Eq, Structural)]
pub enum ReserveError {
    /// Every identifier that was tried was taken.
    Exhausted,
    /// The record store failed.
    Store,
}

/// A reservation under way: the number of identifiers that were refused so
/// far and the identifier to try next.
pub struct Reservation {
    attempt: usize,
    hash_id: String,
}

/// What to do next for a reservation.
pub enum ReserveStep {
    /// Insert a record under the reservation's identifier and report how
    /// the store answered.
    Attempt(Reservation),
    /// The store holds this record: the reservation is made.
    Reserved(Media),
    /// The reservation is given up.
    Failed(ReserveError),
}

impl Reservation {
    #[verifier::type_invariant]
    spec fn well_formed(self) -> bool {
        &&& self.attempt < MAX_RETRY
        &&& self.hash_id@.len() == HASH_MIN_LENGTH + self.attempt
        &&& is_hash_id(self.hash_id@)
    }

    /// Number of identifiers that were refused so far.
    pub closed spec fn refused(self) -> nat {
        self.attempt as nat
    }

    /// The identifier to try next.
    pub closed spec fn candidate(self) -> Seq<char> {
        self.hash_id@
    }

    /// Starts a reservation with an identifier of the least length.
    pub fn begin(rng: &mut StdRng) -> (first: Reservation)
        ensures
            first.refused() == 0,
            first.candidate().len() == HASH_MIN_LENGTH,
            is_hash_id(first.candidate()),
    {
        Reservation { attempt: 0, hash_id: generate_hash_id(rng, HASH_MIN_LENGTH) }
    }

    /// The identifier to try next.
    pub fn hash_id(&self) -> (hash_id: &str)
        ensures
            hash_id@ == self.candidate(),
            self.refused() < MAX_RETRY,
            hash_id@.len() == HASH_MIN_LENGTH + self.refused(),
            is_hash_id(hash_id@),
    {
        proof {
            use_type_invariant(self);
        }
        self.hash_id.as_str()
    }

    /// Decides how the reservation goes on once the store has answered the
    /// insertion under its identifier: a stored record ends it, a taken
    /// identifier is answered with a candidate one symbol longer until
    /// `MAX_RETRY` identifiers were refused, and any other failure of the
    /// store ends it at once.
    pub fn proceed(self, outcome: InsertOutcome, rng: &mut StdRng) -> (step: ReserveStep)
        ensures
            match outcome {
                InsertOutcome::Inserted(record) => step == ReserveStep::Reserved(record),
                InsertOutcome::Failed => step == ReserveStep::Failed(ReserveError::Store),
                InsertOutcome::Conflict => if self.refused() + 1 < MAX_RETRY {
                    &&& step matches ReserveStep::Attempt(next)
                    &&& next.refused() == self.refused() + 1
                    &&& next.candidate().len() == HASH_MIN_LENGTH + next.refused()
                    &&& is_hash_id(next.candidate())
                } else {
                    step == ReserveStep::Failed(ReserveError::Exhausted)
                },
            },
    {
        proof {
            use_type_invariant(&self);
        }
        match outcome {
            InsertOutcome::Inserted(record) => ReserveStep::Reserved(record),
            InsertOutcome::Failed => ReserveStep::Failed(ReserveError::Store),
            InsertOutcome::Conflict => {
                let attempt = self.attempt + 1;
                if attempt < MAX_RETRY {
                    let hash_id = generate_hash_id(rng, HASH_MIN_LENGTH + attempt);
                    ReserveStep::Attempt(Reservation { attempt, hash_id })
                } else {
                    ReserveStep::Failed(ReserveError::Exhausted)
                }
            },
        }
    }
}

/// The record of an upload under the given identifier.
pub open spec fn new_row(
    hash_id: Seq<char>,
    validated_image: ValidatedImage,
    thumbnail: bool,
    private: bool,
    comment: Option<String>,
    now: i128,
) -> MediaView {
    MediaView {
        hash_id,
        extension: validated_image.format.extension_view(),
        has_thumbnail: thumbnail,
        is_private: private,
        width: validated_image.image@.width,
        height: validated_image.image@.height,
        filesize: validated_image.filesize as nat,
        comment: opt_view(comment),
        uploaded: now as int,
    }
}

/// The record of an upload under the given identifier.
pub fn new_media(
    hash_id: &str,
    validated_image: &ValidatedImage,
    thumbnail: bool,
    private: bool,
    comment: &Option<String>,
    now: i128,
) -> (row: Media)
    ensures
        row@ == new_row(hash_id@, *validated_image, thumbnail, private, *comment, now),
{
    let comment = match comment {
        Some(text) => Some(text.clone()),
        None => None,
    };
    Media {
        hash_id: hash_id.to_owned(),
        extension: validated_image.format.extension().to_owned(),
        has_thumbnail: thumbnail,
        is_private: private,
        width: validated_image.image.width(),
        height: validated_image.image.height(),
        filesize: validated_image.filesize,
        comment,
        uploaded: now,
    }
}

/// Whether some row carries an identifier of the given length.
pub open spec fn holds_length(rows: Seq<MediaView>, length: int) -> bool {
    exists|i: int| 0 <= i < rows.len() && (#[trigger] rows[i]).hash_id.len() == length
}

/// Reserves a database record for media: the record of the upload enters
/// the table under a fresh identifier of `HASH_MIN_LENGTH` symbols, or of
/// one symbol more for each candidate that was taken, so that the table
/// holds an identifier of every shorter length that is tried. After
/// `MAX_RETRY` taken candidates the reservation fails and the table is as
/// it was; so it succeeds at least where the table lacks an identifier of
/// one of the lengths that are tried.
pub fn reserve_media_record(
    table: &mut MediaTable,
    rng: &mut StdRng,
    validated_image: &ValidatedImage,
    thumbnail: bool,
    private: bool,
    comment: &Option<String>,
    now: i128,
) -> (reserved: Result<Media, ReserveError>)
    ensures
        table_ok(old(table)@),
        table_ok(final(table)@),
        match reserved {
            Ok(record) => {
                &&& record@ == new_row(
                    record@.hash_id,
                    *validated_image,
                    thumbnail,
                    private,
                    *comment,
                    now,
                )
                &&& is_hash_id(record@.hash_id)
                &&& HASH_MIN_LENGTH <= record@.hash_id.len() < HASH_MIN_LENGTH + MAX_RETRY
                &&& forall|length: int|
                    HASH_MIN_LENGTH <= length < record@.hash_id.len() ==> holds_length(
                        old(table)@,
                        length,
                    )
                &&& !holds_id(old(table)@, record@.hash_id)
                &&& final(table)@ == old(table)@.insert(slot(old(table)@, now as int), record@)
            },
            Err(error) => {
                &&& error == ReserveError::Exhausted
                &&& final(table)@ == old(table)@
                &&& forall|length: int|
                    HASH_MIN_LENGTH <= length < HASH_MIN_LENGTH + MAX_RETRY ==> holds_length(
                        old(table)@,
                        length,
                    )
            },
        },
{
    proof {
        use_type_invariant(&*table);
    }
    let ghost before = table@;
    let mut state = Reservation::begin(rng);
    loop
        invariant
            table@ == before,
            before == old(table)@,
            table_ok(before),
            forall|length: int|
                HASH_MIN_LENGTH <= length < HASH_MIN_LENGTH + state.refused() ==> holds_length(
                    before,
                    length,
                ),
        decreases MAX_RETRY - state.refused(),
    {
        let hash_id = state.hash_id();
        let row = new_media(hash_id, validated_image, thumbnail, private, comment, now);
        let ghost tried = state.refused();
        let outcome = table.insert(row);
        proof {
            if holds_id(before, row@.hash_id) {
                let i = choose|i: int| 0 <= i < before.len() && #[trigger] before[i].hash_id == row@.hash_id;
                assert(before[i].hash_id.len() == HASH_MIN_LENGTH + tried);
                assert(holds_length(before, HASH_MIN_LENGTH + tried));
            }
        }
        match state.proceed(outcome, rng) {
            ReserveStep::Attempt(next) => {
                state = next;
            },
            ReserveStep::Reserved(record) => {
                return Ok(record);
            },
            ReserveStep::Failed(error) => {
                return Err(error);
            },
        }
    }
}

} // verus!
