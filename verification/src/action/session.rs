//! Contains session manipulation types and functions.

use crate::entity::Media;
use crate::link::{
    address, joined_url, original_link, original_link_of, thumbnail_link, thumbnail_link_of,
};
use crate::number::{decimal, parse_i64, parsed_i64, to_decimal};
use crate::text::{
    bytes_as_str, chars_eq, chars_of, split_whitespace, string_from_chars, unicode_words,
    utf8_text,
};
use aes_gcm_siv::aead::generic_array::GenericArray;
use aes_gcm_siv::aead::{Aead, Error as AeadError, NewAead};
use aes_gcm_siv::Aes256GcmSiv;
use data_encoding::{DecodeError, BASE64};
use rand::rngs::StdRng;
use rand::Rng;
use vstd::prelude::*;
use vstd::string::StringSliceAdditionalSpecFns;
use vstd::utf8::encode_utf8;

verus! {

/// Represents an account information.
#[derive(Debug, Default)]
pub struct Account {
    pub name: String,
}

/// Represents a flash message.
#[derive(Debug, PartialEq, Eq, PartialOrd, Ord)]
pub enum Flash {
    Info(String),
    Warning(String),
    Error(String),
}

/// A flash message as mathematical values.
pub ghost enum FlashView {
    Info(Seq<char>),
    Warning(Seq<char>),
    Error(Seq<char>),
}

impl View for Flash {
    type V = FlashView;

    open spec fn view(&self) -> FlashView {
        match self {
            Flash::Info(text) => FlashView::Info(text@),
            Flash::Warning(text) => FlashView::Warning(text@),
            Flash::Error(text) => FlashView::Error(text@),
        }
    }
}

impl Clone for Flash {
    fn clone(&self) -> (copy: Flash)
        ensures
            copy@ == self@,
    {
        match self {
            Flash::Info(text) => Flash::Info(text.clone()),
            Flash::Warning(text) => Flash::Warning(text.clone()),
            Flash::Error(text) => Flash::Error(text.clone()),
        }
    }
}

/// Represents common session data.
#[derive(Debug)]
pub struct Common {
    /// Address at which the service is hosted.
    pub hosted_at: String,
    pub account: Option<Account>,
    pub flashes: Vec<Flash>,
    pub csrf: String,
}

/// The address of a path of the service, empty where there is none.
pub open spec fn permalink_of(hosted_at: Seq<char>, path: Seq<char>) -> Seq<char> {
    match joined_url(hosted_at, path) {
        Some(url) => url,
        None => Seq::empty(),
    }
}

impl Common {
    /// Generates original media permalink.
    pub fn permalink_original(&self, media: &Media) -> (permalink: String)
        ensures
            permalink@ == permalink_of(self.hosted_at@, original_link_of(media@)),
    {
        let relative = original_link(media);
        match address(self.hosted_at.as_str(), relative.as_str()) {
            Ok(url) => url,
            Err(_) => String::new(),
        }
    }

    /// Generates thumbnail media permalink: that of the thumbnail where
    /// the medium has one, that of the original where it has none.
    pub fn permalink_thumbnail(&self, media: &Media) -> (permalink: String)
        ensures
            permalink@ == if media@.has_thumbnail {
                permalink_of(self.hosted_at@, thumbnail_link_of(media@))
            } else {
                permalink_of(self.hosted_at@, original_link_of(media@))
            },
    {
        if media.has_thumbnail {
            let relative = thumbnail_link(media);
            match address(self.hosted_at.as_str(), relative.as_str()) {
                Ok(url) => url,
                Err(_) => String::new(),
            }
        } else {
            self.permalink_original(media)
        }
    }
}


/// Seconds for which a token holds.
pub const TOKEN_EXPIRY: i64 = 86400;

/// Length of the key that tokens are sealed with, in bytes.
pub const KEY_LENGTH: usize = 32;

/// Length of the nonce that a token begins with, in bytes.
pub const NONCE_LENGTH: usize = 12;

/// Why a token could not be made or does not hold.
#[derive(Debug, Clone, Copy, PartialEq, Eq, Structural)]
pub enum TokenError {
    /// The key is not of `KEY_LENGTH` bytes.
    Key,
    /// The token could not be sealed.
    Encryption,
    /// On verification: the token is no Base64 text, or longer than the
    /// decoder takes.
    Encoding,
    /// On sealing: nonce and sealed text are together longer than the
    /// encoder takes. On verification: the token is shorter than a nonce.
    Length,
    /// The token was not sealed with the key.
    Decryption,
    /// What the token holds is no text.
    Text,
    /// What the token holds is not a session and a time.
    Structure,
    /// The token was made for another session.
    Session,
    /// The token was made more than `TOKEN_EXPIRY` seconds ago.
    Expired,
}

/// The Base64 text of bytes, as data-encoding writes it.
pub uninterp spec fn base64_text(bytes: Seq<u8>) -> Seq<char>;

/// The bytes that data-encoding reads from Base64 text given as bytes;
/// `None` where the text is no Base64.
pub uninterp spec fn base64_bytes(text: Seq<u8>) -> Option<Seq<u8>>;

/// What AES-256-GCM-SIV makes of a plain text under a key and a nonce;
/// `None` where it makes nothing.
pub uninterp spec fn sealed(key: Seq<u8>, nonce: Seq<u8>, plain: Seq<u8>) -> Option<Seq<u8>>;

/// The plain text that AES-256-GCM-SIV reads from a sealed text under a
/// key and a nonce; `None` where the text was not sealed with them.
pub uninterp spec fn opened(key: Seq<u8>, nonce: Seq<u8>, cipher: Seq<u8>) -> Option<Seq<u8>>;

/// `DecodeError` of data-encoding: what the decoding of a text fails with,
/// handed through as it is; nothing is said of what it holds.
#[verifier::external_type_specification]
#[verifier::external_body]
pub struct ExDecodeError(DecodeError);

/// `Error` of aead: what sealing or opening fails with, handed through as
/// it is; nothing is said of what it holds.
#[verifier::external_type_specification]
#[verifier::external_body]
pub struct ExAeadError(AeadError);

/// `BASE64.encode` of data-encoding: the Base64 text of the bytes.
#[verifier::external_body]
fn encode(bytes: &[u8]) -> (text: String)
    requires
        bytes@.len() <= usize::MAX / 512,
    ensures
        text@ == base64_text(bytes@),
{
    BASE64.encode(bytes)
}

/// `BASE64.decode` of data-encoding: the bytes that the text stands for,
/// or the error that the text is met with.
#[verifier::external_body]
fn decode(text: &[u8]) -> (bytes: Result<Vec<u8>, DecodeError>)
    requires
        text@.len() <= usize::MAX / 8,
    ensures
        match bytes {
            Ok(bytes) => base64_bytes(text@) == Some(bytes@),
            Err(_) => base64_bytes(text@).is_none(),
        },
{
    BASE64.decode(text)
}

/// `Aead::encrypt` of the AES-256-GCM-SIV cipher made of the key: the
/// sealed text, or the cipher's error.
#[verifier::external_body]
fn encrypt(key: &[u8], nonce: &[u8], plain: &[u8]) -> (cipher: Result<Vec<u8>, AeadError>)
    requires
        key@.len() == KEY_LENGTH,
        nonce@.len() == NONCE_LENGTH,
    ensures
        match cipher {
            Ok(cipher) => sealed(key@, nonce@, plain@) == Some(cipher@),
            Err(_) => sealed(key@, nonce@, plain@).is_none(),
        },
{
    let cipher = Aes256GcmSiv::new(GenericArray::from_slice(key));
    cipher.encrypt(GenericArray::from_slice(nonce), plain)
}

/// `Aead::decrypt` of the AES-256-GCM-SIV cipher made of the key: the
/// plain text, or the cipher's error.
#[verifier::external_body]
fn decrypt(key: &[u8], nonce: &[u8], cipher: &[u8]) -> (plain: Result<Vec<u8>, AeadError>)
    requires
        key@.len() == KEY_LENGTH,
        nonce@.len() == NONCE_LENGTH,
    ensures
        match plain {
            Ok(plain) => opened(key@, nonce@, cipher@) == Some(plain@),
            Err(_) => opened(key@, nonce@, cipher@).is_none(),
        },
{
    let opener = Aes256GcmSiv::new(GenericArray::from_slice(key));
    opener.decrypt(GenericArray::from_slice(nonce), cipher)
}

/// `Rng::gen` of rand for twelve bytes: a nonce that the generator
/// decides.
#[verifier::external_body]
fn random_nonce(rng: &mut StdRng) -> (nonce: [u8; 12]) {
    rng.gen::<[u8; 12]>()
}

/// What a token holds: the session it was made for and the time it was
/// made at, in seconds since the Unix epoch.
pub open spec fn token_text(session_id: Seq<char>, now: int) -> Seq<char> {
    session_id + seq![' '] + decimal(now)
}

/// The token for a session at a time, sealed with the key under the
/// nonce: the Base64 text of the nonce and the sealed text behind it.
pub open spec fn token_of(
    key: Seq<u8>,
    nonce: Seq<u8>,
    session_id: Seq<char>,
    now: int,
) -> Result<Seq<char>, TokenError> {
    if key.len() != KEY_LENGTH {
        Err(TokenError::Key)
    } else {
        match sealed(key, nonce, encode_utf8(token_text(session_id, now))) {
            Some(cipher) => if (nonce + cipher).len() <= usize::MAX / 512 {
                Ok(base64_text(nonce + cipher))
            } else {
                Err(TokenError::Length)
            },
            None => Err(TokenError::Encryption),
        }
    }
}

/// The view of a token or of the error in its place.
pub open spec fn token_view(token: Result<String, TokenError>) -> Result<Seq<char>, TokenError> {
    match token {
        Ok(token) => Ok(token@),
        Err(error) => Err(error),
    }
}

/// Seals the token for a session at a time with the key under the nonce.
pub fn seal_csrf_token(key: &[u8], nonce: &[u8; 12], session_id: &str, now: i64) -> (token:
    Result<String, TokenError>)
    ensures
        token_view(token) == token_of(key@, nonce@, session_id@, now as int),
{
    if key.len() != KEY_LENGTH {
        return Err(TokenError::Key);
    }
    let nonce = nonce.as_slice();
    let mut plain_text = session_id.to_owned();
    plain_text.append(" ");
    plain_text.append(to_decimal(now).as_str());
    proof {
        reveal_strlit(" ");
        assert(" "@ =~= seq![' ']);
    }
    let mut cipher_bytes = match encrypt(key, nonce, plain_text.as_str().as_bytes()) {
        Ok(cipher) => cipher,
        Err(_) => {
            return Err(TokenError::Encryption);
        },
    };
    let mut bytes = vstd::slice::slice_to_vec(nonce);
    bytes.append(&mut cipher_bytes);
    if bytes.len() > usize::MAX / 512 {
        return Err(TokenError::Length);
    }
    Ok(encode(bytes.as_slice()))
}

/// Generates a CSRF token: the token for the session at the time, sealed
/// with the key under a nonce that the generator decides.
pub fn generate_csrf_token(key: &[u8], session_id: &str, now: i64, rng: &mut StdRng) -> (token:
    Result<String, TokenError>)
    ensures
        exists|nonce: Seq<u8>|
            nonce.len() == NONCE_LENGTH && token_view(token) == #[trigger] token_of(
                key@,
                nonce,
                session_id@,
                now as int,
            ),
{
    let nonce = random_nonce(rng);
    let token = seal_csrf_token(key, &nonce, session_id, now);
    assert(token_view(token) == token_of(key@, nonce@, session_id@, now as int));
    token
}

/// Whether what a token holds makes it hold for the session at the time:
/// it holds a session and a time, the session is this one, and the time
/// is no more than `TOKEN_EXPIRY` seconds ago. A time that is no number is
/// taken for the epoch.
pub open spec fn content_verdict(content: Seq<char>, session_id: Seq<char>, now: int) -> Result<
    (),
    TokenError,
> {
    let params = unicode_words(content);
    if params.len() != 2 {
        Err(TokenError::Structure)
    } else if params[0] != session_id {
        Err(TokenError::Session)
    } else {
        let token_time = match parsed_i64(params[1]) {
            Some(time) => time as int,
            None => 0,
        };
        if now - token_time > TOKEN_EXPIRY {
            Err(TokenError::Expired)
        } else {
            Ok(())
        }
    }
}

/// Whether a token holds for the session at the time under the key.
pub open spec fn token_verdict(
    key: Seq<u8>,
    session_id: Seq<char>,
    token: Seq<char>,
    now: int,
) -> Result<(), TokenError> {
    if key.len() != KEY_LENGTH {
        Err(TokenError::Key)
    } else if encode_utf8(token).len() > usize::MAX / 8 {
        Err(TokenError::Encoding)
    } else {
        match base64_bytes(encode_utf8(token)) {
            None => Err(TokenError::Encoding),
            Some(bytes) => if bytes.len() < NONCE_LENGTH {
                Err(TokenError::Length)
            } else {
                match opened(
                    key,
                    bytes.subrange(0, NONCE_LENGTH as int),
                    bytes.subrange(NONCE_LENGTH as int, bytes.len() as int),
                ) {
                    None => Err(TokenError::Decryption),
                    Some(plain) => match utf8_text(plain) {
                        None => Err(TokenError::Text),
                        Some(content) => content_verdict(content, session_id, now),
                    },
                }
            },
        }
    }
}

/// Judges what a token holds, as `content_verdict` defines it.
pub fn check_token_content(content: &str, session_id: &str, now: i64) -> (verdict: Result<
    (),
    TokenError,
>)
    ensures
        verdict == content_verdict(content@, session_id@, now as int),
{
    let params = split_whitespace(content);
    if params.len() != 2 {
        return Err(TokenError::Structure);
    }
    assert(unicode_words(content@)[0] == params@[0]@);
    assert(unicode_words(content@)[1] == params@[1]@);
    let sid = chars_of(session_id);
    if !chars_eq(&params[0], &sid) {
        return Err(TokenError::Session);
    }
    let time_text = string_from_chars(&params[1]);
    let token_time = match parse_i64(time_text.as_str()) {
        Some(time) => time,
        None => 0,
    };
    if now as i128 - token_time as i128 > TOKEN_EXPIRY as i128 {
        return Err(TokenError::Expired);
    }
    Ok(())
}

/// Verifies CSRF token.
pub fn verify_csrf_token(key: &[u8], session_id: &str, token: &str, now: i64) -> (verdict: Result<
    (),
    TokenError,
>)
    ensures
        verdict == token_verdict(key@, session_id@, token@, now as int),
{
    if key.len() != KEY_LENGTH {
        return Err(TokenError::Key);
    }
    // Decode and decrypt token
    let text = token.as_bytes();
    if text.len() > usize::MAX / 8 {
        return Err(TokenError::Encoding);
    }
    let decoded_buffer = match decode(text) {
        Ok(bytes) => bytes,
        Err(_) => {
            return Err(TokenError::Encoding);
        },
    };
    if decoded_buffer.len() < NONCE_LENGTH {
        return Err(TokenError::Length);
    }
    let buffer = decoded_buffer.as_slice();
    let nonce = vstd::slice::slice_subrange(buffer, 0, NONCE_LENGTH);
    let sealed_text = vstd::slice::slice_subrange(buffer, NONCE_LENGTH, buffer.len());
    let decrypted = match decrypt(key, nonce, sealed_text) {
        Ok(plain) => plain,
        Err(_) => {
            return Err(TokenError::Decryption);
        },
    };
    // Verify
    match bytes_as_str(decrypted.as_slice()) {
        Some(content) => check_token_content(content, session_id, now),
        None => Err(TokenError::Text),
    }
}


/// The place of a kind of message among the kinds: information first,
/// errors last.
pub open spec fn flash_rank(flash: FlashView) -> int {
    match flash {
        FlashView::Info(_) => 0,
        FlashView::Warning(_) => 1,
        FlashView::Error(_) => 2,
    }
}

/// The text of a message.
pub open spec fn flash_text(flash: FlashView) -> Seq<char> {
    match flash {
        FlashView::Info(text) => text,
        FlashView::Warning(text) => text,
        FlashView::Error(text) => text,
    }
}

/// Whether `a` comes before `b` as a dictionary orders texts: at the first
/// place where they differ `a` has the lesser character, or `a` ends where
/// `b` goes on.
pub open spec fn text_before(a: Seq<char>, b: Seq<char>) -> bool
    decreases a.len(),
{
    if b.len() == 0 {
        false
    } else if a.len() == 0 {
        true
    } else if a[0] != b[0] {
        (a[0] as int) < (b[0] as int)
    } else {
        text_before(a.drop_first(), b.drop_first())
    }
}

/// Whether message `a` comes before message `b`: by kind, and by text
/// among messages of one kind.
pub open spec fn flash_before(a: FlashView, b: FlashView) -> bool {
    flash_rank(a) < flash_rank(b) || (flash_rank(a) == flash_rank(b) && text_before(
        flash_text(a),
        flash_text(b),
    ))
}

/// Whether the messages are in order, none of them twice.
pub open spec fn flashes_in_order(flashes: Seq<FlashView>) -> bool {
    forall|i: int, j: int| 0 <= i < j < flashes.len() ==> flash_before(flashes[i], flashes[j])
}

/// The views of a sequence of messages.
pub open spec fn flash_views(flashes: Seq<Flash>) -> Seq<FlashView> {
    flashes.map_values(|flash: Flash| flash@)
}

/// How one of two values stands to the other.
#[derive(Debug, Clone, Copy, PartialEq, Eq, Structural)]
pub enum Standing {
    Before,
    Same,
    After,
}

/// Of two texts one comes before the other unless they are the same; no
/// text comes before itself.
proof fn lemma_text_order(a: Seq<char>, b: Seq<char>)
    ensures
        a == b || text_before(a, b) || text_before(b, a),
        !(text_before(a, b) && text_before(b, a)),
        !text_before(a, a),
    decreases a.len(),
{
    if a.len() > 0 {
        lemma_text_order(a.drop_first(), a.drop_first());
    }
    if a.len() == 0 || b.len() == 0 {
        if a.len() == 0 && b.len() == 0 {
            assert(a =~= b);
        }
    } else if a[0] == b[0] {
        lemma_text_order(a.drop_first(), b.drop_first());
        if a.drop_first() == b.drop_first() {
            assert(a =~= seq![a[0]] + a.drop_first());
            assert(b =~= seq![b[0]] + b.drop_first());
        }
    }
}

/// A text that comes before another comes before all that this one comes
/// before.
proof fn lemma_text_order_is_transitive(a: Seq<char>, b: Seq<char>, c: Seq<char>)
    requires
        text_before(a, b),
        text_before(b, c),
    ensures
        text_before(a, c),
    decreases a.len(),
{
    if a.len() > 0 && a[0] == b[0] && b[0] == c[0] {
        lemma_text_order_is_transitive(a.drop_first(), b.drop_first(), c.drop_first());
    }
}

/// Of two messages one comes before the other unless they are the same,
/// and a message that comes before another comes before all that this
/// one comes before.
proof fn lemma_flash_order(a: FlashView, b: FlashView, c: FlashView)
    ensures
        a == b || flash_before(a, b) || flash_before(b, a),
        !flash_before(a, a),
        flash_before(a, b) && flash_before(b, c) ==> flash_before(a, c),
{
    lemma_text_order(flash_text(a), flash_text(b));
    lemma_text_order(flash_text(a), flash_text(a));
    if flash_before(a, b) && flash_before(b, c) && flash_rank(a) == flash_rank(b) && flash_rank(
        b,
    ) == flash_rank(c) {
        lemma_text_order_is_transitive(flash_text(a), flash_text(b), flash_text(c));
    }
}

/// How text `a` stands to text `b` in the order of `text_before`.
pub fn compare_texts(a: &str, b: &str) -> (standing: Standing)
    ensures
        standing == Standing::Before <==> text_before(a@, b@),
        standing == Standing::Same <==> a@ == b@,
        standing == Standing::After <==> text_before(b@, a@),
{
    let left = chars_of(a);
    let right = chars_of(b);
    let mut at: usize = 0;
    proof {
        lemma_text_order(a@, b@);
        assert(left@.skip(0) =~= left@);
        assert(right@.skip(0) =~= right@);
    }
    while at < left.len() && at < right.len()
        invariant
            at <= left.len(),
            at <= right.len(),
            left@ == a@,
            right@ == b@,
            text_before(a@, b@) == text_before(left@.skip(at as int), right@.skip(at as int)),
            text_before(b@, a@) == text_before(right@.skip(at as int), left@.skip(at as int)),
            (a@ == b@) == (left@.skip(at as int) == right@.skip(at as int)),
        decreases left.len() - at,
    {
        let ghost rest_left = left@.skip(at as int);
        let ghost rest_right = right@.skip(at as int);
        assert(rest_left[0] == left@[at as int]);
        assert(rest_right[0] == right@[at as int]);
        assert(rest_left.drop_first() =~= left@.skip(at + 1));
        assert(rest_right.drop_first() =~= right@.skip(at + 1));
        if left[at] != right[at] {
            proof {
                lemma_text_order(rest_left, rest_right);
            }
            return if left[at] < right[at] {
                Standing::Before
            } else {
                Standing::After
            };
        }
        proof {
            if rest_left.drop_first() == rest_right.drop_first() {
                assert(rest_left =~= seq![rest_left[0]] + rest_left.drop_first());
                assert(rest_right =~= seq![rest_right[0]] + rest_right.drop_first());
            }
        }
        at += 1;
    }
    proof {
        lemma_text_order(left@.skip(at as int), right@.skip(at as int));
        if left.len() == at && right.len() == at {
            assert(left@.skip(at as int) =~= right@.skip(at as int));
        }
    }
    if left.len() == right.len() {
        Standing::Same
    } else if left.len() < right.len() {
        Standing::Before
    } else {
        Standing::After
    }
}

impl Flash {
    /// The place of the message's kind among the kinds.
    pub fn rank(&self) -> (rank: u8)
        ensures
            rank == flash_rank(self@),
    {
        match self {
            Flash::Info(_) => 0,
            Flash::Warning(_) => 1,
            Flash::Error(_) => 2,
        }
    }

    /// The text of the message.
    pub fn text(&self) -> (text: &str)
        ensures
            text@ == flash_text(self@),
    {
        match self {
            Flash::Info(text) => text.as_str(),
            Flash::Warning(text) => text.as_str(),
            Flash::Error(text) => text.as_str(),
        }
    }

    /// How the message stands to another in the order of `flash_before`.
    pub fn compare(&self, other: &Flash) -> (standing: Standing)
        ensures
            standing == Standing::Before <==> flash_before(self@, other@),
            standing == Standing::Same <==> self@ == other@,
            standing == Standing::After <==> flash_before(other@, self@),
    {
        proof {
            lemma_text_order(flash_text(self@), flash_text(other@));
        }
        if self.rank() < other.rank() {
            Standing::Before
        } else if self.rank() > other.rank() {
            Standing::After
        } else {
            compare_texts(self.text(), other.text())
        }
    }
}

/// Puts the messages that are to be shown next in order and drops those
/// that are there twice: the result holds the very messages that were
/// given, each once, in the order of `flash_before`.
pub fn arrange_flashes(new_flashes: Vec<Flash>) -> (arranged: Vec<Flash>)
    ensures
        flashes_in_order(flash_views(arranged@)),
        flash_views(arranged@).to_set() == flash_views(new_flashes@).to_set(),
{
    let mut arranged: Vec<Flash> = Vec::new();
    let mut taken: usize = 0;
    let ghost given = flash_views(new_flashes@);
    assert(flash_views(arranged@).to_set() =~= given.take(0).to_set());
    while taken < new_flashes.len()
        invariant
            taken <= new_flashes.len(),
            given == flash_views(new_flashes@),
            flashes_in_order(flash_views(arranged@)),
            flash_views(arranged@).to_set() == given.take(taken as int).to_set(),
        decreases new_flashes.len() - taken,
    {
        let flash = &new_flashes[taken];
        let ghost before = flash_views(arranged@);
        let mut place: usize = 0;
        while place < arranged.len() && arranged[place].compare(flash) == Standing::Before
            invariant
                place <= arranged.len(),
                before == flash_views(arranged@),
                forall|k: int| 0 <= k < place ==> flash_before(#[trigger] before[k], flash@),
            decreases arranged.len() - place,
        {
            assert(before[place as int] == arranged@[place as int]@);
            place += 1;
        }
        proof {
            assert(given.take(taken + 1) =~= given.take(taken as int).push(flash@));
            given.take(taken as int).lemma_push_to_set_commute(flash@);
        }
        if place < arranged.len() && arranged[place].compare(flash) == Standing::Same {
            assert(before[place as int] == arranged@[place as int]@);
            assert(before.contains(flash@));
            assert(before.to_set().insert(flash@) =~= before.to_set());
        } else {
            arranged.insert(place, flash.clone());
            proof {
                let after = flash_views(arranged@);
                assert(after =~= before.insert(place as int, flash@));
                assert forall|i: int, j: int| 0 <= i < j < after.len() implies flash_before(
                    after[i],
                    after[j],
                ) by {
                    let a = if i < place { i } else { i - 1 };
                    let b = if j < place { j } else { j - 1 };
                    if i != place && j != place {
                        assert(after[i] == before[a] && after[j] == before[b]);
                    } else if j == place {
                        assert(after[i] == before[a]);
                    } else {
                        assert(after[j] == before[b]);
                        assert(before[place as int] == arranged@[place + 1]@);
                        lemma_flash_order(before[place as int], flash@, before[b]);
                        lemma_flash_order(flash@, before[place as int], before[b]);
                    }
                }
                assert(after.to_set() =~= before.to_set().insert(flash@)) by {
                    assert forall|value: FlashView| after.to_set().contains(value)
                        <==> before.to_set().insert(flash@).contains(value) by {
                        if after.contains(value) {
                            let k = choose|k: int| 0 <= k < after.len() && after[k] == value;
                            if k < place {
                                assert(before[k] == value);
                            } else if k > place {
                                assert(before[k - 1] == value);
                            }
                        }
                        if before.contains(value) {
                            let k = choose|k: int| 0 <= k < before.len() && before[k] == value;
                            let m = if k < place { k } else { k + 1 };
                            assert(after[m] == value);
                        }
                        if value == flash@ {
                            assert(after[place as int] == value);
                        }
                    }
                }
            }
        }
        taken += 1;
    }
    assert(given.take(taken as int) =~= given);
    arranged
}

} // verus!
