//! The identifiers of media: short texts drawn from the digits and the
//! lowercase letters, no symbol twice.

use crate::text::string_from_chars;
use rand::rngs::StdRng;
use rand::seq::SliceRandom;
use vstd::prelude::*;

verus! {

/// The symbol at the given place of the alphabet: the digits, then the
/// lowercase letters.
pub open spec fn hash_char(index: int) -> char {
    if index < 10 {
        ((48 + index) as u8) as char
    } else {
        ((87 + index) as u8) as char
    }
}

/// The alphabet identifiers are drawn from: `0` to `9`, then `a` to `z`.
pub open spec fn hash_chars() -> Seq<char> {
    Seq::new(36, |index: int| hash_char(index))
}

/// Whether the character is a digit or a lowercase letter.
pub open spec fn is_hash_char(symbol: char) -> bool {
    ('0' <= symbol && symbol <= '9') || ('a' <= symbol && symbol <= 'z')
}

/// Whether the text is made of digits and lowercase letters, none of them
/// twice.
pub open spec fn is_hash_id(text: Seq<char>) -> bool {
    &&& forall|k: int| 0 <= k < text.len() ==> is_hash_char(#[trigger] text[k])
    &&& forall|i: int, j: int| 0 <= i < j < text.len() ==> text[i] != text[j]
}

/// Whether `picked` holds the items of `pool` at the places `at`, no place
/// twice.
pub open spec fn drawn_from(pool: Seq<char>, picked: Seq<char>, at: Seq<int>) -> bool {
    &&& at.len() == picked.len()
    &&& forall|k: int| 0 <= k < at.len() ==> 0 <= #[trigger] at[k] < pool.len() && picked[k] == pool[at[k]]
    &&& forall|i: int, j: int| 0 <= i < j < at.len() ==> at[i] != at[j]
}

/// The alphabet holds the digits and lowercase letters, each once.
pub proof fn lemma_hash_chars()
    ensures
        hash_chars().len() == 36,
        forall|k: int| 0 <= k < 36 ==> is_hash_char(#[trigger] hash_chars()[k]),
        forall|i: int, j: int| 0 <= i < j < 36 ==> hash_chars()[i] != hash_chars()[j],
{
    assert forall|k: int| 0 <= k < 36 implies is_hash_char(#[trigger] hash_chars()[k]) by {
        assert(hash_chars()[k] == hash_char(k));
    }
    assert forall|i: int, j: int| 0 <= i < j < 36 implies hash_chars()[i] != hash_chars()[j] by {
        assert(hash_chars()[i] == hash_char(i));
        assert(hash_chars()[j] == hash_char(j));
    }
}

/// Items drawn from the alphabet at distinct places make an identifier.
pub proof fn lemma_drawn_is_hash_id(picked: Seq<char>, at: Seq<int>)
    requires
        drawn_from(hash_chars(), picked, at),
    ensures
        is_hash_id(picked),
{
    lemma_hash_chars();
    assert forall|k: int| 0 <= k < picked.len() implies is_hash_char(#[trigger] picked[k]) by {
        assert(picked[k] == hash_chars()[at[k]]);
    }
    assert forall|i: int, j: int| 0 <= i < j < picked.len() implies picked[i] != picked[j] by {
        assert(picked[i] == hash_chars()[at[i]]);
        assert(picked[j] == hash_chars()[at[j]]);
        assert(at[i] != at[j]);
    }
}

/// The alphabet identifiers are drawn from.
pub fn hash_alphabet() -> (chars: Vec<char>)
    ensures
        chars@ == hash_chars(),
{
    let mut chars: Vec<char> = Vec::new();
    let mut index: u8 = 0;
    while index < 36
        invariant
            index <= 36,
            chars@.len() == index,
            forall|k: int| 0 <= k < index ==> chars@[k] == hash_char(k),
        decreases 36 - index,
    {
        let symbol = if index < 10 {
            (48 + index) as char
        } else {
            (87 + index) as char
        };
        chars.push(symbol);
        index += 1;
    }
    assert(chars@ =~= hash_chars());
    chars
}

/// `StdRng` of rand: the generator that identifiers are drawn with, handed
/// through as it is; nothing is said of what it holds.
#[verifier::external_type_specification]
#[verifier::external_body]
pub struct ExStdRng(StdRng);

/// `SliceRandom::choose_multiple` of rand, collected: as many items of the
/// pool as asked for, or all of them where it holds fewer, taken at
/// pairwise distinct places in an order that the generator decides.
#[verifier::external_body]
fn choose_multiple(pool: &Vec<char>, rng: &mut StdRng, amount: usize) -> (picked: Vec<char>)
    ensures
        picked@.len() == if amount <= pool@.len() {
            amount as int
        } else {
            pool@.len() as int
        },
        exists|at: Seq<int>| drawn_from(pool@, picked@, at),
{
    pool.choose_multiple(rng, amount).cloned().collect()
}

/// A fresh candidate identifier of the given length, or of the alphabet's
/// length where more is asked for.
pub fn generate_hash_id(rng: &mut StdRng, length: usize) -> (hash_id: String)
    ensures
        hash_id@.len() == if length <= 36 {
            length as int
        } else {
            36
        },
        is_hash_id(hash_id@),
{
    let pool = hash_alphabet();
    let picked = choose_multiple(&pool, rng, length);
    proof {
        let at = choose|at: Seq<int>| drawn_from(pool@, picked@, at);
        lemma_drawn_is_hash_id(picked@, at);
    }
    string_from_chars(&picked)
}

} // verus!
