//! Reading a move: two keys, each of which names a tube.
//!
//! Whether a text is a move is for a regular expression to say, built from
//! the keys; which tubes it names is worked out here.

use vstd::prelude::*;
use vstd::string::{StrSliceExecFns, StringExecFns};

verus! {

/// What the `regex` crate makes of a pattern and a text: `None` where
/// `Regex::new` refuses the pattern, else whether `Regex::is_match` finds
/// a match of it in the text.
pub uninterp spec fn regex_match(pattern: Seq<char>, text: Seq<char>) -> Option<bool>;

/// Compiles the pattern with `regex::Regex::new` and, where that gives a
/// regular expression, asks `regex::Regex::is_match` of it for the text.
///
/// Trusted, not proved: both calls depend on their arguments alone, so the
/// outcome is a function of the pattern and the text, here called
/// `regex_match`. Nothing more is claimed: what a pattern means is the
/// `regex` crate's to say.
#[verifier::external_body]
fn match_pattern(pattern: &str, text: &str) -> (verdict: Option<bool>)
    ensures
        verdict == regex_match(pattern@, text@),
{
    match regex::Regex::new(pattern) {
        Ok(compiled) => Some(compiled.is_match(text)),
        Err(_) => None,
    }
}

/// The pattern of a move: from start to end, one character out of the
/// class that the keys make, and then another.
pub open spec fn move_pattern(keys: Seq<char>) -> Seq<char> {
    seq!['^', '['] + keys + seq![']', '['] + keys + seq![']', '$']
}

/// `index` is where `key` first stands among `keys`.
pub open spec fn is_key_index(keys: Seq<char>, key: char, index: int) -> bool {
    &&& 0 <= index < keys.len()
    &&& keys[index] == key
    &&& forall|j: int| 0 <= j < index ==> keys[j] != key
}

/// The text is a move: two characters, both of them keys.
pub open spec fn is_move(keys: Seq<char>, text: Seq<char>) -> bool {
    text.len() == 2 && keys.contains(text[0]) && keys.contains(text[1])
}

/// The pattern of a move over `keys`, as text.
pub fn pattern_for(keys: &str) -> (pattern: String)
    ensures
        pattern@ == move_pattern(keys@),
{
    let mut pattern = String::from_str("^[");
    pattern.append(keys);
    pattern.append("][");
    pattern.append(keys);
    pattern.append("]$");
    proof {
        reveal_strlit("^[");
        reveal_strlit("][");
        reveal_strlit("]$");
    }
    pattern
}

/// Whether the text matches the pattern of a move over `keys`; `None`
/// where the keys make no pattern.
pub fn is_move_text(keys: &str, text: &str) -> (verdict: Option<bool>)
    ensures
        verdict == regex_match(move_pattern(keys@), text@),
{
    let pattern = pattern_for(keys);
    match_pattern(pattern.as_str(), text)
}

/// The tube that `key` names: its first position among `keys`, counted in
/// characters from 0; `None` where it is not a key.
pub fn key_index(keys: &str, key: char) -> (found: Option<usize>)
    ensures
        found.is_some() <==> keys@.contains(key),
        found matches Some(index) ==> is_key_index(keys@, key, index as int),
{
    let count = keys.unicode_len();
    let mut i: usize = 0;
    while i < count
        invariant
            count == keys@.len(),
            i <= count,
            forall|j: int| 0 <= j < i ==> keys@[j] != key,
        decreases count - i,
    {
        if keys.get_char(i) == key {
            return Some(i);
        }
        i += 1;
    }
    None
}

/// The source and destination tube that a text of two keys names; `None`
/// where the text is anything else.
pub fn parse_move(keys: &str, text: &str) -> (parsed: Option<(usize, usize)>)
    ensures
        parsed.is_some() <==> is_move(keys@, text@),
        parsed matches Some((first, second)) ==> {
            &&& is_key_index(keys@, text@[0], first as int)
            &&& is_key_index(keys@, text@[1], second as int)
        },
{
    if text.unicode_len() != 2 {
        return None;
    }
    match (key_index(keys, text.get_char(0)), key_index(keys, text.get_char(1))) {
        (Some(first), Some(second)) => Some((first, second)),
        _ => None,
    }
}

} // verus!
