//! Input validation: normalizing a raw character to a canonical
//! lowercase Latin letter, and extracting the first
//! whitespace-delimited token of a text (the conventional source of
//! the secret word).

use vstd::prelude::*;

verus! {

/// A canonical guess character: one of the 26 lowercase Latin letters.
pub open spec fn is_lower_letter(c: char) -> bool {
    'a' <= c && c <= 'z'
}

/// ASCII case normalization of a single character: uppercase Latin
/// letters map to their lowercase form, every other character is
/// unchanged.
pub open spec fn lower_char(c: char) -> char {
    if 'A' <= c && c <= 'Z' {
        ((c as u32) + 32) as char
    } else {
        c
    }
}

/// A whole word normalized character by character.
pub open spec fn normalize_word(s: Seq<char>) -> Seq<char> {
    s.map_values(|c: char| lower_char(c))
}

/// Whether every character of the word is a lowercase Latin letter.
pub open spec fn all_letters(s: Seq<char>) -> bool {
    forall|i: int| 0 <= i < s.len() ==> is_lower_letter(#[trigger] s[i])
}

/// What validation makes of a raw character: the canonical lowercase
/// letter if the character normalizes to one, nothing otherwise.
pub open spec fn validated(c: char) -> Option<char> {
    if is_lower_letter(lower_char(c)) {
        Some(lower_char(c))
    } else {
        None
    }
}

/// Case normalization is idempotent, so validation treats an
/// uppercase character identically to its lowercase form.
pub proof fn lemma_case_insensitive(c: char)
    ensures
        lower_char(lower_char(c)) == lower_char(c),
        validated(lower_char(c)) == validated(c),
{
}

/// Word-level case insensitivity: normalizing an already normalized
/// word changes nothing, so a secret word and its lowercase form
/// build the same game.
pub proof fn lemma_normalize_idempotent(s: Seq<char>)
    ensures
        normalize_word(normalize_word(s)) == normalize_word(s),
{
    assert forall|i: int| 0 <= i < s.len() implies normalize_word(normalize_word(s))[i]
        == normalize_word(s)[i] by {
        lemma_case_insensitive(s[i]);
    }
    assert(normalize_word(normalize_word(s)) =~= normalize_word(s));
}

/// Normalizes one character: an uppercase Latin letter becomes its
/// lowercase form, every other character is returned unchanged.
pub fn to_lower(c: char) -> (r: char)
    ensures
        r == lower_char(c),
{
    let u = c as u32;
    if 65 <= u && u <= 90 {
        ((u + 32) as u8) as char
    } else {
        c
    }
}

/// A guess character that is not a Latin letter; carries the
/// offending character so the caller can report it.
#[derive(Debug)]
pub struct InvalidInput {
    pub offending: char,
}

/// A character known to be a lowercase Latin letter.
#[derive(Debug)]
pub struct LowercaseAscii {
    value: char,
}

impl View for LowercaseAscii {
    type V = char;

    closed spec fn view(&self) -> char {
        self.value
    }
}

impl LowercaseAscii {
    /// Validity: the held character is a lowercase Latin letter.
    pub open spec fn wf(&self) -> bool {
        is_lower_letter(self@)
    }

    /// Normalizes `value` and accepts it only if it is a Latin letter.
    pub fn try_from(value: char) -> (r: Result<LowercaseAscii, InvalidInput>)
        ensures
            match r {
                Ok(v) => validated(value) == Some(v@) && v.wf(),
                Err(e) => validated(value) is None && e.offending == value,
            },
    {
        let lowered = to_lower(value);
        if 'a' <= lowered && lowered <= 'z' {
            Ok(LowercaseAscii { value: lowered })
        } else {
            Err(InvalidInput { offending: value })
        }
    }

    /// The canonical lowercase letter this value holds.
    pub fn get_value(&self) -> (r: char)
        ensures
            r == self@,
    {
        self.value
    }
}

/// ASCII whitespace: space, tab, line feed, form feed, carriage
/// return.
pub open spec fn is_ascii_ws(b: u8) -> bool {
    b == 32 || b == 9 || b == 10 || b == 12 || b == 13
}

/// `t` is the first whitespace-delimited token of `s` and begins at
/// position `start`: everything before it is whitespace, it is
/// non-empty and free of whitespace, and it runs to the end of `s`
/// or to a whitespace byte.
pub open spec fn token_at(s: Seq<u8>, start: int, t: Seq<u8>) -> bool {
    &&& 0 <= start
    &&& start + t.len() <= s.len()
    &&& t.len() > 0
    &&& (forall|j: int| 0 <= j < start ==> is_ascii_ws(#[trigger] s[j]))
    &&& t == s.subrange(start, start + t.len())
    &&& (forall|j: int| start <= j < start + t.len() ==> !is_ascii_ws(#[trigger] s[j]))
    &&& (start + t.len() == s.len() || is_ascii_ws(s[start + t.len()]))
}

/// `t` is the first whitespace-delimited token of `s`.
pub open spec fn is_first_token(s: Seq<u8>, t: Seq<u8>) -> bool {
    exists|start: int| token_at(s, start, t)
}

fn is_ws_byte(b: u8) -> (r: bool)
    ensures
        r == is_ascii_ws(b),
{
    b == 32 || b == 9 || b == 10 || b == 12 || b == 13
}

fn first_non_ws(v: &Vec<u8>) -> (r: usize)
    ensures
        r <= v@.len(),
        forall|j: int| 0 <= j < r ==> is_ascii_ws(#[trigger] v@[j]),
        r < v@.len() ==> !is_ascii_ws(v@[r as int]),
{
    let mut i: usize = 0;
    while i < v.len()
        invariant
            i <= v@.len(),
            forall|j: int| 0 <= j < i ==> is_ascii_ws(#[trigger] v@[j]),
        decreases v@.len() - i,
    {
        if !is_ws_byte(v[i]) {
            return i;
        }
        i += 1;
    }
    i
}

fn token_end(v: &Vec<u8>, start: usize) -> (r: usize)
    requires
        start <= v@.len(),
    ensures
        start <= r <= v@.len(),
        forall|j: int| start <= j < r ==> !is_ascii_ws(#[trigger] v@[j]),
        r < v@.len() ==> is_ascii_ws(v@[r as int]),
{
    let mut i: usize = start;
    while i < v.len()
        invariant
            start <= i <= v@.len(),
            forall|j: int| start <= j < i ==> !is_ascii_ws(#[trigger] v@[j]),
        decreases v@.len() - i,
    {
        if is_ws_byte(v[i]) {
            return i;
        }
        i += 1;
    }
    i
}

/// The first whitespace-delimited token of `contents` (the
/// conventional source of the secret word), or nothing when every
/// byte is whitespace.
pub fn first_token(contents: &Vec<u8>) -> (r: Option<Vec<u8>>)
    ensures
        match r {
            Some(t) => is_first_token(contents@, t@),
            None => forall|j: int|
                0 <= j < contents@.len() ==> is_ascii_ws(#[trigger] contents@[j]),
        },
{
    let start = first_non_ws(contents);
    if start == contents.len() {
        return None;
    }
    let end = token_end(contents, start);
    let mut t: Vec<u8> = Vec::new();
    let mut i: usize = start;
    while i < end
        invariant
            start <= i <= end <= contents@.len(),
            t@.len() == i - start,
            forall|j: int| 0 <= j < t@.len() ==> t@[j] == contents@[start + j],
        decreases end - i,
    {
        t.push(contents[i]);
        i += 1;
    }
    proof {
        assert(t@ =~= contents@.subrange(start as int, start + t@.len()));
        assert(token_at(contents@, start as int, t@));
        assert(is_first_token(contents@, t@));
    }
    Some(t)
}

} // verus!
