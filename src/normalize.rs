use vstd::prelude::*;
use vstd::string::StringExecFns;

verus! {

broadcast use vstd::string::group_string_axioms;

/// What `deunicode::deunicode_char` gives for one character.
pub uninterp spec fn transliteration_of(c: char) -> Option<Seq<char>>;

/// What `str::to_lowercase` gives for a string.
pub uninterp spec fn lowercase_of(s: Seq<char>) -> Seq<char>;

pub open spec fn is_ascii_char(c: char) -> bool {
    (c as u32) < 128
}

/// A character from space to tilde.
pub open spec fn is_printable_ascii(c: char) -> bool {
    0x20 <= (c as u32) && (c as u32) < 0x7f
}

pub open spec fn all_printable_ascii(s: Seq<char>) -> bool {
    forall|i: int| 0 <= i < s.len() ==> is_printable_ascii(#[trigger] s[i])
}

pub open spec fn all_ascii(s: Seq<char>) -> bool {
    forall|i: int| 0 <= i < s.len() ==> is_ascii_char(#[trigger] s[i])
}

pub open spec fn ascii_lower_char(c: char) -> char {
    if 'A' <= c && c <= 'Z' {
        ((c as u32) + 32) as char
    } else {
        c
    }
}

pub open spec fn ascii_lower(s: Seq<char>) -> Seq<char> {
    s.map_values(|c: char| ascii_lower_char(c))
}

/// The transliteration of one character: printable ASCII characters stand
/// for themselves and ASCII control characters for nothing.
pub open spec fn char_transliteration(c: char) -> Option<Seq<char>> {
    if is_printable_ascii(c) {
        Some(seq![c])
    } else if is_ascii_char(c) {
        Some(seq![])
    } else {
        transliteration_of(c)
    }
}

/// The lowercase form of a text: on ASCII text exactly the letters `A` to `Z`
/// are lowered.
pub open spec fn lower_text(s: Seq<char>) -> Seq<char> {
    if all_ascii(s) {
        ascii_lower(s)
    } else {
        lowercase_of(s)
    }
}

/// The folded form of one character: its transliteration where one exists,
/// the character itself otherwise.
pub open spec fn fold_char(c: char) -> Seq<char> {
    match char_transliteration(c) {
        Some(t) => t,
        None => seq![c],
    }
}

/// Every character of `s` folded, in order, concatenated.
pub open spec fn fold_text(s: Seq<char>) -> Seq<char>
    decreases s.len(),
{
    if s.len() == 0 {
        seq![]
    } else {
        fold_text(s.drop_last()) + fold_char(s.last())
    }
}

/// The canonical search form of a text.
pub open spec fn normalized(s: Seq<char>) -> Seq<char> {
    lower_text(fold_text(s))
}

/// Relies on `deunicode::deunicode_char`: an ASCII transliteration of one
/// character where its table has one. The table maps each printable ASCII
/// character to itself and each ASCII control character to the empty text.
#[verifier::external_body]
fn transliterate_char(c: char) -> (r: Option<String>)
    ensures
        match r {
            Some(t) => all_ascii(t@) && if is_printable_ascii(c) {
                t@ == seq![c]
            } else if is_ascii_char(c) {
                t@.len() == 0
            } else {
                transliteration_of(c) == Some(t@)
            },
            None => !is_ascii_char(c) && transliteration_of(c) is None,
        },
{
    match deunicode::deunicode_char(c) {
        Some(t) => Some(t.to_string()),
        None => None,
    }
}

/// Relies on `str::to_lowercase`: the Unicode lowercase form of a string,
/// which on ASCII text lowers exactly the letters `A` to `Z`.
#[verifier::external_body]
fn lowercase(s: &str) -> (r: String)
    ensures
        r@ == if all_ascii(s@) {
            ascii_lower(s@)
        } else {
            lowercase_of(s@)
        },
{
    s.to_lowercase()
}

/// Relies on `String::push`: appends one character.
#[verifier::external_body]
fn push_char(s: &mut String, c: char)
    ensures
        final(s)@ == old(s)@.push(c),
{
    s.push(c)
}

/// Folds every character to its closest ASCII form where one exists, then
/// lowercases the whole text.
pub fn normalize_text(text: &str) -> (r: String)
    ensures
        r@ == normalized(text@),
{
    let mut folded = String::new();
    for c in it: text.chars()
        invariant
            it.seq() == text@,
            folded@ == fold_text(text@.take(it.index() as int)),
    {
        proof {
            let k = it.index() as int;
            assert(text@.take(k + 1).drop_last() == text@.take(k));
        }
        match transliterate_char(c) {
            Some(t) => folded.append(t.as_str()),
            None => push_char(&mut folded, c),
        }
    }
    proof {
        assert(text@.take(text@.len() as int) == text@);
    }
    lowercase(folded.as_str())
}

proof fn lemma_fold_printable(s: Seq<char>)
    requires
        all_printable_ascii(s),
    ensures
        fold_text(s) == s,
    decreases s.len(),
{
    if s.len() > 0 {
        lemma_fold_printable(s.drop_last());
        assert(s.drop_last().push(s.last()) == s);
    }
}

proof fn lemma_ascii_lower(s: Seq<char>)
    requires
        all_printable_ascii(s),
    ensures
        all_printable_ascii(ascii_lower(s)),
        ascii_lower(ascii_lower(s)) == ascii_lower(s),
{
    let l = ascii_lower(s);
    assert forall|i: int| 0 <= i < l.len() implies is_printable_ascii(#[trigger] l[i])
        && ascii_lower_char(l[i]) == l[i] by {
        assert(is_printable_ascii(s[i]));
    }
    assert(ascii_lower(l) =~= l);
}

/// Normalizing twice gives what normalizing once gives, for every text whose
/// characters all fold to printable ASCII. (A character that folds to a
/// control character, such as U+2028 to a newline, folds to nothing the
/// second time.)
pub proof fn lemma_normalize_idempotent(s: Seq<char>)
    requires
        all_printable_ascii(fold_text(s)),
    ensures
        normalized(normalized(s)) == normalized(s),
{
    let f = fold_text(s);
    lemma_ascii_lower(f);
    let n = ascii_lower(f);
    lemma_fold_printable(n);
    assert(all_ascii(f));
    assert(all_ascii(n));
}

} // verus!
