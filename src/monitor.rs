use vstd::prelude::*;
use crate::clip::opt_view;
use crate::store::{
    after_insert_text,
    id_in_use,
    is_duplicate_text,
    is_uuid_v4_text,
    ClipStore,
    InsertOutcome,
};

verus! {

broadcast use vstd::string::group_string_axioms;

/// The Unicode `White_Space` property.
pub open spec fn is_white_space(c: char) -> bool {
    ('\t' <= c && c <= '\r') || c == ' ' || c == '\u{85}' || c == '\u{a0}' || c == '\u{1680}' || (
    '\u{2000}' <= c && c <= '\u{200a}') || c == '\u{2028}' || c == '\u{2029}' || c == '\u{202f}'
        || c == '\u{205f}' || c == '\u{3000}'
}

/// Nothing but white space is left once the text is trimmed.
pub open spec fn is_blank(s: Seq<char>) -> bool {
    forall|i: int| 0 <= i < s.len() ==> is_white_space(#[trigger] s[i])
}

/// What a clipboard read hands to the store: new text that differs from
/// the last text seen and is not blank.
pub open spec fn capture_of(last: Seq<char>, read: Option<Seq<char>>) -> Option<Seq<char>> {
    match read {
        None => None,
        Some(t) => if t == last || is_blank(t) {
            None
        } else {
            Some(t)
        },
    }
}

/// The last text seen after a clipboard read.
pub open spec fn next_seen(last: Seq<char>, read: Option<Seq<char>>) -> Seq<char> {
    match capture_of(last, read) {
        Some(t) => t,
        None => last,
    }
}

/// Whether the character has the Unicode `White_Space` property.
pub fn char_is_whitespace(c: char) -> (r: bool)
    ensures
        r == is_white_space(c),
{
    ('\t' <= c && c <= '\r') || c == ' ' || c == '\u{85}' || c == '\u{a0}' || c == '\u{1680}' || (
    '\u{2000}' <= c && c <= '\u{200a}') || c == '\u{2028}' || c == '\u{2029}' || c == '\u{202f}'
        || c == '\u{205f}' || c == '\u{3000}'
}

/// Whether the text is empty once leading and trailing white space is
/// trimmed.
pub fn is_blank_text(s: &str) -> (r: bool)
    ensures
        r == is_blank(s@),
{
    for c in it: s.chars()
        invariant
            it.seq() == s@,
            forall|i: int| 0 <= i < it.index() ==> is_white_space(#[trigger] s@[i]),
    {
        if !char_is_whitespace(c) {
            return false;
        }
    }
    true
}

/// The monitor's state between clipboard polls: the last text it saw.
pub struct Monitor {
    last_seen: String,
}

impl View for Monitor {
    type V = Seq<char>;

    closed spec fn view(&self) -> Seq<char> {
        self.last_seen@
    }
}

impl Monitor {
    /// Starts from the clipboard's text at startup, or from empty text when
    /// the clipboard could not be read.
    pub fn new(initial: Option<String>) -> (r: Monitor)
        ensures
            r@ == match opt_view(initial) {
                Some(t) => t,
                None => Seq::<char>::empty(),
            },
    {
        match initial {
            Some(t) => Monitor { last_seen: t },
            None => Monitor { last_seen: String::new() },
        }
    }

    pub fn last_seen(&self) -> (r: &String)
        ensures
            r@ == self@,
    {
        &self.last_seen
    }

    /// Forgets the last text seen, so that the next read of any non-blank
    /// text is captured again; for retrying after the capture could not be
    /// kept.
    pub fn forget(&mut self)
        ensures
            final(self)@ == Seq::<char>::empty(),
    {
        self.last_seen = String::new();
    }

    /// Takes one clipboard read (`None` when it failed) and returns the text
    /// to store, if the read brought new, non-blank text.
    pub fn observe(&mut self, read: Option<String>) -> (r: Option<String>)
        ensures
            opt_view(r) == capture_of(old(self)@, opt_view(read)),
            final(self)@ == next_seen(old(self)@, opt_view(read)),
    {
        match read {
            None => None,
            Some(t) => {
                if t == self.last_seen || is_blank_text(t.as_str()) {
                    None
                } else {
                    self.last_seen = t.clone();
                    Some(t)
                }
            },
        }
    }

    /// One poll: observes the read and stores what it captured. Returns the
    /// id of the new clip, for a change notification, when one was stored;
    /// a duplicate or a failed insertion is passed over silently.
    pub fn tick(&mut self, store: &mut ClipStore, read: Option<String>) -> (r: Option<String>)
        requires
            old(store).wf(),
        ensures
            final(self)@ == next_seen(old(self)@, opt_view(read)),
            final(store).wf(),
            final(store).offset() == old(store).offset(),
            match capture_of(old(self)@, opt_view(read)) {
                None => final(store)@ == old(store)@ && r is None,
                Some(t) => exists|id: Seq<char>, now: int|
                    final(store)@ == after_insert_text(old(store)@, t, id, now, old(store).offset())
                        && match r {
                        Some(x) => x@ == id && !is_duplicate_text(
                            old(store)@,
                            t,
                            now,
                            old(store).offset(),
                        ) && !id_in_use(old(store)@, id),
                        None => is_duplicate_text(old(store)@, t, now, old(store).offset())
                            || id_in_use(old(store)@, id),
                    },
            },
            r matches Some(x) ==> is_uuid_v4_text(x@),
    {
        match self.observe(read) {
            None => None,
            Some(t) => match store.insert_text(t) {
                Ok(InsertOutcome::Inserted(id)) => Some(id),
                _ => None,
            },
        }
    }
}

/// Reading the same text twice in a row captures it at most once: the
/// second read captures nothing.
pub proof fn lemma_repeated_read_captured_once(last: Seq<char>, t: Seq<char>)
    ensures
        capture_of(next_seen(last, Some(t)), Some(t)) is None,
{
}

} // verus!
