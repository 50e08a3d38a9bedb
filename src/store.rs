use vstd::prelude::*;
use crate::clip::{local_day, local_day_of, Clip, ClipKind, ClipView, DAY_MS};
use crate::normalize::{normalize_text, normalized};

verus! {

/// Non-favorite clips older than this many days are swept at startup.
pub const RETENTION_DAYS: i64 = 90;

/// A query returns at most this many clips.
pub const QUERY_LIMIT: usize = 50;

/// Clips in order of creation time, oldest first.
pub open spec fn sorted_by_time(s: Seq<ClipView>) -> bool {
    forall|i: int, j: int| 0 <= i < j < s.len() ==> s[i].created_at <= s[j].created_at
}

/// No two clips share an id.
pub open spec fn unique_ids(s: Seq<ClipView>) -> bool {
    forall|i: int, j: int| 0 <= i < j < s.len() ==> s[i].id != s[j].id
}

/// Every clip carries the normalized form of its content.
pub open spec fn searchable(s: Seq<ClipView>) -> bool {
    forall|i: int| 0 <= i < s.len() ==> #[trigger] s[i].search_content == Some(normalized(s[i].content))
}

pub open spec fn store_wf(s: Seq<ClipView>) -> bool {
    sorted_by_time(s) && unique_ids(s) && searchable(s)
}

pub open spec fn id_in_use(s: Seq<ClipView>, id: Seq<char>) -> bool {
    exists|i: int| 0 <= i < s.len() && #[trigger] s[i].id == id
}

/// A text clip with exactly this content was created on this local day.
pub open spec fn same_day_text(s: Seq<ClipView>, content: Seq<char>, day: int, offset: int) -> bool {
    exists|i: int|
        0 <= i < s.len() && #[trigger] s[i].clip_type == ClipKind::Text && s[i].content == content
            && local_day(s[i].created_at, offset) == day
}

/// Where a clip created at `t` goes: after every clip created at or before `t`.
pub open spec fn insert_slot(s: Seq<ClipView>, t: int) -> int
    decreases s.len(),
{
    if s.len() == 0 {
        0
    } else if s.last().created_at <= t {
        s.len() as int
    } else {
        insert_slot(s.drop_last(), t)
    }
}

pub open spec fn ordered_insert(s: Seq<ClipView>, c: ClipView) -> Seq<ClipView> {
    s.insert(insert_slot(s, c.created_at), c)
}

/// A new, non-favorite text clip.
pub open spec fn text_clip(id: Seq<char>, content: Seq<char>, t: int) -> ClipView {
    ClipView {
        id,
        content,
        created_at: t,
        is_favorite: false,
        clip_type: ClipKind::Text,
        image_path: None,
        search_content: Some(normalized(content)),
    }
}

/// Inserting `content` at `now` is refused as a duplicate.
pub open spec fn is_duplicate_text(s: Seq<ClipView>, content: Seq<char>, now: int, offset: int) -> bool {
    same_day_text(s, content, local_day(now, offset), offset)
}

/// The clips after an attempt to insert a text clip.
pub open spec fn after_insert_text(
    s: Seq<ClipView>,
    content: Seq<char>,
    id: Seq<char>,
    now: int,
    offset: int,
) -> Seq<ClipView> {
    if is_duplicate_text(s, content, now, offset) || id_in_use(s, id) {
        s
    } else {
        ordered_insert(s, text_clip(id, content, now))
    }
}

pub proof fn lemma_insert_slot(s: Seq<ClipView>, t: int)
    ensures
        0 <= insert_slot(s, t) <= s.len(),
        sorted_by_time(s) ==> forall|j: int|
            0 <= j < s.len() ==> (#[trigger] s[j].created_at <= t <==> j < insert_slot(s, t)),
    decreases s.len(),
{
    if s.len() > 0 {
        let p = s.drop_last();
        lemma_insert_slot(p, t);
        if sorted_by_time(s) {
            assert(sorted_by_time(p));
            assert forall|j: int| 0 <= j < s.len() implies (#[trigger] s[j].created_at <= t <==> j
                < insert_slot(s, t)) by {
                if j < s.len() - 1 {
                    assert(p[j] == s[j]);
                }
            }
        }
    }
}

pub proof fn lemma_ordered_insert_members(s: Seq<ClipView>, c: ClipView)
    ensures
        ordered_insert(s, c).len() == s.len() + 1,
        0 <= insert_slot(s, c.created_at) <= s.len(),
        ordered_insert(s, c)[insert_slot(s, c.created_at)] == c,
        forall|x: ClipView| ordered_insert(s, c).contains(x) <==> (s.contains(x) || x == c),
{
    lemma_insert_slot(s, c.created_at);
    let k = insert_slot(s, c.created_at);
    let r = ordered_insert(s, c);
    assert forall|x: ClipView| r.contains(x) <==> (s.contains(x) || x == c) by {
        if r.contains(x) {
            let i = choose|i: int| 0 <= i < r.len() && r[i] == x;
            if i < k {
                assert(s[i] == x);
            } else if i > k {
                assert(s[i - 1] == x);
            }
        }
        if s.contains(x) {
            let i = choose|i: int| 0 <= i < s.len() && s[i] == x;
            if i < k {
                assert(r[i] == x);
            } else {
                assert(r[i + 1] == x);
            }
        }
        if x == c {
            assert(r[k] == x);
        }
    }
}

pub proof fn lemma_ordered_insert_wf(s: Seq<ClipView>, c: ClipView)
    requires
        store_wf(s),
        !id_in_use(s, c.id),
        c.search_content == Some(normalized(c.content)),
    ensures
        store_wf(ordered_insert(s, c)),
        ordered_insert(s, c).len() == s.len() + 1,
        forall|x: ClipView| ordered_insert(s, c).contains(x) <==> (s.contains(x) || x == c),
{
    lemma_insert_slot(s, c.created_at);
    let k = insert_slot(s, c.created_at);
    let r = ordered_insert(s, c);
    assert forall|i: int| 0 <= i < r.len() implies #[trigger] r[i] == (if i < k {
        s[i]
    } else if i == k {
        c
    } else {
        s[i - 1]
    }) by {}
    assert forall|i: int, j: int| 0 <= i < j < r.len() implies r[i].id != r[j].id by {
        if i != k && j != k {
        } else if i == k {
            assert(s[j - 1].id == r[j].id);
        } else {
            assert(s[i].id == r[i].id);
        }
    }
    lemma_ordered_insert_members(s, c);
}

/// What an insertion of text did.
#[derive(Debug, PartialEq, Eq)]
pub enum InsertOutcome {
    /// A new clip was stored under this id.
    Inserted(String),
    /// A text clip with the same content already exists for the same local
    /// day; nothing was written.
    Duplicate,
}

/// Why the store refused an operation.
#[derive(Clone, Copy, Debug, PartialEq, Eq, Structural)]
pub enum StoreError {
    /// The id chosen for a new clip already names a clip.
    IdInUse,
    /// Two rows handed to the store share an id.
    DuplicateIds,
}

/// What a deletion did. A clip's image file, if it had one, is for the
/// caller to remove; failing to remove it does not undo the deletion.
#[derive(Debug, PartialEq, Eq)]
pub enum DeleteOutcome {
    /// No clip has this id; nothing changed.
    NotFound,
    /// The clip was removed; it referred to this image file, if any.
    Removed(Option<String>),
}

/// `r` is what an insertion of `content` under `id` at `now` reports.
pub open spec fn insert_reports(
    r: Result<InsertOutcome, StoreError>,
    s: Seq<ClipView>,
    content: Seq<char>,
    id: Seq<char>,
    now: int,
    offset: int,
) -> bool {
    match r {
        Ok(InsertOutcome::Duplicate) => is_duplicate_text(s, content, now, offset),
        Ok(InsertOutcome::Inserted(x)) => !is_duplicate_text(s, content, now, offset) && !id_in_use(
            s,
            id,
        ) && x@ == id,
        Err(e) => !is_duplicate_text(s, content, now, offset) && id_in_use(s, id) && e
            == StoreError::IdInUse,
    }
}

/// The clip with id `id`, given new content and its normalized form.
pub open spec fn edited(c: ClipView, id: Seq<char>, content: Seq<char>) -> ClipView {
    if c.id == id {
        ClipView { content, search_content: Some(normalized(content)), ..c }
    } else {
        c
    }
}

pub open spec fn after_update(s: Seq<ClipView>, id: Seq<char>, content: Seq<char>) -> Seq<ClipView> {
    s.map_values(|c: ClipView| edited(c, id, content))
}

/// Relies on `chrono::Utc::now` and `DateTime::timestamp_millis`: the
/// current instant in milliseconds since the Unix epoch.
#[verifier::external_body]
fn utc_now_ms() -> (r: i64) {
    chrono::Utc::now().timestamp_millis()
}

pub open spec fn is_lower_hex(c: char) -> bool {
    ('0' <= c && c <= '9') || ('a' <= c && c <= 'f')
}

/// A version 4 UUID written as lowercase hex in groups of 8, 4, 4, 4 and 12
/// digits joined by hyphens.
pub open spec fn is_uuid_v4_text(s: Seq<char>) -> bool {
    &&& s.len() == 36
    &&& forall|i: int|
        0 <= i < 36 ==> if i == 8 || i == 13 || i == 18 || i == 23 {
            #[trigger] s[i] == '-'
        } else {
            is_lower_hex(s[i])
        }
    &&& s[14] == '4'
    &&& (s[19] == '8' || s[19] == '9' || s[19] == 'a' || s[19] == 'b')
}

/// Relies on `uuid::Uuid::new_v4`, which sets the version and variant bits
/// of a random value, and on its `Display`, which writes the lowercase
/// hyphenated form.
#[verifier::external_body]
fn new_clip_id() -> (r: String)
    ensures
        is_uuid_v4_text(r@),
{
    uuid::Uuid::new_v4().to_string()
}

/// `needle` occurs in `hay` as a contiguous run.
pub open spec fn contains_text(hay: Seq<char>, needle: Seq<char>) -> bool {
    exists|i: int|
        0 <= i <= hay.len() - needle.len() && #[trigger] hay.subrange(i, i + needle.len()) == needle
}

/// A clip passes a query's filters: its search form contains `needle`, and
/// it was created on local day `day`; an absent filter passes every clip.
pub open spec fn clip_matches(c: ClipView, needle: Option<Seq<char>>, day: Option<int>, offset: int) -> bool {
    (match needle {
        None => true,
        Some(n) => match c.search_content {
            Some(sc) => contains_text(sc, n),
            None => false,
        },
    }) && (match day {
        None => true,
        Some(d) => local_day(c.created_at, offset) == d,
    })
}

/// The clips that pass the filters, newest first.
pub open spec fn newest_matching(
    s: Seq<ClipView>,
    needle: Option<Seq<char>>,
    day: Option<int>,
    offset: int,
) -> Seq<ClipView>
    decreases s.len(),
{
    if s.len() == 0 {
        seq![]
    } else {
        let rest = newest_matching(s.drop_last(), needle, day, offset);
        if clip_matches(s.last(), needle, day, offset) {
            seq![s.last()] + rest
        } else {
            rest
        }
    }
}

/// What a query returns: the newest matching clips, at most `QUERY_LIMIT`.
pub open spec fn query_result(
    s: Seq<ClipView>,
    needle: Option<Seq<char>>,
    day: Option<int>,
    offset: int,
) -> Seq<ClipView> {
    let m = newest_matching(s, needle, day, offset);
    if m.len() <= QUERY_LIMIT {
        m
    } else {
        m.take(QUERY_LIMIT as int)
    }
}

/// The local days on which clips were created, newest first, each once.
pub open spec fn days_newest_first(s: Seq<ClipView>, offset: int) -> Seq<int>
    decreases s.len(),
{
    if s.len() == 0 {
        seq![]
    } else {
        let r = days_newest_first(s.drop_first(), offset);
        let d = local_day(s[0].created_at, offset);
        if r.len() > 0 && r.last() == d {
            r
        } else {
            r.push(d)
        }
    }
}

pub open spec fn clips_view(v: Seq<Clip>) -> Seq<ClipView> {
    v.map_values(|c: Clip| c@)
}

/// Relies on `str::contains`: whether `needle` occurs in `hay`.
#[verifier::external_body]
fn text_contains(hay: &str, needle: &str) -> (r: bool)
    ensures
        r == contains_text(hay@, needle@),
{
    hay.contains(needle)
}

/// A clip is kept by the retention sweep at `now` when it is a favorite or
/// was created no more than `RETENTION_DAYS` days before `now`.
pub open spec fn survives_retention(c: ClipView, now: int) -> bool {
    c.is_favorite || c.created_at >= now - RETENTION_DAYS * DAY_MS
}

/// The clip carrying the normalized form of its content.
pub open spec fn backfilled(c: ClipView) -> ClipView {
    ClipView { search_content: Some(normalized(c.content)), ..c }
}

/// The clips a store holds after loading `rows` at `now`: the survivors of
/// the retention sweep, backfilled, in order of creation time.
pub open spec fn loaded(rows: Seq<ClipView>, now: int) -> Seq<ClipView>
    decreases rows.len(),
{
    if rows.len() == 0 {
        seq![]
    } else {
        let p = loaded(rows.drop_last(), now);
        if survives_retention(rows.last(), now) {
            ordered_insert(p, backfilled(rows.last()))
        } else {
            p
        }
    }
}

pub proof fn lemma_loaded_members(rows: Seq<ClipView>, now: int)
    requires
        unique_ids(rows),
    ensures
        store_wf(loaded(rows, now)),
        forall|x: ClipView|
            loaded(rows, now).contains(x) <==> exists|j: int|
                0 <= j < rows.len() && survives_retention(rows[j], now) && x == backfilled(
                    #[trigger] rows[j],
                ),
    decreases rows.len(),
{
    let l = loaded(rows, now);
    if rows.len() == 0 {
        assert(store_wf(l));
    } else {
        let q = rows.drop_last();
        let p = loaded(q, now);
        assert(unique_ids(q));
        lemma_loaded_members(q, now);
        let c = rows.last();
        if survives_retention(c, now) {
            assert(!id_in_use(p, c.id)) by {
                if id_in_use(p, c.id) {
                    let k = choose|k: int| 0 <= k < p.len() && #[trigger] p[k].id == c.id;
                    assert(p.contains(p[k]));
                    let j = choose|j: int|
                        0 <= j < q.len() && survives_retention(q[j], now) && p[k] == backfilled(
                            #[trigger] q[j],
                        );
                    assert(rows[j] == q[j]);
                }
            }
            lemma_ordered_insert_wf(p, backfilled(c));
            assert(l == ordered_insert(p, backfilled(c)));
        } else {
            assert(l == p);
        }
        assert forall|x: ClipView| l.contains(x) implies exists|j: int|
            0 <= j < rows.len() && survives_retention(rows[j], now) && x == backfilled(
                #[trigger] rows[j],
            ) by {
            if p.contains(x) {
                let j = choose|j: int|
                    0 <= j < q.len() && survives_retention(q[j], now) && x == backfilled(
                        #[trigger] q[j],
                    );
                assert(rows[j] == q[j]);
            } else {
                assert(survives_retention(c, now));
                assert(x == backfilled(c));
                assert(rows[rows.len() - 1] == c);
            }
        }
        assert forall|x: ClipView|
            (exists|j: int|
                0 <= j < rows.len() && survives_retention(rows[j], now) && x == backfilled(
                    #[trigger] rows[j],
                )) implies l.contains(x) by {
            let j = choose|j: int|
                0 <= j < rows.len() && survives_retention(rows[j], now) && x == backfilled(
                    #[trigger] rows[j],
                );
            if j < rows.len() - 1 {
                assert(q[j] == rows[j]);
                assert(p.contains(x));
                if !survives_retention(c, now) {
                    assert(l == p);
                }
            } else {
                assert(rows[j] == c);
                assert(survives_retention(c, now));
                assert(x == backfilled(c));
                let b = backfilled(c);
                lemma_ordered_insert_members(p, b);
                assert(l == ordered_insert(p, b));
                assert(l[insert_slot(p, b.created_at)] == b);
                assert(l.contains(b));
            }
        }
    }
}

/// The retention sweep removes every non-favorite clip created more than
/// `RETENTION_DAYS` days before `now`, and keeps every favorite.
pub proof fn lemma_retention(rows: Seq<ClipView>, now: int)
    requires
        unique_ids(rows),
    ensures
        forall|j: int|
            0 <= j < rows.len() && !rows[j].is_favorite && rows[j].created_at < now - RETENTION_DAYS
                * DAY_MS ==> !id_in_use(loaded(rows, now), #[trigger] rows[j].id),
        forall|j: int|
            0 <= j < rows.len() && rows[j].is_favorite ==> loaded(rows, now).contains(
                backfilled(#[trigger] rows[j]),
            ),
{
    lemma_loaded_members(rows, now);
    let l = loaded(rows, now);
    assert forall|j: int|
        0 <= j < rows.len() && !rows[j].is_favorite && rows[j].created_at < now - RETENTION_DAYS
            * DAY_MS implies !id_in_use(l, #[trigger] rows[j].id) by {
        if id_in_use(l, rows[j].id) {
            let k = choose|k: int| 0 <= k < l.len() && #[trigger] l[k].id == rows[j].id;
            assert(l.contains(l[k]));
            let i = choose|i: int|
                0 <= i < rows.len() && survives_retention(rows[i], now) && l[k] == backfilled(
                    #[trigger] rows[i],
                );
            if i < j {
                assert(rows[i].id != rows[j].id);
            } else if i > j {
                assert(rows[j].id != rows[i].id);
            }
        }
    }
    assert forall|j: int| 0 <= j < rows.len() && rows[j].is_favorite implies l.contains(
        backfilled(#[trigger] rows[j]),
    ) by {
        assert(survives_retention(rows[j], now));
    }
}

/// Inserting the same text twice on one local day stores it once: the
/// second attempt is a duplicate and changes nothing.
pub proof fn lemma_same_day_duplicate(
    s: Seq<ClipView>,
    content: Seq<char>,
    id1: Seq<char>,
    id2: Seq<char>,
    t1: int,
    t2: int,
    offset: int,
)
    requires
        !id_in_use(s, id1),
        local_day(t1, offset) == local_day(t2, offset),
    ensures
        is_duplicate_text(after_insert_text(s, content, id1, t1, offset), content, t2, offset),
        after_insert_text(after_insert_text(s, content, id1, t1, offset), content, id2, t2, offset)
            == after_insert_text(s, content, id1, t1, offset),
{
    if !is_duplicate_text(s, content, t1, offset) {
        let c = text_clip(id1, content, t1);
        let s1 = ordered_insert(s, c);
        lemma_ordered_insert_members(s, c);
        let k = insert_slot(s, t1);
        assert(s1[k] == c);
        assert(s1[k].clip_type == ClipKind::Text);
    }
}

/// Text with no copy created on the same local day is stored: the clips
/// afterwards are those before, all kept, and the new one.
pub proof fn lemma_new_text_stored(
    s: Seq<ClipView>,
    content: Seq<char>,
    id: Seq<char>,
    now: int,
    offset: int,
)
    requires
        !is_duplicate_text(s, content, now, offset),
        !id_in_use(s, id),
    ensures
        after_insert_text(s, content, id, now, offset).len() == s.len() + 1,
        forall|x: ClipView|
            after_insert_text(s, content, id, now, offset).contains(x) <==> (s.contains(x) || x
                == text_clip(id, content, now)),
{
    lemma_ordered_insert_members(s, text_clip(id, content, now));
}

/// The same text inserted on two different local days is stored twice.
pub proof fn lemma_other_day_stored_again(
    content: Seq<char>,
    id1: Seq<char>,
    id2: Seq<char>,
    t1: int,
    t2: int,
    offset: int,
)
    requires
        id1 != id2,
        local_day(t1, offset) != local_day(t2, offset),
    ensures
        after_insert_text(
            after_insert_text(seq![], content, id1, t1, offset),
            content,
            id2,
            t2,
            offset,
        ).len() == 2,
{
    let e = Seq::<ClipView>::empty();
    let c = text_clip(id1, content, t1);
    lemma_ordered_insert_members(e, c);
    let s1 = after_insert_text(e, content, id1, t1, offset);
    assert(s1 == ordered_insert(e, c));
    assert(s1.len() == 1);
    assert(s1[0] == c);
    assert(!id_in_use(s1, id2));
    assert(!is_duplicate_text(s1, content, t2, offset));
    lemma_ordered_insert_members(s1, text_clip(id2, content, t2));
}

proof fn lemma_unfiltered_is_reverse(s: Seq<ClipView>, offset: int)
    ensures
        newest_matching(s, None, None, offset).len() == s.len(),
        forall|i: int|
            0 <= i < s.len() ==> #[trigger] newest_matching(s, None, None, offset)[i] == s[s.len()
                - 1 - i],
    decreases s.len(),
{
    if s.len() > 0 {
        let p = s.drop_last();
        lemma_unfiltered_is_reverse(p, offset);
        let m = newest_matching(s, None, None, offset);
        assert(m == seq![s.last()] + newest_matching(p, None, None, offset));
        assert forall|i: int| 0 <= i < s.len() implies #[trigger] m[i] == s[s.len() - 1 - i] by {
            if i > 0 {
                assert(m[i] == newest_matching(p, None, None, offset)[i - 1]);
            }
        }
    }
}

/// A query without filters returns the most recent clips, newest first:
/// the last `QUERY_LIMIT` of the store, or all of them when there are fewer.
pub proof fn lemma_unfiltered_query(s: Seq<ClipView>, offset: int)
    requires
        sorted_by_time(s),
    ensures
        query_result(s, None, None, offset).len() == if s.len() < QUERY_LIMIT {
            s.len() as int
        } else {
            QUERY_LIMIT as int
        },
        forall|i: int|
            0 <= i < query_result(s, None, None, offset).len() ==> #[trigger] query_result(
                s,
                None,
                None,
                offset,
            )[i] == s[s.len() - 1 - i],
        forall|i: int, j: int|
            0 <= i < j < query_result(s, None, None, offset).len() ==> query_result(
                s,
                None,
                None,
                offset,
            )[i].created_at >= query_result(s, None, None, offset)[j].created_at,
{
    lemma_unfiltered_is_reverse(s, offset);
    let q = query_result(s, None, None, offset);
    assert forall|i: int| 0 <= i < q.len() implies #[trigger] q[i] == s[s.len() - 1 - i] by {}
    assert forall|i: int, j: int| 0 <= i < j < q.len() implies q[i].created_at >= q[j].created_at by {
        assert(q[i] == s[s.len() - 1 - i]);
        assert(q[j] == s[s.len() - 1 - j]);
    }
}

/// Whether no two rows share an id.
pub fn ids_are_unique(rows: &Vec<Clip>) -> (r: bool)
    ensures
        r == unique_ids(clips_view(rows@)),
{
    let ghost v = clips_view(rows@);
    let mut i: usize = 0;
    while i < rows.len()
        invariant
            i <= rows.len(),
            v == clips_view(rows@),
            forall|a: int, b: int| 0 <= a < b < v.len() && a < i ==> v[a].id != v[b].id,
        decreases rows.len() - i,
    {
        let mut j: usize = i + 1;
        while j < rows.len()
            invariant
                i < j <= rows.len(),
                i < rows.len(),
                v == clips_view(rows@),
                forall|a: int, b: int| 0 <= a < b < v.len() && a < i ==> v[a].id != v[b].id,
                forall|b: int| i < b < j ==> v[i as int].id != #[trigger] v[b].id,
            decreases rows.len() - j,
        {
            if rows[i].id == rows[j].id {
                assert(v[i as int].id == v[j as int].id);
                return false;
            }
            j = j + 1;
        }
        i = i + 1;
    }
    true
}

/// The durable set of clips, held oldest first.
pub struct ClipStore {
    clips: Vec<Clip>,
    utc_offset_ms: i64,
}

impl View for ClipStore {
    type V = Seq<ClipView>;

    closed spec fn view(&self) -> Seq<ClipView> {
        self.clips@.map_values(|c: Clip| c@)
    }
}

impl ClipStore {
    /// How far local time is ahead of UTC, in milliseconds.
    pub closed spec fn offset(&self) -> int {
        self.utc_offset_ms as int
    }

    pub open spec fn wf(&self) -> bool {
        store_wf(self@)
    }

    /// An empty store for a time zone `utc_offset_ms` ahead of UTC.
    pub fn new(utc_offset_ms: i64) -> (r: ClipStore)
        ensures
            r@ == Seq::<ClipView>::empty(),
            r.offset() == utc_offset_ms,
            r.wf(),
    {
        let r = ClipStore { clips: Vec::new(), utc_offset_ms };
        assert(r@ =~= Seq::<ClipView>::empty());
        r
    }

    pub fn utc_offset_ms(&self) -> (r: i64)
        ensures
            r == self.offset(),
    {
        self.utc_offset_ms
    }

    pub fn len(&self) -> (r: usize)
        ensures
            r == self@.len(),
    {
        self.clips.len()
    }

    fn find_slot(&self, t: i64) -> (r: usize)
        ensures
            r == insert_slot(self@, t as int),
    {
        let mut i: usize = self.clips.len();
        assert(self@.take(self@.len() as int) == self@);
        while i > 0 && self.clips[i - 1].created_at > t
            invariant
                i <= self.clips.len(),
                insert_slot(self@, t as int) == insert_slot(self@.take(i as int), t as int),
            decreases i,
        {
            assert(self@.take(i as int).drop_last() == self@.take(i - 1));
            i = i - 1;
        }
        assert(self@.take(self@.len() as int) == self@);
        i
    }

    fn insert_ordered(&mut self, c: Clip)
        ensures
            final(self)@ == ordered_insert(old(self)@, c@),
            final(self).offset() == old(self).offset(),
    {
        let k = self.find_slot(c.created_at);
        proof {
            lemma_insert_slot(self@, c.created_at as int);
        }
        self.clips.insert(k, c);
        assert(self@ =~= ordered_insert(old(self)@, c@));
    }

    fn has_same_day_text(&self, content: &String, day: i64) -> (r: bool)
        ensures
            r == same_day_text(self@, content@, day as int, self.offset()),
    {
        let mut i: usize = 0;
        while i < self.clips.len()
            invariant
                i <= self.clips.len(),
                forall|j: int|
                    0 <= j < i ==> !(#[trigger] self@[j].clip_type == ClipKind::Text
                        && self@[j].content == content@ && local_day(self@[j].created_at, self.offset())
                        == day),
            decreases self.clips.len() - i,
        {
            let c = &self.clips[i];
            if c.clip_type == ClipKind::Text && c.content == *content && local_day_of(
                c.created_at,
                self.utc_offset_ms,
            ) == day {
                assert(self@[i as int] == self.clips@[i as int]@);
                assert(self@[i as int].clip_type == ClipKind::Text);
                assert(self@[i as int].content == content@);
                return true;
            }
            i = i + 1;
        }
        false
    }

    /// Stores `content` as a new text clip created at `now` under `id`,
    /// unless a text clip with the same content was created on the same
    /// local day.
    pub fn insert_text_at(&mut self, content: String, id: String, now: i64) -> (r: Result<
        InsertOutcome,
        StoreError,
    >)
        requires
            old(self).wf(),
        ensures
            final(self).wf(),
            final(self).offset() == old(self).offset(),
            final(self)@ == after_insert_text(old(self)@, content@, id@, now as int, old(self).offset()),
            insert_reports(r, old(self)@, content@, id@, now as int, old(self).offset()),
    {
        let day = local_day_of(now, self.utc_offset_ms);
        if self.has_same_day_text(&content, day) {
            return Ok(InsertOutcome::Duplicate);
        }
        if self.position_of(&id).is_some() {
            return Err(StoreError::IdInUse);
        }
        let search_content = normalize_text(content.as_str());
        let c = Clip {
            id: id.clone(),
            content,
            created_at: now,
            is_favorite: false,
            clip_type: ClipKind::Text,
            image_path: None,
            search_content: Some(search_content),
        };
        proof {
            lemma_ordered_insert_wf(self@, c@);
        }
        self.insert_ordered(c);
        Ok(InsertOutcome::Inserted(id))
    }

    /// Stores `content` as a new text clip created now under a fresh random
    /// id, unless it is a duplicate for today.
    pub fn insert_text(&mut self, content: String) -> (r: Result<InsertOutcome, StoreError>)
        requires
            old(self).wf(),
        ensures
            final(self).wf(),
            final(self).offset() == old(self).offset(),
            exists|id: Seq<char>, now: int|
                final(self)@ == after_insert_text(old(self)@, content@, id, now, old(self).offset())
                    && insert_reports(r, old(self)@, content@, id, now, old(self).offset()),
            r matches Ok(InsertOutcome::Inserted(x)) ==> is_uuid_v4_text(x@),
    {
        let now = utc_now_ms();
        let id = new_clip_id();
        let ghost gid = id@;
        let r = self.insert_text_at(content, id, now);
        assert(insert_reports(r, old(self)@, content@, gid, now as int, old(self).offset()));
        r
    }

    /// Replaces the content of the clip with this id, and its normalized
    /// form. Returns whether such a clip exists; if none does, nothing changes.
    pub fn update_content(&mut self, id: &String, content: String) -> (r: bool)
        requires
            old(self).wf(),
        ensures
            final(self).wf(),
            final(self).offset() == old(self).offset(),
            r == id_in_use(old(self)@, id@),
            final(self)@ == after_update(old(self)@, id@, content@),
    {
        match self.position_of(id) {
            None => {
                assert(self@ =~= after_update(self@, id@, content@));
                false
            },
            Some(i) => {
                let old_clip = &self.clips[i];
                let search_content = normalize_text(content.as_str());
                let c = Clip {
                    id: old_clip.id.clone(),
                    content,
                    created_at: old_clip.created_at,
                    is_favorite: old_clip.is_favorite,
                    clip_type: old_clip.clip_type,
                    image_path: crate::clip::copy_opt(&old_clip.image_path),
                    search_content: Some(search_content),
                };
                let ghost s0 = self@;
                self.clips.set(i, c);
                assert(self@ =~= after_update(s0, id@, content@)) by {
                    assert forall|j: int| 0 <= j < s0.len() && j != i implies s0[j].id != id@ by {
                        if j < i {
                            assert(s0[j].id != s0[i as int].id);
                        } else {
                            assert(s0[i as int].id != s0[j].id);
                        }
                    }
                }
                true
            },
        }
    }

    /// Removes the clip with this id, reporting its image file for the
    /// caller to remove; an unknown id changes nothing.
    pub fn delete(&mut self, id: &String) -> (r: DeleteOutcome)
        requires
            old(self).wf(),
        ensures
            final(self).wf(),
            final(self).offset() == old(self).offset(),
            match r {
                DeleteOutcome::NotFound => !id_in_use(old(self)@, id@) && final(self)@ == old(self)@,
                DeleteOutcome::Removed(p) => exists|i: int|
                    0 <= i < old(self)@.len() && #[trigger] old(self)@[i].id == id@ && final(self)@
                        == old(self)@.remove(i) && crate::clip::opt_view(p) == old(self)@[i].image_path,
            },
    {
        match self.position_of(id) {
            None => DeleteOutcome::NotFound,
            Some(i) => {
                let ghost s0 = self@;
                let c = self.clips.remove(i);
                assert(self@ =~= s0.remove(i as int));
                assert(c@ == s0[i as int]);
                DeleteOutcome::Removed(c.image_path)
            },
        }
    }

    fn matches(&self, i: usize, needle: &Option<String>, day: Option<i64>) -> (r: bool)
        requires
            i < self@.len(),
        ensures
            r == clip_matches(
                self@[i as int],
                crate::clip::opt_view(*needle),
                match day {
                    Some(d) => Some(d as int),
                    None => None,
                },
                self.offset(),
            ),
    {
        let c = &self.clips[i];
        assert(self@[i as int] == c@);
        let text_ok = match needle {
            None => true,
            Some(n) => match &c.search_content {
                Some(sc) => text_contains(sc.as_str(), n.as_str()),
                None => false,
            },
        };
        let day_ok = match day {
            None => true,
            Some(d) => local_day_of(c.created_at, self.utc_offset_ms) == d,
        };
        text_ok && day_ok
    }

    /// The newest clips whose search form contains `needle` and that were
    /// created on local day `day`, at most `QUERY_LIMIT` of them; an absent
    /// filter constrains nothing.
    pub fn query(&self, needle: &Option<String>, day: Option<i64>) -> (r: Vec<Clip>)
        ensures
            clips_view(r@) == query_result(
                self@,
                crate::clip::opt_view(*needle),
                match day {
                    Some(d) => Some(d as int),
                    None => None,
                },
                self.offset(),
            ),
    {
        let ghost n = crate::clip::opt_view(*needle);
        let ghost dd = match day {
            Some(d) => Some(d as int),
            None => None,
        };
        let ghost off = self.offset();
        let ghost m = newest_matching(self@, n, dd, off);
        let mut r: Vec<Clip> = Vec::new();
        let mut i: usize = self.clips.len();
        assert(self@.take(self@.len() as int) == self@);
        while i > 0 && r.len() < QUERY_LIMIT
            invariant
                i <= self@.len(),
                r.len() <= QUERY_LIMIT,
                n == crate::clip::opt_view(*needle),
                dd == match day {
                    Some(d) => Some(d as int),
                    None => None,
                },
                off == self.offset(),
                m == clips_view(r@) + newest_matching(self@.take(i as int), n, dd, off),
            decreases i,
        {
            let ghost t = self@.take(i as int);
            assert(t.drop_last() == self@.take(i - 1));
            assert(t.last() == self@[i - 1]);
            let ghost rest = newest_matching(self@.take(i - 1), n, dd, off);
            assert(newest_matching(t, n, dd, off) == if clip_matches(self@[i - 1], n, dd, off) {
                seq![self@[i - 1]] + rest
            } else {
                rest
            });
            if self.matches(i - 1, needle, day) {
                let c = self.clips[i - 1].duplicate();
                let ghost r0 = r@;
                r.push(c);
                assert(clips_view(r@) =~= clips_view(r0).push(self@[i - 1]));
                assert(clips_view(r0) + (seq![self@[i - 1]] + rest) =~= clips_view(r0).push(
                    self@[i - 1],
                ) + rest);
            }
            i = i - 1;
        }
        proof {
            let rest = newest_matching(self@.take(i as int), n, dd, off);
            if i == 0 {
                assert(rest =~= Seq::<ClipView>::empty());
                assert(m =~= clips_view(r@));
            } else {
                assert(m.take(QUERY_LIMIT as int) =~= clips_view(r@));
                if m.len() <= QUERY_LIMIT {
                    assert(m =~= clips_view(r@));
                }
            }
        }
        r
    }

    /// The local days on which clips were created, most recent first, each
    /// once.
    pub fn dates_with_clips(&self) -> (r: Vec<i64>)
        ensures
            r@.map_values(|d: i64| d as int) == days_newest_first(self@, self.offset()),
    {
        let mut r: Vec<i64> = Vec::new();
        let mut i: usize = self.clips.len();
        let ghost off = self.offset();
        assert(self@.subrange(i as int, i as int) =~= Seq::<ClipView>::empty());
        while i > 0
            invariant
                i <= self@.len(),
                off == self.offset(),
                r@.map_values(|d: i64| d as int) == days_newest_first(
                    self@.subrange(i as int, self@.len() as int),
                    off,
                ),
            decreases i,
        {
            let ghost sub = self@.subrange(i - 1, self@.len() as int);
            assert(sub.drop_first() =~= self@.subrange(i as int, self@.len() as int));
            assert(sub[0] == self.clips@[i - 1]@);
            let ghost prev = days_newest_first(sub.drop_first(), off);
            assert(days_newest_first(sub, off) == if prev.len() > 0 && prev.last() == local_day(
                sub[0].created_at,
                off,
            ) {
                prev
            } else {
                prev.push(local_day(sub[0].created_at, off))
            });
            let d = local_day_of(self.clips[i - 1].created_at, self.utc_offset_ms);
            let n = r.len();
            assert(n > 0 ==> r@.map_values(|d: i64| d as int).last() == r@[n - 1] as int);
            if n == 0 || r[n - 1] != d {
                let ghost r0 = r@;
                r.push(d);
                assert(r@.map_values(|d: i64| d as int) =~= r0.map_values(|d: i64| d as int).push(
                    d as int,
                ));
            }
            i = i - 1;
        }
        assert(self@.subrange(0, self@.len() as int) =~= self@);
        r
    }

    /// Builds the store from rows read back from storage at `now`: refuses
    /// rows that share an id; otherwise keeps the survivors of the retention
    /// sweep, each with the normalized form of its content, oldest first.
    pub fn initialize_at(rows: Vec<Clip>, now: i64, utc_offset_ms: i64) -> (r: Result<
        ClipStore,
        StoreError,
    >)
        ensures
            match r {
                Ok(st) => unique_ids(clips_view(rows@)) && st.wf() && st@ == loaded(
                    clips_view(rows@),
                    now as int,
                ) && st.offset() == utc_offset_ms,
                Err(e) => !unique_ids(clips_view(rows@)) && e == StoreError::DuplicateIds,
            },
    {
        if !ids_are_unique(&rows) {
            return Err(StoreError::DuplicateIds);
        }
        let ghost v = clips_view(rows@);
        let mut st = ClipStore::new(utc_offset_ms);
        let cutoff: i128 = now as i128 - (RETENTION_DAYS as i128) * (DAY_MS as i128);
        let mut i: usize = 0;
        assert(v.take(0) =~= Seq::<ClipView>::empty());
        while i < rows.len()
            invariant
                i <= rows.len(),
                v == clips_view(rows@),
                unique_ids(v),
                st@ == loaded(v.take(i as int), now as int),
                st.wf(),
                st.offset() == utc_offset_ms,
                cutoff == now - RETENTION_DAYS * DAY_MS,
            decreases rows.len() - i,
        {
            let row = &rows[i];
            let ghost t = v.take(i + 1);
            proof {
                assert(t.drop_last() == v.take(i as int));
                assert(t.last() == row@);
                assert(unique_ids(t));
                lemma_loaded_members(t, now as int);
            }
            if row.is_favorite || row.created_at as i128 >= cutoff {
                let c = Clip {
                    id: row.id.clone(),
                    content: row.content.clone(),
                    created_at: row.created_at,
                    is_favorite: row.is_favorite,
                    clip_type: row.clip_type,
                    image_path: crate::clip::copy_opt(&row.image_path),
                    search_content: Some(normalize_text(row.content.as_str())),
                };
                st.insert_ordered(c);
            }
            i = i + 1;
        }
        assert(v.take(v.len() as int) == v);
        Ok(st)
    }

    /// Builds the store from rows read back from storage, sweeping by the
    /// current time.
    pub fn initialize(rows: Vec<Clip>, utc_offset_ms: i64) -> (r: Result<ClipStore, StoreError>)
        ensures
            match r {
                Ok(st) => unique_ids(clips_view(rows@)) && st.wf() && st.offset() == utc_offset_ms
                    && exists|now: int| st@ == loaded(clips_view(rows@), now),
                Err(e) => !unique_ids(clips_view(rows@)) && e == StoreError::DuplicateIds,
            },
    {
        let now = utc_now_ms();
        let ghost rv = clips_view(rows@);
        let r = ClipStore::initialize_at(rows, now, utc_offset_ms);
        match &r {
            Ok(st) => {
                assert(st@ == loaded(rv, now as int));
            },
            Err(_) => {},
        }
        r
    }

    /// Copies of all clips, oldest first.
    pub fn snapshot(&self) -> (r: Vec<Clip>)
        ensures
            clips_view(r@) == self@,
    {
        let mut r: Vec<Clip> = Vec::new();
        let mut i: usize = 0;
        while i < self.clips.len()
            invariant
                i <= self.clips.len(),
                clips_view(r@) == self@.take(i as int),
            decreases self.clips.len() - i,
        {
            let ghost r0 = r@;
            let c = self.clips[i].duplicate();
            assert(c@ == self@[i as int]);
            r.push(c);
            assert(clips_view(r@) =~= clips_view(r0).push(c@));
            assert(self@.take(i + 1) =~= self@.take(i as int).push(self@[i as int]));
            i = i + 1;
        }
        assert(self@.take(self@.len() as int) =~= self@);
        r
    }

    /// A copy of the clip with this id, if there is one.
    pub fn clip_with_id(&self, id: &String) -> (r: Option<Clip>)
        ensures
            match r {
                Some(c) => exists|i: int| 0 <= i < self@.len() && #[trigger] self@[i] == c@ && c@.id == id@,
                None => !id_in_use(self@, id@),
            },
    {
        match self.position_of(id) {
            Some(i) => {
                let c = self.clips[i].duplicate();
                assert(self@[i as int] == c@);
                Some(c)
            },
            None => None,
        }
    }

    /// The position of the clip with this id, if any.
    pub fn position_of(&self, id: &String) -> (r: Option<usize>)
        ensures
            match r {
                Some(i) => i < self@.len() && self@[i as int].id == id@,
                None => !id_in_use(self@, id@),
            },
    {
        let mut i: usize = 0;
        while i < self.clips.len()
            invariant
                i <= self.clips.len(),
                forall|j: int| 0 <= j < i ==> #[trigger] self@[j].id != id@,
            decreases self.clips.len() - i,
        {
            if self.clips[i].id == *id {
                return Some(i);
            }
            i = i + 1;
        }
        None
    }
}

} // verus!
