use vstd::prelude::*;

verus! {

/// Milliseconds in one day.
pub const DAY_MS: i64 = 86_400_000;

/// The kind of payload a clip holds, fixed when the clip is created.
#[derive(Clone, Copy, Debug, PartialEq, Eq, Structural)]
pub enum ClipKind {
    Text,
    Image,
}

/// One captured or saved piece of clipboard content.
///
/// `created_at` is in milliseconds since the Unix epoch, UTC.
/// `search_content` is the normalized form of `content`; rows read back from
/// storage may lack it until the store is initialized.
#[derive(Debug)]
pub struct Clip {
    pub id: String,
    pub content: String,
    pub created_at: i64,
    pub is_favorite: bool,
    pub clip_type: ClipKind,
    pub image_path: Option<String>,
    pub search_content: Option<String>,
}

/// The mathematical value of a clip.
pub struct ClipView {
    pub id: Seq<char>,
    pub content: Seq<char>,
    pub created_at: int,
    pub is_favorite: bool,
    pub clip_type: ClipKind,
    pub image_path: Option<Seq<char>>,
    pub search_content: Option<Seq<char>>,
}

pub open spec fn opt_view(o: Option<String>) -> Option<Seq<char>> {
    match o {
        Some(s) => Some(s@),
        None => None,
    }
}

impl View for Clip {
    type V = ClipView;

    open spec fn view(&self) -> ClipView {
        ClipView {
            id: self.id@,
            content: self.content@,
            created_at: self.created_at as int,
            is_favorite: self.is_favorite,
            clip_type: self.clip_type,
            image_path: opt_view(self.image_path),
            search_content: opt_view(self.search_content),
        }
    }
}

pub fn copy_opt(o: &Option<String>) -> (r: Option<String>)
    ensures
        opt_view(r) == opt_view(*o),
{
    match o {
        Some(s) => Some(s.clone()),
        None => None,
    }
}

impl Clip {
    /// A field-by-field copy.
    pub fn duplicate(&self) -> (r: Clip)
        ensures
            r@ == self@,
    {
        Clip {
            id: self.id.clone(),
            content: self.content.clone(),
            created_at: self.created_at,
            is_favorite: self.is_favorite,
            clip_type: self.clip_type,
            image_path: copy_opt(&self.image_path),
            search_content: copy_opt(&self.search_content),
        }
    }
}

/// The local calendar day, counted from 1970-01-01, on which a UTC instant
/// falls for a time zone `offset` milliseconds ahead of UTC.
pub open spec fn local_day(t: int, offset: int) -> int {
    (t + offset) / (DAY_MS as int)
}

/// Computes `local_day` without overflow for every pair of `i64` values.
pub fn local_day_of(t: i64, offset: i64) -> (r: i64)
    ensures
        r as int == local_day(t as int, offset as int),
{
    let x: i128 = t as i128 + offset as i128;
    let d: i128 = DAY_MS as i128;
    if x >= 0 {
        let q: i128 = x / d;
        assert(q <= x) by (nonlinear_arith)
            requires q == x / d, x >= 0, d > 0;
        q as i64
    } else {
        let y: i128 = -x - 1;
        let q: i128 = y / d;
        assert(q <= y) by (nonlinear_arith)
            requires q == y / d, y >= 0, d > 0;
        assert(x / d == -q - 1) by (nonlinear_arith)
            requires q == y / d, y == -x - 1, y >= 0, d > 0;
        (-q - 1) as i64
    }
}

} // verus!
