use vstd::prelude::*;

use crate::loading::{SceneAsset, Scenes};
use crate::SelectedScene;

verus! {

/// The search filter text the presentation layer edits.
#[derive(Debug, Clone)]
pub struct SearchText(pub String);

impl Default for SearchText {
    fn default() -> (r: Self)
        ensures
            r.0@ == Seq::<char>::empty(),
    {
        SearchText(String::new())
    }
}

// ---------------------------------------------------------------------------
// Name order and search
// ---------------------------------------------------------------------------

/// Lexicographic order on names, by character code point — the order string
/// comparison gives.
pub open spec fn lex_le(a: Seq<char>, b: Seq<char>) -> bool
    decreases a.len(),
{
    if a.len() == 0 {
        true
    } else if b.len() == 0 {
        false
    } else if (a[0] as u32) == (b[0] as u32) {
        lex_le(a.drop_first(), b.drop_first())
    } else {
        (a[0] as u32) < (b[0] as u32)
    }
}

/// The name order is total.
pub proof fn lemma_lex_le_total(a: Seq<char>, b: Seq<char>)
    ensures
        lex_le(a, b) || lex_le(b, a),
    decreases a.len(),
{
    if a.len() > 0 && b.len() > 0 && (a[0] as u32) == (b[0] as u32) {
        lemma_lex_le_total(a.drop_first(), b.drop_first());
    }
}

/// The name order is transitive.
pub proof fn lemma_lex_le_trans(a: Seq<char>, b: Seq<char>, c: Seq<char>)
    requires
        lex_le(a, b),
        lex_le(b, c),
    ensures
        lex_le(a, c),
    decreases a.len(),
{
    if a.len() > 0 && b.len() > 0 && c.len() > 0 && (a[0] as u32) == (b[0] as u32) && (b[0] as u32)
        == (c[0] as u32) {
        lemma_lex_le_trans(a.drop_first(), b.drop_first(), c.drop_first());
    }
}

/// Compares two names in the lexicographic code-point order.
fn str_le(a: &str, b: &str) -> (r: bool)
    ensures
        r == lex_le(a@, b@),
{
    let an = a.unicode_len();
    let bn = b.unicode_len();
    proof {
        assert(a@.skip(0) =~= a@);
        assert(b@.skip(0) =~= b@);
    }
    let mut i: usize = 0;
    loop
        invariant
            i <= an,
            i <= bn,
            an == a@.len(),
            bn == b@.len(),
            lex_le(a@, b@) == lex_le(a@.skip(i as int), b@.skip(i as int)),
        decreases an - i,
    {
        if i >= an {
            proof {
                assert(a@.skip(i as int).len() == 0);
            }
            return true;
        }
        if i >= bn {
            proof {
                assert(b@.skip(i as int).len() == 0);
                assert(a@.skip(i as int).len() > 0);
            }
            return false;
        }
        let ca = a.get_char(i) as u32;
        let cb = b.get_char(i) as u32;
        if ca == cb {
            i = i + 1;
            proof {
                assert(a@.skip(i - 1)[0] == a@[i - 1]);
                assert(b@.skip(i - 1)[0] == b@[i - 1]);
                assert(a@.skip(i - 1).drop_first() =~= a@.skip(i as int));
                assert(b@.skip(i - 1).drop_first() =~= b@.skip(i as int));
            }
        } else {
            proof {
                assert(a@.skip(i as int)[0] == a@[i as int]);
                assert(b@.skip(i as int)[0] == b@[i as int]);
            }
            return ca < cb;
        }
    }
}

/// `needle` occurs contiguously in `hay`; an empty needle always does.
/// `needle` matches `hay` at offset `k`.
pub open spec fn match_at_idx(hay: Seq<char>, needle: Seq<char>, k: int) -> bool {
    hay.subrange(k, k + needle.len()) == needle
}

pub open spec fn contains_seq(hay: Seq<char>, needle: Seq<char>) -> bool {
    exists|k: int| 0 <= k && k + needle.len() <= hay.len() && #[trigger] match_at_idx(hay, needle, k)
}

fn match_at(hay: &str, needle: &str, k: usize) -> (r: bool)
    requires
        k + needle@.len() <= hay@.len(),
    ensures
        r == match_at_idx(hay@, needle@, k as int),
{
    let hn = hay.unicode_len();
    let nn = needle.unicode_len();
    let mut j: usize = 0;
    while j < nn
        invariant
            j <= nn,
            hn == hay@.len(),
            nn == needle@.len(),
            k + nn <= hay@.len(),
            forall|jj: int| 0 <= jj < j ==> hay@[k + jj] == needle@[jj],
        decreases nn - j,
    {
        if hay.get_char(k + j) != needle.get_char(j) {
            proof {
                assert(hay@.subrange(k as int, k + needle@.len())[j as int] == hay@[k + j]);
            }
            return false;
        }
        j = j + 1;
    }
    proof {
        assert(hay@.subrange(k as int, k + needle@.len()) =~= needle@);
    }
    true
}

/// Substring search over names, as the search box filters the catalog.
fn str_contains(hay: &str, needle: &str) -> (r: bool)
    ensures
        r == contains_seq(hay@, needle@),
{
    let hn = hay.unicode_len();
    let nn = needle.unicode_len();
    if nn > hn {
        proof {
            if contains_seq(hay@, needle@) {
                let k = choose|k: int|
                    0 <= k && k + needle@.len() <= hay@.len() && #[trigger] match_at_idx(
                        hay@,
                        needle@,
                        k,
                    );
                assert(false);
            }
        }
        return false;
    }
    if nn == 0 {
        proof {
            assert(hay@.subrange(0, 0) =~= needle@);
            assert(0 <= 0 && 0 + needle@.len() <= hay@.len() && match_at_idx(hay@, needle@, 0));
        }
        return true;
    }
    let mut k: usize = 0;
    while k <= hn - nn
        invariant
            1 <= nn <= hn,
            hn == hay@.len(),
            nn == needle@.len(),
            k <= hn - nn + 1,
            forall|kk: int| 0 <= kk < k ==> !#[trigger] match_at_idx(hay@, needle@, kk),
        decreases hn - nn + 1 - k,
    {
        if match_at(hay, needle, k) {
            proof {
                assert(0 <= k as int && k as int + needle@.len() <= hay@.len() && match_at_idx(
                    hay@,
                    needle@,
                    k as int,
                ));
            }
            return true;
        }
        k = k + 1;
    }
    proof {
        if contains_seq(hay@, needle@) {
            let k0 = choose|k0: int|
                0 <= k0 && k0 + needle@.len() <= hay@.len() && #[trigger] match_at_idx(
                    hay@,
                    needle@,
                    k0,
                );
            assert(!match_at_idx(hay@, needle@, k0));
            assert(false);
        }
    }
    false
}

// ---------------------------------------------------------------------------
// The presented catalog listing
// ---------------------------------------------------------------------------

/// An entry is listed when its name contains the search text.
pub open spec fn entry_visible(e: (String, SceneAsset), search: Seq<char>) -> bool {
    contains_seq(e.0@, search)
}

/// The entries a search leaves visible, in storage order.
pub open spec fn visible_entries(es: Seq<(String, SceneAsset)>, search: Seq<char>) -> Seq<
    (String, SceneAsset),
> {
    es.filter(|e: (String, SceneAsset)| entry_visible(e, search))
}

/// Rows in ascending name order.
pub open spec fn rows_sorted(rows: Seq<(String, SceneAsset)>) -> bool {
    forall|p: int, q: int| 0 <= p < q < rows.len() ==> lex_le(rows[p].0@, rows[q].0@)
}

fn insert_sorted(rows: &mut Vec<(String, SceneAsset)>, e: (String, SceneAsset))
    requires
        rows_sorted(old(rows)@),
    ensures
        rows_sorted(final(rows)@),
        final(rows)@.to_multiset() == old(rows)@.to_multiset().insert(e),
{
    broadcast use vstd::seq_lib::group_to_multiset_ensures;

    let mut p: usize = 0;
    while p < rows.len() && str_le(rows[p].0.as_str(), e.0.as_str())
        invariant
            p <= rows@.len(),
            forall|k: int| 0 <= k < p ==> lex_le(rows@[k].0@, e.0@),
        decreases rows@.len() - p,
    {
        p = p + 1;
    }
    proof {
        if (p as int) < rows@.len() {
            lemma_lex_le_total(rows@[p as int].0@, e.0@);
        }
        assert forall|k: int| p <= k < rows@.len() implies lex_le(e.0@, rows@[k].0@) by {
            if k > p {
                lemma_lex_le_trans(e.0@, rows@[p as int].0@, rows@[k].0@);
            }
        }
    }
    let ghost before = rows@;
    rows.insert(p, e);
    proof {
        assert forall|p1: int, q1: int|
            0 <= p1 < q1 < rows@.len() implies lex_le(rows@[p1].0@, rows@[q1].0@) by {
            if q1 < p {
                assert(rows@[p1] == before[p1] && rows@[q1] == before[q1]);
            } else if p1 > p {
                assert(rows@[p1] == before[p1 - 1] && rows@[q1] == before[q1 - 1]);
            } else if p1 < p && q1 == p {
                assert(rows@[p1] == before[p1]);
            } else if p1 == p {
                assert(rows@[q1] == before[q1 - 1]);
            } else {
                assert(rows@[p1] == before[p1] && rows@[q1] == before[q1 - 1]);
            }
        }
        assert(rows@ =~= before.take(p as int).push(e) + before.skip(p as int));
        vstd::seq_lib::lemma_multiset_commutative(before.take(p as int).push(e), before.skip(p as int));
        assert(before =~= before.take(p as int) + before.skip(p as int));
        vstd::seq_lib::lemma_multiset_commutative(before.take(p as int), before.skip(p as int));
        assert(rows@.to_multiset() =~= before.to_multiset().insert(e));
    }
}

/// The rows the catalog presents once ready: exactly the entries whose names
/// contain the search text, in ascending name order. The rows carry the same
/// name/asset pairs the catalog stores, nothing added, nothing dropped.
pub fn render_scene_collection(scenes: &Scenes, search: &SearchText) -> (rows: Vec<
    (String, SceneAsset),
>)
    ensures
        rows_sorted(rows@),
        rows@.to_multiset() == visible_entries(scenes.entry_seq(), search.0@).to_multiset(),
{
    broadcast use vstd::seq_lib::group_to_multiset_ensures;

    let entries = scenes.entries();
    let mut rows: Vec<(String, SceneAsset)> = Vec::new();
    proof {
        reveal(Seq::filter);
        assert(entries@.take(0) =~= Seq::<(String, SceneAsset)>::empty());
        assert(visible_entries(entries@.take(0), search.0@) =~= Seq::<(
            String,
            SceneAsset,
        )>::empty());
    }
    let mut i: usize = 0;
    while i < entries.len()
        invariant
            i <= entries@.len(),
            entries@ == scenes.entry_seq(),
            rows_sorted(rows@),
            rows@.to_multiset() == visible_entries(entries@.take(i as int), search.0@)
                .to_multiset(),
        decreases entries@.len() - i,
    {
        let visible = str_contains(entries[i].0.as_str(), search.0.as_str());
        if visible {
            let e = (entries[i].0.clone(), entries[i].1);
            proof {
                assert(e == entries@[i as int]);
            }
            insert_sorted(&mut rows, e);
        }
        i = i + 1;
        proof {
            reveal(Seq::filter);
            assert(entries@.take(i as int).drop_last() =~= entries@.take(i - 1));
            assert(entries@.take(i as int).last() == entries@[i - 1]);
            if visible {
                assert(visible_entries(entries@.take(i as int), search.0@) == visible_entries(
                    entries@.take(i - 1),
                    search.0@,
                ).push(entries@[i - 1]));
                visible_entries(entries@.take(i - 1), search.0@).to_multiset_ensures();
                assert(visible_entries(entries@.take(i - 1), search.0@).push(
                    entries@[i - 1],
                ).to_multiset() =~= visible_entries(entries@.take(i - 1), search.0@)
                    .to_multiset().insert(entries@[i - 1]));
            } else {
                assert(visible_entries(entries@.take(i as int), search.0@) == visible_entries(
                    entries@.take(i - 1),
                    search.0@,
                ));
            }
        }
    }
    proof {
        assert(entries@.take(entries@.len() as int) =~= entries@);
    }
    rows
}

// ---------------------------------------------------------------------------
// The selection overlay
// ---------------------------------------------------------------------------

/// Fixed on-screen size of the preview image quad, centred on the anchor.
pub const OVERLAY_IMAGE_SIZE: u64 = 100;

/// How far above the anchor the name label sits when an image is shown.
pub const LABEL_RAISE: u64 = 50;

/// The cursor-following visual for the active selection, in presentation
/// coordinates (origin bottom-left, y up).
#[derive(Debug, Clone)]
pub struct Overlay {
    pub anchor_x: u64,
    pub anchor_y: u64,
    /// The presentable image id, drawn as an `OVERLAY_IMAGE_SIZE` square
    /// centred on the anchor, when the selection carries one.
    pub image: Option<u64>,
    pub label_x: u64,
    pub label_y: u64,
    /// The selection's name, drawn centred at the label point.
    pub label: String,
}

/// Computes the overlay for one tick: nothing without an active selection,
/// nothing without a pointer position. Otherwise the anchor is the pointer
/// position converted from platform coordinates (origin top-left, y down) to
/// presentation coordinates — `anchor.y = viewport_height - pointer.y` — and
/// the label is raised above the image when the selection carries one.
pub fn compute_overlay(
    selected: &SelectedScene,
    cursor: Option<(u32, u32)>,
    viewport_height: u32,
) -> (r: Option<Overlay>)
    requires
        cursor matches Some(c) ==> c.1 <= viewport_height,
    ensures
        selected.0 is None ==> r is None,
        cursor is None ==> r is None,
        selected.0 matches Some(s) ==> cursor matches Some(c) ==> (r matches Some(o)
            && o.anchor_x == c.0 && o.anchor_y == viewport_height - c.1 && o.image == s.image
            && o.label@ == s.name@ && o.label_x == c.0 && o.label_y == if s.image is Some {
            o.anchor_y + LABEL_RAISE
        } else {
            o.anchor_y as int
        }),
{
    let scene = match &selected.0 {
        Some(s) => s,
        None => {
            return None;
        },
    };
    let (cx, cy) = match cursor {
        Some(c) => c,
        None => {
            return None;
        },
    };
    let ax: u64 = cx as u64;
    let ay: u64 = (viewport_height - cy) as u64;
    let ly: u64 = if scene.image.is_some() {
        ay + LABEL_RAISE
    } else {
        ay
    };
    Some(
        Overlay {
            anchor_x: ax,
            anchor_y: ay,
            image: scene.image,
            label_x: ax,
            label_y: ly,
            label: scene.name.clone(),
        },
    )
}

/// The cursor request for one tick: while a selection is active and the
/// pointer is available, the platform cursor is hidden and confined to the
/// window, so the overlay visually substitutes for it.
#[derive(Debug, Clone, Copy, PartialEq, Eq, Structural)]
pub struct CursorRequest {
    pub hide: bool,
    pub confine: bool,
}

pub fn cursor_request(selected: &SelectedScene, cursor_available: bool) -> (r: CursorRequest)
    ensures
        r.hide == (selected.0 is Some && cursor_available),
        r.confine == (selected.0 is Some && cursor_available),
{
    let active = selected.0.is_some() && cursor_available;
    CursorRequest { hide: active, confine: active }
}

} // verus!
