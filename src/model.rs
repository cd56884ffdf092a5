//! The mathematical model of the store: its state, the well-formedness that
//! every operation keeps, and each operation as a function on states.
use vstd::prelude::*;
use crate::clock::{expired_at, expiry_of, stale_at};
use crate::models::{NewNote, Note, NoteVersion, RequestCreateNote, StoreError};

verus! {

/// The abstract state of a store.
pub struct StoreModel {
    /// Live notes, ordered by creation time.
    pub notes: Seq<Note>,
    /// Every version snapshot ever taken, in the order taken.
    pub versions: Seq<NoteVersion>,
    /// The id that the next note receives.
    pub next_note_id: int,
    /// The id that the next version snapshot receives.
    pub next_version_id: int,
}

/// Some live note has this slug.
pub open spec fn slug_taken(notes: Seq<Note>, slug: Seq<char>) -> bool {
    exists|i: int| 0 <= i < notes.len() && (#[trigger] notes[i]).short_url@ == slug
}

/// The position of the note with this slug, when there is one.
pub open spec fn slug_index(notes: Seq<Note>, slug: Seq<char>) -> int {
    choose|i: int| 0 <= i < notes.len() && (#[trigger] notes[i]).short_url@ == slug
}

/// The live note with this slug, if any.
pub open spec fn lookup(notes: Seq<Note>, slug: Seq<char>) -> Option<Note> {
    if slug_taken(notes, slug) {
        Some(notes[slug_index(notes, slug)])
    } else {
        None
    }
}

/// What must hold of a note `a` stored before a note `b`: `a` is no newer,
/// and the two differ in slug and in id.
pub open spec fn ordered_pair(a: Note, b: Note) -> bool {
    a.created_at <= b.created_at && a.short_url@ != b.short_url@ && a.id != b.id
}

/// Every two notes stand in creation order with distinct slugs and ids.
pub open spec fn pairwise(notes: Seq<Note>) -> bool {
    forall|i: int, j: int|
        0 <= i < j < notes.len() ==> ordered_pair(#[trigger] notes[i], #[trigger] notes[j])
}

/// The notes are in ascending order of creation time.
pub open spec fn sorted_by_creation(notes: Seq<Note>) -> bool {
    forall|i: int, j: int|
        0 <= i < j < notes.len() ==> (#[trigger] notes[i]).created_at
            <= (#[trigger] notes[j]).created_at
}

/// The version chain of one note: its snapshots in the order taken.
pub open spec fn chain(versions: Seq<NoteVersion>, note_id: i32) -> Seq<NoteVersion> {
    versions.filter(|v: NoteVersion| v.note_id == note_id)
}

/// Each note's chain is numbered 1, 2, 3, ... without gaps.
pub open spec fn chains_numbered(versions: Seq<NoteVersion>) -> bool {
    forall|nid: i32, k: int|
        0 <= k < chain(versions, nid).len() ==> (#[trigger] chain(versions, nid)[k]).version == k
            + 1
}

/// The invariant of a store.
pub open spec fn wf(m: StoreModel) -> bool {
    &&& pairwise(m.notes)
    &&& 1 <= m.next_note_id <= i32::MAX
    &&& 1 <= m.next_version_id <= i32::MAX
    &&& forall|i: int| 0 <= i < m.notes.len() ==> 1 <= (#[trigger] m.notes[i]).id < m.next_note_id
    &&& forall|k: int|
        0 <= k < m.versions.len() ==> (#[trigger] m.versions[k]).note_id < m.next_note_id
    &&& chains_numbered(m.versions)
}

/// The empty store.
pub open spec fn empty_model() -> StoreModel {
    StoreModel { notes: Seq::empty(), versions: Seq::empty(), next_note_id: 1, next_version_id: 1 }
}

/// Notes that a sweep at `now` keeps.
pub open spec fn keep_unexpired(now: i64) -> spec_fn(Note) -> bool {
    |n: Note| !expired_at(n.expires_at, now)
}

/// Notes that the legacy reaper at `now` keeps.
pub open spec fn keep_fresh(now: i64) -> spec_fn(Note) -> bool {
    |n: Note| !stale_at(n.created_at, now)
}

/// Notes that reply to `parent`.
pub open spec fn child_of(parent: i32) -> spec_fn(Note) -> bool {
    |n: Note| n.parent_id == Some(parent)
}

/// The store after one sweep at `now`.
pub open spec fn swept(m: StoreModel, now: i64) -> StoreModel {
    StoreModel { notes: m.notes.filter(keep_unexpired(now)), ..m }
}

/// The store after the legacy reaper ran at `now`.
pub open spec fn reaped(m: StoreModel, now: i64) -> StoreModel {
    StoreModel { notes: m.notes.filter(keep_fresh(now)), ..m }
}

/// The replies to `parent`, oldest first.
pub open spec fn children(m: StoreModel, parent: i32) -> Seq<Note> {
    m.notes.filter(child_of(parent))
}

/// The at most `limit` newest notes, oldest of them first.
pub open spec fn recent(m: StoreModel, limit: nat) -> Seq<Note> {
    if m.notes.len() <= limit {
        m.notes
    } else {
        m.notes.subrange(m.notes.len() - limit, m.notes.len() as int)
    }
}

/// `p` is where a note created at `t` goes: after every note no newer than
/// `t`, before every newer one.
pub open spec fn is_insert_pos(notes: Seq<Note>, t: i64, p: int) -> bool {
    &&& 0 <= p <= notes.len()
    &&& forall|i: int| 0 <= i < p ==> (#[trigger] notes[i]).created_at <= t
    &&& forall|i: int| p <= i < notes.len() ==> (#[trigger] notes[i]).created_at > t
}

/// Where a note created at `t` is stored.
pub open spec fn insert_pos(notes: Seq<Note>, t: i64) -> int {
    choose|p: int| is_insert_pos(notes, t, p)
}

/// The fields that a create request asks for: its expiry text parsed.
pub open spec fn requested_note(req: RequestCreateNote) -> NewNote {
    NewNote {
        short_url: req.short_url,
        content: req.content,
        expires_at: expiry_of(req.expires_at),
        parent_id: req.parent_id,
    }
}

/// The note stored for `nn` in state `m` at `now`.
pub open spec fn stored_note(m: StoreModel, nn: NewNote, now: i64) -> Note {
    Note {
        id: m.next_note_id as i32,
        short_url: nn.short_url,
        content: nn.content,
        created_at: now,
        expires_at: nn.expires_at,
        parent_id: nn.parent_id,
    }
}

/// The store with note `n` added under the next id.
pub open spec fn with_note(m: StoreModel, n: Note) -> StoreModel {
    StoreModel {
        notes: m.notes.insert(insert_pos(m.notes, n.created_at), n),
        next_note_id: m.next_note_id + 1,
        ..m
    }
}

/// Insert: the slug of a live note is a conflict (the authoritative
/// uniqueness check), exhausted ids a storage failure; either changes
/// nothing. Otherwise the note is stored under the next id.
pub open spec fn insert(m: StoreModel, nn: NewNote, now: i64) -> (
    StoreModel,
    Result<Note, StoreError>,
) {
    if slug_taken(m.notes, nn.short_url@) {
        (m, Err(StoreError::Conflict))
    } else if m.next_note_id >= i32::MAX {
        (m, Err(StoreError::StorageFailure))
    } else {
        let n = stored_note(m, nn, now);
        (with_note(m, n), Ok(n))
    }
}

/// Create: a slug taken by a live note is a conflict found by the pre-check,
/// and changes nothing. Otherwise the legacy reaper runs at `now`, and then
/// the insert.
pub open spec fn create(m: StoreModel, req: RequestCreateNote, now: i64) -> (
    StoreModel,
    Result<Note, StoreError>,
) {
    if slug_taken(m.notes, req.short_url@) {
        (m, Err(StoreError::Conflict))
    } else {
        insert(reaped(m, now), requested_note(req), now)
    }
}

/// The snapshot that an update of note `n` takes at `now`.
pub open spec fn snapshot(m: StoreModel, n: Note, now: i64) -> NoteVersion {
    NoteVersion {
        id: m.next_version_id as i32,
        note_id: n.id,
        version: (chain(m.versions, n.id).len() + 1) as i32,
        content: n.content,
        created_at: now,
    }
}

/// Update: an absent slug is `NotFound`. Otherwise the pre-update content is
/// appended to the note's chain under the next version number, and only then
/// the content is replaced. Exhausted numbers fail and change nothing.
pub open spec fn update(m: StoreModel, slug: Seq<char>, content: String, now: i64) -> (
    StoreModel,
    Result<(), StoreError>,
) {
    if !slug_taken(m.notes, slug) {
        (m, Err(StoreError::NotFound))
    } else {
        let i = slug_index(m.notes, slug);
        let n = m.notes[i];
        if chain(m.versions, n.id).len() + 1 > i32::MAX || m.next_version_id >= i32::MAX {
            (m, Err(StoreError::StorageFailure))
        } else {
            (
                StoreModel {
                    notes: m.notes.update(i, Note { content: content, ..n }),
                    versions: m.versions.push(snapshot(m, n, now)),
                    next_version_id: m.next_version_id + 1,
                    ..m
                },
                Ok(()),
            )
        }
    }
}

/// The store after the note with `slug` was updated to each of `contents`
/// in turn, at `now`.
pub open spec fn updated_in_turn(
    m: StoreModel,
    slug: Seq<char>,
    contents: Seq<String>,
    now: i64,
) -> StoreModel
    decreases contents.len(),
{
    if contents.len() == 0 {
        m
    } else {
        update(updated_in_turn(m, slug, contents.drop_last(), now), slug, contents.last(), now).0
    }
}

/// The version chain of the note with this slug.
pub open spec fn versions_of(m: StoreModel, slug: Seq<char>) -> Result<
    Seq<NoteVersion>,
    StoreError,
> {
    match lookup(m.notes, slug) {
        Some(n) => Ok(chain(m.versions, n.id)),
        None => Err(StoreError::NotFound),
    }
}

// ---------------------------------------------------------------- lemmas

/// One more element of a prefix extends its filter by that element when it
/// passes.
pub proof fn lemma_filter_step<A>(s: Seq<A>, p: spec_fn(A) -> bool, i: int)
    requires
        0 <= i < s.len(),
    ensures
        s.subrange(0, i + 1).filter(p) == (if p(s[i]) {
            s.subrange(0, i).filter(p).push(s[i])
        } else {
            s.subrange(0, i).filter(p)
        }),
{
    reveal(Seq::filter);
    assert(s.subrange(0, i + 1).drop_last() =~= s.subrange(0, i));
}

/// What a filter keeps comes from the sequence, and order among kept notes
/// is the order they had before.
pub proof fn lemma_filter_pairwise(s: Seq<Note>, p: spec_fn(Note) -> bool)
    requires
        pairwise(s),
    ensures
        pairwise(s.filter(p)),
        forall|i: int|
            0 <= i < s.filter(p).len() ==> s.contains(#[trigger] s.filter(p)[i]),
    decreases s.len(),
{
    reveal(Seq::filter);
    broadcast use vstd::seq_lib::group_filter_ensures;

    if s.len() > 0 {
        let d = s.drop_last();
        assert(pairwise(d));
        lemma_filter_pairwise(d, p);
        let f = s.filter(p);
        let fd = d.filter(p);
        if p(s.last()) {
            assert(f == fd.push(s.last()));
            assert forall|i: int, j: int| 0 <= i < j < f.len() implies ordered_pair(
                #[trigger] f[i],
                #[trigger] f[j],
            ) by {
                if j == f.len() - 1 {
                    assert(d.contains(fd[i]));
                    let k = choose|k: int| 0 <= k < d.len() && d[k] == fd[i];
                    assert(s[k] == f[i]);
                    assert(ordered_pair(s[k], s[s.len() - 1]));
                } else {
                    assert(fd[i] == f[i] && fd[j] == f[j]);
                }
            }
            assert forall|i: int| 0 <= i < f.len() implies s.contains(#[trigger] f[i]) by {
                if i == f.len() - 1 {
                    assert(s[s.len() - 1] == f[i]);
                } else {
                    assert(d.contains(fd[i]));
                    let k = choose|k: int| 0 <= k < d.len() && d[k] == fd[i];
                    assert(s[k] == f[i]);
                }
            }
        } else {
            assert(f == fd);
            assert forall|i: int| 0 <= i < f.len() implies s.contains(#[trigger] f[i]) by {
                assert(d.contains(fd[i]));
                let k = choose|k: int| 0 <= k < d.len() && d[k] == fd[i];
                assert(s[k] == f[i]);
            }
        }
    }
}

/// Under the invariant, the note at `i` is the one that a lookup of its
/// slug finds.
pub proof fn lemma_lookup_at(notes: Seq<Note>, i: int)
    requires
        pairwise(notes),
        0 <= i < notes.len(),
    ensures
        slug_taken(notes, notes[i].short_url@),
        slug_index(notes, notes[i].short_url@) == i,
        lookup(notes, notes[i].short_url@) == Some(notes[i]),
{
    let slug = notes[i].short_url@;
    assert(slug_taken(notes, slug));
    let j = slug_index(notes, slug);
    if j < i {
        assert(ordered_pair(notes[j], notes[i]));
    } else if i < j {
        assert(ordered_pair(notes[i], notes[j]));
    }
}

/// A snapshot appended to the versions extends the chain of its own note
/// and no other.
pub proof fn lemma_chain_push(vs: Seq<NoteVersion>, v: NoteVersion, nid: i32)
    ensures
        chain(vs.push(v), nid) == (if v.note_id == nid {
            chain(vs, nid).push(v)
        } else {
            chain(vs, nid)
        }),
{
    reveal(Seq::filter);
    assert(vs.push(v).drop_last() =~= vs);
}

/// The insert position of a time is unique.
pub proof fn lemma_insert_pos(notes: Seq<Note>, t: i64, p: int)
    requires
        is_insert_pos(notes, t, p),
    ensures
        insert_pos(notes, t) == p,
{
    let q = insert_pos(notes, t);
    assert(is_insert_pos(notes, t, q));
    if q < p {
        assert(notes[q].created_at > t);
    } else if p < q {
        assert(notes[p].created_at > t);
    }
}

/// Under the invariant, there always is an insert position.
pub proof fn lemma_insert_pos_exists(notes: Seq<Note>, t: i64)
    requires
        pairwise(notes),
    ensures
        is_insert_pos(notes, t, insert_pos(notes, t)),
{
    let n = notes.len() as int;
    lemma_first_newer(notes, t, 0);
    // the first position whose note is newer than t, or the end
    let w = choose|w: int|
        0 <= w <= n && (w == n || notes[w].created_at > t) && (forall|i: int|
            0 <= i < w ==> (#[trigger] notes[i]).created_at <= t);
    assert forall|i: int| w <= i < n implies (#[trigger] notes[i]).created_at > t by {
        if w < i {
            assert(ordered_pair(notes[w], notes[i]));
        }
    }
    lemma_insert_pos(notes, t, w);
}

/// Scanning from `start` over notes no newer than `t` reaches a first newer
/// one or the end.
proof fn lemma_first_newer(notes: Seq<Note>, t: i64, start: int)
    requires
        0 <= start <= notes.len(),
        forall|i: int| 0 <= i < start ==> (#[trigger] notes[i]).created_at <= t,
    ensures
        exists|w: int|
            0 <= w <= notes.len() && (w == notes.len() || notes[w].created_at > t) && (forall|
                i: int,
            | 0 <= i < w ==> (#[trigger] notes[i]).created_at <= t),
    decreases notes.len() - start,
{
    if start == notes.len() || notes[start].created_at > t {
        assert(0 <= start <= notes.len() && (start == notes.len() || notes[start].created_at
            > t));
    } else {
        lemma_first_newer(notes, t, start + 1);
    }
}

/// A note newer than none after its place, with a slug and id of its own,
/// keeps the order when inserted there.
pub proof fn lemma_insert_pairwise(notes: Seq<Note>, n: Note, p: int)
    requires
        pairwise(notes),
        is_insert_pos(notes, n.created_at, p),
        forall|i: int|
            0 <= i < notes.len() ==> (#[trigger] notes[i]).short_url@ != n.short_url@
                && notes[i].id != n.id,
    ensures
        pairwise(notes.insert(p, n)),
{
    let s = notes.insert(p, n);
    notes.insert_ensures(p, n);
    assert forall|i: int, j: int| 0 <= i < j < s.len() implies ordered_pair(
        #[trigger] s[i],
        #[trigger] s[j],
    ) by {
        if j < p {
            assert(ordered_pair(notes[i], notes[j]));
        } else if j == p {
            assert(s[i] == notes[i]);
        } else if i < p {
            assert(s[j] == notes[j - 1]);
            assert(ordered_pair(notes[i], notes[j - 1]));
        } else if i == p {
            assert(s[j] == notes[j - 1]);
        } else {
            assert(s[j] == notes[j - 1]);
            assert(s[i] == notes[i - 1]);
            assert(ordered_pair(notes[i - 1], notes[j - 1]));
        }
    }
}

/// Removing notes by any filter keeps the invariant.
pub proof fn lemma_filter_wf(m: StoreModel, p: spec_fn(Note) -> bool)
    requires
        wf(m),
    ensures
        wf(StoreModel { notes: m.notes.filter(p), ..m }),
{
    lemma_filter_pairwise(m.notes, p);
    let f = m.notes.filter(p);
    assert forall|i: int| 0 <= i < f.len() implies 1 <= (#[trigger] f[i]).id < m.next_note_id by {
        assert(m.notes.contains(f[i]));
        let k = choose|k: int| 0 <= k < m.notes.len() && m.notes[k] == f[i];
        assert(1 <= m.notes[k].id < m.next_note_id);
    }
}

/// One successful update: the invariant holds after it, the note keeps all
/// but its content, and its chain gains the snapshot of the old content.
pub proof fn lemma_update_step(m: StoreModel, slug: Seq<char>, content: String, now: i64)
    requires
        wf(m),
        slug_taken(m.notes, slug),
        chain(m.versions, m.notes[slug_index(m.notes, slug)].id).len() + 1 <= i32::MAX,
        m.next_version_id < i32::MAX,
    ensures
        ({
            let n = m.notes[slug_index(m.notes, slug)];
            let (m2, r) = update(m, slug, content, now);
            &&& r == Ok::<(), StoreError>(())
            &&& wf(m2)
            &&& lookup(m2.notes, slug) == Some(Note { content: content, ..n })
            &&& chain(m2.versions, n.id) == chain(m.versions, n.id).push(snapshot(m, n, now))
            &&& m2.next_version_id == m.next_version_id + 1
            &&& m2.next_note_id == m.next_note_id
        }),
{
    let i = slug_index(m.notes, slug);
    let n = m.notes[i];
    let v = snapshot(m, n, now);
    let m2 = update(m, slug, content, now).0;
    let vs = m2.versions;
    assert(vs == m.versions.push(v));
    assert forall|nid2: i32, k: int| 0 <= k < chain(vs, nid2).len() implies (#[trigger] chain(
        vs,
        nid2,
    )[k]).version == k + 1 by {
        lemma_chain_push(m.versions, v, nid2);
        if nid2 == n.id && k == chain(m.versions, nid2).len() {
        } else {
            assert(chain(vs, nid2)[k] == chain(m.versions, nid2)[k]);
        }
    }
    let notes = m2.notes;
    assert forall|a: int, b: int| 0 <= a < b < notes.len() implies ordered_pair(
        #[trigger] notes[a],
        #[trigger] notes[b],
    ) by {
        assert(ordered_pair(m.notes[a], m.notes[b]));
    }
    assert forall|a: int| 0 <= a < notes.len() implies 1 <= (#[trigger] notes[a]).id
        < m2.next_note_id by {
        assert(1 <= m.notes[a].id < m.next_note_id);
    }
    assert forall|k: int| 0 <= k < vs.len() implies (#[trigger] vs[k]).note_id
        < m2.next_note_id by {
        if k < m.versions.len() {
            assert(vs[k] == m.versions[k]);
        }
    }
    lemma_chain_push(m.versions, v, n.id);
    lemma_lookup_at(notes, i);
}

} // verus!
