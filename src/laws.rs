//! Laws of the store, stated over the model and proved.
use vstd::prelude::*;
use crate::clock::{expired_at, stale_at};
use crate::model::{
    chain, child_of, children, create, insert_pos, keep_fresh, keep_unexpired,
    lemma_filter_pairwise, lemma_filter_wf, lemma_insert_pairwise, lemma_insert_pos_exists,
    lemma_lookup_at, lemma_update_step, lookup, ordered_pair, reaped, requested_note, slug_index,
    slug_taken, snapshot, sorted_by_creation, stored_note, swept, updated_in_turn, versions_of, wf,
    StoreModel,
};
use crate::models::{Note, RequestCreateNote, StoreError};

verus! {

/// A note that survives a filter is found by its slug afterwards.
proof fn lemma_lookup_after_filter(m: StoreModel, p: spec_fn(Note) -> bool, i: int)
    requires
        wf(m),
        0 <= i < m.notes.len(),
        p(m.notes[i]),
    ensures
        lookup(m.notes.filter(p), m.notes[i].short_url@) == Some(m.notes[i]),
{
    broadcast use vstd::seq_lib::group_filter_ensures;

    let f = m.notes.filter(p);
    lemma_filter_pairwise(m.notes, p);
    assert(f.contains(m.notes[i]));
    let k = choose|k: int| 0 <= k < f.len() && f[k] == m.notes[i];
    lemma_lookup_at(f, k);
}

/// A note that fails a filter leaves its slug free afterwards.
proof fn lemma_slug_free_after_filter(m: StoreModel, p: spec_fn(Note) -> bool, i: int)
    requires
        wf(m),
        0 <= i < m.notes.len(),
        !p(m.notes[i]),
    ensures
        !slug_taken(m.notes.filter(p), m.notes[i].short_url@),
{
    broadcast use vstd::seq_lib::group_filter_ensures;

    let f = m.notes.filter(p);
    let slug = m.notes[i].short_url@;
    lemma_filter_pairwise(m.notes, p);
    if slug_taken(f, slug) {
        let k = choose|k: int| 0 <= k < f.len() && (#[trigger] f[k]).short_url@ == slug;
        assert(m.notes.contains(f[k]));
        let j = choose|j: int| 0 <= j < m.notes.len() && m.notes[j] == f[k];
        lemma_lookup_at(m.notes, j);
        lemma_lookup_at(m.notes, i);
        assert(p(f[k]));
    }
}

/// Creating a note under a free slug succeeds while ids last; the note is
/// then found by its slug with the requested content, and every note that
/// was live and not older than an hour is still found by its own slug. So a
/// run of creates with distinct slugs succeeds, and each note reads back.
pub proof fn lemma_create_then_get(m: StoreModel, req: RequestCreateNote, now: i64)
    requires
        wf(m),
        !slug_taken(m.notes, req.short_url@),
        m.next_note_id < i32::MAX,
    ensures
        ({
            let (m2, r) = create(m, req, now);
            &&& r is Ok
            &&& lookup(m2.notes, req.short_url@) == Some(r->Ok_0)
            &&& r->Ok_0.content == req.content
            &&& forall|i: int|
                0 <= i < m.notes.len() && !stale_at((#[trigger] m.notes[i]).created_at, now)
                    ==> lookup(m2.notes, m.notes[i].short_url@) == Some(m.notes[i])
        }),
{
    broadcast use vstd::seq_lib::group_filter_ensures;

    let r = reaped(m, now);
    lemma_filter_wf(m, keep_fresh(now));
    assert(!slug_taken(r.notes, req.short_url@)) by {
        if slug_taken(r.notes, req.short_url@) {
            let k = choose|k: int|
                0 <= k < r.notes.len() && (#[trigger] r.notes[k]).short_url@ == req.short_url@;
            lemma_filter_pairwise(m.notes, keep_fresh(now));
            assert(m.notes.contains(r.notes[k]));
            let j = choose|j: int| 0 <= j < m.notes.len() && m.notes[j] == r.notes[k];
            assert(m.notes[j].short_url@ == req.short_url@);
        }
    }
    let nn = requested_note(req);
    let n = stored_note(r, nn, now);
    lemma_insert_pos_exists(r.notes, now);
    let p = insert_pos(r.notes, now);
    assert forall|i: int| 0 <= i < r.notes.len() implies (#[trigger] r.notes[i]).short_url@
        != n.short_url@ && r.notes[i].id != n.id by {}
    lemma_insert_pairwise(r.notes, n, p);
    let s = r.notes.insert(p, n);
    r.notes.insert_ensures(p, n);
    assert(create(m, req, now).0.notes == s);
    lemma_lookup_at(s, p);
    assert forall|i: int|
        0 <= i < m.notes.len() && !stale_at((#[trigger] m.notes[i]).created_at, now) implies lookup(
        s,
        m.notes[i].short_url@,
    ) == Some(m.notes[i]) by {
        lemma_filter_pairwise(m.notes, keep_fresh(now));
        assert(r.notes.contains(m.notes[i]));
        let k = choose|k: int| 0 <= k < r.notes.len() && r.notes[k] == m.notes[i];
        if k < p {
            lemma_lookup_at(s, k);
        } else {
            assert(s[k + 1] == r.notes[k]);
            lemma_lookup_at(s, k + 1);
        }
    }
}

/// A create under a slug that a live note holds is a `Conflict` and changes
/// nothing. Once that note is gone, removed by the sweeper because it
/// expired or by the legacy reaper because it is over an hour old, the slug
/// is free again.
pub proof fn lemma_conflict_until_removed(m: StoreModel, req: RequestCreateNote, now: i64)
    requires
        wf(m),
        slug_taken(m.notes, req.short_url@),
    ensures
        create(m, req, now) == (m, Err::<Note, StoreError>(StoreError::Conflict)),
        ({
            let n = m.notes[slug_index(m.notes, req.short_url@)];
            &&& expired_at(n.expires_at, now) ==> !slug_taken(
                swept(m, now).notes,
                req.short_url@,
            )
            &&& stale_at(n.created_at, now) ==> !slug_taken(reaped(m, now).notes, req.short_url@)
        }),
{
    let i = slug_index(m.notes, req.short_url@);
    if expired_at(m.notes[i].expires_at, now) {
        lemma_slug_free_after_filter(m, keep_unexpired(now), i);
    }
    if stale_at(m.notes[i].created_at, now) {
        lemma_slug_free_after_filter(m, keep_fresh(now), i);
    }
}

/// A sweep at `now` removes a note exactly when its expiry is set and
/// before `now`: an expired note is found before the sweep and not after
/// it, and a note without expiry is never removed by a sweep, however old.
pub proof fn lemma_sweep(m: StoreModel, slug: Seq<char>, now: i64)
    requires
        wf(m),
        slug_taken(m.notes, slug),
    ensures
        ({
            let n = m.notes[slug_index(m.notes, slug)];
            &&& lookup(m.notes, slug) == Some(n)
            &&& lookup(swept(m, now).notes, slug) == (if expired_at(n.expires_at, now) {
                None
            } else {
                Some(n)
            })
            &&& n.expires_at is None ==> lookup(swept(m, now).notes, slug) == Some(n)
        }),
{
    let i = slug_index(m.notes, slug);
    lemma_lookup_at(m.notes, i);
    if expired_at(m.notes[i].expires_at, now) {
        lemma_slug_free_after_filter(m, keep_unexpired(now), i);
    } else {
        lemma_lookup_after_filter(m, keep_unexpired(now), i);
    }
}

/// A note older than an hour, with or without expiry, is gone after a
/// create request under another, free slug is issued at `now`, since the
/// legacy reaper runs before the insert.
pub proof fn lemma_create_reaps_stale(
    m: StoreModel,
    slug: Seq<char>,
    req: RequestCreateNote,
    now: i64,
)
    requires
        wf(m),
        slug_taken(m.notes, slug),
        stale_at(m.notes[slug_index(m.notes, slug)].created_at, now),
        !slug_taken(m.notes, req.short_url@),
    ensures
        !slug_taken(create(m, req, now).0.notes, slug),
{
    let i = slug_index(m.notes, slug);
    lemma_lookup_at(m.notes, i);
    lemma_slug_free_after_filter(m, keep_fresh(now), i);
    let r = reaped(m, now);
    if !slug_taken(r.notes, req.short_url@) && r.next_note_id < i32::MAX {
        let n = stored_note(r, requested_note(req), now);
        lemma_filter_wf(m, keep_fresh(now));
        lemma_insert_pos_exists(r.notes, now);
        let p = insert_pos(r.notes, now);
        let s = r.notes.insert(p, n);
        r.notes.insert_ensures(p, n);
        assert(create(m, req, now).0.notes == s);
        if slug_taken(s, slug) {
            let k = choose|k: int| 0 <= k < s.len() && (#[trigger] s[k]).short_url@ == slug;
            if k < p {
                assert(s[k] == r.notes[k]);
            } else if k > p {
                assert(s[k] == r.notes[k - 1]);
            } else {
                assert(n.short_url@ == req.short_url@);
            }
        }
    }
}

/// The replies to `parent` come in ascending order of creation time, all
/// of them and nothing else; none is an empty sequence.
pub proof fn lemma_children_sorted(m: StoreModel, parent: i32)
    requires
        wf(m),
    ensures
        sorted_by_creation(children(m, parent)),
        forall|i: int|
            0 <= i < children(m, parent).len() ==> (#[trigger] children(m, parent)[i]).parent_id
                == Some(parent),
        forall|i: int|
            0 <= i < m.notes.len() && (#[trigger] m.notes[i]).parent_id == Some(parent)
                ==> children(m, parent).contains(m.notes[i]),
        (forall|i: int| 0 <= i < m.notes.len() ==> (#[trigger] m.notes[i]).parent_id != Some(parent))
            ==> children(m, parent).len() == 0,
{
    broadcast use vstd::seq_lib::group_filter_ensures;

    let c = children(m, parent);
    lemma_filter_pairwise(m.notes, child_of(parent));
    assert forall|i: int, j: int| 0 <= i < j < c.len() implies (#[trigger] c[i]).created_at
        <= (#[trigger] c[j]).created_at by {
        assert(ordered_pair(c[i], c[j]));
    }
    if forall|i: int| 0 <= i < m.notes.len() ==> (#[trigger] m.notes[i]).parent_id != Some(parent) {
        if c.len() > 0 {
            assert(m.notes.contains(c[0]));
        }
    }
}

/// The content a note had before the `k`-th of the updates `contents`
/// (counted from 0), when it started with `first`.
pub open spec fn content_before(first: String, contents: Seq<String>, k: int) -> String {
    if k == 0 {
        first
    } else {
        contents[k - 1]
    }
}

proof fn lemma_updates_in_turn(m: StoreModel, slug: Seq<char>, contents: Seq<String>, now: i64)
    requires
        wf(m),
        slug_taken(m.notes, slug),
        chain(m.versions, m.notes[slug_index(m.notes, slug)].id).len() == 0,
        m.next_version_id + contents.len() < i32::MAX,
    ensures
        ({
            let n = m.notes[slug_index(m.notes, slug)];
            let m2 = updated_in_turn(m, slug, contents, now);
            let c = chain(m2.versions, n.id);
            &&& wf(m2)
            &&& lookup(m2.notes, slug) == Some(
                Note { content: content_before(n.content, contents, contents.len() as int), ..n },
            )
            &&& m2.next_version_id == m.next_version_id + contents.len()
            &&& c.len() == contents.len()
            &&& forall|k: int|
                0 <= k < c.len() ==> (#[trigger] c[k]).version == k + 1 && c[k].content
                    == content_before(n.content, contents, k)
        }),
    decreases contents.len(),
{
    let n = m.notes[slug_index(m.notes, slug)];
    if contents.len() == 0 {
        lemma_lookup_at(m.notes, slug_index(m.notes, slug));
    } else {
        let prev = contents.drop_last();
        lemma_updates_in_turn(m, slug, prev, now);
        let m1 = updated_in_turn(m, slug, prev, now);
        let n1 = m1.notes[slug_index(m1.notes, slug)];
        assert(n1 == Note { content: content_before(n.content, prev, prev.len() as int), ..n });
        lemma_update_step(m1, slug, contents.last(), now);
        let c1 = chain(m1.versions, n.id);
        let m2 = updated_in_turn(m, slug, contents, now);
        let c = chain(m2.versions, n.id);
        assert(c == c1.push(snapshot(m1, n1, now)));
        assert forall|k: int| 0 <= k < c.len() implies (#[trigger] c[k]).version == k + 1
            && c[k].content == content_before(n.content, contents, k) by {
            if k < c1.len() {
                assert(c[k] == c1[k]);
                if k > 0 {
                    assert(prev[k - 1] == contents[k - 1]);
                }
            } else if k > 1 {
                assert(prev[k - 2] == contents[k - 2]);
            }
        }
    }
}

/// After N updates of a note whose chain was empty, its version chain holds
/// exactly N snapshots numbered 1 to N in order, and snapshot k holds the
/// content from before update k, not after; the note holds the last content.
pub proof fn lemma_version_chain(m: StoreModel, slug: Seq<char>, contents: Seq<String>, now: i64)
    requires
        wf(m),
        slug_taken(m.notes, slug),
        chain(m.versions, m.notes[slug_index(m.notes, slug)].id).len() == 0,
        m.next_version_id + contents.len() < i32::MAX,
    ensures
        ({
            let n = m.notes[slug_index(m.notes, slug)];
            let m2 = updated_in_turn(m, slug, contents, now);
            &&& versions_of(m2, slug) is Ok
            &&& versions_of(m2, slug)->Ok_0.len() == contents.len()
            &&& forall|k: int|
                0 <= k < contents.len() ==> (#[trigger] versions_of(m2, slug)->Ok_0[k]).version
                    == k + 1 && versions_of(m2, slug)->Ok_0[k].content == content_before(
                    n.content,
                    contents,
                    k,
                )
            &&& lookup(m2.notes, slug) is Some
            &&& lookup(m2.notes, slug)->Some_0.content == content_before(
                n.content,
                contents,
                contents.len() as int,
            )
        }),
{
    lemma_updates_in_turn(m, slug, contents, now);
}

} // verus!
