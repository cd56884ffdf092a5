//! The note store: repository operations, the conflict resolver on create,
//! the expiry sweeper, the legacy age-based reaper, the version chain and
//! the thread index, each proved against [`crate::model`].
use vstd::prelude::*;
use crate::clock::{is_expired, now_micros, parse_expiry, reaper_cutoff, stale_at};
use crate::model::{
    chain, child_of, children, create, empty_model, insert, is_insert_pos, keep_fresh,
    keep_unexpired, lemma_filter_step, lemma_filter_wf, lemma_insert_pairwise, lemma_insert_pos,
    lemma_lookup_at, lemma_update_step, lookup, ordered_pair, reaped, recent, requested_note,
    slug_index, slug_taken, snapshot, stored_note, swept, update, versions_of, wf, with_note,
    StoreModel,
};
use crate::models::{NewNote, Note, NoteVersion, RequestCreateNote, RequestUpdateNote, StoreError};

verus! {

/// An in-memory store of notes and their version snapshots.
pub struct NoteStore {
    notes: Vec<Note>,
    versions: Vec<NoteVersion>,
    next_note_id: i32,
    next_version_id: i32,
}

impl View for NoteStore {
    type V = StoreModel;

    closed spec fn view(&self) -> StoreModel {
        StoreModel {
            notes: self.notes@,
            versions: self.versions@,
            next_note_id: self.next_note_id as int,
            next_version_id: self.next_version_id as int,
        }
    }
}

impl NoteStore {
    /// The store's invariant.
    pub open spec fn inv(&self) -> bool {
        wf(self@)
    }

    /// An empty store.
    pub fn new() -> (r: NoteStore)
        ensures
            r@ == empty_model(),
            r.inv(),
    {
        let r = NoteStore {
            notes: Vec::new(),
            versions: Vec::new(),
            next_note_id: 1,
            next_version_id: 1,
        };
        proof {
            broadcast use vstd::seq_lib::group_filter_ensures;

            assert(r@ =~= empty_model());
        }
        r
    }

    /// The position of the live note with this slug.
    fn find_slug(&self, slug: &String) -> (r: Option<usize>)
        requires
            self.inv(),
        ensures
            match r {
                Some(i) => {
                    &&& i < self@.notes.len()
                    &&& self@.notes[i as int].short_url@ == slug@
                    &&& slug_taken(self@.notes, slug@)
                    &&& slug_index(self@.notes, slug@) == i
                    &&& lookup(self@.notes, slug@) == Some(self@.notes[i as int])
                },
                None => !slug_taken(self@.notes, slug@) && lookup(self@.notes, slug@) == None::<
                    Note,
                >,
            },
    {
        let mut i: usize = 0;
        while i < self.notes.len()
            invariant
                self.inv(),
                i <= self.notes@.len(),
                forall|k: int| 0 <= k < i ==> (#[trigger] self.notes@[k]).short_url@ != slug@,
            decreases self.notes@.len() - i,
        {
            if self.notes[i].short_url == *slug {
                proof {
                    lemma_lookup_at(self.notes@, i as int);
                }
                return Some(i);
            }
            i += 1;
        }
        None
    }

    /// The live note with this slug, or `NotFound`.
    pub fn get_by_short_url(&self, slug: &str) -> (r: Result<Note, StoreError>)
        requires
            self.inv(),
        ensures
            r == (match lookup(self@.notes, slug@) {
                Some(n) => Ok(n),
                None => Err(StoreError::NotFound),
            }),
    {
        let s = slug.to_owned();
        match self.find_slug(&s) {
            Some(i) => Ok(self.notes[i].copy_note()),
            None => Err(StoreError::NotFound),
        }
    }

    /// Whether no live note has this slug.
    pub fn check_availability(&self, slug: &str) -> (r: bool)
        requires
            self.inv(),
        ensures
            r == !slug_taken(self@.notes, slug@),
    {
        let s = slug.to_owned();
        self.find_slug(&s).is_none()
    }

    /// The at most `limit` newest notes, oldest of them first.
    pub fn list_recent(&self, limit: usize) -> (r: Vec<Note>)
        requires
            self.inv(),
        ensures
            r@ == recent(self@, limit as nat),
    {
        let len = self.notes.len();
        let start: usize = if len <= limit {
            0
        } else {
            len - limit
        };
        let mut r: Vec<Note> = Vec::new();
        let mut i: usize = start;
        while i < len
            invariant
                start <= i <= len,
                len == self.notes@.len(),
                r@ == self.notes@.subrange(start as int, i as int),
            decreases len - i,
        {
            r.push(self.notes[i].copy_note());
            i += 1;
            proof {
                assert(r@ =~= self.notes@.subrange(start as int, i as int));
            }
        }
        proof {
            if len <= limit {
                assert(r@ =~= self.notes@);
            }
        }
        r
    }

    /// The replies to `parent`, oldest first; empty when there are none.
    pub fn list_children(&self, parent: i32) -> (r: Vec<Note>)
        requires
            self.inv(),
        ensures
            r@ == children(self@, parent),
    {
        let mut r: Vec<Note> = Vec::new();
        let mut i: usize = 0;
        while i < self.notes.len()
            invariant
                i <= self.notes@.len(),
                r@ == self.notes@.subrange(0, i as int).filter(child_of(parent)),
            decreases self.notes@.len() - i,
        {
            proof {
                lemma_filter_step(self.notes@, child_of(parent), i as int);
            }
            let is_child = match self.notes[i].parent_id {
                Some(q) => q == parent,
                None => false,
            };
            if is_child {
                r.push(self.notes[i].copy_note());
            }
            i += 1;
        }
        proof {
            assert(self.notes@.subrange(0, self.notes@.len() as int) =~= self.notes@);
        }
        r
    }

    /// The version chain of the note with id `note_id`.
    fn chain_of(&self, note_id: i32) -> (r: Vec<NoteVersion>)
        ensures
            r@ == chain(self@.versions, note_id),
    {
        let mut r: Vec<NoteVersion> = Vec::new();
        let mut i: usize = 0;
        while i < self.versions.len()
            invariant
                i <= self.versions@.len(),
                r@ == self.versions@.subrange(0, i as int).filter(
                    |v: NoteVersion| v.note_id == note_id,
                ),
            decreases self.versions@.len() - i,
        {
            proof {
                lemma_filter_step(
                    self.versions@,
                    |v: NoteVersion| v.note_id == note_id,
                    i as int,
                );
            }
            if self.versions[i].note_id == note_id {
                r.push(self.versions[i].copy_version());
            }
            i += 1;
        }
        proof {
            assert(self.versions@.subrange(0, self.versions@.len() as int) =~= self.versions@);
        }
        r
    }

    /// The version snapshots of the note with this slug, version ascending,
    /// or `NotFound`.
    pub fn list_versions(&self, slug: &str) -> (r: Result<Vec<NoteVersion>, StoreError>)
        requires
            self.inv(),
        ensures
            match versions_of(self@, slug@) {
                Ok(c) => r is Ok && r->Ok_0@ == c,
                Err(e) => r == Err::<Vec<NoteVersion>, StoreError>(e),
            },
    {
        let s = slug.to_owned();
        match self.find_slug(&s) {
            Some(i) => Ok(self.chain_of(self.notes[i].id)),
            None => Err(StoreError::NotFound),
        }
    }

    /// The notes that a sweep at `now` keeps.
    fn unexpired(&self, now: i64) -> (r: Vec<Note>)
        ensures
            r@ == self@.notes.filter(keep_unexpired(now)),
    {
        let mut r: Vec<Note> = Vec::new();
        let mut i: usize = 0;
        while i < self.notes.len()
            invariant
                i <= self.notes@.len(),
                r@ == self.notes@.subrange(0, i as int).filter(keep_unexpired(now)),
            decreases self.notes@.len() - i,
        {
            proof {
                lemma_filter_step(self.notes@, keep_unexpired(now), i as int);
            }
            if !is_expired(self.notes[i].expires_at, now) {
                r.push(self.notes[i].copy_note());
            }
            i += 1;
        }
        proof {
            assert(self.notes@.subrange(0, self.notes@.len() as int) =~= self.notes@);
        }
        r
    }

    /// The notes that the legacy reaper at `now` keeps.
    fn fresh(&self, now: i64) -> (r: Vec<Note>)
        ensures
            r@ == self@.notes.filter(keep_fresh(now)),
    {
        let cutoff = reaper_cutoff(now);
        let mut r: Vec<Note> = Vec::new();
        let mut i: usize = 0;
        while i < self.notes.len()
            invariant
                i <= self.notes@.len(),
                r@ == self.notes@.subrange(0, i as int).filter(keep_fresh(now)),
                forall|t: i64| (t < cutoff) == stale_at(t, now),
            decreases self.notes@.len() - i,
        {
            proof {
                lemma_filter_step(self.notes@, keep_fresh(now), i as int);
            }
            if !(self.notes[i].created_at < cutoff) {
                r.push(self.notes[i].copy_note());
            }
            i += 1;
        }
        proof {
            assert(self.notes@.subrange(0, self.notes@.len() as int) =~= self.notes@);
        }
        r
    }

    /// One pass of the expiry sweeper at `now`: removes every note whose
    /// expiry is set and before `now`, and returns how many it removed.
    pub fn sweep_expired(&mut self, now: i64) -> (r: usize)
        requires
            old(self).inv(),
        ensures
            final(self).inv(),
            final(self)@ == swept(old(self)@, now),
            r == old(self)@.notes.len() - final(self)@.notes.len(),
    {
        let kept = self.unexpired(now);
        proof {
            broadcast use vstd::seq_lib::group_filter_ensures;

            lemma_filter_wf(self@, keep_unexpired(now));
        }
        let removed = self.notes.len() - kept.len();
        self.notes = kept;
        proof {
            assert(self@ =~= swept(old(self)@, now));
        }
        removed
    }

    /// The legacy age-based reaper at `now`: removes every note created more
    /// than an hour before `now`, whatever its expiry, and returns how many
    /// it removed.
    pub fn reap_stale(&mut self, now: i64) -> (r: usize)
        requires
            old(self).inv(),
        ensures
            final(self).inv(),
            final(self)@ == reaped(old(self)@, now),
            r == old(self)@.notes.len() - final(self)@.notes.len(),
    {
        let kept = self.fresh(now);
        proof {
            broadcast use vstd::seq_lib::group_filter_ensures;

            lemma_filter_wf(self@, keep_fresh(now));
        }
        let removed = self.notes.len() - kept.len();
        self.notes = kept;
        proof {
            assert(self@ =~= reaped(old(self)@, now));
        }
        removed
    }

    /// Where a note created at `t` is stored.
    fn insert_position(&self, t: i64) -> (r: usize)
        requires
            self.inv(),
        ensures
            is_insert_pos(self@.notes, t, r as int),
    {
        let mut p: usize = 0;
        while p < self.notes.len() && self.notes[p].created_at <= t
            invariant
                self.inv(),
                p <= self.notes@.len(),
                forall|i: int| 0 <= i < p ==> (#[trigger] self.notes@[i]).created_at <= t,
            decreases self.notes@.len() - p,
        {
            p += 1;
        }
        proof {
            assert forall|i: int| p <= i < self.notes@.len() implies (
            #[trigger] self.notes@[i]).created_at > t by {
                if p < i {
                    assert(ordered_pair(self.notes@[p as int], self.notes@[i]));
                }
            }
        }
        p
    }

    /// Stores a note created at `now` under the next id. A slug that a live
    /// note holds is a `Conflict` (the authoritative uniqueness check);
    /// exhausted ids are a `StorageFailure`.
    pub fn insert_note(&mut self, nn: NewNote, now: i64) -> (r: Result<Note, StoreError>)
        requires
            old(self).inv(),
        ensures
            final(self).inv(),
            (final(self)@, r) == insert(old(self)@, nn, now),
    {
        if self.find_slug(&nn.short_url).is_some() {
            return Err(StoreError::Conflict);
        }
        if self.next_note_id == i32::MAX {
            return Err(StoreError::StorageFailure);
        }
        let p = self.insert_position(now);
        let note = Note {
            id: self.next_note_id,
            short_url: nn.short_url,
            content: nn.content,
            created_at: now,
            expires_at: nn.expires_at,
            parent_id: nn.parent_id,
        };
        let out = note.copy_note();
        proof {
            let notes = self@.notes;
            assert forall|i: int| 0 <= i < notes.len() implies (#[trigger] notes[i]).short_url@
                != note.short_url@ && notes[i].id != note.id by {}
            lemma_insert_pairwise(notes, note, p as int);
            lemma_insert_pos(notes, now, p as int);
            notes.insert_ensures(p as int, note);
        }
        self.notes.insert(p, note);
        self.next_note_id = self.next_note_id + 1;
        proof {
            let m = old(self)@;
            assert(self@ =~= with_note(m, stored_note(m, nn, now)));
            assert forall|i: int| 0 <= i < self@.notes.len() implies 1 <= (
            #[trigger] self@.notes[i]).id < self@.next_note_id by {
                if i < p {
                    assert(self@.notes[i] == m.notes[i]);
                } else if i > p {
                    assert(self@.notes[i] == m.notes[i - 1]);
                }
            }
        }
        Ok(out)
    }

    /// Creates a note at `now`. A slug held by a live note is a `Conflict`
    /// found by the pre-check, with nothing changed. Otherwise the legacy
    /// reaper runs first, then the insert, whose own uniqueness check is the
    /// authoritative one.
    pub fn create_note(&mut self, req: &RequestCreateNote, now: i64) -> (r: Result<
        Note,
        StoreError,
    >)
        requires
            old(self).inv(),
        ensures
            final(self).inv(),
            (final(self)@, r) == create(old(self)@, *req, now),
    {
        if self.find_slug(&req.short_url).is_some() {
            return Err(StoreError::Conflict);
        }
        self.reap_stale(now);
        let nn = NewNote {
            short_url: req.short_url.clone(),
            content: req.content.clone(),
            expires_at: parse_expiry(&req.expires_at),
            parent_id: req.parent_id,
        };
        proof {
            assert(nn == requested_note(*req));
        }
        self.insert_note(nn, now)
    }

    /// Creates a note at the current time; see [`NoteStore::create_note`].
    pub fn create_note_now(&mut self, req: &RequestCreateNote) -> (r: Result<Note, StoreError>)
        requires
            old(self).inv(),
        ensures
            final(self).inv(),
            exists|now: i64| now >= 0 && (final(self)@, r) == create(old(self)@, *req, now),
    {
        let now = now_micros();
        self.create_note(req, now)
    }

    /// Replaces a note's content at `now`. The content it had is first
    /// appended to its version chain under the next version number; an
    /// absent slug is `NotFound`, and exhausted numbers a `StorageFailure`,
    /// neither of which changes anything.
    pub fn update_note(&mut self, req: &RequestUpdateNote, now: i64) -> (r: Result<
        (),
        StoreError,
    >)
        requires
            old(self).inv(),
        ensures
            final(self).inv(),
            (final(self)@, r) == update(old(self)@, req.short_url@, req.content, now),
    {
        let i = match self.find_slug(&req.short_url) {
            Some(i) => i,
            None => {
                return Err(StoreError::NotFound);
            },
        };
        let nid = self.notes[i].id;
        let c = self.chain_of(nid);
        let last: i32 = if c.len() == 0 {
            0
        } else {
            c[c.len() - 1].version
        };
        proof {
            if c@.len() > 0 {
                assert(chain(self@.versions, nid)[c@.len() - 1].version == c@.len());
            }
        }
        if last == i32::MAX || self.next_version_id == i32::MAX {
            return Err(StoreError::StorageFailure);
        }
        let v = NoteVersion {
            id: self.next_version_id,
            note_id: nid,
            version: last + 1,
            content: self.notes[i].content.clone(),
            created_at: now,
        };
        proof {
            assert(v == snapshot(self@, self@.notes[i as int], now));
        }
        self.versions.push(v);
        self.next_version_id = self.next_version_id + 1;
        let mut n = self.notes[i].copy_note();
        n.content = req.content.clone();
        self.notes.set(i, n);
        proof {
            lemma_update_step(old(self)@, req.short_url@, req.content, now);
            assert(self@ =~= update(old(self)@, req.short_url@, req.content, now).0);
        }
        Ok(())
    }
}

} // verus!
