//! The article store: an in-memory table of articles kept in step with one
//! on-disk blob.
//!
//! This type carries the store's whole decision logic: what each operation
//! does to the table, when the cache must be re-read, and what is written
//! back.  It does not touch the disk itself; its owner reads the backing file
//! when [`ArticleRepository::needs_reload`] says so, hands the text to
//! [`ArticleRepository::refresh`], and writes [`ArticleRepository::dump`]
//! back out after every mutation, under the exclusive file lock it holds for
//! the store's whole lifetime.

use vstd::prelude::*;
use crate::document::{Document, DocumentV, DecodeError, entry_index, entry_index_from,
    lemma_entry_index_from, sp_decode, encode_doc};
use crate::model::{Article, ArticleV, ArticleId, Visibility};
use crate::timestamp::Timestamp;

verus! {

/// The errors the table operations themselves can produce.  Failures of the
/// disk around them stay with the caller that does the reading and writing.
#[derive(Copy, Clone, Debug, PartialEq, Eq, Structural)]
pub enum PersistenceError {
    /// The article asked for is not in the table.
    AbsentValue,
    /// The id to rename onto is already taken.
    Conflict,
}

/// A table with `id` bound to `a`: the first entry so keyed is replaced, or a
/// new one is appended.
pub open spec fn sp_upsert(es: Seq<(Seq<char>, ArticleV)>, id: Seq<char>, a: ArticleV)
    -> Seq<(Seq<char>, ArticleV)> {
    if entry_index(es, id) < es.len() {
        es.update(entry_index(es, id), (id, a))
    } else {
        es.push((id, a))
    }
}

/// A table without the entry keyed `id`; the same table when none is.
pub open spec fn sp_removed(es: Seq<(Seq<char>, ArticleV)>, id: Seq<char>)
    -> Seq<(Seq<char>, ArticleV)> {
    if entry_index(es, id) < es.len() {
        es.remove(entry_index(es, id))
    } else {
        es
    }
}

/// What `create_entry` does to the table: bind `id` to a fresh record whose
/// two timestamps are the given moment.
pub open spec fn sp_create(t: DocumentV, id: Seq<char>, content: Seq<char>,
    visibility: Visibility, now: Timestamp) -> DocumentV {
    DocumentV {
        version: t.version,
        entries: sp_upsert(t.entries, id, ArticleV {
            created_at: now,
            updated_at: now,
            content: content,
            visibility: visibility,
        }),
    }
}

/// What `update_entry` does: replace the content and move `updated_at`
/// forward to the given moment (never backward), keeping creation time and
/// visibility; absent ids are refused.
pub open spec fn sp_update(t: DocumentV, id: Seq<char>, content: Seq<char>, now: Timestamp)
    -> Option<DocumentV> {
    match t.get(id) {
        None => None,
        Some(a) => Some(DocumentV {
            version: t.version,
            entries: sp_upsert(t.entries, id, ArticleV {
                created_at: a.created_at,
                updated_at: Timestamp::later_of(now, a.updated_at),
                content: content,
                visibility: a.visibility,
            }),
        }),
    }
}

/// What `change_visibility` does: replace the tag and move `updated_at`
/// forward, keeping creation time and content; absent ids are refused.
pub open spec fn sp_change_visibility(t: DocumentV, id: Seq<char>, visibility: Visibility,
    now: Timestamp) -> Option<DocumentV> {
    match t.get(id) {
        None => None,
        Some(a) => Some(DocumentV {
            version: t.version,
            entries: sp_upsert(t.entries, id, ArticleV {
                created_at: a.created_at,
                updated_at: Timestamp::later_of(now, a.updated_at),
                content: a.content,
                visibility: visibility,
            }),
        }),
    }
}

/// What `remove` does: drop the entry when there is one; an absent id is no
/// error.
pub open spec fn sp_remove(t: DocumentV, id: Seq<char>) -> DocumentV {
    DocumentV { version: t.version, entries: sp_removed(t.entries, id) }
}

/// What `rename` does: move the record from `old_id` to `new_id`, all fields
/// kept; refused when `old_id` is absent or `new_id` is taken.
pub open spec fn sp_rename(t: DocumentV, old_id: Seq<char>, new_id: Seq<char>)
    -> Result<DocumentV, PersistenceError> {
    if !t.has(old_id) {
        Err(PersistenceError::AbsentValue)
    } else if t.has(new_id) {
        Err(PersistenceError::Conflict)
    } else {
        Ok(DocumentV {
            version: t.version,
            entries: sp_removed(t.entries, old_id).push((new_id, t.get(old_id)->Some_0)),
        })
    }
}

/// The store: the cached table and the flag that forces a re-read before the
/// next read once a mutation has run.
pub struct ArticleRepository {
    doc: Document,
    invalidated: bool,
}

impl ArticleRepository {
    /// The cached table, as a mathematical value.
    pub closed spec fn table(self) -> DocumentV {
        self.doc@
    }

    /// The cache may be served without a re-read.
    pub closed spec fn fresh(self) -> bool {
        !self.invalidated
    }

    pub open spec fn wf(self) -> bool {
        self.table().wf()
    }

    /// A store over a decoded document, fresh.
    pub fn new(doc: Document) -> (r: ArticleRepository)
        requires
            doc.wf(),
        ensures
            r.table() == doc@,
            r.fresh(),
            r.wf(),
    {
        ArticleRepository { doc, invalidated: false }
    }

    /// A store over a persisted blob, as written by `dump`.
    pub fn open_from_text(text: &Vec<char>) -> (r: Result<ArticleRepository, DecodeError>)
        ensures
            match r {
                Ok(s) => sp_decode(text@) == Some(s.table()) && s.fresh() && s.wf(),
                Err(e) => sp_decode(text@) is None,
            },
    {
        match Document::decode(text) {
            Ok(d) => Ok(ArticleRepository::new(d)),
            Err(e) => Err(e),
        }
    }

    /// Whether the next read must re-read the backing file first.
    pub fn needs_reload(&self) -> (r: bool)
        ensures
            r == !self.fresh(),
    {
        self.invalidated
    }

    /// Replaces the cache with the table a re-read blob holds.  On a blob
    /// that does not decode the store is left untouched.
    pub fn refresh(&mut self, text: &Vec<char>) -> (r: Result<(), DecodeError>)
        ensures
            match r {
                Ok(()) => sp_decode(text@) == Some(final(self).table()) && final(self).fresh()
                    && final(self).wf(),
                Err(e) => sp_decode(text@) is None && *final(self) == *old(self),
            },
    {
        match Document::decode(text) {
            Ok(d) => {
                self.doc = d;
                self.invalidated = false;
                Ok(())
            },
            Err(e) => Err(e),
        }
    }

    /// The blob to persist: the whole table as one self-consistent snapshot.
    pub fn dump(&self) -> (r: Vec<char>)
        requires
            self.wf(),
        ensures
            r@ == encode_doc(self.table()),
    {
        self.doc.encode()
    }

    /// First index keyed by `id` in the cached table, when any is.
    fn find(&self, article_id: &ArticleId) -> (r: Option<usize>)
        ensures
            match r {
                Some(i) => i < self.table().entries.len()
                    && entry_index(self.table().entries, article_id@) == i,
                None => entry_index(self.table().entries, article_id@)
                    == self.table().entries.len(),
            },
    {
        let ghost es = self.table().entries;
        let n = self.doc.entries.len();
        let mut i: usize = 0;
        while i < n
            invariant
                n == self.doc.entries@.len(),
                es == self.table().entries,
                es.len() == n,
                i <= n,
                entry_index_from(es, article_id@, 0) == entry_index_from(es, article_id@, i as int),
                forall|k: int| 0 <= k < i ==> (#[trigger] es[k]).0 != article_id@,
            decreases n - i,
        {
            proof {
                assert(es[i as int] == (self.doc.entries@[i as int].0@,
                    self.doc.entries@[i as int].1@));
            }
            if self.doc.entries[i].0 == *article_id {
                return Some(i);
            }
            i = i + 1;
        }
        None
    }

    /// Whether the table has an entry under `id`.  The cache must be fresh:
    /// the owner re-reads the file first when `needs_reload` says so.
    /// (`exists` is a reserved word of the verifier, hence this name.)
    pub fn entry_exists(&self, article_id: &ArticleId) -> (r: bool)
        requires
            self.fresh(),
        ensures
            r == self.table().has(article_id@),
    {
        match self.find(article_id) {
            Some(_) => true,
            None => false,
        }
    }

    /// A copy of the record under `id`, or `AbsentValue`.  The cache must be
    /// fresh.
    pub fn read_snapshot(&self, article_id: &ArticleId) -> (r: Result<Article, PersistenceError>)
        requires
            self.fresh(),
        ensures
            match r {
                Ok(a) => self.table().get(article_id@) == Some(a@),
                Err(e) => !self.table().has(article_id@) && e == PersistenceError::AbsentValue,
            },
    {
        match self.find(article_id) {
            Some(i) => {
                proof {
                    assert(self.table().entries[i as int] == (self.doc.entries@[i as int].0@,
                        self.doc.entries@[i as int].1@));
                }
                Ok(self.doc.entries[i].1.duplicate())
            },
            None => Err(PersistenceError::AbsentValue),
        }
    }

    /// A copy of the whole table, in no meaningful order.  The cache must be
    /// fresh.
    pub fn entries(&self) -> (r: Vec<(ArticleId, Article)>)
        requires
            self.fresh(),
        ensures
            r@.len() == self.table().entries.len(),
            forall|i: int| 0 <= i < r@.len()
                ==> ((#[trigger] r@[i]).0@, r@[i].1@) == self.table().entries[i],
    {
        let ghost es = self.table().entries;
        let n = self.doc.entries.len();
        let mut out: Vec<(ArticleId, Article)> = Vec::new();
        let mut i: usize = 0;
        while i < n
            invariant
                n == self.doc.entries@.len(),
                es == self.table().entries,
                es.len() == n,
                i <= n,
                out@.len() == i,
                forall|k: int| 0 <= k < i ==> ((#[trigger] out@[k]).0@, out@[k].1@) == es[k],
            decreases n - i,
        {
            proof {
                assert(es[i as int] == (self.doc.entries@[i as int].0@,
                    self.doc.entries@[i as int].1@));
            }
            let id = ArticleId(self.doc.entries[i].0.0.clone());
            let a = self.doc.entries[i].1.duplicate();
            out.push((id, a));
            i = i + 1;
        }
        out
    }
}

} // verus!

verus! {

/// Unique keys mean: an entry whose key is `id` at position `k` is the one
/// the lookup finds.
pub proof fn lemma_get_witness(es: Seq<(Seq<char>, ArticleV)>, id: Seq<char>, k: int)
    requires
        forall|x: int, y: int| 0 <= x < y < es.len()
            ==> (#[trigger] es[x]).0 != (#[trigger] es[y]).0,
        0 <= k < es.len(),
        es[k].0 == id,
    ensures
        entry_index(es, id) == k,
    decreases es.len(),
{
    lemma_entry_index_from(es, id, 0);
    let f = entry_index(es, id);
    assert(f <= k);
    if f < k {
        assert(es[f].0 == id);
        assert(es[f].0 != es[k].0);
    }
}

impl ArticleRepository {
    /// Binds `id` to a fresh record, overwriting any previous one: the store
    /// keeps a plain keyed table, and leaves duplicate-id policy to its
    /// callers.  The caller persists `dump` next; until then the cache counts
    /// as stale.
    pub fn create_entry(&mut self, article_id: &ArticleId, article_content: String,
        visibility: Visibility, now: Timestamp) -> (nothing: ())
        requires
            old(self).wf(),
            now.wf(),
        ensures
            final(self).table() == sp_create(old(self).table(), article_id@, article_content@,
                visibility, now),
            !final(self).fresh(),
            final(self).wf(),
    {
        let ghost t = self.table();
        let a = Article {
            created_at: now,
            updated_at: now,
            content: article_content,
            visibility,
        };
        self.put(article_id, a);
        self.invalidated = true;
        proof {
            lemma_upsert_wf(t, article_id@, ArticleV {
                created_at: now,
                updated_at: now,
                content: a.content@,
                visibility,
            });
        }
    }

    /// Replaces the entry keyed `article_id`, or appends one.
    fn put(&mut self, article_id: &ArticleId, a: Article) -> (nothing: ())
        ensures
            final(self).table().entries
                == sp_upsert(old(self).table().entries, article_id@, a@),
            final(self).table().version == old(self).table().version,
            final(self).fresh() == old(self).fresh(),
    {
        let ghost es = self.table().entries;
        match self.find(article_id) {
            Some(i) => {
                let id = ArticleId(article_id.0.clone());
                self.doc.entries.set(i, (id, a));
                proof {
                    assert(self.table().entries =~= sp_upsert(es, article_id@, a@));
                }
            },
            None => {
                let id = ArticleId(article_id.0.clone());
                self.doc.entries.push((id, a));
                proof {
                    assert(self.table().entries =~= sp_upsert(es, article_id@, a@));
                }
            },
        }
    }
}

/// The table after an upsert is well formed, has the new record under its
/// key, and nothing else changed.
pub proof fn lemma_upsert_wf(t: DocumentV, id: Seq<char>, a: ArticleV)
    requires
        t.wf(),
        a.wf(),
    ensures
        ({
            let t2 = DocumentV { version: t.version, entries: sp_upsert(t.entries, id, a) };
            &&& t2.wf()
            &&& t2.get(id) == Some(a)
            &&& forall|other: Seq<char>| other != id
                ==> #[trigger] t2.get(other) == t.get(other)
            &&& t2.entries.len() == (if t.has(id) { t.entries.len() } else { t.entries.len() + 1 })
        }),
{
    let es = t.entries;
    let es2 = sp_upsert(es, id, a);
    let t2 = DocumentV { version: t.version, entries: es2 };
    lemma_entry_index_from(es, id, 0);
    let idx = entry_index(es, id);
    if idx < es.len() {
        assert(forall|k: int| 0 <= k < es.len() && k != idx
            ==> (#[trigger] es2[k]) == es[k]);
        assert(es2[idx] == (id, a));
        assert forall|x: int, y: int| 0 <= x < y < es2.len()
            implies (#[trigger] es2[x]).0 != (#[trigger] es2[y]).0 by {
            assert(es2[x].0 == es[x].0 && es2[y].0 == es[y].0);
        };
        lemma_get_witness(es2, id, idx);
        assert forall|other: Seq<char>| other != id
            implies #[trigger] t2.get(other) == t.get(other) by {
            lemma_entry_index_from(es, other, 0);
            lemma_entry_index_from(es2, other, 0);
            let f = entry_index(es, other);
            if f < es.len() {
                assert(es2[f].0 == other);
                lemma_get_witness(es2, other, f);
            } else {
                assert(forall|k: int| 0 <= k < es2.len() ==> (#[trigger] es2[k]).0 != other);
                if entry_index(es2, other) < es2.len() {
                    assert(es2[entry_index(es2, other)].0 == other);
                }
            }
        };
    } else {
        assert(forall|k: int| 0 <= k < es.len() ==> (#[trigger] es[k]).0 != id);
        assert(es2 == es.push((id, a)));
        assert forall|x: int, y: int| 0 <= x < y < es2.len()
            implies (#[trigger] es2[x]).0 != (#[trigger] es2[y]).0 by {
            if y < es.len() {
                assert(es2[x].0 == es[x].0 && es2[y].0 == es[y].0);
            } else {
                assert(es2[y] == (id, a));
                assert(es2[x].0 == es[x].0);
            }
        };
        lemma_get_witness(es2, id, es.len() as int);
        assert forall|other: Seq<char>| other != id
            implies #[trigger] t2.get(other) == t.get(other) by {
            lemma_entry_index_from(es, other, 0);
            lemma_entry_index_from(es2, other, 0);
            let f = entry_index(es, other);
            if f < es.len() {
                assert(es2[f].0 == other);
                lemma_get_witness(es2, other, f);
            } else {
                assert(forall|k: int| 0 <= k < es2.len() ==> (#[trigger] es2[k]).0 != other);
                if entry_index(es2, other) < es2.len() {
                    assert(es2[entry_index(es2, other)].0 == other);
                }
            }
        };
    }
}

} // verus!

verus! {

impl ArticleRepository {
    /// Replaces the content of an existing entry and moves its update time
    /// forward to `now`; `AbsentValue` when the id is not in the table.
    pub fn update_entry(&mut self, article_id: &ArticleId, article_content: String,
        now: Timestamp) -> (r: Result<(), PersistenceError>)
        requires
            old(self).wf(),
            now.wf(),
        ensures
            match r {
                Ok(()) => {
                    &&& sp_update(old(self).table(), article_id@, article_content@, now)
                        == Some(final(self).table())
                    &&& !final(self).fresh()
                    &&& final(self).wf()
                },
                Err(e) => {
                    &&& !old(self).table().has(article_id@)
                    &&& e == PersistenceError::AbsentValue
                    &&& *final(self) == *old(self)
                },
            },
    {
        let ghost t = self.table();
        let i = match self.find(article_id) {
            Some(i) => i,
            None => { return Err(PersistenceError::AbsentValue); },
        };
        proof {
            assert(t.entries[i as int] == (self.doc.entries@[i as int].0@,
                self.doc.entries@[i as int].1@));
        }
        let old_article = &self.doc.entries[i].1;
        let a = Article {
            created_at: old_article.created_at,
            updated_at: now.later(&old_article.updated_at),
            content: article_content,
            visibility: old_article.visibility,
        };
        let ghost av = a@;
        self.put(article_id, a);
        self.invalidated = true;
        proof {
            lemma_upsert_wf(t, article_id@, av);
        }
        Ok(())
    }

    /// Replaces the visibility of an existing entry and moves its update time
    /// forward to `now`; `AbsentValue` when the id is not in the table.
    pub fn change_visibility(&mut self, article_id: &ArticleId, new_visibility: Visibility,
        now: Timestamp) -> (r: Result<(), PersistenceError>)
        requires
            old(self).wf(),
            now.wf(),
        ensures
            match r {
                Ok(()) => {
                    &&& sp_change_visibility(old(self).table(), article_id@, new_visibility, now)
                        == Some(final(self).table())
                    &&& !final(self).fresh()
                    &&& final(self).wf()
                },
                Err(e) => {
                    &&& !old(self).table().has(article_id@)
                    &&& e == PersistenceError::AbsentValue
                    &&& *final(self) == *old(self)
                },
            },
    {
        let ghost t = self.table();
        let i = match self.find(article_id) {
            Some(i) => i,
            None => { return Err(PersistenceError::AbsentValue); },
        };
        proof {
            assert(t.entries[i as int] == (self.doc.entries@[i as int].0@,
                self.doc.entries@[i as int].1@));
        }
        let old_article = &self.doc.entries[i].1;
        let a = Article {
            created_at: old_article.created_at,
            updated_at: now.later(&old_article.updated_at),
            content: old_article.content.clone(),
            visibility: new_visibility,
        };
        let ghost av = a@;
        self.put(article_id, a);
        self.invalidated = true;
        proof {
            lemma_upsert_wf(t, article_id@, av);
        }
        Ok(())
    }

    /// Drops the entry keyed `article_id`.  An absent id is no error: the
    /// operation is idempotent.
    pub fn remove(&mut self, article_id: &ArticleId) -> (nothing: ())
        requires
            old(self).wf(),
        ensures
            final(self).table() == sp_remove(old(self).table(), article_id@),
            !final(self).fresh(),
            final(self).wf(),
    {
        let ghost t = self.table();
        match self.find(article_id) {
            Some(i) => {
                self.doc.entries.remove(i);
                proof {
                    assert(self.table().entries =~= sp_removed(t.entries, article_id@));
                }
            },
            None => {
                proof {
                    assert(self.table().entries =~= sp_removed(t.entries, article_id@));
                }
            },
        }
        self.invalidated = true;
        proof {
            lemma_removed_wf(t, article_id@);
            assert(self.table() =~= sp_remove(t, article_id@)) by {
                assert(self.table().entries == sp_remove(t, article_id@).entries);
            };
        }
    }

    /// Moves the record from `old_id` to `new_id`, all fields kept.
    /// `AbsentValue` when `old_id` is not in the table, `Conflict` when
    /// `new_id` already is.
    pub fn rename(&mut self, old_id: &ArticleId, new_id: ArticleId)
        -> (r: Result<(), PersistenceError>)
        requires
            old(self).wf(),
        ensures
            match r {
                Ok(()) => {
                    &&& sp_rename(old(self).table(), old_id@, new_id@)
                        == Ok::<DocumentV, PersistenceError>(final(self).table())
                    &&& !final(self).fresh()
                    &&& final(self).wf()
                },
                Err(e) => {
                    &&& sp_rename(old(self).table(), old_id@, new_id@)
                        == Err::<DocumentV, PersistenceError>(e)
                    &&& *final(self) == *old(self)
                },
            },
    {
        let ghost t = self.table();
        let i = match self.find(old_id) {
            Some(i) => i,
            None => { return Err(PersistenceError::AbsentValue); },
        };
        match self.find(&new_id) {
            Some(_) => { return Err(PersistenceError::Conflict); },
            None => {},
        }
        proof {
            assert(t.entries[i as int] == (self.doc.entries@[i as int].0@,
                self.doc.entries@[i as int].1@));
        }
        let (_, a) = self.doc.entries.remove(i);
        self.doc.entries.push((new_id, a));
        self.invalidated = true;
        proof {
            assert(self.table().entries
                =~= sp_removed(t.entries, old_id@).push((new_id@, t.get(old_id@)->Some_0)));
            lemma_removed_wf(t, old_id@);
            lemma_upsert_wf(sp_remove(t, old_id@), new_id@, t.get(old_id@)->Some_0);
            assert(sp_upsert(sp_removed(t.entries, old_id@), new_id@, t.get(old_id@)->Some_0)
                == sp_removed(t.entries, old_id@).push((new_id@, t.get(old_id@)->Some_0))) by {
                lemma_entry_index_from(sp_removed(t.entries, old_id@), new_id@, 0);
                let es2 = sp_removed(t.entries, old_id@);
                if entry_index(es2, new_id@) < es2.len() {
                    assert(es2[entry_index(es2, new_id@)].0 == new_id@);
                    assert(sp_remove(t, old_id@).get(new_id@) is Some);
                }
            };
        }
        Ok(())
    }
}

/// The table after a removal is well formed, has nothing under the key, and
/// nothing else changed.
pub proof fn lemma_removed_wf(t: DocumentV, id: Seq<char>)
    requires
        t.wf(),
    ensures
        ({
            let t2 = sp_remove(t, id);
            &&& t2.wf()
            &&& !t2.has(id)
            &&& forall|other: Seq<char>| other != id
                ==> #[trigger] t2.get(other) == t.get(other)
            &&& t2.entries.len() == (if t.has(id) { t.entries.len() - 1 } else { t.entries.len() as int })
        }),
{
    let es = t.entries;
    lemma_entry_index_from(es, id, 0);
    let idx = entry_index(es, id);
    let es2 = sp_removed(es, id);
    let t2 = sp_remove(t, id);
    if idx < es.len() {
        assert(es2 == es.remove(idx));
        assert(es2.len() == es.len() - 1);
        assert(forall|k: int| 0 <= k < idx ==> (#[trigger] es2[k]) == es[k]);
        assert(forall|k: int| idx <= k < es2.len() ==> (#[trigger] es2[k]) == es[k + 1]);
        assert forall|x: int, y: int| 0 <= x < y < es2.len()
            implies (#[trigger] es2[x]).0 != (#[trigger] es2[y]).0 by {};
        assert forall|k: int| 0 <= k < es2.len() implies (#[trigger] es2[k]).0 != id by {
            if k >= idx {
                assert(es2[k].0 == es[k + 1].0);
                assert(es[idx].0 == id);
            }
        };
        lemma_entry_index_from(es2, id, 0);
        if entry_index(es2, id) < es2.len() {
            assert(es2[entry_index(es2, id)].0 == id);
        }
        assert forall|other: Seq<char>| other != id
            implies #[trigger] t2.get(other) == t.get(other) by {
            lemma_entry_index_from(es, other, 0);
            lemma_entry_index_from(es2, other, 0);
            let f = entry_index(es, other);
            if f < es.len() {
                if f < idx {
                    lemma_get_witness(es2, other, f);
                } else {
                    assert(f != idx);
                    assert(es2[f - 1] == es[f]);
                    lemma_get_witness(es2, other, f - 1);
                }
            } else {
                assert forall|k: int| 0 <= k < es2.len()
                    implies (#[trigger] es2[k]).0 != other by {
                    if k < idx {
                        assert(es2[k].0 == es[k].0);
                    } else {
                        assert(es2[k].0 == es[k + 1].0);
                    }
                };
                if entry_index(es2, other) < es2.len() {
                    assert(es2[entry_index(es2, other)].0 == other);
                }
            }
        };
    } else {
        assert(es2 == es);
        assert(forall|k: int| 0 <= k < es.len() ==> (#[trigger] es[k]).0 != id);
        if entry_index(es2, id) < es2.len() {
            assert(es2[entry_index(es2, id)].0 == id);
        }
    }
}

} // verus!

verus! {

/// Creating an entry makes it readable at once: the record under the id has
/// the given content and visibility, and its two timestamps are the same
/// moment.  The snapshot `dump` would persist reads back to this very table.
pub proof fn lemma_create_then_read(t: DocumentV, id: Seq<char>, content: Seq<char>,
    visibility: Visibility, now: Timestamp)
    requires
        t.wf(),
        now.wf(),
    ensures
        ({
            let t2 = sp_create(t, id, content, visibility, now);
            &&& t2.wf()
            &&& t2.get(id) == Some(ArticleV {
                created_at: now,
                updated_at: now,
                content: content,
                visibility: visibility,
            })
            &&& t2.get(id)->Some_0.created_at == t2.get(id)->Some_0.updated_at
            &&& sp_decode(encode_doc(t2)) == Some(t2)
        }),
{
    let a = ArticleV { created_at: now, updated_at: now, content: content, visibility: visibility };
    lemma_upsert_wf(t, id, a);
    crate::document::lemma_document_roundtrip(sp_create(t, id, content, visibility, now));
}

/// Updating an entry never touches its creation time: after a creation at
/// one moment and an update with new content at a strictly later one, the
/// record keeps its creation time, carries the new content, and its update
/// time is exactly the later moment — strictly after the one it had.
pub proof fn lemma_update_preserves_creation(t: DocumentV, id: Seq<char>,
    first_content: Seq<char>, second_content: Seq<char>, visibility: Visibility,
    created: Timestamp, updated: Timestamp)
    requires
        t.wf(),
        created.wf(),
        updated.wf(),
        created.lt(updated),
    ensures
        ({
            let ta = sp_create(t, id, first_content, visibility, created);
            match sp_update(ta, id, second_content, updated) {
                Some(tb) => {
                    &&& tb.wf()
                    &&& tb.get(id) is Some
                    &&& tb.get(id)->Some_0.created_at == created
                    &&& tb.get(id)->Some_0.content == second_content
                    &&& tb.get(id)->Some_0.updated_at == updated
                    &&& ta.get(id)->Some_0.updated_at.lt(tb.get(id)->Some_0.updated_at)
                    &&& tb.get(id)->Some_0.created_at.lt(tb.get(id)->Some_0.updated_at)
                    &&& tb.get(id)->Some_0.visibility == visibility
                },
                None => false,
            }
        }),
{
    let a1 = ArticleV {
        created_at: created,
        updated_at: created,
        content: first_content,
        visibility: visibility,
    };
    lemma_upsert_wf(t, id, a1);
    let ta = sp_create(t, id, first_content, visibility, created);
    assert(ta.get(id) == Some(a1));
    assert(Timestamp::later_of(updated, created) == updated);
    let a2 = ArticleV {
        created_at: created,
        updated_at: updated,
        content: second_content,
        visibility: visibility,
    };
    lemma_upsert_wf(ta, id, a2);
}

/// Removal is idempotent: an absent id leaves the table exactly as it was,
/// and the id stays absent.
pub proof fn lemma_remove_idempotent(t: DocumentV, id: Seq<char>)
    requires
        t.wf(),
    ensures
        !sp_remove(t, id).has(id),
        !t.has(id) ==> sp_remove(t, id) == t,
        sp_remove(sp_remove(t, id), id) == sp_remove(t, id),
        sp_remove(t, id).wf(),
{
    lemma_removed_wf(t, id);
    if !t.has(id) {
        lemma_entry_index_from(t.entries, id, 0);
        assert(sp_remove(t, id).entries == t.entries);
        assert(sp_remove(t, id) == t);
    }
    lemma_removed_wf(sp_remove(t, id), id);
    assert(sp_remove(sp_remove(t, id), id) == sp_remove(t, id)) by {
        lemma_entry_index_from(sp_remove(t, id).entries, id, 0);
        if entry_index(sp_remove(t, id).entries, id) < sp_remove(t, id).entries.len() {
            assert(sp_remove(t, id).has(id));
        }
        assert(sp_removed(sp_remove(t, id).entries, id) == sp_remove(t, id).entries);
    };
}

/// Renaming an existing id onto a free one moves the record: the old id is
/// gone, the new one holds the record with every field as it was, the table
/// is no larger, and no other entry changed.
pub proof fn lemma_rename_moves(t: DocumentV, old_id: Seq<char>, new_id: Seq<char>)
    requires
        t.wf(),
        t.has(old_id),
        !t.has(new_id),
    ensures
        match sp_rename(t, old_id, new_id) {
            Ok(t2) => {
                &&& t2.wf()
                &&& !t2.has(old_id)
                &&& t2.get(new_id) == t.get(old_id)
                &&& t2.entries.len() == t.entries.len()
                &&& forall|other: Seq<char>| other != old_id && other != new_id
                    ==> #[trigger] t2.get(other) == t.get(other)
            },
            Err(_) => false,
        },
{
    assert(old_id != new_id);
    let a = t.get(old_id)->Some_0;
    lemma_removed_wf(t, old_id);
    let tr = sp_remove(t, old_id);
    assert(a.wf()) by {
        lemma_entry_index_from(t.entries, old_id, 0);
    };
    lemma_upsert_wf(tr, new_id, a);
    assert(sp_upsert(tr.entries, new_id, a) == tr.entries.push((new_id, a))) by {
        lemma_entry_index_from(tr.entries, new_id, 0);
        if entry_index(tr.entries, new_id) < tr.entries.len() {
            assert(tr.entries[entry_index(tr.entries, new_id)].0 == new_id);
            assert(tr.has(new_id));
        }
    };
    let t2 = sp_rename(t, old_id, new_id)->Ok_0;
    assert(t2.entries == sp_upsert(tr.entries, new_id, a));
    assert(t2.get(new_id) == Some(a));
    assert(!t2.has(old_id)) by {
        assert(t2.get(old_id) == tr.get(old_id));
    };
}

/// A full close-and-reopen cycle loses nothing: the blob `dump` persists is
/// read back by `open_from_text` into exactly the table that was dumped.
pub proof fn lemma_reopen_preserves_table(t: DocumentV)
    requires
        t.wf(),
    ensures
        sp_decode(encode_doc(t)) == Some(t),
{
    crate::document::lemma_document_roundtrip(t);
}

} // verus!
