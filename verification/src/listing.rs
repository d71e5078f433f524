//! Listing support: filtering a table snapshot down to the publicly listed
//! ids and the extremes callers put in response headers.  The store itself
//! orders nothing; these functions work over the snapshot `entries` returns.

use vstd::prelude::*;
use crate::model::{Article, ArticleV, ArticleId, Visibility, ArticleIdSet, ArticleIdSetMetadata};
use crate::timestamp::Timestamp;

verus! {

/// Whether a record is listed: public, and created in the asked-for year and
/// month when those are given.
pub open spec fn sp_listed(a: ArticleV, year: Option<u32>, month: Option<u8>) -> bool {
    &&& a.visibility == Visibility::Public
    &&& match year {
        Some(y) => a.created_at.year == y,
        None => true,
    }
    &&& match month {
        Some(m) => a.created_at.month == m,
        None => true,
    }
}

/// The ids of the listed records from index `i` on, in snapshot order.
pub open spec fn sp_listed_ids(es: Seq<(Seq<char>, ArticleV)>, year: Option<u32>,
    month: Option<u8>, i: int) -> Seq<Seq<char>>
    decreases es.len() - i when 0 <= i <= es.len()
{
    if i >= es.len() {
        Seq::empty()
    } else {
        (if sp_listed(es[i].1, year, month) { seq![es[i].0] } else { Seq::empty() })
            + sp_listed_ids(es, year, month, i + 1)
    }
}

/// The listed ids of a snapshot, with the oldest creation and newest update
/// among the listed records.  Records that are not listed leave no trace in
/// any part of the result.
pub fn collect_public_ids(entries: &Vec<(ArticleId, Article)>, year: Option<u32>,
    month: Option<u8>) -> (r: (ArticleIdSet, ArticleIdSetMetadata))
    requires
        forall|k: int| 0 <= k < entries@.len() ==> (#[trigger] entries@[k]).1@.wf(),
    ensures
        ({
            let es = Seq::new(entries@.len(), |k: int| (entries@[k].0@, entries@[k].1@));
            &&& r.0.0@.len() == sp_listed_ids(es, year, month, 0).len()
            &&& forall|k: int| 0 <= k < r.0.0@.len()
                ==> (#[trigger] r.0.0@[k])@ == sp_listed_ids(es, year, month, 0)[k]
            &&& match r.1.newest_updated_at {
                Some(ts) => {
                    &&& ts.wf()
                    &&& exists|k: int| 0 <= k < es.len()
                        && sp_listed((#[trigger] es[k]).1, year, month)
                        && es[k].1.updated_at == ts
                    &&& forall|k: int| 0 <= k < es.len()
                        && sp_listed((#[trigger] es[k]).1, year, month)
                        ==> es[k].1.updated_at.le(ts)
                },
                None => forall|k: int| 0 <= k < es.len()
                    ==> !sp_listed((#[trigger] es[k]).1, year, month),
            }
            &&& match r.1.oldest_created_at {
                Some(ts) => {
                    &&& ts.wf()
                    &&& exists|k: int| 0 <= k < es.len()
                        && sp_listed((#[trigger] es[k]).1, year, month)
                        && es[k].1.created_at == ts
                    &&& forall|k: int| 0 <= k < es.len()
                        && sp_listed((#[trigger] es[k]).1, year, month)
                        ==> ts.le(es[k].1.created_at)
                },
                None => forall|k: int| 0 <= k < es.len()
                    ==> !sp_listed((#[trigger] es[k]).1, year, month),
            }
            &&& (r.1.newest_updated_at is Some <==> r.1.oldest_created_at is Some)
        }),
{
    let ghost es = Seq::new(entries@.len(), |k: int| (entries@[k].0@, entries@[k].1@));
    let n = entries.len();
    let mut ids: Vec<ArticleId> = Vec::new();
    let mut newest: Option<Timestamp> = None;
    let mut oldest: Option<Timestamp> = None;
    let mut i: usize = 0;
    while i < n
        invariant
            n == entries@.len(),
            i <= n,
            es == Seq::new(entries@.len(), |k: int| (entries@[k].0@, entries@[k].1@)),
            forall|k: int| 0 <= k < entries@.len() ==> (#[trigger] entries@[k]).1@.wf(),
            sp_listed_ids(es, year, month, 0) == Seq::new(ids@.len(), |k: int| ids@[k]@)
                + sp_listed_ids(es, year, month, i as int),
            match newest {
                Some(ts) => {
                    &&& ts.wf()
                    &&& exists|k: int| 0 <= k < i
                        && sp_listed((#[trigger] es[k]).1, year, month)
                        && es[k].1.updated_at == ts
                    &&& forall|k: int| 0 <= k < i
                        && sp_listed((#[trigger] es[k]).1, year, month)
                        ==> es[k].1.updated_at.le(ts)
                },
                None => forall|k: int| 0 <= k < i
                    ==> !sp_listed((#[trigger] es[k]).1, year, month),
            },
            match oldest {
                Some(ts) => {
                    &&& ts.wf()
                    &&& exists|k: int| 0 <= k < i
                        && sp_listed((#[trigger] es[k]).1, year, month)
                        && es[k].1.created_at == ts
                    &&& forall|k: int| 0 <= k < i
                        && sp_listed((#[trigger] es[k]).1, year, month)
                        ==> ts.le(es[k].1.created_at)
                },
                None => forall|k: int| 0 <= k < i
                    ==> !sp_listed((#[trigger] es[k]).1, year, month),
            },
            newest is Some <==> oldest is Some,
        decreases n - i,
    {
        proof {
            assert(es[i as int] == (entries@[i as int].0@, entries@[i as int].1@));
        }
        let a = &entries[i].1;
        let listed = a.visibility == Visibility::Public
            && (match year {
                Some(y) => a.created_at.year as u32 == y,
                None => true,
            })
            && (match month {
                Some(m) => a.created_at.month == m,
                None => true,
            });
        let ghost ids_before = ids@;
        if listed {
            ids.push(ArticleId(entries[i].0.0.clone()));
            newest = match newest {
                Some(cur) => {
                    if cur.le_exec(&a.updated_at) { Some(a.updated_at) } else { Some(cur) }
                },
                None => Some(a.updated_at),
            };
            oldest = match oldest {
                Some(cur) => {
                    if a.created_at.le_exec(&cur) { Some(a.created_at) } else { Some(cur) }
                },
                None => Some(a.created_at),
            };
        }
        proof {
            let idseq = if sp_listed(es[i as int].1, year, month) {
                seq![es[i as int].0]
            } else {
                Seq::<Seq<char>>::empty()
            };
            assert(sp_listed_ids(es, year, month, i as int)
                == idseq + sp_listed_ids(es, year, month, i + 1));
            assert(Seq::new(ids_before.len(), |k: int| ids_before[k]@) + idseq
                =~= Seq::new(ids@.len(), |k: int| ids@[k]@));
            assert((Seq::new(ids_before.len(), |k: int| ids_before[k]@) + idseq)
                + sp_listed_ids(es, year, month, i + 1)
                =~= Seq::new(ids_before.len(), |k: int| ids_before[k]@)
                    + (idseq + sp_listed_ids(es, year, month, i + 1)));
        }
        i = i + 1;
    }
    proof {
        assert(sp_listed_ids(es, year, month, n as int) == Seq::<Seq<char>>::empty());
        assert(Seq::new(ids@.len(), |k: int| ids@[k]@) + Seq::<Seq<char>>::empty()
            =~= Seq::new(ids@.len(), |k: int| ids@[k]@));
    }
    (ArticleIdSet(ids), ArticleIdSetMetadata { oldest_created_at: oldest, newest_updated_at: newest })
}

/// The not-modified decision for a conditional listing request: taken when a
/// newest update exists and is at or after the given threshold.
pub fn is_not_modified(latest_updated: &Option<Timestamp>, threshold: &Option<Timestamp>)
    -> (r: bool)
    requires
        match latest_updated { Some(d) => d.wf(), None => true },
        match threshold { Some(s) => s.wf(), None => true },
    ensures
        r == match (latest_updated, threshold) {
            (Some(d), Some(s)) => s.le(*d),
            _ => false,
        },
{
    match (latest_updated, threshold) {
        (Some(d), Some(s)) => s.le_exec(d),
        _ => false,
    }
}

/// A snapshot flattened for a listing response, in snapshot order.
pub fn list_response(entries: Vec<(ArticleId, Article)>) -> (r: crate::model::ListArticleResponse)
    ensures
        r.0@.len() == entries@.len(),
        forall|k: int| 0 <= k < entries@.len()
            ==> ((#[trigger] r.0@[k]).id@ == entries@[k].0@ && r.0@[k].entity@ == entries@[k].1@),
{
    let mut rem = entries;
    let mut out: Vec<crate::model::FlatId<ArticleId, Article>> = Vec::new();
    let ghost es = rem@;
    while rem.len() > 0
        invariant
            es == old_entries_view(out@, rem@),
            forall|k: int| 0 <= k < out@.len()
                ==> ((#[trigger] out@[k]).id@ == es[k].0@ && out@[k].entity@ == es[k].1@),
        decreases rem@.len(),
    {
        let (id, a) = rem.remove(0);
        out.push(crate::model::FlatId { id, entity: a });
    }
    crate::model::ListArticleResponse(out)
}

/// The snapshot as handed in: what is already flattened followed by what is left.
pub open spec fn old_entries_view(out: Seq<crate::model::FlatId<ArticleId, Article>>,
    rem: Seq<(ArticleId, Article)>) -> Seq<(ArticleId, Article)> {
    Seq::new(out.len(), |k: int| (out[k].id, out[k].entity)) + rem
}

} // verus!

verus! {

/// A record that is not listed leaves no trace: when every entry under an id
/// fails the filter, the id is not among the listed ids.
pub proof fn lemma_unlisted_id_stays_out(es: Seq<(Seq<char>, ArticleV)>, year: Option<u32>,
    month: Option<u8>, id: Seq<char>, i: int)
    requires
        0 <= i <= es.len(),
        forall|k: int| 0 <= k < es.len() && (#[trigger] es[k]).0 == id
            ==> !sp_listed(es[k].1, year, month),
    ensures
        !sp_listed_ids(es, year, month, i).contains(id),
    decreases es.len() - i,
{
    let out = sp_listed_ids(es, year, month, i);
    if i < es.len() {
        lemma_unlisted_id_stays_out(es, year, month, id, i + 1);
        let head = if sp_listed(es[i].1, year, month) { seq![es[i].0] } else { Seq::<Seq<char>>::empty() };
        let rest = sp_listed_ids(es, year, month, i + 1);
        assert(out == head + rest);
        if out.contains(id) {
            let j = choose|j: int| 0 <= j < out.len() && out[j] == id;
            if j < head.len() {
                assert(sp_listed(es[i].1, year, month) && es[i].0 == id);
            } else {
                assert(rest[j - head.len()] == id);
                assert(rest.contains(id));
            }
        }
    } else {
        assert(out.len() == 0);
        if out.contains(id) {
            let j = choose|j: int| 0 <= j < out.len() && out[j] == id;
        }
    }
}

} // verus!
