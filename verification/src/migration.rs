//! Schema migration: the ordered upgrade steps that bring a raw on-disk
//! document up to the current schema before the typed decode runs.
//!
//! Two steps exist: stamping documents of the earliest format with version 1,
//! and, below version 2, giving every record without a visibility field the
//! historical default `public` while stepping the version to 2.  Each step
//! leaves a document at or above its target version unchanged, so the whole
//! pipeline is idempotent.

use vstd::prelude::*;
use crate::json::{Json, JsonV, members_view, lemma_members_view, obj_get, obj_has, obj_set,
    members_get, members_has, members_set, members_index, key_index, lemma_obj_set_get};
use crate::numeral::{all_dec_digits, dec_value, read_number};
use crate::chars::str_to_chars;

verus! {

/// A raw document the migrator must not touch: reading on would lose data.
#[derive(Copy, Clone, Debug, PartialEq, Eq, Structural)]
pub enum MigrateError {
    /// The top level of the document is no object.
    NotAnObject,
    /// The version tag is neither a number nor a string of digits.
    BadVersionTag,
    /// The article table is missing, or no object, or holds a non-object.
    BadTable,
}

/// The number a version tag denotes: a number stands for itself, a string of
/// one to nine digits for the number it spells.
pub open spec fn sp_version_of(v: JsonV) -> Option<u32> {
    match v {
        JsonV::Int(n) => Some(n),
        JsonV::Str(t) => if 1 <= t.len() <= 9 && all_dec_digits(t, 0, t.len() as int) {
            Some(dec_value(t) as u32)
        } else {
            None
        },
        _ => None,
    }
}

/// First step: a document without a version tag is of the earliest format and
/// gets stamped with version 1; a tagged one passes unchanged.
pub open spec fn sp_tag_version(v: JsonV) -> Option<JsonV> {
    match v {
        JsonV::Obj(ms) => Some(
            if obj_has(ms, "version"@) {
                v
            } else {
                JsonV::Obj(obj_set(ms, "version"@, JsonV::Int(1)))
            }
        ),
        _ => None,
    }
}

/// The records after the add-visibility step: each must be an object; one
/// without a visibility field gets `public`, one with keeps its own.
pub open spec fn sp_add_vis_articles(arts: Seq<(Seq<char>, JsonV)>)
    -> Option<Seq<(Seq<char>, JsonV)>>
    decreases arts.len(),
{
    if arts.len() == 0 {
        Some(Seq::empty())
    } else {
        match arts[0].1 {
            JsonV::Obj(fs) => {
                let fs2 = if obj_has(fs, "visibility"@) {
                    fs
                } else {
                    obj_set(fs, "visibility"@, JsonV::Str("public"@))
                };
                match sp_add_vis_articles(arts.drop_first()) {
                    Some(rest) => Some(seq![(arts[0].0, JsonV::Obj(fs2))] + rest),
                    None => None,
                }
            },
            _ => None,
        }
    }
}

/// Second step: below version 2, default every record's visibility and step
/// the version to 2; at or above 2, leave the document unchanged.
pub open spec fn sp_add_visibility(v: JsonV) -> Option<JsonV> {
    match v {
        JsonV::Obj(ms) => {
            match obj_get(ms, "version"@) {
                Some(tag) => match sp_version_of(tag) {
                    Some(ver) => {
                        if ver >= 2 {
                            Some(v)
                        } else {
                            let ms2 = obj_set(ms, "version"@, JsonV::Int(2));
                            match obj_get(ms, "data"@) {
                                Some(JsonV::Obj(arts)) => {
                                    match sp_add_vis_articles(arts) {
                                        Some(arts2) => Some(JsonV::Obj(
                                            obj_set(ms2, "data"@, JsonV::Obj(arts2)))),
                                        None => None,
                                    }
                                },
                                _ => None,
                            }
                        }
                    },
                    None => None,
                },
                None => None,
            }
        },
        _ => None,
    }
}

/// The whole migration pipeline: tag, then default visibilities.
pub open spec fn sp_migrate(v: JsonV) -> Option<JsonV> {
    match sp_tag_version(v) {
        Some(v1) => sp_add_visibility(v1),
        None => None,
    }
}

/// The number an executable version tag denotes.
pub fn version_of(tag: &Json) -> (r: Option<u32>)
    ensures
        r == sp_version_of(tag@),
{
    match tag {
        Json::Int(n) => Some(*n),
        Json::Str(t) => {
            if t.len() < 1 || t.len() > 9 {
                return None;
            }
            proof {
                assert(t@.subrange(0, t@.len() as int) =~= t@);
            }
            match read_number(t.as_slice(), 0, t.len()) {
                Some(v) => Some(v),
                None => None,
            }
        },
        _ => None,
    }
}

/// First step, on values in memory.
pub fn tag_version(doc: Json) -> (r: Result<Json, MigrateError>)
    ensures
        match r {
            Ok(out) => sp_tag_version(doc@) == Some(out@),
            Err(e) => sp_tag_version(doc@) is None && e == MigrateError::NotAnObject,
        },
{
    match doc {
        Json::Obj(mut m) => {
            if !members_has(&m, "version") {
                members_set(&mut m, "version", Json::Int(1));
            }
            Ok(Json::Obj(m))
        },
        other => Err(MigrateError::NotAnObject),
    }
}

} // verus!

verus! {

/// Second step's record walk, on values in memory.
fn add_vis_articles(arts: Vec<(Vec<char>, Json)>) -> (r: Result<Vec<(Vec<char>, Json)>, MigrateError>)
    ensures
        match r {
            Ok(out) => sp_add_vis_articles(members_view(arts, 0)) == Some(members_view(out, 0)),
            Err(e) => sp_add_vis_articles(members_view(arts, 0)) is None
                && e == MigrateError::BadTable,
        },
{
    let ghost ms0 = members_view(arts, 0);
    let mut rem = arts;
    let mut out: Vec<(Vec<char>, Json)> = Vec::new();
    proof {
        lemma_members_view(rem, 0);
        lemma_members_view(out, 0);
    }
    loop
        invariant
            ms0 == members_view(arts, 0),
            match sp_add_vis_articles(members_view(rem, 0)) {
                Some(rest) => sp_add_vis_articles(ms0) == Some(members_view(out, 0) + rest),
                None => sp_add_vis_articles(ms0) is None,
            },
        decreases rem@.len(),
    {
        proof {
            lemma_members_view(rem, 0);
            lemma_members_view(out, 0);
        }
        if rem.len() == 0 {
            proof {
                assert(members_view(rem, 0) =~= Seq::<(Seq<char>, JsonV)>::empty());
                assert(sp_add_vis_articles(members_view(rem, 0))
                    == Some(Seq::<(Seq<char>, JsonV)>::empty()));
                assert(members_view(out, 0) + Seq::<(Seq<char>, JsonV)>::empty()
                    =~= members_view(out, 0));
            }
            return Ok(out);
        }
        let ghost rem_before = members_view(rem, 0);
        let ghost out_before = members_view(out, 0);
        let (k, a) = rem.remove(0);
        proof {
            lemma_members_view(rem, 0);
            assert(members_view(rem, 0) =~= rem_before.drop_first());
        }
        match a {
            Json::Obj(mut fs) => {
                if !members_has(&fs, "visibility") {
                    members_set(&mut fs, "visibility", Json::Str(str_to_chars("public")));
                }
                out.push((k, Json::Obj(fs)));
                proof {
                    lemma_members_view(out, 0);
                    match sp_add_vis_articles(members_view(rem, 0)) {
                        Some(rest) => {
                            assert(sp_add_vis_articles(rem_before)
                                == Some(seq![(rem_before[0].0, (Json::Obj(fs))@)] + rest));
                            assert(out_before + (seq![(rem_before[0].0, (Json::Obj(fs))@)] + rest)
                                =~= members_view(out, 0) + rest);
                        },
                        None => {},
                    }
                }
            },
            _ => {
                proof {
                    assert(sp_add_vis_articles(rem_before) is None);
                }
                return Err(MigrateError::BadTable);
            },
        }
    }
}

/// Second step, on values in memory.
#[verifier::rlimit(60)]
pub fn add_visibility(doc: Json) -> (r: Result<Json, MigrateError>)
    ensures
        match r {
            Ok(out) => sp_add_visibility(doc@) == Some(out@),
            Err(e) => sp_add_visibility(doc@) is None,
        },
{
    let m = match doc {
        Json::Obj(m) => m,
        _ => { return Err(MigrateError::NotAnObject); },
    };
    let ghost ms = members_view(m, 0);
    let ver = match members_get(&m, "version") {
        Some(tag) => match version_of(tag) {
            Some(v) => v,
            None => { return Err(MigrateError::BadVersionTag); },
        },
        None => { return Err(MigrateError::BadVersionTag); },
    };
    if ver >= 2 {
        return Ok(Json::Obj(m));
    }
    let mut m = m;
    members_set(&mut m, "version", Json::Int(2));
    let ghost ms2 = members_view(m, 0);
    proof {
        reveal_strlit("version");
        reveal_strlit("data");
        assert("version"@.len() == 7 && "data"@.len() == 4);
        lemma_obj_set_get(ms, "version"@, JsonV::Int(2));
        assert(obj_get(ms2, "data"@) == obj_get(ms, "data"@));
    }
    let di = match members_index(&m, "data") {
        Some(di) => di,
        None => {
            proof {
                crate::json::lemma_key_index_from(ms2, "data"@, 0);
                assert(obj_get(ms2, "data"@) is None);
            }
            return Err(MigrateError::BadTable);
        },
    };
    proof {
        crate::json::lemma_key_index_from(ms2, "data"@, 0);
        lemma_members_view(m, 0);
        assert(ms2[di as int].0 == "data"@);
        assert(obj_get(ms2, "data"@) == Some(ms2[di as int].1));
    }
    let ghost m_before = m@;
    let (dk, dv) = m.remove(di);
    let arts = match dv {
        Json::Obj(arts) => arts,
        _ => { return Err(MigrateError::BadTable); },
    };
    let arts2 = match add_vis_articles(arts) {
        Ok(a2) => a2,
        Err(e) => { return Err(e); },
    };
    m.insert(di, (dk, Json::Obj(arts2)));
    proof {
        lemma_members_view(m, 0);
        assert(members_view(m, 0) =~= obj_set(ms2, "data"@, JsonV::Obj(members_view(arts2, 0))));
    }
    Ok(Json::Obj(m))
}

/// The whole migration pipeline, on values in memory.  A document it refuses
/// must stop the bootstrap: reading on would lose data.
pub fn migrate(doc: Json) -> (r: Result<Json, MigrateError>)
    ensures
        match r {
            Ok(out) => sp_migrate(doc@) == Some(out@),
            Err(e) => sp_migrate(doc@) is None,
        },
{
    let v1 = match tag_version(doc) {
        Ok(v1) => v1,
        Err(e) => { return Err(e); },
    };
    add_visibility(v1)
}

} // verus!

verus! {

use crate::json::key_index_from;

/// Running the migration on its own output changes nothing.
pub proof fn lemma_migrate_idempotent(v: JsonV)
    ensures
        match sp_migrate(v) {
            Some(w) => sp_migrate(w) == Some(w),
            None => true,
        },
{
    reveal_strlit("version");
    reveal_strlit("data");
    assert("version"@.len() == 7 && "data"@.len() == 4);
    if sp_migrate(v) is Some {
        let ms = v->Obj_0;
        let v1 = sp_tag_version(v)->Some_0;
        let ms1 = v1->Obj_0;
        assert(obj_has(ms1, "version"@)) by {
            if !obj_has(ms, "version"@) {
                lemma_obj_set_get(ms, "version"@, JsonV::Int(1));
            }
        };
        let tag = obj_get(ms1, "version"@)->Some_0;
        let ver = sp_version_of(tag)->Some_0;
        if ver >= 2 {
            let w = v1;
            assert(sp_tag_version(w) == Some(w));
            assert(sp_add_visibility(w) == Some(w));
        } else {
            let ms2 = obj_set(ms1, "version"@, JsonV::Int(2));
            let arts = obj_get(ms1, "data"@)->Some_0->Obj_0;
            let arts2 = sp_add_vis_articles(arts)->Some_0;
            let wms = obj_set(ms2, "data"@, JsonV::Obj(arts2));
            let w = JsonV::Obj(wms);
            assert(sp_migrate(v) == Some(w));
            lemma_obj_set_get(ms1, "version"@, JsonV::Int(2));
            lemma_obj_set_get(ms2, "data"@, JsonV::Obj(arts2));
            assert(obj_get(wms, "version"@) == Some(JsonV::Int(2)));
            assert(sp_tag_version(w) == Some(w));
            assert(sp_version_of(JsonV::Int(2)) == Some(2u32));
            assert(sp_add_visibility(w) == Some(w));
        }
    }
}

/// What the record walk does, member by member: keys stay, records keep what
/// they had, and only a missing visibility is filled in.
pub proof fn lemma_add_vis_articles_index(arts: Seq<(Seq<char>, JsonV)>)
    ensures
        match sp_add_vis_articles(arts) {
            Some(arts2) => {
                &&& arts2.len() == arts.len()
                &&& forall|k: int| 0 <= k < arts.len() ==> {
                    &&& (#[trigger] arts2[k]).0 == arts[k].0
                    &&& arts[k].1 is Obj
                    &&& arts2[k].1 == JsonV::Obj(
                        if obj_has(arts[k].1->Obj_0, "visibility"@) {
                            arts[k].1->Obj_0
                        } else {
                            obj_set(arts[k].1->Obj_0, "visibility"@, JsonV::Str("public"@))
                        })
                }
            },
            None => true,
        },
    decreases arts.len(),
{
    if arts.len() > 0 {
        lemma_add_vis_articles_index(arts.drop_first());
        match sp_add_vis_articles(arts) {
            Some(arts2) => {
                let rest = sp_add_vis_articles(arts.drop_first())->Some_0;
                assert forall|k: int| 0 <= k < arts.len() implies {
                    &&& (#[trigger] arts2[k]).0 == arts[k].0
                    &&& arts[k].1 is Obj
                    &&& arts2[k].1 == JsonV::Obj(
                        if obj_has(arts[k].1->Obj_0, "visibility"@) {
                            arts[k].1->Obj_0
                        } else {
                            obj_set(arts[k].1->Obj_0, "visibility"@, JsonV::Str("public"@))
                        })
                } by {
                    if k > 0 {
                        assert(arts2[k] == rest[k - 1]);
                        assert(arts.drop_first()[k - 1] == arts[k]);
                    }
                };
            },
            None => {},
        }
    }
}

/// Two member lists with the same keys in the same places search alike.
proof fn lemma_key_index_pointwise(
    a: Seq<(Seq<char>, JsonV)>,
    b: Seq<(Seq<char>, JsonV)>,
    key: Seq<char>,
    i: int,
)
    requires
        a.len() == b.len(),
        forall|k: int| 0 <= k < a.len() ==> (#[trigger] a[k]).0 == b[k].0,
        0 <= i <= a.len(),
    ensures
        key_index_from(a, key, i) == key_index_from(b, key, i),
    decreases a.len() - i,
{
    if i < a.len() && a[i].0 != key {
        lemma_key_index_pointwise(a, b, key, i + 1);
    }
}

/// The migration never overwrites an explicit visibility: a record that
/// carries one keeps exactly that value.
pub proof fn lemma_migrate_preserves_visibility(v: JsonV, id: Seq<char>, x: JsonV)
    requires
        sp_migrate(v) is Some,
        v is Obj,
        match obj_get(v->Obj_0, "data"@) {
            Some(JsonV::Obj(arts)) => match obj_get(arts, id) {
                Some(JsonV::Obj(fs)) => obj_get(fs, "visibility"@) == Some(x),
                _ => false,
            },
            _ => false,
        },
    ensures
        match sp_migrate(v) {
            Some(w) => w is Obj && match obj_get(w->Obj_0, "data"@) {
                Some(JsonV::Obj(arts2)) => match obj_get(arts2, id) {
                    Some(JsonV::Obj(fs2)) => obj_get(fs2, "visibility"@) == Some(x),
                    _ => false,
                },
                _ => false,
            },
            None => false,
        },
{
    reveal_strlit("version");
    reveal_strlit("data");
    reveal_strlit("visibility");
    assert("version"@.len() == 7 && "data"@.len() == 4 && "visibility"@.len() == 10);
    let ms = v->Obj_0;
    let v1 = sp_tag_version(v)->Some_0;
    let ms1 = v1->Obj_0;
    assert(obj_get(ms1, "data"@) == obj_get(ms, "data"@)) by {
        if !obj_has(ms, "version"@) {
            lemma_obj_set_get(ms, "version"@, JsonV::Int(1));
        }
    };
    let tag = obj_get(ms1, "version"@)->Some_0;
    let ver = sp_version_of(tag)->Some_0;
    let arts = obj_get(ms, "data"@)->Some_0->Obj_0;
    if ver >= 2 {
        assert(sp_migrate(v) == Some(v1));
    } else {
        let ms2 = obj_set(ms1, "version"@, JsonV::Int(2));
        let arts2 = sp_add_vis_articles(arts)->Some_0;
        let wms = obj_set(ms2, "data"@, JsonV::Obj(arts2));
        lemma_obj_set_get(ms1, "version"@, JsonV::Int(2));
        lemma_obj_set_get(ms2, "data"@, JsonV::Obj(arts2));
        assert(obj_get(wms, "data"@) == Some(JsonV::Obj(arts2)));
        lemma_add_vis_articles_index(arts);
        crate::json::lemma_key_index_from(arts, id, 0);
        crate::json::lemma_key_index_from(arts2, id, 0);
        lemma_key_index_pointwise(arts, arts2, id, 0);
        let ki = key_index(arts, id);
        assert(obj_get(arts, id) == Some(arts[ki].1));
        assert(obj_get(arts2, id) == Some(arts2[ki].1));
        let fs = arts[ki].1->Obj_0;
        assert(obj_has(fs, "visibility"@));
        assert(arts2[ki].1 == JsonV::Obj(fs));
    }
}

/// Migrating a document of the earliest formats (no version tag, or one below
/// two) gives every record that has no visibility the default `public`.
pub proof fn lemma_migrate_visibility_default(v: JsonV, id: Seq<char>)
    requires
        sp_migrate(v) is Some,
        v is Obj,
        match obj_get(v->Obj_0, "version"@) {
            None => true,
            Some(tag) => match sp_version_of(tag) {
                Some(n) => n < 2,
                None => false,
            },
        },
        match obj_get(v->Obj_0, "data"@) {
            Some(JsonV::Obj(arts)) => match obj_get(arts, id) {
                Some(JsonV::Obj(fs)) => obj_get(fs, "visibility"@) is None,
                _ => false,
            },
            _ => false,
        },
    ensures
        match sp_migrate(v) {
            Some(w) => w is Obj && match obj_get(w->Obj_0, "data"@) {
                Some(JsonV::Obj(arts2)) => match obj_get(arts2, id) {
                    Some(JsonV::Obj(fs2)) => obj_get(fs2, "visibility"@)
                        == Some(JsonV::Str("public"@)),
                    _ => false,
                },
                _ => false,
            },
            None => false,
        },
{
    reveal_strlit("version");
    reveal_strlit("data");
    reveal_strlit("visibility");
    assert("version"@.len() == 7 && "data"@.len() == 4 && "visibility"@.len() == 10);
    let ms = v->Obj_0;
    let v1 = sp_tag_version(v)->Some_0;
    let ms1 = v1->Obj_0;
    assert(obj_get(ms1, "data"@) == obj_get(ms, "data"@)) by {
        if !obj_has(ms, "version"@) {
            lemma_obj_set_get(ms, "version"@, JsonV::Int(1));
        }
    };
    let tag = obj_get(ms1, "version"@)->Some_0;
    let ver = sp_version_of(tag)->Some_0;
    assert(ver < 2) by {
        if !obj_has(ms, "version"@) {
            lemma_obj_set_get(ms, "version"@, JsonV::Int(1));
            assert(tag == JsonV::Int(1));
        }
    };
    let arts = obj_get(ms, "data"@)->Some_0->Obj_0;
    let ms2 = obj_set(ms1, "version"@, JsonV::Int(2));
    let arts2 = sp_add_vis_articles(arts)->Some_0;
    let wms = obj_set(ms2, "data"@, JsonV::Obj(arts2));
    lemma_obj_set_get(ms1, "version"@, JsonV::Int(2));
    lemma_obj_set_get(ms2, "data"@, JsonV::Obj(arts2));
    assert(obj_get(wms, "data"@) == Some(JsonV::Obj(arts2)));
    lemma_add_vis_articles_index(arts);
    crate::json::lemma_key_index_from(arts, id, 0);
    crate::json::lemma_key_index_from(arts2, id, 0);
    lemma_key_index_pointwise(arts, arts2, id, 0);
    let ki = key_index(arts, id);
    assert(obj_get(arts, id) == Some(arts[ki].1));
    assert(obj_get(arts2, id) == Some(arts2[ki].1));
    let fs = arts[ki].1->Obj_0;
    assert(!obj_has(fs, "visibility"@));
    assert(arts2[ki].1 == JsonV::Obj(obj_set(fs, "visibility"@, JsonV::Str("public"@))));
    lemma_obj_set_get(fs, "visibility"@, JsonV::Str("public"@));
}

} // verus!
