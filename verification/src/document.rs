//! The document: the full keyed table of articles with its schema version,
//! the unit the store reads and writes as one blob, together with its codec.

use vstd::prelude::*;
use crate::json::{Json, JsonV, members_view, lemma_members_view, obj_get, j_parse_value};
use crate::json::{parse_value, members_get, pr_value};
use crate::model::{Article, ArticleV, ArticleId, Visibility};
use crate::timestamp::{Timestamp, sp_parse_timestamp, parse_timestamp};
use crate::chars::{str_to_chars, string_to_chars, chars_to_string, chars_eq_str, chars_eq};

verus! {

/// The schema version this release writes.
pub const CURRENT_SCHEMA_VERSION: u32 = 2;

/// Why a blob failed to decode.
#[derive(Copy, Clone, Debug, PartialEq, Eq, Structural)]
pub enum DecodeError {
    /// The text is not a value of the document format.
    Syntax,
    /// The text is such a value, but not a document of the current schema.
    Structure,
}

/// The table of articles with its schema version.
#[derive(Debug, PartialEq, Eq)]
pub struct Document {
    pub version: u32,
    /// The articles, keyed by id; keys are unique, order carries no meaning.
    pub entries: Vec<(ArticleId, Article)>,
}

/// The mathematical value of a [`Document`].
pub struct DocumentV {
    pub version: u32,
    pub entries: Seq<(Seq<char>, ArticleV)>,
}

impl View for Document {
    type V = DocumentV;

    open spec fn view(&self) -> DocumentV {
        DocumentV {
            version: self.version,
            entries: Seq::new(self.entries@.len(), |i: int|
                (self.entries@[i].0@, self.entries@[i].1@)),
        }
    }
}

/// First index at or after `i` keyed by `id`; the length when none is.
pub open spec fn entry_index_from(es: Seq<(Seq<char>, ArticleV)>, id: Seq<char>, i: int) -> int
    decreases es.len() - i when 0 <= i <= es.len()
{
    if i >= es.len() {
        es.len() as int
    } else if es[i].0 == id {
        i
    } else {
        entry_index_from(es, id, i + 1)
    }
}

pub open spec fn entry_index(es: Seq<(Seq<char>, ArticleV)>, id: Seq<char>) -> int {
    entry_index_from(es, id, 0)
}

/// What `entry_index_from` finds: in range, a hit, and nothing earlier.
pub proof fn lemma_entry_index_from(es: Seq<(Seq<char>, ArticleV)>, id: Seq<char>, i: int)
    requires
        0 <= i <= es.len(),
    ensures
        i <= entry_index_from(es, id, i) <= es.len(),
        entry_index_from(es, id, i) < es.len() ==> es[entry_index_from(es, id, i)].0 == id,
        forall|k: int| i <= k < entry_index_from(es, id, i) ==> (#[trigger] es[k]).0 != id,
    decreases es.len() - i,
{
    if i < es.len() && es[i].0 != id {
        lemma_entry_index_from(es, id, i + 1);
    }
}

impl DocumentV {
    /// Unique keys, well-formed articles, and a version the codec can write.
    pub open spec fn wf(self) -> bool {
        &&& self.version < 1_000_000_000
        &&& forall|i: int, j: int| 0 <= i < j < self.entries.len()
            ==> (#[trigger] self.entries[i]).0 != (#[trigger] self.entries[j]).0
        &&& forall|i: int| 0 <= i < self.entries.len() ==> (#[trigger] self.entries[i]).1.wf()
    }

    /// The article under `id`, when the table has one.
    pub open spec fn get(self, id: Seq<char>) -> Option<ArticleV> {
        if entry_index(self.entries, id) < self.entries.len() {
            Some(self.entries[entry_index(self.entries, id)].1)
        } else {
            None
        }
    }

    pub open spec fn has(self, id: Seq<char>) -> bool {
        self.get(id) is Some
    }
}

impl Document {
    pub open spec fn wf(self) -> bool {
        self@.wf()
    }

    /// The empty table, as the bootstrap writes it before the first article.
    pub fn empty() -> (r: Document)
        ensures
            r@.version == CURRENT_SCHEMA_VERSION,
            r@.entries.len() == 0,
            r.wf(),
    {
        let r = Document { version: CURRENT_SCHEMA_VERSION, entries: Vec::new() };
        proof {
            assert(r@.entries =~= Seq::<(Seq<char>, ArticleV)>::empty());
        }
        r
    }
}

/// The value the codec writes for one article.
pub open spec fn article_json(a: ArticleV) -> JsonV {
    JsonV::Obj(seq![
        ("created_at"@, JsonV::Str(a.created_at.render())),
        ("updated_at"@, JsonV::Str(a.updated_at.render())),
        ("content"@, JsonV::Str(a.content)),
        ("visibility"@, JsonV::Str(a.visibility.spec_name())),
    ])
}

/// The members of the `data` object: one per article, in table order.
pub open spec fn entries_json(es: Seq<(Seq<char>, ArticleV)>) -> Seq<(Seq<char>, JsonV)> {
    Seq::new(es.len(), |i: int| (es[i].0, article_json(es[i].1)))
}

/// The value the codec writes for a whole document.
pub open spec fn doc_json(d: DocumentV) -> JsonV {
    JsonV::Obj(seq![
        ("version"@, JsonV::Int(d.version)),
        ("data"@, JsonV::Obj(entries_json(d.entries))),
    ])
}

/// The text the codec writes for a whole document.
pub open spec fn encode_doc(d: DocumentV) -> Seq<char> {
    pr_value(doc_json(d))
}

/// The visibility a stored name denotes.
pub open spec fn sp_visibility(n: Seq<char>) -> Option<Visibility> {
    if n == "public"@ {
        Some(Visibility::Public)
    } else if n == "restricted"@ {
        Some(Visibility::Restricted)
    } else if n == "private"@ {
        Some(Visibility::Private)
    } else {
        None
    }
}

/// The article a value denotes: an object with both timestamps, the content
/// and the visibility, the update no earlier than the creation.  Members
/// beyond those four are allowed and ignored.
pub open spec fn sp_article(v: JsonV) -> Option<ArticleV> {
    match v {
        JsonV::Obj(fs) => {
            match (obj_get(fs, "created_at"@), obj_get(fs, "updated_at"@),
                obj_get(fs, "content"@), obj_get(fs, "visibility"@)) {
                (Some(JsonV::Str(tc)), Some(JsonV::Str(tu)), Some(JsonV::Str(cc)),
                    Some(JsonV::Str(vn))) => {
                    match (sp_parse_timestamp(tc), sp_parse_timestamp(tu), sp_visibility(vn)) {
                        (Some(created), Some(updated), Some(vis)) => {
                            if created.le(updated) {
                                Some(ArticleV {
                                    created_at: created,
                                    updated_at: updated,
                                    content: cc,
                                    visibility: vis,
                                })
                            } else {
                                None
                            }
                        },
                        _ => None,
                    }
                },
                _ => None,
            }
        },
        _ => None,
    }
}

/// The table the members of a `data` object denote, from index `i` on;
/// `None` at a bad article or at a key written twice.
pub open spec fn sp_entries_from(ms: Seq<(Seq<char>, JsonV)>, i: int)
    -> Option<Seq<(Seq<char>, ArticleV)>>
    decreases ms.len() - i when 0 <= i <= ms.len()
{
    if i >= ms.len() {
        Some(Seq::empty())
    } else {
        match sp_article(ms[i].1) {
            None => None,
            Some(a) => {
                if exists|k: int| i < k < ms.len() && (#[trigger] ms[k]).0 == ms[i].0 {
                    None
                } else {
                    match sp_entries_from(ms, i + 1) {
                        None => None,
                        Some(rest) => Some(seq![(ms[i].0, a)] + rest),
                    }
                }
            },
        }
    }
}

/// The document a value denotes: an object whose `version` is a number and
/// whose `data` holds the table.
pub open spec fn sp_doc_of_json(v: JsonV) -> Option<DocumentV> {
    match v {
        JsonV::Obj(ms) => {
            match (obj_get(ms, "version"@), obj_get(ms, "data"@)) {
                (Some(JsonV::Int(n)), Some(JsonV::Obj(ds))) => {
                    if n >= 1_000_000_000 {
                        None
                    } else {
                        match sp_entries_from(ds, 0) {
                            None => None,
                            Some(es) => Some(DocumentV { version: n, entries: es }),
                        }
                    }
                },
                _ => None,
            }
        },
        _ => None,
    }
}

/// The document a text denotes: one value denoting a document, with nothing
/// but blank space around it.
pub open spec fn sp_decode(s: Seq<char>) -> Option<DocumentV> {
    let b = crate::json::ws_run(s, 0);
    match j_parse_value(s, b) {
        Some((v, n)) => if n + crate::json::ws_run(s, n) == s.len() {
            sp_doc_of_json(v)
        } else {
            None
        },
        None => None,
    }
}

} // verus!

verus! {

/// The value the codec writes for one article, built in memory.
pub fn article_to_json(a: &Article) -> (r: Json)
    requires
        a@.wf(),
    ensures
        r@ == article_json(a@),
{
    let mut fields: Vec<(Vec<char>, Json)> = Vec::new();
    let mut created: Vec<char> = Vec::new();
    a.created_at.render_onto(&mut created);
    let mut updated: Vec<char> = Vec::new();
    a.updated_at.render_onto(&mut updated);
    fields.push((str_to_chars("created_at"), Json::Str(created)));
    fields.push((str_to_chars("updated_at"), Json::Str(updated)));
    fields.push((str_to_chars("content"), Json::Str(string_to_chars(&a.content))));
    fields.push((str_to_chars("visibility"), Json::Str(str_to_chars(a.visibility.name()))));
    let r = Json::Obj(fields);
    proof {
        lemma_members_view(fields, 0);
        assert(members_view(fields, 0) =~= article_json(a@)->Obj_0);
    }
    r
}

impl Document {
    /// The value the codec writes for this document, built in memory.
    pub fn to_json(&self) -> (r: Json)
        requires
            self.wf(),
        ensures
            r@ == doc_json(self@),
    {
        let mut data: Vec<(Vec<char>, Json)> = Vec::new();
        let n = self.entries.len();
        let mut i: usize = 0;
        while i < n
            invariant
                n == self.entries@.len(),
                i <= n,
                self.wf(),
                members_view(data, 0) =~= entries_json(self@.entries).subrange(0, i as int),
            decreases n - i,
        {
            proof {
                lemma_members_view(data, 0);
                assert(self@.entries[i as int] == (self.entries@[i as int].0@, self.entries@[i as int].1@));
                assert(self@.entries[i as int].1.wf());
            }
            let id_chars = string_to_chars(&self.entries[i].0.0);
            let aj = article_to_json(&self.entries[i].1);
            data.push((id_chars, aj));
            proof {
                lemma_members_view(data, 0);
                assert(members_view(data, 0) =~= entries_json(self@.entries).subrange(0, i + 1));
            }
            i = i + 1;
        }
        proof {
            assert(entries_json(self@.entries).subrange(0, n as int) =~= entries_json(self@.entries));
        }
        let mut top: Vec<(Vec<char>, Json)> = Vec::new();
        top.push((str_to_chars("version"), Json::Int(self.version)));
        top.push((str_to_chars("data"), Json::Obj(data)));
        let r = Json::Obj(top);
        proof {
            lemma_members_view(top, 0);
            assert(members_view(top, 0) =~= doc_json(self@)->Obj_0);
        }
        r
    }

    /// The text the store persists: the whole table as one blob.
    pub fn encode(&self) -> (r: Vec<char>)
        requires
            self.wf(),
        ensures
            r@ == encode_doc(self@),
    {
        let j = self.to_json();
        let mut out: Vec<char> = Vec::new();
        j.render_onto(&mut out);
        out
    }
}

/// Reads one article out of a decoded value.
pub fn article_from_json(j: &Json) -> (r: Result<Article, DecodeError>)
    ensures
        match r {
            Ok(a) => sp_article(j@) == Some(a@) && a@.wf(),
            Err(e) => sp_article(j@) is None && e == DecodeError::Structure,
        },
{
    let fields = match j {
        Json::Obj(fields) => fields,
        _ => { return Err(DecodeError::Structure); },
    };
    let created = match members_get(fields, "created_at") {
        Some(Json::Str(tc)) => {
            match parse_timestamp(tc.as_slice()) {
                Some(t) => t,
                None => { return Err(DecodeError::Structure); },
            }
        },
        _ => { return Err(DecodeError::Structure); },
    };
    let updated = match members_get(fields, "updated_at") {
        Some(Json::Str(tu)) => {
            match parse_timestamp(tu.as_slice()) {
                Some(t) => t,
                None => { return Err(DecodeError::Structure); },
            }
        },
        _ => { return Err(DecodeError::Structure); },
    };
    let content = match members_get(fields, "content") {
        Some(Json::Str(cc)) => chars_to_string(cc),
        _ => { return Err(DecodeError::Structure); },
    };
    let visibility = match members_get(fields, "visibility") {
        Some(Json::Str(vn)) => {
            if chars_eq_str(vn, "public") { Visibility::Public }
            else if chars_eq_str(vn, "restricted") { Visibility::Restricted }
            else if chars_eq_str(vn, "private") { Visibility::Private }
            else { return Err(DecodeError::Structure); }
        },
        _ => { return Err(DecodeError::Structure); },
    };
    proof {
        crate::timestamp::lemma_sp_parse_timestamp_wf(
            match obj_get(j@->Obj_0, "created_at"@) { Some(JsonV::Str(tc)) => tc, _ => Seq::empty() });
        crate::timestamp::lemma_sp_parse_timestamp_wf(
            match obj_get(j@->Obj_0, "updated_at"@) { Some(JsonV::Str(tu)) => tu, _ => Seq::empty() });
    }
    if !created.le_exec(&updated) {
        return Err(DecodeError::Structure);
    }
    Ok(Article { created_at: created, updated_at: updated, content, visibility })
}

} // verus!

verus! {

impl Document {
    /// Reads a document out of a decoded value.
    #[verifier::rlimit(100)]
    pub fn from_json(j: &Json) -> (r: Result<Document, DecodeError>)
        ensures
            match r {
                Ok(d) => sp_doc_of_json(j@) == Some(d@) && d.wf(),
                Err(e) => sp_doc_of_json(j@) is None && e == DecodeError::Structure,
            },
    {
        let top = match j {
            Json::Obj(top) => top,
            _ => { return Err(DecodeError::Structure); },
        };
        proof {
            assert(j@ == JsonV::Obj(members_view(*top, 0)));
        }
        let version = match members_get(top, "version") {
            Some(Json::Int(n)) => *n,
            _ => { return Err(DecodeError::Structure); },
        };
        let data = match members_get(top, "data") {
            Some(Json::Obj(data)) => data,
            _ => { return Err(DecodeError::Structure); },
        };
        if version >= 1_000_000_000 {
            // the codec cannot write such a version back
            return Err(DecodeError::Structure);
        }
        let ghost ds = members_view(*data, 0);
        proof {
            lemma_members_view(*data, 0);
        }
        let n = data.len();
        let mut entries: Vec<(ArticleId, Article)> = Vec::new();
        let mut i: usize = 0;
        while i < n
            invariant
                n == data@.len(),
                i <= n,
                ds == members_view(*data, 0),
                ds.len() == n,
                entries@.len() == i,
                sp_entries_from(ds, 0) is None ==> sp_doc_of_json(j@) is None,
                forall|k: int| 0 <= k < i
                    ==> (#[trigger] entries@[k]).0@ == ds[k].0
                        && sp_article(ds[k].1) == Some(entries@[k].1@)
                        && entries@[k].1@.wf(),
                match sp_entries_from(ds, i as int) {
                    Some(rest) => sp_entries_from(ds, 0) == Some(
                        Seq::new(entries@.len(), |k: int|
                            (entries@[k].0@, entries@[k].1@)) + rest),
                    None => sp_entries_from(ds, 0) is None,
                },
            decreases n - i,
        {
            proof {
                lemma_members_view(*data, 0);
            }
            let a = match article_from_json(&data[i].1) {
                Ok(a) => a,
                Err(e) => {
                    proof {
                        assert(ds[i as int].1 == data@[i as int].1@);
                        assert(sp_entries_from(ds, i as int) is None);
                    }
                    return Err(e);
                },
            };
            proof {
                assert(ds[i as int].1 == data@[i as int].1@);
                assert(sp_article(ds[i as int].1) == Some(a@));
            }
            // a key written twice makes the table ambiguous: refuse it
            let mut k: usize = i + 1;
            let mut duplicate = false;
            while k < n
                invariant
                    i < k <= n,
                    n == data@.len(),
                    ds == members_view(*data, 0),
                    ds.len() == n,
                    !duplicate ==> forall|t: int| i < t < k
                        ==> (#[trigger] ds[t]).0 != ds[i as int].0,
                    duplicate ==> exists|t: int| i < t < ds.len()
                        && (#[trigger] ds[t]).0 == ds[i as int].0,
                decreases n - k,
            {
                proof {
                    lemma_members_view(*data, 0);
                }
                if chars_eq(data[k].0.as_slice(), data[i].0.as_slice()) {
                    proof {
                        assert(ds[k as int].0 == ds[i as int].0);
                    }
                    duplicate = true;
                    k = n;
                } else {
                    k = k + 1;
                }
            }
            if duplicate {
                proof {
                    assert(sp_entries_from(ds, i as int) is None);
                }
                return Err(DecodeError::Structure);
            }
            let ghost old_entries = entries@;
            let id = ArticleId(chars_to_string(&data[i].0));
            entries.push((id, a));
            proof {
                assert(!(exists|t: int| i < t < ds.len() && (#[trigger] ds[t]).0 == ds[i as int].0));
                match sp_entries_from(ds, i + 1) {
                    Some(rest) => {
                        assert(sp_entries_from(ds, i as int)
                            == Some(seq![(ds[i as int].0, a@)] + rest));
                        assert(Seq::new(old_entries.len(), |t: int|
                                (old_entries[t].0@, old_entries[t].1@))
                                + (seq![(ds[i as int].0, a@)] + rest)
                            =~= Seq::new(entries@.len(), |t: int|
                                (entries@[t].0@, entries@[t].1@)) + rest);
                    },
                    None => {
                        assert(sp_entries_from(ds, i as int) is None);
                    },
                }
            }
            i = i + 1;
        }
        let d = Document { version, entries };
        proof {
            assert(sp_entries_from(ds, n as int) == Some(Seq::<(Seq<char>, ArticleV)>::empty()));
            assert(d@.entries =~= Seq::new(d.entries@.len(), |k: int|
                (d.entries@[k].0@, d.entries@[k].1@)) + Seq::<(Seq<char>, ArticleV)>::empty());
            assert(sp_doc_of_json(j@) == Some(d@));
            assert forall|x: int, y: int| 0 <= x < y < d@.entries.len()
                implies (#[trigger] d@.entries[x]).0 != (#[trigger] d@.entries[y]).0 by {
                lemma_entries_unique(ds, 0);
                assert(sp_entries_from(ds, 0) == Some(d@.entries));
            };
        }
        Ok(d)
    }

    /// Reads a document out of a text blob.
    pub fn decode(text: &Vec<char>) -> (r: Result<Document, DecodeError>)
        ensures
            match r {
                Ok(d) => sp_decode(text@) == Some(d@) && d.wf(),
                Err(DecodeError::Syntax) => sp_decode(text@) is None
                    && match j_parse_value(text@, crate::json::ws_run(text@, 0)) {
                        Some((v, m)) => m + crate::json::ws_run(text@, m) != text@.len(),
                        None => true,
                    },
                Err(DecodeError::Structure) => sp_decode(text@) is None
                    && match j_parse_value(text@, crate::json::ws_run(text@, 0)) {
                        Some((v, m)) => m + crate::json::ws_run(text@, m) == text@.len()
                            && sp_doc_of_json(v) is None,
                        None => false,
                    },
            },
    {
        let b = crate::json::skip_ws(text.as_slice(), 0);
        match parse_value(text.as_slice(), b) {
            None => Err(DecodeError::Syntax),
            Some((j, m)) => {
                if crate::json::skip_ws(text.as_slice(), m) != text.len() {
                    return Err(DecodeError::Syntax);
                }
                Document::from_json(&j)
            },
        }
    }
}

/// A table the extraction accepts has pairwise distinct keys.
#[verifier::rlimit(60)]
proof fn lemma_entries_unique(ms: Seq<(Seq<char>, JsonV)>, i: int)
    requires
        0 <= i <= ms.len(),
    ensures
        match sp_entries_from(ms, i) {
            Some(es) => {
                &&& es.len() == ms.len() - i
                &&& forall|x: int| 0 <= x < es.len() ==> (#[trigger] es[x]).0 == ms[i + x].0
                &&& forall|x: int, y: int| 0 <= x < y < es.len()
                    ==> (#[trigger] es[x]).0 != (#[trigger] es[y]).0
            },
            None => true,
        },
    decreases ms.len() - i,
{
    if i < ms.len() {
        lemma_entries_unique(ms, i + 1);
        match sp_entries_from(ms, i) {
            Some(es) => {
                let rest = sp_entries_from(ms, i + 1)->Some_0;
                assert(es == seq![(ms[i].0, sp_article(ms[i].1)->Some_0)] + rest);
                assert forall|x: int, y: int| 0 <= x < y < es.len()
                    implies (#[trigger] es[x]).0 != (#[trigger] es[y]).0 by {
                    if x == 0 {
                        assert(es[y].0 == rest[y - 1].0);
                        assert(rest[y - 1].0 == ms[i + y].0);
                        assert(!(exists|k: int| i < k < ms.len()
                            && (#[trigger] ms[k]).0 == ms[i].0));
                        assert(ms[i + y].0 != ms[i].0);
                    } else {
                        assert(es[x].0 == rest[x - 1].0);
                        assert(es[y].0 == rest[y - 1].0);
                    }
                };
            },
            None => {},
        }
    }
}

} // verus!

verus! {

use crate::json::{lemma_rt_value, key_index_from};

/// The value written for a well-formed document is well formed for the
/// format: every number in it is small enough to print and read back.
proof fn lemma_doc_json_wf(d: DocumentV)
    requires
        d.wf(),
    ensures
        doc_json(d).wf(),
{
    let ej = entries_json(d.entries);
    assert forall|i: int| 0 <= i < ej.len() implies (#[trigger] ej[i]).1.wf() by {
        let fs = article_json(d.entries[i].1)->Obj_0;
        assert(forall|k: int| 0 <= k < fs.len() ==> (#[trigger] fs[k]).1.wf());
    };
    let tm = doc_json(d)->Obj_0;
    assert(tm[0].1.wf());
    assert(tm[1].1.wf());
    assert(forall|k: int| 0 <= k < tm.len() ==> (#[trigger] tm[k]).1.wf());
}

/// Reading back the value written for one well-formed article gives the
/// article.
proof fn lemma_sp_article_roundtrip(a: ArticleV)
    requires
        a.wf(),
    ensures
        sp_article(article_json(a)) == Some(a),
{
    reveal_strlit("created_at");
    reveal_strlit("updated_at");
    reveal_strlit("content");
    reveal_strlit("visibility");
    reveal_strlit("public");
    reveal_strlit("restricted");
    reveal_strlit("private");
    let fs = article_json(a)->Obj_0;
    assert("created_at"@.len() == 10 && "updated_at"@.len() == 10 && "content"@.len() == 7
        && "visibility"@.len() == 10);
    assert("created_at"@[0] == 'c' && "updated_at"@[0] == 'u' && "visibility"@[0] == 'v');
    assert(key_index_from(fs, "created_at"@, 0) == 0);
    assert(key_index_from(fs, "updated_at"@, 0) == 1) by {
        assert(fs[0].0 != "updated_at"@);
        assert(key_index_from(fs, "updated_at"@, 1) == 1);
    };
    assert(key_index_from(fs, "content"@, 0) == 2) by {
        assert(fs[0].0 != "content"@ && fs[1].0 != "content"@);
        assert(key_index_from(fs, "content"@, 2) == 2);
        assert(key_index_from(fs, "content"@, 1) == 2);
    };
    assert(key_index_from(fs, "visibility"@, 0) == 3) by {
        assert(fs[0].0 != "visibility"@ && fs[1].0 != "visibility"@ && fs[2].0 != "visibility"@);
        assert(key_index_from(fs, "visibility"@, 3) == 3);
        assert(key_index_from(fs, "visibility"@, 2) == 3);
        assert(key_index_from(fs, "visibility"@, 1) == 3);
    };
    crate::timestamp::lemma_timestamp_roundtrip(a.created_at);
    crate::timestamp::lemma_timestamp_roundtrip(a.updated_at);
    assert(sp_visibility(a.visibility.spec_name()) == Some(a.visibility)) by {
        match a.visibility {
            Visibility::Public => {},
            Visibility::Restricted => {
                assert("restricted"@.len() == 10 && "public"@.len() == 6);
                assert("restricted"@ != "public"@);
            },
            Visibility::Private => {
                assert("private"@.len() == 7 && "public"@.len() == 6);
                assert("private"@[0] == 'p' && "restricted"@[0] == 'r');
                assert("private"@ != "public"@ && "private"@ != "restricted"@);
            },
        }
    };
}

/// Reading back the values written for a well-formed table gives the table.
proof fn lemma_sp_entries_roundtrip(es: Seq<(Seq<char>, ArticleV)>, i: int)
    requires
        0 <= i <= es.len(),
        forall|k: int| 0 <= k < es.len() ==> (#[trigger] es[k]).1.wf(),
        forall|x: int, y: int| 0 <= x < y < es.len()
            ==> (#[trigger] es[x]).0 != (#[trigger] es[y]).0,
    ensures
        sp_entries_from(entries_json(es), i) == Some(es.subrange(i, es.len() as int)),
    decreases es.len() - i,
{
    let ej = entries_json(es);
    if i >= es.len() {
        assert(es.subrange(i, es.len() as int) =~= Seq::<(Seq<char>, ArticleV)>::empty());
    } else {
        lemma_sp_article_roundtrip(es[i].1);
        assert(ej[i].1 == article_json(es[i].1));
        assert(!(exists|k: int| i < k < ej.len() && (#[trigger] ej[k]).0 == ej[i].0)) by {
            assert forall|k: int| i < k < ej.len()
                implies (#[trigger] ej[k]).0 != ej[i].0 by {
                assert(ej[k].0 == es[k].0 && ej[i].0 == es[i].0);
            };
        };
        lemma_sp_entries_roundtrip(es, i + 1);
        assert(seq![(ej[i].0, es[i].1)] + es.subrange(i + 1, es.len() as int)
            =~= es.subrange(i, es.len() as int));
    }
}

/// Decoding an encoded document gives the document back: the codec loses
/// nothing on any well-formed table.
pub proof fn lemma_document_roundtrip(d: DocumentV)
    requires
        d.wf(),
    ensures
        sp_decode(encode_doc(d)) == Some(d),
{
    reveal_strlit("version");
    reveal_strlit("data");
    let s = encode_doc(d);
    let dj = doc_json(d);
    lemma_doc_json_wf(d);
    assert(s.subrange(0, s.len() as int) =~= pr_value(dj));
    assert(s[0] == '{') by {
        assert(s == pr_value(dj));
        assert(pr_value(dj)[0] == '{');
    };
    assert(crate::json::ws_run(s, 0) == 0);
    lemma_rt_value(s, 0, dj);
    assert(crate::json::ws_run(s, s.len() as int) == 0);
    let tm = dj->Obj_0;
    assert("version"@.len() == 7 && "data"@.len() == 4);
    assert(key_index_from(tm, "version"@, 0) == 0);
    assert(key_index_from(tm, "data"@, 0) == 1) by {
        assert(tm[0].0 != "data"@);
        assert(key_index_from(tm, "data"@, 1) == 1);
    };
    lemma_sp_entries_roundtrip(d.entries, 0);
    assert(d.entries.subrange(0, d.entries.len() as int) =~= d.entries);
    assert(sp_doc_of_json(dj) == Some(d));
}

} // verus!
