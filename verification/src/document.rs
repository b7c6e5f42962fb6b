//! The document root: the primary resources, the metadata sections, the
//! deduplicated included-set computation, and the final assembly and
//! encoding of the wire form.

use vstd::prelude::*;

verus! {

use crate::resource::JsonApiObject;
use crate::resource::project_list;
use crate::resource::typed_children;
use crate::resource::typed_rel_list;
use crate::resource::unique_children;
use crate::resource::unique_rel_list;
use crate::value::JVal;
use crate::value::json_text;
use crate::value::map_clone;
use crate::value::map_insert;
use crate::value::map_model;
use crate::value::map_new;
use crate::value::to_json_string;
use crate::value::val_model;
use crate::value::value_array;
use crate::value::value_object;
use crate::value::value_string;
use vstd::string::StringExecFns;

/// The text encoder failed on the assembled value tree.
#[derive(Clone, Copy, PartialEq, Eq, Structural, Debug)]
pub struct EncodeError;

/// The serialization root: the primary resources plus the metadata
/// sections.
pub struct JsonApiRoot {
    pub jsonapi: Option<serde_json::Map<String, serde_json::Value>>,
    pub links: Option<serde_json::Map<String, serde_json::Value>>,
    pub meta: Option<serde_json::Map<String, serde_json::Value>>,
    pub root_items: Option<Vec<JsonApiObject>>,
}

/// One sequence made of the given sequences, in order.
pub open spec fn concat_all(s: Seq<Seq<JsonApiObject>>) -> Seq<JsonApiObject>
    decreases s.len(),
{
    if s.len() == 0 {
        Seq::empty()
    } else {
        concat_all(s.subrange(0, s.len() - 1)) + s[s.len() - 1]
    }
}

/// The direct relationship targets of a resource, across all its
/// relationship names, in stored order.
pub open spec fn children_of(r: JsonApiObject) -> Seq<JsonApiObject> {
    concat_all(Seq::new(r.rels_model().len(), |i: int| r.rels_model()[i].1))
}

/// Some resource of the sequence is the same entity as `r`.
pub open spec fn has_entity(s: Seq<JsonApiObject>, r: JsonApiObject) -> bool {
    exists|i: int| 0 <= i < s.len() && #[trigger] s[i].same_entity(r)
}

/// First-seen deduplication by entity identity: a resource is kept
/// exactly when no earlier resource of the sequence is the same entity.
pub open spec fn dedup_first(s: Seq<JsonApiObject>) -> Seq<JsonApiObject>
    decreases s.len(),
{
    if s.len() == 0 {
        Seq::empty()
    } else {
        let prefix = s.subrange(0, s.len() - 1);
        if has_entity(prefix, s[s.len() - 1]) {
            dedup_first(prefix)
        } else {
            dedup_first(prefix).push(s[s.len() - 1])
        }
    }
}

/// The resources a sequence of references points at.
pub open spec fn refs_model(s: Seq<&JsonApiObject>) -> Seq<JsonApiObject> {
    Seq::new(s.len(), |i: int| *s[i])
}

impl JsonApiRoot {
    /// The primary resources, in insertion order.
    pub open spec fn roots(self) -> Seq<JsonApiObject> {
        match self.root_items {
            Some(v) => v@,
            None => Seq::empty(),
        }
    }

    /// Every resource reachable from the document carries a kind.
    pub open spec fn typed_doc(self) -> bool {
        typed_children(self.roots())
    }

    /// Relationship names are unique throughout every primary resource's
    /// tree.
    pub open spec fn unique_doc(self) -> bool {
        unique_children(self.roots())
    }

    /// The links section entries; empty when absent.
    pub open spec fn links_entries(self) -> Map<Seq<char>, JVal> {
        match self.links {
            Some(m) => map_model(m),
            None => Map::empty(),
        }
    }

    /// The meta section entries; empty when absent.
    pub open spec fn meta_entries(self) -> Map<Seq<char>, JVal> {
        match self.meta {
            Some(m) => map_model(m),
            None => Map::empty(),
        }
    }

    /// The jsonapi section entries; empty when absent.
    pub open spec fn jsonapi_entries(self) -> Map<Seq<char>, JVal> {
        match self.jsonapi {
            Some(m) => map_model(m),
            None => Map::empty(),
        }
    }

    /// Every direct relationship target of every primary resource, in
    /// walk order.
    pub open spec fn all_children(self) -> Seq<JsonApiObject> {
        concat_all(Seq::new(self.roots().len(), |i: int| children_of(self.roots()[i])))
    }

    /// The data section: one root item projects as a single object; zero
    /// or several project as an array, in order.
    pub open spec fn data_spec(self) -> JVal {
        if self.roots().len() == 1 {
            self.roots()[0].project_spec()
        } else {
            JVal::Arr(project_list(self.roots()))
        }
    }

    /// The included section: the projections of the deduplicated direct
    /// relationship targets, first seen first.
    pub open spec fn included_spec(self) -> JVal {
        JVal::Arr(project_list(dedup_first(self.all_children())))
    }

    /// The entries of the whole document.
    pub open spec fn doc_entries(self) -> Map<Seq<char>, JVal> {
        Map::empty().insert("data"@, self.data_spec()).insert("included"@, self.included_spec())
            .insert("links"@, JVal::Obj(self.links_entries()))
            .insert("meta"@, JVal::Obj(self.meta_entries()))
            .insert("jsonapi"@, JVal::Obj(self.jsonapi_entries()))
    }

    /// The whole document as a generic value.
    pub open spec fn doc_spec(self) -> JVal {
        JVal::Obj(self.doc_entries())
    }

    /// A fresh document: no root items, empty links and meta, and a
    /// jsonapi section carrying the format version.
    pub fn new() -> (r: JsonApiRoot)
        ensures
            r.root_items is None,
            r.jsonapi is Some,
            r.links is Some,
            r.meta is Some,
            r.roots() == Seq::<JsonApiObject>::empty(),
            r.links_entries() == Map::<Seq<char>, JVal>::empty(),
            r.meta_entries() == Map::<Seq<char>, JVal>::empty(),
            r.jsonapi_entries() == Map::<Seq<char>, JVal>::empty().insert(
                "version"@,
                JVal::Str("1.0"@),
            ),
    {
        let mut japi = map_new();
        map_insert(&mut japi, String::from_str("version"), value_string(String::from_str("1.0")));
        JsonApiRoot { jsonapi: Some(japi), links: Some(map_new()), meta: Some(map_new()), root_items: None }
    }

    /// Appends the resource to the primary payload. No identity check is
    /// made: the caller is responsible for not adding an entity twice.
    pub fn add_root_item(&mut self, json_api_object: JsonApiObject)
        ensures
            final(self).roots() == old(self).roots().push(json_api_object),
            final(self).root_items is Some,
            final(self).jsonapi == old(self).jsonapi,
            final(self).links == old(self).links,
            final(self).meta == old(self).meta,
    {
        let mut items: Vec<JsonApiObject> = match self.root_items.take() {
            Some(v) => v,
            None => Vec::new(),
        };
        proof {
            assert(old(self).roots() =~= items@);
        }
        items.push(json_api_object);
        self.root_items = Some(items);
    }

    /// The data section value.
    pub fn data(&self) -> (v: serde_json::Value)
        requires
            self.typed_doc(),
            self.unique_doc(),
        ensures
            val_model(v) == self.data_spec(),
    {
        match &self.root_items {
            Some(r_items) => {
                if r_items.len() == 1 {
                    proof {
                        assert(self.roots()[0].typed());
                        assert(self.roots()[0].rels_unique());
                    }
                    let m = r_items[0].to_map();
                    value_object(m)
                } else {
                    let mut arr: Vec<serde_json::Value> = Vec::new();
                    proof {
                        assert(Seq::new(arr@.len(), |t: int| val_model(arr@[t])) =~= project_list(
                            r_items@.subrange(0, 0),
                        ));
                    }
                    let n = r_items.len();
                    for i in 0..n
                        invariant
                            n == r_items@.len(),
                            self.typed_doc(),
                            self.unique_doc(),
                            self.root_items matches Some(rr) && rr@ == r_items@,
                            arr@.len() == i,
                            Seq::new(arr@.len(), |t: int| val_model(arr@[t])) == project_list(
                                r_items@.subrange(0, i as int),
                            ),
                    {
                        proof {
                            assert(self.roots()[i as int].typed());
                            assert(self.roots()[i as int].rels_unique());
                        }
                        let m = r_items[i].to_map();
                        arr.push(value_object(m));
                        proof {
                            let s = r_items@.subrange(0, i as int + 1);
                            assert(s.subrange(0, s.len() - 1) =~= r_items@.subrange(0, i as int));
                            assert(s[s.len() - 1] == r_items@[i as int]);
                            assert(project_list(s) == project_list(
                                r_items@.subrange(0, i as int),
                            ).push(r_items@[i as int].project_spec()));
                            assert(Seq::new(arr@.len(), |t: int| val_model(arr@[t])) =~= project_list(
                                s,
                            ));
                        }
                    }
                    proof {
                        assert(r_items@.subrange(0, n as int) =~= r_items@);
                    }
                    value_array(arr)
                }
            },
            None => {
                let arr: Vec<serde_json::Value> = Vec::new();
                proof {
                    assert(Seq::new(arr@.len(), |t: int| val_model(arr@[t])) =~= project_list(
                        self.roots(),
                    ));
                }
                value_array(arr)
            },
        }
    }

    /// Collects every direct relationship target of every root item and
    /// keeps one representative per entity, the first seen.
    pub fn build_unique_relationships(&self) -> (out: Vec<&JsonApiObject>)
        ensures
            refs_model(out@) == dedup_first(self.all_children()),
    {
        let mut all: Vec<&JsonApiObject> = Vec::new();
        match &self.root_items {
            None => {
                proof {
                    assert(refs_model(all@) =~= self.all_children());
                }
            },
            Some(items) => {
                let n = items.len();
                proof {
                    assert(refs_model(all@) =~= concat_all(
                        Seq::new(0, |t: int| children_of(items@[t])),
                    ));
                }
                for i in 0..n
                    invariant
                        n == items@.len(),
                        self.root_items matches Some(rr) && rr@ == items@,
                        refs_model(all@) == concat_all(
                            Seq::new(i as nat, |t: int| children_of(items@[t])),
                        ),
                {
                    collect_children(&items[i], &mut all);
                    proof {
                        let s = Seq::new((i + 1) as nat, |t: int| children_of(items@[t]));
                        assert(s.subrange(0, s.len() - 1) =~= Seq::new(
                            i as nat,
                            |t: int| children_of(items@[t]),
                        ));
                        assert(s[s.len() - 1] == children_of(items@[i as int]));
                        assert(refs_model(all@) =~= concat_all(s));
                    }
                }
                proof {
                    assert(Seq::new(n as nat, |t: int| children_of(items@[t])) =~= Seq::new(
                        self.roots().len(),
                        |t: int| children_of(self.roots()[t]),
                    ));
                }
            },
        }
        let ghost ac = self.all_children();
        let mut out: Vec<&JsonApiObject> = Vec::new();
        proof {
            assert(refs_model(out@) =~= dedup_first(ac.subrange(0, 0)));
        }
        let n = all.len();
        for i in 0..n
            invariant
                n == all@.len(),
                refs_model(all@) == ac,
                ac == self.all_children(),
                refs_model(out@) == dedup_first(ac.subrange(0, i as int)),
        {
            let mut seen = false;
            proof {
                assert(refs_model(out@).subrange(0, 0) =~= Seq::<JsonApiObject>::empty());
                assert(!has_entity(refs_model(out@).subrange(0, 0), ac[i as int]));
            }
            let m = out.len();
            for j in 0..m
                invariant
                    n == all@.len(),
                    m == out@.len(),
                    0 <= i < n,
                    refs_model(all@) == ac,
                    seen == has_entity(refs_model(out@).subrange(0, j as int), ac[i as int]),
            {
                let hit = out[j].is_same_entity(all[i]);
                proof {
                    assert(refs_model(out@)[j as int] == *out@[j as int]);
                    assert(refs_model(all@)[i as int] == *all@[i as int]);
                    let pre = refs_model(out@).subrange(0, j as int);
                    let ext = refs_model(out@).subrange(0, j as int + 1);
                    assert(ext =~= pre.push(refs_model(out@)[j as int]));
                    lemma_has_entity_push(pre, refs_model(out@)[j as int], ac[i as int]);
                }
                if hit {
                    seen = true;
                }
            }
            proof {
                assert(refs_model(out@).subrange(0, m as int) =~= refs_model(out@));
                lemma_dedup_entities(ac.subrange(0, i as int));
                let s = ac.subrange(0, i as int + 1);
                assert(s.subrange(0, s.len() - 1) =~= ac.subrange(0, i as int));
                assert(s[s.len() - 1] == ac[i as int]);
            }
            if !seen {
                let ghost prev = out@;
                out.push(all[i]);
                proof {
                    lemma_refs_model_push(prev, all@[i as int]);
                    assert(refs_model(all@)[i as int] == *all@[i as int]);
                    assert(refs_model(out@) == dedup_first(ac.subrange(0, i as int)).push(
                        ac[i as int],
                    ));
                }
            }
        }
        proof {
            assert(ac.subrange(0, n as int) =~= ac);
        }
        out
    }

    /// The included section value: the deduplicated direct relationship
    /// targets, projected.
    pub fn included(&self) -> (v: serde_json::Value)
        requires
            self.typed_doc(),
            self.unique_doc(),
        ensures
            val_model(v) == self.included_spec(),
    {
        let unique_relationships = self.build_unique_relationships();
        let ghost ded = dedup_first(self.all_children());
        proof {
            lemma_all_children_typed(*self);
            lemma_dedup_typed(self.all_children());
            lemma_all_children_unique(*self);
            lemma_dedup_rels_unique(self.all_children());
        }
        let mut arr: Vec<serde_json::Value> = Vec::new();
        proof {
            assert(Seq::new(arr@.len(), |t: int| val_model(arr@[t])) =~= project_list(
                ded.subrange(0, 0),
            ));
        }
        let n = unique_relationships.len();
        for i in 0..n
            invariant
                n == unique_relationships@.len(),
                refs_model(unique_relationships@) == ded,
                ded == dedup_first(self.all_children()),
                typed_children(ded),
                unique_children(ded),
                arr@.len() == i,
                Seq::new(arr@.len(), |t: int| val_model(arr@[t])) == project_list(
                    ded.subrange(0, i as int),
                ),
        {
            proof {
                assert(ded[i as int].typed());
                assert(ded[i as int].rels_unique());
            }
            let m = unique_relationships[i].to_map();
            arr.push(value_object(m));
            proof {
                let s = ded.subrange(0, i as int + 1);
                assert(s.subrange(0, s.len() - 1) =~= ded.subrange(0, i as int));
                assert(s[s.len() - 1] == ded[i as int]);
                assert(project_list(s) == project_list(ded.subrange(0, i as int)).push(
                    ded[i as int].project_spec(),
                ));
                assert(Seq::new(arr@.len(), |t: int| val_model(arr@[t])) =~= project_list(s));
            }
        }
        proof {
            assert(ded.subrange(0, n as int) =~= ded);
        }
        value_array(arr)
    }

    /// The links section value; the empty object when absent.
    pub fn links(&self) -> (v: serde_json::Value)
        ensures
            val_model(v) == JVal::Obj(self.links_entries()),
    {
        match &self.links {
            Some(m) => value_object(map_clone(m)),
            None => value_object(map_new()),
        }
    }

    /// The meta section value; the empty object when absent.
    pub fn meta(&self) -> (v: serde_json::Value)
        ensures
            val_model(v) == JVal::Obj(self.meta_entries()),
    {
        match &self.meta {
            Some(m) => value_object(map_clone(m)),
            None => value_object(map_new()),
        }
    }

    /// The jsonapi section value; the empty object when absent.
    pub fn jsonapi(&self) -> (v: serde_json::Value)
        ensures
            val_model(v) == JVal::Obj(self.jsonapi_entries()),
    {
        match &self.jsonapi {
            Some(m) => value_object(map_clone(m)),
            None => value_object(map_new()),
        }
    }

    /// Assembles the document (data, deduplicated included, links, meta,
    /// jsonapi) and encodes it as text.
    pub fn serialize(self) -> (r: Result<String, EncodeError>)
        requires
            self.typed_doc(),
            self.unique_doc(),
        ensures
            r matches Ok(s) && s@ == json_text(self.doc_spec()),
    {
        let mut json_api_root = map_new();
        map_insert(&mut json_api_root, String::from_str("data"), self.data());
        map_insert(&mut json_api_root, String::from_str("included"), self.included());
        map_insert(&mut json_api_root, String::from_str("links"), self.links());
        map_insert(&mut json_api_root, String::from_str("meta"), self.meta());
        map_insert(&mut json_api_root, String::from_str("jsonapi"), self.jsonapi());
        let doc = value_object(json_api_root);
        match to_json_string(&doc) {
            Ok(s) => Ok(s),
            Err(_) => vstd::pervasive::unreached(),
        }
    }
}

/// Appends every direct relationship target of `item` to `out`.
fn collect_children<'a>(item: &'a JsonApiObject, out: &mut Vec<&'a JsonApiObject>)
    ensures
        refs_model(final(out)@) == refs_model(old(out)@) + children_of(*item),
{
    let ghost base = refs_model(out@);
    let ghost mdl = item.rels_model();
    match &item.relationships {
        None => {
            proof {
                assert(refs_model(out@) =~= base + children_of(*item));
            }
        },
        Some(rels) => {
            let n = rels.len();
            proof {
                assert(mdl =~= Seq::new(rels@.len(), |t: int| (rels@[t].0@, rels@[t].1@)));
                assert(refs_model(out@) =~= base + concat_all(
                    Seq::new(0, |t: int| mdl[t].1),
                ));
            }
            for i in 0..n
                invariant
                    n == rels@.len(),
                    item.relationships matches Some(rr) && rr@ == rels@,
                    mdl == item.rels_model(),
                    mdl.len() == n,
                    refs_model(out@) == base + concat_all(Seq::new(i as nat, |t: int| mdl[t].1)),
            {
                let children = &rels[i].1;
                let m = children.len();
                let ghost base2 = refs_model(out@);
                proof {
                    assert(children@.subrange(0, 0) =~= Seq::<JsonApiObject>::empty());
                    assert(refs_model(out@) =~= base2 + children@.subrange(0, 0));
                }
                for j in 0..m
                    invariant
                        n == rels@.len(),
                        m == children@.len(),
                        0 <= i < n,
                        children@ == rels@[i as int].1@,
                        refs_model(out@) == base2 + children@.subrange(0, j as int),
                {
                    let ghost prev = out@;
                    out.push(&children[j]);
                    proof {
                        lemma_refs_model_push(prev, &children@[j as int]);
                        assert(refs_model(out@) == (base2 + children@.subrange(0, j as int)).push(
                            children@[j as int],
                        ));
                        assert((base2 + children@.subrange(0, j as int)).push(children@[j as int])
                            =~= base2 + children@.subrange(0, j as int + 1));
                    }
                }
                proof {
                    assert(children@.subrange(0, m as int) =~= children@);
                    let s = Seq::new((i + 1) as nat, |t: int| mdl[t].1);
                    assert(s.subrange(0, s.len() - 1) =~= Seq::new(i as nat, |t: int| mdl[t].1));
                    assert(s[s.len() - 1] == mdl[i as int].1);
                    assert(mdl[i as int].1 == children@);
                    assert(refs_model(out@) =~= base + concat_all(s));
                }
            }
            proof {
                assert(Seq::new(n as nat, |t: int| mdl[t].1) =~= Seq::new(
                    mdl.len(),
                    |t: int| mdl[t].1,
                ));
            }
        },
    }
}

/// Appending a reference appends the resource it points at.
proof fn lemma_refs_model_push(s: Seq<&JsonApiObject>, r: &JsonApiObject)
    ensures
        refs_model(s.push(r)) == refs_model(s).push(*r),
{
    assert forall|t: int| 0 <= t < s.len() + 1 implies refs_model(s.push(r))[t] == refs_model(
        s,
    ).push(*r)[t] by {
        if t < s.len() {
            assert(refs_model(s)[t] == *s[t]);
        }
    }
    assert(refs_model(s.push(r)) =~= refs_model(s).push(*r));
}

/// A resource appended at the end matches an entity exactly when the
/// sequence already did or the new resource itself does.
proof fn lemma_has_entity_push(s: Seq<JsonApiObject>, e: JsonApiObject, r: JsonApiObject)
    ensures
        has_entity(s.push(e), r) <==> (has_entity(s, r) || e.same_entity(r)),
{
    if has_entity(s.push(e), r) {
        let t = choose|t: int| 0 <= t < s.push(e).len() && s.push(e)[t].same_entity(r);
        if t < s.len() {
            assert(s[t].same_entity(r));
        } else {
            assert(s.push(e)[t] == e);
        }
    }
    if has_entity(s, r) {
        let t = choose|t: int| 0 <= t < s.len() && s[t].same_entity(r);
        assert(s.push(e)[t].same_entity(r));
    }
    if e.same_entity(r) {
        assert(s.push(e)[s.len() as int].same_entity(r));
    }
}

/// Deduplication keeps exactly the entities of the input: an entity is
/// matched in the deduplicated sequence exactly when it is matched in
/// the input sequence.
proof fn lemma_dedup_entities(s: Seq<JsonApiObject>)
    ensures
        forall|r: JsonApiObject|
            #![trigger has_entity(dedup_first(s), r)]
            #![trigger has_entity(s, r)]
            has_entity(dedup_first(s), r) <==> has_entity(s, r),
    decreases s.len(),
{
    if s.len() == 0 {
    } else {
        let prefix = s.subrange(0, s.len() - 1);
        let last = s[s.len() - 1];
        lemma_dedup_entities(prefix);
        assert(s =~= prefix.push(last));
        assert forall|r: JsonApiObject|
            has_entity(dedup_first(s), r) <==> has_entity(s, r) by {
            lemma_has_entity_push(prefix, last, r);
            if has_entity(prefix, last) && last.same_entity(r) {
                let t = choose|t: int| 0 <= t < prefix.len() && prefix[t].same_entity(last);
                assert(prefix[t].same_entity(r));
            }
            if !has_entity(prefix, last) {
                lemma_has_entity_push(dedup_first(prefix), last, r);
            }
        }
    }
}

/// Deduplication never keeps two resources of equal identity, and never
/// grows the sequence.
proof fn lemma_dedup_unique(s: Seq<JsonApiObject>)
    ensures
        forall|i: int, j: int|
            #![trigger dedup_first(s)[i], dedup_first(s)[j]]
            0 <= i < j < dedup_first(s).len() ==> !dedup_first(s)[i].same_entity(
                dedup_first(s)[j],
            ),
        dedup_first(s).len() <= s.len(),
    decreases s.len(),
{
    if s.len() == 0 {
    } else {
        let prefix = s.subrange(0, s.len() - 1);
        let last = s[s.len() - 1];
        lemma_dedup_unique(prefix);
        lemma_dedup_entities(prefix);
        if !has_entity(prefix, last) {
            let d = dedup_first(prefix);
            assert forall|i: int, j: int|
                0 <= i < j < dedup_first(s).len() implies !dedup_first(s)[i].same_entity(
                dedup_first(s)[j],
            ) by {
                if j < d.len() {
                } else {
                    assert(dedup_first(s)[j] == last);
                    assert(!has_entity(d, last));
                    assert(!d[i].same_entity(last));
                }
            }
        }
    }
}

/// Every resource the deduplicated sequence keeps stands in the input.
proof fn lemma_dedup_contains(s: Seq<JsonApiObject>)
    ensures
        forall|i: int|
            #![trigger dedup_first(s)[i]]
            0 <= i < dedup_first(s).len() ==> s.contains(dedup_first(s)[i]),
    decreases s.len(),
{
    if s.len() == 0 {
    } else {
        let prefix = s.subrange(0, s.len() - 1);
        let last = s[s.len() - 1];
        lemma_dedup_contains(prefix);
        assert forall|i: int|
            0 <= i < dedup_first(s).len() implies s.contains(#[trigger] dedup_first(s)[i]) by {
            if i < dedup_first(prefix).len() {
                assert(prefix.contains(dedup_first(prefix)[i]));
                let t = choose|t: int| 0 <= t < prefix.len() && prefix[t] == dedup_first(prefix)[i];
                assert(s[t] == dedup_first(s)[i]);
            } else {
                assert(dedup_first(s)[i] == s[s.len() - 1]);
            }
        }
    }
}

/// A concatenation of sequences of typed resources is typed.
proof fn lemma_concat_all_typed(s: Seq<Seq<JsonApiObject>>)
    requires
        forall|i: int| #![trigger s[i]] 0 <= i < s.len() ==> typed_children(s[i]),
    ensures
        typed_children(concat_all(s)),
    decreases s.len(),
{
    if s.len() == 0 {
    } else {
        let prefix = s.subrange(0, s.len() - 1);
        lemma_concat_all_typed(prefix);
        let c = concat_all(s);
        let cp = concat_all(prefix);
        let last = s[s.len() - 1];
        assert forall|j: int| #![trigger c[j]] 0 <= j < c.len() implies c[j].typed() by {
            if j < cp.len() {
                assert(cp[j].typed());
            } else {
                assert(c[j] == last[j - cp.len()]);
                assert(last[j - cp.len()].typed());
            }
        }
    }
}

/// The direct relationship targets of a typed resource are typed.
proof fn lemma_children_of_typed(r: JsonApiObject)
    requires
        r.typed(),
    ensures
        typed_children(children_of(r)),
{
    let mdl = r.rels_model();
    let s = Seq::new(mdl.len(), |i: int| mdl[i].1);
    assert forall|i: int| #![trigger s[i]] 0 <= i < s.len() implies typed_children(s[i]) by {
        match r.relationships {
            Some(rels) => {
                assert(typed_rel_list(rels@));
                assert(typed_children(rels@[i].1@));
                assert(s[i] == rels@[i].1@);
            },
            None => {},
        }
    }
    lemma_concat_all_typed(s);
}

/// Every direct relationship target of a typed document is typed.
proof fn lemma_all_children_typed(doc: JsonApiRoot)
    requires
        doc.typed_doc(),
    ensures
        typed_children(doc.all_children()),
{
    let roots = doc.roots();
    let s = Seq::new(roots.len(), |i: int| children_of(roots[i]));
    assert forall|i: int| #![trigger s[i]] 0 <= i < s.len() implies typed_children(s[i]) by {
        assert(roots[i].typed());
        lemma_children_of_typed(roots[i]);
    }
    lemma_concat_all_typed(s);
}

/// A concatenation of sequences of name-unique resources is name-unique.
proof fn lemma_concat_all_unique(s: Seq<Seq<JsonApiObject>>)
    requires
        forall|i: int| #![trigger s[i]] 0 <= i < s.len() ==> unique_children(s[i]),
    ensures
        unique_children(concat_all(s)),
    decreases s.len(),
{
    if s.len() == 0 {
    } else {
        let prefix = s.subrange(0, s.len() - 1);
        lemma_concat_all_unique(prefix);
        let c = concat_all(s);
        let cp = concat_all(prefix);
        let last = s[s.len() - 1];
        assert forall|j: int| #![trigger c[j]] 0 <= j < c.len() implies c[j].rels_unique() by {
            if j < cp.len() {
                assert(cp[j].rels_unique());
            } else {
                assert(c[j] == last[j - cp.len()]);
                assert(last[j - cp.len()].rels_unique());
            }
        }
    }
}

/// The direct relationship targets of a name-unique resource are
/// name-unique.
proof fn lemma_children_of_unique(r: JsonApiObject)
    requires
        r.rels_unique(),
    ensures
        unique_children(children_of(r)),
{
    let mdl = r.rels_model();
    let s = Seq::new(mdl.len(), |i: int| mdl[i].1);
    assert forall|i: int| #![trigger s[i]] 0 <= i < s.len() implies unique_children(s[i]) by {
        match r.relationships {
            Some(rels) => {
                assert(unique_rel_list(rels@));
                assert(unique_children(rels@[i].1@));
                assert(s[i] == rels@[i].1@);
            },
            None => {},
        }
    }
    lemma_concat_all_unique(s);
}

/// Every direct relationship target of a name-unique document is
/// name-unique.
proof fn lemma_all_children_unique(doc: JsonApiRoot)
    requires
        doc.unique_doc(),
    ensures
        unique_children(doc.all_children()),
{
    let roots = doc.roots();
    let s = Seq::new(roots.len(), |i: int| children_of(roots[i]));
    assert forall|i: int| #![trigger s[i]] 0 <= i < s.len() implies unique_children(s[i]) by {
        assert(roots[i].rels_unique());
        lemma_children_of_unique(roots[i]);
    }
    lemma_concat_all_unique(s);
}

/// Deduplication preserves name-uniqueness of the kept resources.
proof fn lemma_dedup_rels_unique(s: Seq<JsonApiObject>)
    requires
        unique_children(s),
    ensures
        unique_children(dedup_first(s)),
{
    lemma_dedup_contains(s);
    let d = dedup_first(s);
    assert forall|j: int| #![trigger d[j]] 0 <= j < d.len() implies d[j].rels_unique() by {
        assert(s.contains(d[j]));
        let t = choose|t: int| 0 <= t < s.len() && s[t] == d[j];
        assert(s[t].rels_unique());
    }
}

/// Deduplication preserves typedness.
proof fn lemma_dedup_typed(s: Seq<JsonApiObject>)
    requires
        typed_children(s),
    ensures
        typed_children(dedup_first(s)),
{
    lemma_dedup_contains(s);
    let d = dedup_first(s);
    assert forall|j: int| #![trigger d[j]] 0 <= j < d.len() implies d[j].typed() by {
        assert(s.contains(d[j]));
        let t = choose|t: int| 0 <= t < s.len() && s[t] == d[j];
        assert(s[t].typed());
    }
}

/// Included-set law: the included set never holds two resources of equal
/// identity, and its size never exceeds the total count of direct
/// relationship targets across all root items.
pub proof fn lemma_included_deduplicated(doc: JsonApiRoot)
    ensures
        forall|i: int, j: int|
            #![trigger dedup_first(doc.all_children())[i], dedup_first(doc.all_children())[j]]
            0 <= i < j < dedup_first(doc.all_children()).len()
                ==> !dedup_first(doc.all_children())[i].same_entity(
                dedup_first(doc.all_children())[j],
            ),
        dedup_first(doc.all_children()).len() <= doc.all_children().len(),
{
    lemma_dedup_unique(doc.all_children());
}

/// Data-section law: with no root items the data section is the empty
/// array, not null and not an object.
pub proof fn lemma_data_empty(doc: JsonApiRoot)
    requires
        doc.roots().len() == 0,
    ensures
        doc.data_spec() == JVal::Arr(Seq::<JVal>::empty()),
        doc.doc_entries()["data"@] == doc.data_spec(),
{
    assert(project_list(doc.roots()) =~= Seq::<JVal>::empty());
    lemma_doc_keys_distinct();
}

/// Data-section law: with exactly one root item the data section is that
/// item's projection, a single object not wrapped in an array.
pub proof fn lemma_data_single(doc: JsonApiRoot)
    requires
        doc.roots().len() == 1,
    ensures
        doc.data_spec() == doc.roots()[0].project_spec(),
        doc.data_spec() is Obj,
        doc.doc_entries()["data"@] == doc.data_spec(),
{
    lemma_doc_keys_distinct();
}

/// Data-section law: with two or more root items the data section is the
/// array of their projections, one per item, in order.
pub proof fn lemma_data_many(doc: JsonApiRoot)
    requires
        doc.roots().len() >= 2,
    ensures
        doc.data_spec() matches JVal::Arr(items) && items.len() == doc.roots().len()
            && forall|i: int|
            0 <= i < doc.roots().len() ==> #[trigger] items[i] == doc.roots()[i].project_spec(),
        doc.doc_entries()["data"@] == doc.data_spec(),
{
    lemma_doc_keys_distinct();
    lemma_project_list_points(doc.roots());
}

/// The projections sequence has one projection per resource, in order.
pub proof fn lemma_project_list_points(s: Seq<JsonApiObject>)
    ensures
        project_list(s).len() == s.len(),
        forall|i: int|
            0 <= i < s.len() ==> #[trigger] project_list(s)[i] == s[i].project_spec(),
    decreases s.len(),
{
    if s.len() == 0 {
    } else {
        lemma_project_list_points(s.subrange(0, s.len() - 1));
    }
}

/// The five top-level keys of the document are pairwise distinct, so
/// each entry of the assembled document is the section inserted under
/// its key.
proof fn lemma_doc_keys_distinct()
    ensures
        "data"@ != "included"@,
        "data"@ != "links"@,
        "data"@ != "meta"@,
        "data"@ != "jsonapi"@,
{
    reveal_strlit("data");
    reveal_strlit("included");
    reveal_strlit("links");
    reveal_strlit("meta");
    reveal_strlit("jsonapi");
    assert("data"@.len() == 4);
    assert("included"@.len() == 8);
    assert("links"@.len() == 5);
    assert("jsonapi"@.len() == 7);
    assert("data"@[0] == 'd');
    assert("meta"@[0] == 'm');
}

} // verus!
