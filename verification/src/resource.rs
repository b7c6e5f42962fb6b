//! The node type of the document graph: a typed, identified resource
//! with an attribute payload and named, ordered relationships to further
//! resources.

use vstd::prelude::*;

verus! {

use crate::value::JVal;
use crate::value::map_model;
use crate::value::map_clone;
use crate::value::map_new;
use crate::value::map_insert;
use crate::value::val_model;
use crate::value::value_null;
use crate::value::value_string;
use crate::value::value_array;
use crate::value::value_object;
use vstd::string::StringExecFns;

/// The closed set of domain kinds. Each kind has a fixed lowercase wire
/// name.
#[derive(Clone, Copy, PartialEq, Eq, Structural, Debug)]
pub enum JsonApiType {
    User,
    Event,
    Rsvp,
    Message,
    Login,
    Device,
    Friend,
    UserIdList,
}

impl JsonApiType {
    /// The characters of the kind's wire name.
    pub open spec fn wire_name_spec(self) -> Seq<char> {
        match self {
            JsonApiType::User => "user"@,
            JsonApiType::Event => "event"@,
            JsonApiType::Rsvp => "rsvp"@,
            JsonApiType::Message => "message"@,
            JsonApiType::Login => "login"@,
            JsonApiType::Device => "device"@,
            JsonApiType::Friend => "friend"@,
            JsonApiType::UserIdList => "useridlist"@,
        }
    }

    /// The fixed lowercase wire name of the kind.
    pub fn wire_name(&self) -> (r: &'static str)
        ensures
            r@ == self.wire_name_spec(),
    {
        match self {
            JsonApiType::User => "user",
            JsonApiType::Event => "event",
            JsonApiType::Rsvp => "rsvp",
            JsonApiType::Message => "message",
            JsonApiType::Login => "login",
            JsonApiType::Device => "device",
            JsonApiType::Friend => "friend",
            JsonApiType::UserIdList => "useridlist",
        }
    }
}

/// Multiplicity intent of a relationship. Informational metadata only:
/// it does not alter the serialized shape.
#[derive(Clone, Copy, PartialEq, Eq, Structural, Debug)]
pub enum JsonApiRelationType {
    ToMany,
    ToOne,
}

/// One domain entity. It may stand as primary data, as an included
/// side-resource, or as a relationship target (in which role
/// `relationship_name` carries the name it is attached under).
pub struct JsonApiObject {
    pub jsonapi_type: Option<JsonApiType>,
    pub id: Option<String>,
    pub attributes: Option<serde_json::Map<String, serde_json::Value>>,
    pub relationship_name: Option<String>,
    pub relationships: Option<Vec<(String, Vec<JsonApiObject>)>>,
    pub relation_type: JsonApiRelationType,
}

impl JsonApiObject {
    /// The characters of the id, when one is present.
    pub open spec fn id_view(self) -> Option<Seq<char>> {
        match self.id {
            Some(s) => Some(s@),
            None => None,
        }
    }

    /// Two resources are the same entity exactly when both carry a kind,
    /// the kinds are equal, and the ids are equal. Attributes,
    /// relationships and the role fields play no part.
    pub open spec fn same_entity(self, other: JsonApiObject) -> bool {
        &&& self.jsonapi_type is Some
        &&& other.jsonapi_type is Some
        &&& self.jsonapi_type == other.jsonapi_type
        &&& self.id_view() == other.id_view()
    }

    /// The outgoing relationships as (name, targets) pairs, in stored
    /// order; the empty sequence when none were ever attached.
    pub open spec fn rels_model(self) -> Seq<(Seq<char>, Seq<JsonApiObject>)> {
        match self.relationships {
            Some(rels) => Seq::new(rels@.len(), |i: int| (rels@[i].0@, rels@[i].1@)),
            None => Seq::empty(),
        }
    }

    /// Every resource of the tree carries a kind, so the whole tree can
    /// be projected.
    pub open spec fn typed(self) -> bool
        decreases self, 1nat,
    {
        &&& self.jsonapi_type is Some
        &&& self.children_typed()
    }

    /// Every stored relationship target heads a tree of resources that
    /// all carry a kind; nothing is asked of this resource's own kind.
    pub open spec fn children_typed(self) -> bool
        decreases self, 0nat,
    {
        match self.relationships {
            Some(rels) => typed_rel_list(rels@),
            None => true,
        }
    }

    /// The stored relationship names of this resource are pairwise
    /// distinct, as the keys of a map.
    pub open spec fn rel_names_unique(self) -> bool {
        forall|i: int, j: int|
            #![trigger self.rels_model()[i], self.rels_model()[j]]
            0 <= i < j < self.rels_model().len() ==> self.rels_model()[i].0
                != self.rels_model()[j].0
    }

    /// Relationship names are pairwise distinct at this resource and at
    /// every resource below it: the stored pair list is a map keyed by
    /// name, as the data model asks.
    pub open spec fn rels_unique(self) -> bool
        decreases self, 1nat,
    {
        &&& self.rel_names_unique()
        &&& match self.relationships {
            Some(rels) => unique_rel_list(rels@),
            None => true,
        }
    }
}

/// Every target in every (name, targets) pair keeps its relationship
/// names unique throughout its tree.
pub open spec fn unique_rel_list(rels: Seq<(String, Vec<JsonApiObject>)>) -> bool
    decreases rels, 0nat,
{
    forall|i: int| #![trigger rels[i]] 0 <= i < rels.len() ==> unique_children(rels[i].1@)
}

/// Every resource of the sequence keeps its relationship names unique
/// throughout its tree.
pub open spec fn unique_children(children: Seq<JsonApiObject>) -> bool
    decreases children, 2nat,
{
    forall|j: int| #![trigger children[j]] 0 <= j < children.len() ==> children[j].rels_unique()
}

/// Every target in every (name, targets) pair heads a tree of resources
/// that all carry a kind.
pub open spec fn typed_rel_list(rels: Seq<(String, Vec<JsonApiObject>)>) -> bool
    decreases rels, 0nat,
{
    forall|i: int| #![trigger rels[i]] 0 <= i < rels.len() ==> typed_children(rels[i].1@)
}

/// Every resource of the sequence heads a tree of resources that all
/// carry a kind.
pub open spec fn typed_children(children: Seq<JsonApiObject>) -> bool
    decreases children, 2nat,
{
    forall|j: int| #![trigger children[j]] 0 <= j < children.len() ==> children[j].typed()
}

impl JsonApiObject {

    /// The attribute entries; the empty object when absent.
    pub open spec fn attrs_entries(self) -> Map<Seq<char>, JVal> {
        match self.attributes {
            Some(m) => map_model(m),
            None => Map::empty(),
        }
    }

    /// The canonical key-value form of the resource.
    pub open spec fn project_spec(self) -> JVal
        decreases self, 3nat,
    {
        JVal::Obj(self.project_entries())
    }

    /// The entries of the canonical form: id, type, attributes, and the
    /// relationships block.
    pub open spec fn project_entries(self) -> Map<Seq<char>, JVal>
        decreases self, 2nat,
    {
        Map::empty().insert(
            "id"@,
            match self.id {
                Some(s) => JVal::Str(s@),
                None => JVal::Null,
            },
        ).insert("type"@, JVal::Str(self.jsonapi_type->0.wire_name_spec())).insert(
            "attributes"@,
            JVal::Obj(self.attrs_entries()),
        ).insert("relationships"@, JVal::Obj(self.rels_entries()))
    }

    /// The relationships block: each name bound to the array of the full
    /// projections of its targets.
    pub open spec fn rels_entries(self) -> Map<Seq<char>, JVal>
        decreases self, 1nat,
    {
        match self.relationships {
            Some(rels) => rels_entries_of(rels@),
            None => Map::empty(),
        }
    }
}

/// The relationships block of a sequence of (name, targets) pairs: a
/// later pair with the same name replaces an earlier one, as in the
/// stored map.
pub open spec fn rels_entries_of(rels: Seq<(String, Vec<JsonApiObject>)>) -> Map<Seq<char>, JVal>
    decreases rels, 1nat,
{
    if rels.len() == 0 {
        Map::empty()
    } else {
        rels_entries_of(rels.subrange(0, rels.len() - 1)).insert(
            rels[rels.len() - 1].0@,
            JVal::Arr(project_list(rels[rels.len() - 1].1@)),
        )
    }
}

/// The projections of a sequence of resources, in order.
pub open spec fn project_list(children: Seq<JsonApiObject>) -> Seq<JVal>
    decreases children, 0nat,
{
    if children.len() == 0 {
        Seq::empty()
    } else {
        project_list(children.subrange(0, children.len() - 1)).push(
            children[children.len() - 1].project_spec(),
        )
    }
}

impl JsonApiObject {
    /// An empty resource: every field absent, relation kind to-many.
    pub fn new() -> (r: JsonApiObject)
        ensures
            r.jsonapi_type is None,
            r.id is None,
            r.attributes is None,
            r.relationship_name is None,
            r.relationships is None,
            r.relation_type == JsonApiRelationType::ToMany,
            r.children_typed(),
            r.rels_unique(),
    {
        JsonApiObject {
            jsonapi_type: None,
            id: None,
            attributes: None,
            relationship_name: None,
            relationships: None,
            relation_type: JsonApiRelationType::ToMany,
        }
    }

    /// Decides entity identity: kind and id alone.
    pub fn is_same_entity(&self, other: &JsonApiObject) -> (r: bool)
        ensures
            r == self.same_entity(*other),
    {
        match (&self.jsonapi_type, &other.jsonapi_type) {
            (Some(a), Some(b)) => {
                if *a == *b {
                    match (&self.id, &other.id) {
                        (Some(x), Some(y)) => x.eq(y),
                        (None, None) => true,
                        _ => false,
                    }
                } else {
                    false
                }
            },
            _ => false,
        }
    }
}

/// Projection law: a resource with no attached relationships projects an
/// empty relationships block; the key is present and bound to the empty
/// object, never omitted and never null.
pub proof fn lemma_empty_relationships_block(r: JsonApiObject)
    requires
        r.rels_model() == Seq::<(Seq<char>, Seq<JsonApiObject>)>::empty(),
    ensures
        r.project_entries()["relationships"@] == JVal::Obj(Map::<Seq<char>, JVal>::empty()),
{
    match r.relationships {
        Some(rels) => {
            assert(r.rels_model().len() == 0);
            assert(rels@.len() == 0);
            assert(r.rels_entries() == rels_entries_of(rels@));
        },
        None => {},
    }
}

/// How attaching a child under `name` changes the relationship entries:
/// the child is appended to the first entry of that name, or a new entry
/// is appended at the end.
pub open spec fn add_rel(
    m: Seq<(Seq<char>, Seq<JsonApiObject>)>,
    name: Seq<char>,
    child: JsonApiObject,
) -> Seq<(Seq<char>, Seq<JsonApiObject>)>
    decreases m.len(),
{
    if m.len() == 0 {
        seq![(name, seq![child])]
    } else if m[0].0 == name {
        seq![(m[0].0, m[0].1.push(child))] + m.subrange(1, m.len() as int)
    } else {
        seq![m[0]] + add_rel(m.subrange(1, m.len() as int), name, child)
    }
}

proof fn lemma_add_rel_found(
    m: Seq<(Seq<char>, Seq<JsonApiObject>)>,
    name: Seq<char>,
    child: JsonApiObject,
    i: int,
)
    requires
        0 <= i < m.len(),
        m[i].0 == name,
        forall|t: int| 0 <= t < i ==> m[t].0 != name,
    ensures
        add_rel(m, name, child) == m.update(i, (m[i].0, m[i].1.push(child))),
    decreases i,
{
    if i == 0 {
        assert(add_rel(m, name, child) =~= m.update(0, (m[0].0, m[0].1.push(child))));
    } else {
        let rest = m.subrange(1, m.len() as int);
        lemma_add_rel_found(rest, name, child, i - 1);
        assert(seq![m[0]] + rest.update(i - 1, (rest[i - 1].0, rest[i - 1].1.push(child))) =~= m
            .update(i, (m[i].0, m[i].1.push(child))));
    }
}

proof fn lemma_add_rel_missing(
    m: Seq<(Seq<char>, Seq<JsonApiObject>)>,
    name: Seq<char>,
    child: JsonApiObject,
)
    requires
        forall|t: int| 0 <= t < m.len() ==> m[t].0 != name,
    ensures
        add_rel(m, name, child) == m.push((name, seq![child])),
    decreases m.len(),
{
    if m.len() == 0 {
        assert(add_rel(m, name, child) =~= m.push((name, seq![child])));
    } else {
        let rest = m.subrange(1, m.len() as int);
        lemma_add_rel_missing(rest, name, child);
        assert(seq![m[0]] + rest.push((name, seq![child])) =~= m.push((name, seq![child])));
    }
}

fn find_rel_index(rels: &Vec<(String, Vec<JsonApiObject>)>, name: &String) -> (r: usize)
    ensures
        r <= rels@.len(),
        forall|t: int| 0 <= t < r ==> rels@[t].0@ != name@,
        r < rels@.len() ==> rels@[r as int].0@ == name@,
{
    let mut i: usize = 0;
    while i < rels.len()
        invariant
            i <= rels@.len(),
            forall|t: int| 0 <= t < i ==> rels@[t].0@ != name@,
        decreases rels@.len() - i,
    {
        if rels[i].0.eq(name) {
            return i;
        }
        i += 1;
    }
    i
}

impl JsonApiObject {
    /// Attaches the child under the relationship name the child carries.
    /// A child without an id or without a relationship name cannot be
    /// linked, so the call is then a no-op.
    pub fn add_relationship(&mut self, json_api_object: JsonApiObject)
        ensures
            json_api_object.relationship_name is None || json_api_object.id is None
                ==> *final(self) == *old(self),
            json_api_object.relationship_name is Some && json_api_object.id is Some
                ==> final(self).rels_model() == add_rel(
                    old(self).rels_model(),
                    json_api_object.relationship_name->0@,
                    json_api_object,
                ),
            json_api_object.relationship_name is Some && json_api_object.id is Some
                ==> final(self).relationships is Some,
            old(self).rels_unique() && json_api_object.rels_unique() ==> final(self).rels_unique(),
            final(self).jsonapi_type == old(self).jsonapi_type,
            final(self).id == old(self).id,
            final(self).attributes == old(self).attributes,
            final(self).relationship_name == old(self).relationship_name,
            final(self).relation_type == old(self).relation_type,
    {
        if json_api_object.relationship_name.is_none() {
            return ;
        }
        if json_api_object.id.is_none() {
            return ;
        }
        let relationship_name: String = match &json_api_object.relationship_name {
            Some(relname) => relname.clone(),
            None => vstd::pervasive::unreached(),
        };
        let ghost pre = old(self).rels_model();
        let ghost name_view = relationship_name@;
        let ghost child = json_api_object;
        let mut rels: Vec<(String, Vec<JsonApiObject>)> = match self.relationships.take() {
            Some(v) => v,
            None => Vec::new(),
        };
        let ghost rv = rels@;
        proof {
            assert(pre =~= Seq::new(rv.len(), |t: int| (rv[t].0@, rv[t].1@)));
        }
        let idx = find_rel_index(&rels, &relationship_name);
        if idx < rels.len() {
            let mut entry = rels.remove(idx);
            entry.1.push(json_api_object);
            rels.insert(idx, entry);
            proof {
                lemma_add_rel_found(pre, name_view, child, idx as int);
                assert(rels@ =~= rv.update(idx as int, (rv[idx as int].0, rels@[idx as int].1)));
            }
        } else {
            let mut first: Vec<JsonApiObject> = Vec::new();
            first.push(json_api_object);
            proof {
                assert(first@ =~= seq![child]);
            }
            rels.push((relationship_name, first));
        }
        self.relationships = Some(rels);
        proof {
            if idx < rv.len() {
                assert(self.rels_model() =~= pre.update(
                    idx as int,
                    (pre[idx as int].0, pre[idx as int].1.push(child)),
                ));
            } else {
                lemma_add_rel_missing(pre, name_view, child);
                assert(self.rels_model() =~= pre.push((name_view, seq![child])));
            }
            if old(self).rels_unique() && child.rels_unique() {
                let nr = self.relationships->0@;
                if old(self).relationships is Some {
                    assert(unique_rel_list(rv));
                } else {
                    assert(rv.len() == 0);
                }
                assert forall|t: int| #![trigger nr[t]] 0 <= t < nr.len() implies unique_children(
                    nr[t].1@,
                ) by {
                    if idx < rv.len() && t == idx {
                        assert(unique_children(rv[idx as int].1@));
                        assert forall|u: int|
                            0 <= u < nr[t].1@.len() implies (#[trigger] nr[t].1@[u]).rels_unique() by {
                            if u < rv[idx as int].1@.len() {
                                assert(rv[idx as int].1@[u].rels_unique());
                            } else {
                                assert(nr[t].1@[u] == child);
                            }
                        }
                    } else if t < rv.len() {
                        assert(nr[t] == rv[t]);
                        assert(unique_children(rv[t].1@));
                    } else {
                        assert forall|u: int|
                            0 <= u < nr[t].1@.len() implies (#[trigger] nr[t].1@[u]).rels_unique() by {
                            assert(nr[t].1@[u] == child);
                        }
                    }
                }
                assert forall|a: int, b: int|
                    #![trigger self.rels_model()[a], self.rels_model()[b]]
                    0 <= a < b < self.rels_model().len() implies self.rels_model()[a].0
                    != self.rels_model()[b].0 by {
                    if idx < rv.len() {
                        assert(self.rels_model()[a].0 == pre[a].0);
                        assert(self.rels_model()[b].0 == pre[b].0);
                        assert(pre[a].0 != pre[b].0);
                    } else {
                        if b < pre.len() {
                            assert(pre[a].0 != pre[b].0);
                        } else {
                            assert(self.rels_model()[a].0 == pre[a].0);
                            assert(pre[a].0 == rv[a].0@);
                            assert(rv[a].0@ != name_view);
                            assert(self.rels_model()[b].0 == name_view);
                        }
                    }
                }
                assert(self.rels_unique());
            }
        }
    }

    /// The relationships block as a generic object: each relationship
    /// name bound to the array of the full projections of its targets;
    /// the empty object when none are attached.
    pub fn relationships(&self) -> (r: Option<serde_json::Map<String, serde_json::Value>>)
        requires
            self.children_typed(),
            self.rels_unique(),
        ensures
            r matches Some(m) && map_model(m) == self.rels_entries(),
        decreases self, 1nat,
    {
        match &self.relationships {
            Some(rels) => {
                let mut out = map_new();
                let n = rels.len();
                proof {
                    assert(rels@.subrange(0, 0) =~= Seq::<(String, Vec<JsonApiObject>)>::empty());
                }
                for i in 0..n
                    invariant
                        n == rels@.len(),
                        self.children_typed(),
                        self.rels_unique(),
                        self.relationships matches Some(rr) && rr@ == rels@,
                        map_model(out) == rels_entries_of(rels@.subrange(0, i as int)),
                {
                    let children = &rels[i].1;
                    let mut arr: Vec<serde_json::Value> = Vec::new();
                    let m = children.len();
                    proof {
                        assert(Seq::new(arr@.len(), |t: int| val_model(arr@[t])) =~= project_list(
                            children@.subrange(0, 0),
                        ));
                    }
                    for j in 0..m
                        invariant
                            n == rels@.len(),
                            0 <= i < n,
                            m == children@.len(),
                            self.children_typed(),
                            self.rels_unique(),
                            self.relationships matches Some(rr) && rr@ == rels@,
                            children@ == rels@[i as int].1@,
                            arr@.len() == j,
                            Seq::new(arr@.len(), |t: int| val_model(arr@[t])) == project_list(
                                children@.subrange(0, j as int),
                            ),
                    {
                        proof {
                            assert(typed_rel_list(rels@));
                            assert(typed_children(rels@[i as int].1@));
                            assert(children@[j as int].typed());
                            assert(unique_rel_list(rels@));
                            assert(unique_children(rels@[i as int].1@));
                            assert(children@[j as int].rels_unique());
                        }
                        let cm = children[j].to_map();
                        arr.push(value_object(cm));
                        proof {
                            let s = children@.subrange(0, j as int + 1);
                            assert(s.subrange(0, s.len() - 1) =~= children@.subrange(0, j as int));
                            assert(s[s.len() - 1] == children@[j as int]);
                            assert(project_list(s) == project_list(
                                children@.subrange(0, j as int),
                            ).push(children@[j as int].project_spec()));
                            assert(Seq::new(arr@.len(), |t: int| val_model(arr@[t])) =~= project_list(
                                s,
                            ));
                        }
                    }
                    let name = rels[i].0.clone();
                    proof {
                        assert(children@.subrange(0, m as int) =~= children@);
                        assert(Seq::new(arr@.len(), |t: int| val_model(arr@[t])) == project_list(
                            children@,
                        ));
                    }
                    map_insert(&mut out, name, value_array(arr));
                    proof {
                        let s = rels@.subrange(0, i as int + 1);
                        assert(s.subrange(0, s.len() - 1) =~= rels@.subrange(0, i as int));
                        assert(s[s.len() - 1] == rels@[i as int]);
                        assert(map_model(out) == rels_entries_of(s));
                    }
                }
                proof {
                    assert(rels@.subrange(0, n as int) =~= rels@);
                }
                Some(out)
            },
            None => Some(map_new()),
        }
    }

    /// The canonical key-value form of the resource: id, type,
    /// attributes, and the relationships block.
    pub fn to_map(&self) -> (r: serde_json::Map<String, serde_json::Value>)
        requires
            self.typed(),
            self.rels_unique(),
        ensures
            map_model(r) == self.project_entries(),
        decreases self, 2nat,
    {
        let mut map = map_new();
        let id_value = match &self.id {
            Some(s) => value_string(s.clone()),
            None => value_null(),
        };
        map_insert(&mut map, String::from_str("id"), id_value);
        let type_value = match &self.jsonapi_type {
            Some(t) => value_string(String::from_str(t.wire_name())),
            None => vstd::pervasive::unreached(),
        };
        map_insert(&mut map, String::from_str("type"), type_value);
        let attrs_value = match &self.attributes {
            Some(m) => value_object(map_clone(m)),
            None => value_object(map_new()),
        };
        map_insert(&mut map, String::from_str("attributes"), attrs_value);
        let rels_value = match self.relationships() {
            Some(m) => value_object(m),
            None => vstd::pervasive::unreached(),
        };
        map_insert(&mut map, String::from_str("relationships"), rels_value);
        map
    }
}

/// Identity law: two resources are the same entity exactly when both
/// carry a kind, the kinds are equal and the ids are equal.
pub proof fn lemma_identity_is_kind_and_id(a: JsonApiObject, b: JsonApiObject)
    ensures
        a.same_entity(b) <==> (a.jsonapi_type is Some && b.jsonapi_type is Some
            && a.jsonapi_type == b.jsonapi_type && a.id_view() == b.id_view()),
{
}

/// Identity law: entity identity depends on kind and id alone, so
/// changing attributes, relationships or role fields of either resource
/// leaves it unchanged.
pub proof fn lemma_identity_ignores_payload(
    a: JsonApiObject,
    b: JsonApiObject,
    a2: JsonApiObject,
    b2: JsonApiObject,
)
    requires
        a2.jsonapi_type == a.jsonapi_type,
        a2.id_view() == a.id_view(),
        b2.jsonapi_type == b.jsonapi_type,
        b2.id_view() == b.id_view(),
    ensures
        a2.same_entity(b2) == a.same_entity(b),
{
}

} // verus!
