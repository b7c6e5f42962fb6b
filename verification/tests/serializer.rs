use jsonapi::JsonApiObject;
use jsonapi::JsonApiRelationType;
use jsonapi::JsonApiRoot;
use jsonapi::JsonApiType;

fn string_attrs(pairs: &[(&str, &str)]) -> serde_json::Map<String, serde_json::Value> {
    let mut m = serde_json::Map::new();
    for (k, v) in pairs {
        m.insert(k.to_string(), serde_json::Value::String(v.to_string()));
    }
    m
}

fn resource(kind: JsonApiType, id: &str) -> JsonApiObject {
    let mut r = JsonApiObject::new();
    r.jsonapi_type = Some(kind);
    r.id = Some(id.to_string());
    r
}

fn related(kind: JsonApiType, id: &str, name: &str) -> JsonApiObject {
    let mut r = resource(kind, id);
    r.relationship_name = Some(name.to_string());
    r
}

fn parse(doc: JsonApiRoot) -> serde_json::Value {
    let text = doc.serialize().unwrap();
    serde_json::from_str(&text).unwrap()
}

#[test]
fn empty_document_serializes_data_as_empty_array() {
    let root = JsonApiRoot::new();
    let text = root.serialize().unwrap();
    assert_eq!(
        text,
        "{\"data\":[],\"included\":[],\"jsonapi\":{\"version\":\"1.0\"},\"links\":{},\"meta\":{}}"
    );
}

#[test]
fn single_root_item_serializes_data_as_object() {
    let mut root = JsonApiRoot::new();
    root.add_root_item(resource(JsonApiType::User, "9"));
    let v = parse(root);
    let data = v.get("data").unwrap();
    assert!(data.is_object());
    assert_eq!(data.get("type").unwrap(), "user");
    assert_eq!(data.get("id").unwrap(), "9");
    assert_eq!(data.get("attributes").unwrap(), &serde_json::Value::Object(serde_json::Map::new()));
    assert_eq!(
        data.get("relationships").unwrap(),
        &serde_json::Value::Object(serde_json::Map::new())
    );
}

#[test]
fn many_root_items_serialize_data_as_ordered_array() {
    let mut root = JsonApiRoot::new();
    root.add_root_item(resource(JsonApiType::Message, "1"));
    root.add_root_item(resource(JsonApiType::Login, "2"));
    root.add_root_item(resource(JsonApiType::Device, "3"));
    let v = parse(root);
    let data = v.get("data").unwrap().as_array().unwrap();
    assert_eq!(data.len(), 3);
    assert_eq!(data[0].get("type").unwrap(), "message");
    assert_eq!(data[0].get("id").unwrap(), "1");
    assert_eq!(data[1].get("type").unwrap(), "login");
    assert_eq!(data[1].get("id").unwrap(), "2");
    assert_eq!(data[2].get("type").unwrap(), "device");
    assert_eq!(data[2].get("id").unwrap(), "3");
}

#[test]
fn round_trip_event_with_owner() {
    let mut event = resource(JsonApiType::Event, "2");
    event.attributes = Some(string_attrs(&[("name", "Event is my name")]));

    let mut owner = related(JsonApiType::User, "1", "owner");
    owner.attributes = Some(string_attrs(&[("name", "Joel la malice")]));
    owner.relation_type = JsonApiRelationType::ToOne;

    event.add_relationship(owner);

    let mut root = JsonApiRoot::new();
    root.add_root_item(event);
    let v = parse(root);

    let data = v.get("data").unwrap();
    assert_eq!(data.get("type").unwrap(), "event");
    assert_eq!(data.get("id").unwrap(), "2");
    assert_eq!(data.get("attributes").unwrap().get("name").unwrap(), "Event is my name");
    let owner_rel = data.get("relationships").unwrap().get("owner").unwrap().as_array().unwrap();
    assert_eq!(owner_rel.len(), 1);
    assert_eq!(owner_rel[0].get("type").unwrap(), "user");
    assert_eq!(owner_rel[0].get("id").unwrap(), "1");

    let included = v.get("included").unwrap().as_array().unwrap();
    assert_eq!(included.len(), 1);
    assert_eq!(included[0].get("type").unwrap(), "user");
    assert_eq!(included[0].get("id").unwrap(), "1");
    assert_eq!(included[0].get("attributes").unwrap().get("name").unwrap(), "Joel la malice");
}

#[test]
fn round_trip_event_with_owner_exact_text() {
    let mut event = resource(JsonApiType::Event, "2");
    event.attributes = Some(string_attrs(&[("name", "Event is my name")]));
    let mut owner = related(JsonApiType::User, "1", "owner");
    owner.attributes = Some(string_attrs(&[("name", "Joel la malice")]));
    owner.relation_type = JsonApiRelationType::ToOne;
    event.add_relationship(owner);
    let mut root = JsonApiRoot::new();
    root.add_root_item(event);
    let text = root.serialize().unwrap();
    let user_obj = "{\"attributes\":{\"name\":\"Joel la malice\"},\"id\":\"1\",\"relationships\":{},\"type\":\"user\"}";
    let expected = format!(
        "{{\"data\":{{\"attributes\":{{\"name\":\"Event is my name\"}},\"id\":\"2\",\"relationships\":{{\"owner\":[{user_obj}]}},\"type\":\"event\"}},\"included\":[{user_obj}],\"jsonapi\":{{\"version\":\"1.0\"}},\"links\":{{}},\"meta\":{{}}}}"
    );
    assert_eq!(text, expected);
}

#[test]
fn included_deduplicates_same_entity_across_root_items() {
    let mut root = JsonApiRoot::new();
    for event_id in ["10", "11"] {
        let mut event = resource(JsonApiType::Event, event_id);
        let owner = related(JsonApiType::User, "7", "owner");
        event.add_relationship(owner);
        root.add_root_item(event);
    }
    let v = parse(root);
    let included = v.get("included").unwrap().as_array().unwrap();
    assert_eq!(included.len(), 1);
    assert_eq!(included[0].get("type").unwrap(), "user");
    assert_eq!(included[0].get("id").unwrap(), "7");
}

#[test]
fn included_keeps_first_seen_representative() {
    let mut root = JsonApiRoot::new();
    let mut event = resource(JsonApiType::Event, "1");
    let mut first = related(JsonApiType::User, "7", "owner");
    first.attributes = Some(string_attrs(&[("name", "first")]));
    let mut second = related(JsonApiType::User, "7", "guest");
    second.attributes = Some(string_attrs(&[("name", "second")]));
    event.add_relationship(first);
    event.add_relationship(second);
    root.add_root_item(event);
    let v = parse(root);
    let included = v.get("included").unwrap().as_array().unwrap();
    assert_eq!(included.len(), 1);
    assert_eq!(included[0].get("attributes").unwrap().get("name").unwrap(), "first");
}

#[test]
fn included_keeps_distinct_entities() {
    let mut root = JsonApiRoot::new();
    let mut event = resource(JsonApiType::Event, "1");
    event.add_relationship(related(JsonApiType::User, "7", "owner"));
    event.add_relationship(related(JsonApiType::User, "8", "owner"));
    event.add_relationship(related(JsonApiType::Rsvp, "7", "rsvps"));
    root.add_root_item(event);
    let v = parse(root);
    let included = v.get("included").unwrap().as_array().unwrap();
    assert_eq!(included.len(), 3);
}

#[test]
fn add_relationship_without_id_is_noop() {
    let mut event = resource(JsonApiType::Event, "1");
    let mut child = JsonApiObject::new();
    child.jsonapi_type = Some(JsonApiType::User);
    child.relationship_name = Some("owner".to_string());
    event.add_relationship(child);
    assert!(event.relationships.is_none());
}

#[test]
fn add_relationship_without_name_is_noop() {
    let mut event = resource(JsonApiType::Event, "1");
    let child = resource(JsonApiType::User, "5");
    event.add_relationship(child);
    assert!(event.relationships.is_none());
}

#[test]
fn add_relationship_groups_by_name_in_insertion_order() {
    let mut event = resource(JsonApiType::Event, "1");
    event.add_relationship(related(JsonApiType::User, "5", "guests"));
    event.add_relationship(related(JsonApiType::User, "6", "guests"));
    let mut root = JsonApiRoot::new();
    root.add_root_item(event);
    let v = parse(root);
    let guests =
        v.get("data").unwrap().get("relationships").unwrap().get("guests").unwrap().as_array().unwrap();
    assert_eq!(guests.len(), 2);
    assert_eq!(guests[0].get("id").unwrap(), "5");
    assert_eq!(guests[1].get("id").unwrap(), "6");
}

#[test]
fn empty_relationships_project_as_empty_object() {
    let r = resource(JsonApiType::Friend, "3");
    let m = r.to_map();
    let rels = m.get("relationships").unwrap();
    assert_eq!(rels, &serde_json::Value::Object(serde_json::Map::new()));
}

#[test]
fn projection_shape_of_resource() {
    let mut r = resource(JsonApiType::UserIdList, "44");
    r.attributes = Some(string_attrs(&[("label", "friends")]));
    let m = r.to_map();
    assert_eq!(m.len(), 4);
    assert_eq!(m.get("id").unwrap(), "44");
    assert_eq!(m.get("type").unwrap(), "useridlist");
    assert_eq!(m.get("attributes").unwrap().get("label").unwrap(), "friends");
}

#[test]
fn relationships_block_is_always_present() {
    let r = resource(JsonApiType::Login, "1");
    let block = r.relationships();
    assert_eq!(block, Some(serde_json::Map::new()));
}

#[test]
fn same_entity_depends_on_kind_and_id_only() {
    let mut a = resource(JsonApiType::User, "7");
    a.attributes = Some(string_attrs(&[("name", "left")]));
    let mut b = resource(JsonApiType::User, "7");
    b.attributes = Some(string_attrs(&[("name", "right")]));
    b.relationship_name = Some("owner".to_string());
    assert!(a.is_same_entity(&b));

    let c = resource(JsonApiType::Event, "7");
    assert!(!a.is_same_entity(&c));

    let d = resource(JsonApiType::User, "8");
    assert!(!a.is_same_entity(&d));

    let mut untyped = JsonApiObject::new();
    untyped.id = Some("7".to_string());
    assert!(!a.is_same_entity(&untyped));
    assert!(!untyped.is_same_entity(&untyped));
}

#[test]
fn wire_names_of_all_kinds() {
    assert_eq!(JsonApiType::User.wire_name(), "user");
    assert_eq!(JsonApiType::Event.wire_name(), "event");
    assert_eq!(JsonApiType::Rsvp.wire_name(), "rsvp");
    assert_eq!(JsonApiType::Message.wire_name(), "message");
    assert_eq!(JsonApiType::Login.wire_name(), "login");
    assert_eq!(JsonApiType::Device.wire_name(), "device");
    assert_eq!(JsonApiType::Friend.wire_name(), "friend");
    assert_eq!(JsonApiType::UserIdList.wire_name(), "useridlist");
}

#[test]
fn resource_without_id_projects_null_id() {
    let mut r = JsonApiObject::new();
    r.jsonapi_type = Some(JsonApiType::User);
    let m = r.to_map();
    assert_eq!(m.get("id").unwrap(), &serde_json::Value::Null);
}

#[test]
fn attribute_values_pass_through_unchanged() {
    let mut attrs = serde_json::Map::new();
    attrs.insert("flag".to_string(), serde_json::Value::Bool(true));
    attrs.insert("count".to_string(), serde_json::Value::from(31i64));
    attrs.insert("note".to_string(), serde_json::Value::Null);
    let mut r = resource(JsonApiType::Device, "d1");
    r.attributes = Some(attrs);
    let mut root = JsonApiRoot::new();
    root.add_root_item(r);
    let v = parse(root);
    let got = v.get("data").unwrap().get("attributes").unwrap();
    assert_eq!(got.get("flag").unwrap(), &serde_json::Value::Bool(true));
    assert_eq!(got.get("count").unwrap(), &serde_json::Value::from(31i64));
    assert_eq!(got.get("note").unwrap(), &serde_json::Value::Null);
}

fn owned_event_document() -> JsonApiRoot {
    let mut event = resource(JsonApiType::Event, "2");
    event.attributes = Some(string_attrs(&[("name", "Event is my name")]));
    let mut owner = related(JsonApiType::User, "1", "owner");
    owner.attributes = Some(string_attrs(&[("name", "Joel la malice")]));
    event.add_relationship(owner);
    let mut root = JsonApiRoot::new();
    root.add_root_item(event);
    root
}

#[test]
fn equal_documents_serialize_to_equal_text() {
    let first = owned_event_document().serialize().unwrap();
    let second = owned_event_document().serialize().unwrap();
    assert_eq!(first, second);
}

#[test]
fn string_attributes_are_escaped_by_the_encoder() {
    let mut r = resource(JsonApiType::Message, "m1");
    r.attributes = Some(string_attrs(&[("body", "say \"hi\"\n")]));
    let mut root = JsonApiRoot::new();
    root.add_root_item(r);
    let text = root.serialize().unwrap();
    assert!(text.contains("say \\\"hi\\\"\\n"));
    let v: serde_json::Value = serde_json::from_str(&text).unwrap();
    assert_eq!(v.get("data").unwrap().get("attributes").unwrap().get("body").unwrap(), "say \"hi\"\n");
}
