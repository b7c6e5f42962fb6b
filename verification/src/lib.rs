//! A verified JSON:API document serializer.
//!
//! A document holds a sequence of typed, identified resources; resources
//! carry attributes and named relationships to further resources. The
//! library assembles the JSON:API wire form (`data`, deduplicated
//! `included`, `links`, `meta`, `jsonapi`) as a `serde_json` value tree
//! and encodes it through `serde_json`.

pub mod document;
pub mod resource;
pub mod value;

pub use document::EncodeError;
pub use document::JsonApiRoot;
pub use resource::JsonApiObject;
pub use resource::JsonApiRelationType;
pub use resource::JsonApiType;
pub use value::JVal;
