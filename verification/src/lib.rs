//! A decoder for the Wikibase/Wikidata entity export format: it turns a
//! loosely-typed JSON document into a strict, strongly-typed model of an
//! entity with its claims, qualifiers and references.

pub mod entity;
pub mod ids;
pub mod json;
pub mod numbers;
pub mod strutil;
pub mod text;
pub mod time;

pub use entity::ClaimValue;
pub use entity::ClaimValueData;
pub use entity::Entity;
pub use entity::EntityError;
pub use entity::EntityType;
pub use entity::Rank;
pub use entity::ReferenceGroup;
pub use ids::Fid;
pub use ids::IdParseError;
pub use ids::Lid;
pub use ids::Pid;
pub use ids::Qid;
pub use ids::Sid;
pub use ids::WikiId;
pub use json::JsonValue;
pub use numbers::WbNumber;
pub use text::Lang;
pub use text::Text;
pub use time::UtcDateTime;
