//! Schema-driven binary record codecs.
//!
//! A record declaration is validated into a `RecordSchema`; each derive binds
//! one codec facet (fallible decode, fallible encode, size, indexed decode,
//! indexed encode) to the schema, together with the deduplicated set of
//! element types whose primitives the facet relies on. Primitive reads and
//! writes are done by the `scroll` buffer runtime.
pub mod bytes;
pub mod codec;
pub mod declaration;
pub mod laws;
mod runtime;
pub mod schema;
pub mod typeset;

pub use bytes::ByteOrder;
pub use codec::{
    derive_ioread, derive_iowrite, derive_pread, derive_pwrite, derive_sizewith, IOread, IOwrite,
    Pread, Pwrite, SizeWith,
};
pub use declaration::{
    record_schema, ArrayLen, DeclData, DeclFields, DeclType, Declaration, NamedField, SchemaError,
};
pub use schema::{Field, FieldType, FieldValue, RecordSchema, Scalar};
pub use typeset::unique_field_types;
