//! Run exported functions of pre-compiled Noir circuits from a host program.
//!
//! The crate revolves around a four-variant value tree describing every datum
//! a circuit function can take or return, a total converter from a generic
//! host-side data tree into that value tree, and a runner that owns the
//! program and export directories and settles each step of an invocation into
//! either an output value or a member of the error taxonomy.

mod convert;
mod error;
mod field;
mod host;
mod lex;
mod runner;
mod value;

pub use convert::convert;
pub use convert::convert_model;
pub use convert::convert_model_entries;
pub use convert::convert_model_seq;
pub use convert::host_key_set;
pub use convert::host_lookup;
pub use convert::insert_sorted;
pub use convert::key_set;
pub use convert::lemma_convert_array_order;
pub use convert::lemma_convert_bool;
pub use convert::lemma_convert_byte_array;
pub use convert::lemma_convert_null;
pub use convert::lemma_convert_object_keys;
pub use convert::lemma_convert_object_lookup;
pub use convert::lemma_convert_object_sorted;
pub use convert::lemma_convert_text;
pub use convert::lookup;
pub use convert::scalar_of_number;
pub use error::Error;
pub use field::embed_signed;
pub use field::field_order;
pub use field::FieldElement;
pub use field::FIELD_ORDER_HI;
pub use field::FIELD_ORDER_LO;
pub use host::HostValue;
pub use host::Number;
pub use lex::lemma_str_lt_asymmetric;
pub use lex::lemma_str_lt_connex;
pub use lex::lemma_str_lt_transitive;
pub use lex::str_lt;
pub use lex::str_lt_exec;
pub use runner::outcome_of;
pub use runner::NoirRunner;
pub use runner::RunEvent;
pub use value::entries_sorted;
pub use value::keys_sorted;
pub use value::model_entries;
pub use value::model_seq;
pub use value::GValue;
pub use value::Value;
