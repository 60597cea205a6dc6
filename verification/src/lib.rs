//! Object model, memory management and call semantics of the Tonic language
//! runtime.

pub mod arithmetic;
pub mod assignment;
pub mod attributes;
pub mod bootstrap;
pub mod buffer;
pub mod c_api;
pub mod calls;
pub mod class;
pub mod comparison;
pub mod completion;
pub mod diagnostic;
pub mod dict;
pub mod edges;
pub mod finalization;
pub mod float;
pub mod foreign;
pub mod format;
pub mod handles;
pub mod hashing;
pub mod heap;
pub mod integer;
pub mod iteration;
pub mod key;
pub mod laws;
pub mod lookup;
pub mod mapping;
pub mod measure;
pub mod mro;
pub mod namespaces;
pub mod native;
pub mod number;
pub mod object;
pub mod op;
pub mod prepare;
pub mod runtime_owner;
pub mod sequence;
pub mod shapes;
pub mod soundness;
pub mod storage;
pub mod text;
pub mod value;
