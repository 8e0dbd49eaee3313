//! A compact, composable scheme for mapping heterogeneous, enumerable token
//! kinds onto a single flat integer ID space, and for reversing that mapping.
//!
//! A [`layout::Layout`] assigns each kind of a composition a disjoint
//! sub-range of the flat space by a prefix sum over the kinds' sizes. The
//! trait layer ([`token::Token`], [`space::Position`], [`space::TokenSpace`])
//! offers the same scheme for typed token kinds, and [`ext::TokenIter`]
//! applies it across sequences of raw IDs.

pub mod default;
pub mod error;
pub mod ext;
pub mod layout;
pub mod space;
pub mod token;

pub use default::NameTokenSpace;
pub use default::RangeTokenSpace;
pub use error::TokauError;
pub use ext::TokenIter;
pub use layout::Layout;
pub use layout::Resolved;
pub use space::Position;
pub use space::TokenSpace;
pub use token::Token;
