use vstd::prelude::*;

use crate::error::TokauError;
use crate::space::Position;
use crate::space::TokenSpace;
use crate::token::Token;

verus! {

/// The simplest space around one named token kind: the kind's sub-range at
/// offset `0`, and a dynamic tail for everything at or above the kind's
/// count.
#[derive(Debug, PartialEq)]
pub enum NameTokenSpace<T> {
    Token(T),
    Dynamic(u32),
}

/// The simplest space around one range token kind: the kind's sub-range at
/// offset `0`, and a dynamic tail for everything at or above the kind's
/// count.
#[derive(Debug, PartialEq)]
pub enum RangeTokenSpace<T> {
    Token(T),
    Dynamic(u32),
}

impl<T: Token> Position<T> for NameTokenSpace<T> {
    open spec fn spec_offset() -> u32 {
        0
    }

    fn offset() -> u32 {
        0
    }
}

impl<T: Token> TokenSpace for NameTokenSpace<T> {
    open spec fn spec_reserved() -> u32 {
        T::spec_count()
    }

    open spec fn spec_dynamic() -> bool {
        true
    }

    open spec fn wf(&self) -> bool {
        match self {
            NameTokenSpace::Token(t) => t.wf(),
            NameTokenSpace::Dynamic(offset) => *offset + T::spec_count() <= u32::MAX,
        }
    }

    open spec fn spec_value(&self) -> u32 {
        match self {
            NameTokenSpace::Token(t) => t.spec_value(),
            NameTokenSpace::Dynamic(offset) => (T::spec_count() + *offset) as u32,
        }
    }

    fn reserved() -> u32 {
        T::count()
    }

    fn value(self) -> u32 {
        match self {
            NameTokenSpace::Token(t) => t.value(),
            NameTokenSpace::Dynamic(offset) => T::count() + offset,
        }
    }

    fn decode(id: u32) -> Result<Self, TokauError> {
        match T::from_local(id) {
            Ok(t) => Ok(NameTokenSpace::Token(t)),
            Err(_) => Ok(NameTokenSpace::Dynamic(id - T::count())),
        }
    }
}

impl<T: Token> Position<T> for RangeTokenSpace<T> {
    open spec fn spec_offset() -> u32 {
        0
    }

    fn offset() -> u32 {
        0
    }
}

impl<T: Token> TokenSpace for RangeTokenSpace<T> {
    open spec fn spec_reserved() -> u32 {
        T::spec_count()
    }

    open spec fn spec_dynamic() -> bool {
        true
    }

    open spec fn wf(&self) -> bool {
        match self {
            RangeTokenSpace::Token(t) => t.wf(),
            RangeTokenSpace::Dynamic(offset) => *offset + T::spec_count() <= u32::MAX,
        }
    }

    open spec fn spec_value(&self) -> u32 {
        match self {
            RangeTokenSpace::Token(t) => t.spec_value(),
            RangeTokenSpace::Dynamic(offset) => (T::spec_count() + *offset) as u32,
        }
    }

    fn reserved() -> u32 {
        T::count()
    }

    fn value(self) -> u32 {
        match self {
            RangeTokenSpace::Token(t) => t.value(),
            RangeTokenSpace::Dynamic(offset) => T::count() + offset,
        }
    }

    fn decode(id: u32) -> Result<Self, TokauError> {
        match T::from_local(id) {
            Ok(t) => Ok(RangeTokenSpace::Token(t)),
            Err(_) => Ok(RangeTokenSpace::Dynamic(id - T::count())),
        }
    }
}

} // verus!
