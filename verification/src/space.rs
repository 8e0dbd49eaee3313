use vstd::prelude::*;

use crate::error::TokauError;
use crate::token::Token;

verus! {

/// Placement of the token kind `TokenType` inside a space: the base position
/// of the kind's sub-range in the space's flat ID space. The same kind used
/// in two different spaces legitimately has two different offsets.
pub trait Position<TokenType: Token> {
    /// The base position of the kind's sub-range.
    spec fn spec_offset() -> u32;

    fn offset() -> (r: u32)
        ensures
            r == Self::spec_offset(),
    ;

    /// Global position of a token instance: its local value shifted by the
    /// kind's offset.
    fn at(token: TokenType) -> (r: u32)
        requires
            token.wf(),
            Self::spec_offset() + token.spec_value() <= u32::MAX,
        ensures
            r == Self::spec_offset() + token.spec_value(),
            token.spec_value() < TokenType::spec_count(),
    {
        token.value() + Self::offset()
    }
}

/// An ordered composition of token kinds over one flat ID space. Every
/// composed kind holds a disjoint sub-range of `[0, reserved())`; a space
/// with a dynamic tail additionally absorbs every ID at or above
/// `reserved()`, with `id - reserved()` as the tail's local offset.
///
/// A value of the space is a tagged value of one composed kind (or of the
/// dynamic tail); `spec_value` gives the flat ID it stands for.
pub trait TokenSpace: Sized {
    /// Total size of the statically composed part of the space.
    spec fn spec_reserved() -> u32;

    /// Whether the space has a dynamic tail.
    spec fn spec_dynamic() -> bool;

    /// Whether this space value is valid: its token is a valid value of its
    /// kind, and its flat ID fits in `u32`.
    spec fn wf(&self) -> bool;

    /// The flat ID this space value stands for.
    spec fn spec_value(&self) -> u32;

    fn reserved() -> (r: u32)
        ensures
            r == Self::spec_reserved(),
    ;

    /// The flat ID this space value stands for.
    fn value(self) -> (r: u32)
        requires
            self.wf(),
        ensures
            r == self.spec_value(),
    ;

    /// Decode a flat ID into the tagged space value that stands for it.
    /// Succeeds exactly on the IDs that some valid space value stands for
    /// (every ID below `reserved()`, and with a dynamic tail every ID); then
    /// it yields the unique such value. Otherwise it fails with the ID and
    /// the space's reserved size, and no valid space value carries the ID.
    fn decode(id: u32) -> (r: Result<Self, TokauError>)
        ensures
            (match r {
                Ok(s) => s.wf() && s.spec_value() == id && (forall|u: Self|
                    u.wf() && u.spec_value() == id ==> u == s),
                Err(e) => !Self::spec_dynamic() && id >= Self::spec_reserved() && e == (
                TokauError::OutOfRange { value: id, max: Self::spec_reserved() }) && (
                forall|u: Self| u.wf() ==> u.spec_value() != id),
            }),
    ;

    /// Try to read a flat ID as a token of the kind `T`: succeeds exactly
    /// when the ID falls in `T`'s sub-range of this space, and then yields
    /// the token whose local value the ID carries.
    fn try_as<T: Token>(id: u32) -> (r: Option<T>) where Self: Position<T>
        ensures
            (match r {
                Some(t) => id >= <Self as Position<T>>::spec_offset() && id - <Self as Position<
                    T,
                >>::spec_offset() < T::spec_count() && t.wf() && t.spec_value() == id - <Self as Position<
                    T,
                >>::spec_offset() && (forall|u: T|
                    u.wf() && u.spec_value() == id - <Self as Position<T>>::spec_offset() ==> u
                        == t),
                None => id < <Self as Position<T>>::spec_offset() || id - <Self as Position<
                    T,
                >>::spec_offset() >= T::spec_count(),
            }),
    {
        let start = <Self as Position<T>>::offset();
        if id >= start {
            match T::from_local(id - start) {
                Ok(t) => Some(t),
                Err(_) => None,
            }
        } else {
            None
        }
    }

    /// Global position of a token of kind `T` in this space.
    fn position_of<T: Token>(token: T) -> (r: u32) where Self: Position<T>
        requires
            token.wf(),
            <Self as Position<T>>::spec_offset() + token.spec_value() <= u32::MAX,
        ensures
            r == <Self as Position<T>>::spec_offset() + token.spec_value(),
            token.spec_value() < T::spec_count(),
    {
        <Self as Position<T>>::at(token)
    }

    /// The local offset of an ID in the region past the reserved range:
    /// `id - reserved()` for `id >= reserved()`, nothing otherwise.
    fn remainder(id: u32) -> (r: Option<u32>)
        ensures
            r == spec_remainder(Self::spec_reserved(), id),
    {
        let reserved = Self::reserved();
        if id >= reserved {
            Some(id - reserved)
        } else {
            None
        }
    }

    /// Whether an ID lies in the statically reserved range.
    fn is_reserved(id: u32) -> (r: bool)
        ensures
            r == (id < Self::spec_reserved()),
    {
        id < Self::reserved()
    }

    /// Shift a local offset to its position past the reserved range.
    fn after_reserved(id: u32) -> (r: u32)
        requires
            id + Self::spec_reserved() <= u32::MAX,
        ensures
            r == spec_after_reserved(Self::spec_reserved(), id),
    {
        id + Self::reserved()
    }
}

/// What [`TokenSpace::decode`] returns for a flat ID `id`: the unique
/// valid space value standing for `id` where one exists, and otherwise the
/// out-of-range failure, in which case no valid space value carries `id`.
pub open spec fn decode_post<S: TokenSpace>(id: u32, r: Result<S, TokauError>) -> bool {
    match r {
        Ok(s) => s.wf() && s.spec_value() == id && (forall|u: S|
            u.wf() && u.spec_value() == id ==> u == s),
        Err(e) => !S::spec_dynamic() && id >= S::spec_reserved() && e == (TokauError::OutOfRange {
            value: id,
            max: S::spec_reserved(),
        }) && (forall|u: S| u.wf() ==> u.spec_value() != id),
    }
}

/// What [`TokenSpace::remainder`] returns: the distance of `id` past the
/// reserved range, where `id` lies past it.
pub open spec fn spec_remainder(reserved: u32, id: u32) -> Option<u32> {
    if id >= reserved {
        Some((id - reserved) as u32)
    } else {
        None
    }
}

/// What [`TokenSpace::after_reserved`] returns: `id` shifted to past the
/// reserved range.
pub open spec fn spec_after_reserved(reserved: u32, id: u32) -> u32
    recommends
        id + reserved <= u32::MAX,
{
    (id + reserved) as u32
}

/// Static round trip at the kind level, for any space and any kind: reading
/// the global position of a valid token of kind `T` back as a `T` yields
/// that token.
pub fn position_round_trip<S: TokenSpace, T: Token>(token: T) -> (r: Option<T>) where
    S: Position<T>

    requires
        token.wf(),
        <S as Position<T>>::spec_offset() + token.spec_value() <= u32::MAX,
    ensures
        r == Some(token),
{
    let id = S::position_of::<T>(token);
    S::try_as::<T>(id)
}

/// Static round trip at the space level, for any space: decoding the flat ID
/// that a valid space value stands for yields that value back.
pub fn decode_round_trip<S: TokenSpace>(s: S) -> (r: Result<S, TokauError>)
    requires
        s.wf(),
    ensures
        r == Ok::<S, TokauError>(s),
{
    let id = s.value();
    S::decode(id)
}

/// Shifting a local offset past the reserved range and taking the remainder
/// gives the offset back, for any space.
pub proof fn lemma_dynamic_round_trip(reserved: u32, offset: u32)
    requires
        offset + reserved <= u32::MAX,
    ensures
        spec_remainder(reserved, spec_after_reserved(reserved, offset)) == Some(offset),
{
}

} // verus!
