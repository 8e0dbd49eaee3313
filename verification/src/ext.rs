use vstd::prelude::*;

use crate::error::TokauError;
use crate::space::decode_post;
use crate::space::Position;
use crate::space::TokenSpace;
use crate::token::token_for;
use crate::token::Token;

verus! {

/// The remainder values of the IDs of a sequence that lie past the reserved
/// range, in their original order.
pub open spec fn spec_remainders(reserved: u32, ids: Seq<u32>) -> Seq<u32> {
    ids.filter(|id: u32| id >= reserved).map_values(|id: u32| (id - reserved) as u32)
}

/// The tokens of kind `T` that the IDs of a sequence stand for in the space
/// `S`, in their original order, dropping the IDs outside `T`'s sub-range.
pub open spec fn spec_filter_as<S: TokenSpace + Position<T>, T: Token>(ids: Seq<u32>) -> Seq<T> {
    ids.filter(
        |id: u32|
            <S as Position<T>>::spec_offset() <= id && id - <S as Position<T>>::spec_offset()
                < T::spec_count(),
    ).map_values(|id: u32| token_for::<T>((id - <S as Position<T>>::spec_offset()) as u32))
}

/// Stream operators over sequences of raw IDs: apply a space's decoding,
/// filtering and shifting across a whole sequence, preserving order.
pub trait TokenIter where Self: View<V = Seq<u32>> {
    /// The remainder values of the IDs past `S`'s reserved range, in order,
    /// dropping the IDs in the static range.
    fn remainders<S: TokenSpace>(&self) -> (r: Vec<u32>)
        ensures
            r@ == spec_remainders(S::spec_reserved(), self@),
    ;

    /// Decode every ID against the space `S`, one fallible result per ID, in
    /// order.
    fn decode<S: TokenSpace>(&self) -> (r: Vec<Result<S, TokauError>>)
        ensures
            r@.len() == self@.len(),
            forall|i: int| 0 <= i < self@.len() ==> decode_post::<S>(self@[i], #[trigger] r@[i]),
    ;

    /// Shift every ID to past `S`'s reserved range, in order.
    fn after_reserved<S: TokenSpace>(&self) -> (r: Vec<u32>)
        requires
            forall|i: int|
                0 <= i < self@.len() ==> #[trigger] self@[i] + S::spec_reserved() <= u32::MAX,
        ensures
            r@.len() == self@.len(),
            forall|i: int|
                0 <= i < self@.len() ==> #[trigger] r@[i] == self@[i] + S::spec_reserved(),
    ;

    /// The tokens of kind `T` that the IDs stand for in the space `S`, in
    /// order, dropping the IDs outside `T`'s sub-range.
    fn try_as<S: TokenSpace, T: Token>(&self) -> (r: Vec<T>) where S: Position<T>
        ensures
            r@ == spec_filter_as::<S, T>(self@),
    ;
}

impl TokenIter for Vec<u32> {
    fn remainders<S: TokenSpace>(&self) -> (r: Vec<u32>) {
        let n = self.len();
        let reserved = S::reserved();
        let mut r: Vec<u32> = Vec::new();
        let mut i: usize = 0;
        proof {
            assert(self@.take(0) =~= Seq::<u32>::empty());
            reveal(Seq::filter);
        }
        while i < n
            invariant
                i <= n,
                n == self@.len(),
                reserved == S::spec_reserved(),
                r@ == spec_remainders(reserved, self@.take(i as int)),
            decreases n - i,
        {
            let id = self[i];
            proof {
                reveal(Seq::filter);
                assert(self@.take(i + 1).drop_last() =~= self@.take(i as int));
                assert(self@.take(i + 1).last() == self@[i as int]);
                let p = |id: u32| id >= reserved;
                let f = |id: u32| (id - reserved) as u32;
                if self@[i as int] >= reserved {
                    assert(self@.take(i + 1).filter(p) =~= self@.take(i as int).filter(p).push(
                        self@[i as int],
                    ));
                    assert(self@.take(i + 1).filter(p).map_values(f) =~= self@.take(
                        i as int,
                    ).filter(p).map_values(f).push(f(self@[i as int])));
                } else {
                    assert(self@.take(i + 1).filter(p) =~= self@.take(i as int).filter(p));
                }
            }
            if id >= reserved {
                r.push(id - reserved);
            }
            i = i + 1;
        }
        proof {
            assert(self@.take(n as int) =~= self@);
        }
        r
    }

    fn decode<S: TokenSpace>(&self) -> (r: Vec<Result<S, TokauError>>) {
        let n = self.len();
        let mut r: Vec<Result<S, TokauError>> = Vec::new();
        let mut i: usize = 0;
        while i < n
            invariant
                i <= n,
                n == self@.len(),
                r@.len() == i as int,
                forall|j: int| 0 <= j < i ==> decode_post::<S>(self@[j], #[trigger] r@[j]),
            decreases n - i,
        {
            r.push(S::decode(self[i]));
            i = i + 1;
        }
        r
    }

    fn after_reserved<S: TokenSpace>(&self) -> (r: Vec<u32>) {
        let n = self.len();
        let reserved = S::reserved();
        let mut r: Vec<u32> = Vec::new();
        let mut i: usize = 0;
        while i < n
            invariant
                i <= n,
                n == self@.len(),
                reserved == S::spec_reserved(),
                r@.len() == i as int,
                forall|j: int|
                    0 <= j < self@.len() ==> #[trigger] self@[j] + S::spec_reserved() <= u32::MAX,
                forall|j: int| 0 <= j < i ==> #[trigger] r@[j] == self@[j] + S::spec_reserved(),
            decreases n - i,
        {
            r.push(self[i] + reserved);
            i = i + 1;
        }
        r
    }

    fn try_as<S: TokenSpace, T: Token>(&self) -> (r: Vec<T>) where S: Position<T> {
        let n = self.len();
        let mut r: Vec<T> = Vec::new();
        let mut i: usize = 0;
        proof {
            assert(self@.take(0) =~= Seq::<u32>::empty());
            reveal(Seq::filter);
        }
        while i < n
            invariant
                i <= n,
                n == self@.len(),
                r@ == spec_filter_as::<S, T>(self@.take(i as int)),
            decreases n - i,
        {
            let id = self[i];
            proof {
                reveal(Seq::filter);
                assert(self@.take(i + 1).drop_last() =~= self@.take(i as int));
                assert(self@.take(i + 1).last() == self@[i as int]);
            }
            match S::try_as::<T>(id) {
                Some(t) => {
                    proof {
                        let off = <S as Position<T>>::spec_offset();
                        let p = |id: u32| off <= id && id - off < T::spec_count();
                        let f = |id: u32| token_for::<T>((id - off) as u32);
                        let v = (id - off) as u32;
                        assert(exists|w: T| w.wf() && w.spec_value() == v) by {
                            assert(t.wf() && t.spec_value() == v);
                        }
                        assert(f(self@[i as int]) == t);
                        assert(self@.take(i + 1).filter(p) =~= self@.take(i as int).filter(p).push(
                            self@[i as int],
                        ));
                        assert(self@.take(i + 1).filter(p).map_values(f) =~= self@.take(
                            i as int,
                        ).filter(p).map_values(f).push(f(self@[i as int])));
                    }
                    r.push(t);
                },
                None => {
                    proof {
                        let off = <S as Position<T>>::spec_offset();
                        let p = |id: u32| off <= id && id - off < T::spec_count();
                        assert(self@.take(i + 1).filter(p) =~= self@.take(i as int).filter(p));
                    }
                },
            }
            i = i + 1;
        }
        proof {
            assert(self@.take(n as int) =~= self@);
        }
        r
    }
}

/// Dynamic round trip at the stream level, for any space: shifting every ID
/// of a sequence past the reserved range and then taking the remainders
/// gives the sequence back.
pub fn shift_remainder_round_trip<S: TokenSpace>(ids: &Vec<u32>) -> (r: Vec<u32>)
    requires
        forall|i: int|
            0 <= i < ids@.len() ==> #[trigger] ids@[i] + S::spec_reserved() <= u32::MAX,
    ensures
        r@ == ids@,
{
    let shifted = ids.after_reserved::<S>();
    proof {
        assert(shifted@ =~= ids@.map_values(
            |id: u32| (id + S::spec_reserved()) as u32,
        ));
        lemma_shift_then_remainders(S::spec_reserved(), ids@);
    }
    shifted.remainders::<S>()
}

/// Shifting every ID of a sequence past the reserved range and then taking
/// the remainders gives the original sequence back.
pub proof fn lemma_shift_then_remainders(reserved: u32, ids: Seq<u32>)
    requires
        forall|i: int| 0 <= i < ids.len() ==> #[trigger] ids[i] + reserved <= u32::MAX,
    ensures
        spec_remainders(reserved, ids.map_values(|id: u32| (id + reserved) as u32)) == ids,
    decreases ids.len(),
{
    reveal(Seq::filter);
    let f = |id: u32| (id + reserved) as u32;
    let p = |id: u32| id >= reserved;
    let g = |id: u32| (id - reserved) as u32;
    let m = ids.map_values(f);
    if ids.len() == 0 {
        assert(m =~= Seq::<u32>::empty());
        assert(spec_remainders(reserved, m) =~= Seq::<u32>::empty());
    } else {
        lemma_shift_then_remainders(reserved, ids.drop_last());
        assert(m.drop_last() =~= ids.drop_last().map_values(f));
        assert(m.last() == f(ids.last()));
        assert(p(m.last()));
        assert(m.filter(p) =~= m.drop_last().filter(p).push(m.last()));
        assert(m.filter(p).map_values(g) =~= m.drop_last().filter(p).map_values(g).push(
            g(m.last()),
        ));
        assert(g(f(ids.last())) == ids.last());
        assert(spec_remainders(reserved, m) =~= ids);
    }
}

} // verus!
