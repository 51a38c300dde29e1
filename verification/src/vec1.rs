//! Vectors that hold at least one item.

use vstd::prelude::*;

verus! {

/// A vector with at least one item.
#[derive(Debug, PartialEq, Eq, Hash)]
pub struct Vec1<T>(Vec<T>);

impl<T> Vec1<T> {
    #[verifier::type_invariant]
    spec fn not_empty(self) -> bool {
        self.0@.len() > 0
    }

    /// The items.
    pub closed spec fn items(self) -> Seq<T> {
        self.0@
    }

    /// The vector of one item.
    pub fn from_one(item: T) -> (r: Vec1<T>)
        ensures
            r.items() == seq![item],
    {
        let mut v = Vec::new();
        v.push(item);
        assert(v@ =~= seq![item]);
        Vec1(v)
    }

    /// The items of `v`, or `None` when there are none.
    pub fn from_vec(v: Vec<T>) -> (r: Option<Vec1<T>>)
        ensures
            r is Some <==> v@.len() > 0,
            r matches Some(x) ==> x.items() == v@,
    {
        if v.len() > 0 {
            Some(Vec1(v))
        } else {
            None
        }
    }

    /// The items.
    pub fn as_slice(&self) -> (r: &[T])
        ensures
            r@ == self.items(),
            r@.len() > 0,
    {
        proof {
            use_type_invariant(self);
        }
        self.0.as_slice()
    }

    /// How many items there are.
    pub fn len(&self) -> (r: usize)
        ensures
            r == self.items().len(),
            r > 0,
    {
        proof {
            use_type_invariant(self);
        }
        self.0.len()
    }

    /// The items, as a vector.
    pub fn into_vec(self) -> (r: Vec<T>)
        ensures
            r@ == self.items(),
            r@.len() > 0,
    {
        proof {
            use_type_invariant(&self);
        }
        self.0
    }
}

impl<T: DeepView> DeepView for Vec1<T> {
    type V = Seq<T::V>;

    closed spec fn deep_view(&self) -> Seq<T::V> {
        self.0.deep_view()
    }
}

impl<T: DeepView> Vec1<T> {
    /// The model is the models of the items.
    pub broadcast proof fn lemma_deep_view(x: Vec1<T>)
        ensures
            #[trigger] x.deep_view() == x.items().map_values(|t: T| t.deep_view()),
    {
        assert(x.deep_view() =~= x.items().map_values(|t: T| t.deep_view()));
    }

    /// The vector of the items of `v`, when there are some.
    pub fn from_vec_dv(v: Vec<T>) -> (r: Option<Vec1<T>>)
        ensures
            r is Some <==> v@.len() > 0,
            r matches Some(x) ==> x.deep_view() == v.deep_view(),
    {
        if v.len() > 0 {
            Some(Vec1(v))
        } else {
            None
        }
    }

    /// The items, with their models.
    pub fn as_slice_dv(&self) -> (r: &[T])
        ensures
            r.deep_view() == self.deep_view(),
            r@ == self.items(),
            r@.len() > 0,
    {
        proof {
            use_type_invariant(self);
        }
        let r = self.0.as_slice();
        assert(r.deep_view() =~= self.0.deep_view());
        r
    }
}

impl<T: Clone> Clone for Vec1<T> {
    fn clone(&self) -> (r: Self)
        ensures
            r.items().len() == self.items().len(),
            forall|k: int| 0 <= k < self.items().len() ==> cloned::<T>(#[trigger] self.items()[k], r.items()[k]),
    {
        proof {
            use_type_invariant(self);
        }
        Vec1(self.0.clone())
    }
}

} // verus!

verus! {

/// Each item is smaller than the vector that holds it.
pub proof fn lemma_items_decrease<T>(v: Vec1<T>)
    ensures
        forall|i: int| 0 <= i < v.items().len() ==> decreases_to!(v => #[trigger] v.items()[i]),
{
    assert forall|i: int| 0 <= i < v.items().len() implies decreases_to!(v => #[trigger] v.items()[i]) by {
        assert(decreases_to!(v => v.0));
        assert(decreases_to!(v.0 => v.0@));
        assert(decreases_to!(v.0@ => v.0@[i]));
    }
}

} // verus!
