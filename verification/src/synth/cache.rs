use vstd::prelude::*;

use vstd::std_specs::cmp::PartialEqSpec;

verus! {

/// Holds of `y` where it is what `f` may give back for a clone of `x`.
pub open spec fn computed_from<T: Clone, S, F: Fn(T) -> S>(f: F, x: T, y: S) -> bool {
    exists|c: T| cloned::<T>(x, c) && #[trigger] f.ensures((c,), y)
}

/// Remembers the result of `f` for the last argument it was computed for.
#[verifier::reject_recursive_types(T)]
#[verifier::reject_recursive_types(S)]
pub struct Cache<T, S, F>
    where T: Clone + PartialEq, F: Fn(T) -> S
{
    cache: Option<(T, S)>,
    f: F,
}

impl<T, S, F> Cache<T, S, F>
    where T: Clone + PartialEq, F: Fn(T) -> S
{
    /// The argument and result remembered, if any.
    pub closed spec fn cached(&self) -> Option<(T, S)> {
        self.cache
    }

    /// The function whose results are remembered.
    pub closed spec fn function(&self) -> F {
        self.f
    }

    /// The remembered result, if any, is one that the function gave for its
    /// remembered argument.
    pub open spec fn remembers_results(&self) -> bool {
        self.cached() matches Some(entry) ==> computed_from(self.function(), entry.0, entry.1)
    }

    /// `x` is the remembered argument, as `T`'s `==` compares.
    pub open spec fn is_hit(&self, x: T) -> bool {
        self.cached() matches Some(entry) && entry.0.eq_spec(&x)
    }

    /// A cache that remembers nothing yet.
    pub fn new(f: F) -> (r: Self)
        ensures
            r.cached() == None::<(T, S)>,
            r.function() == f,
            r.remembers_results(),
    {
        Cache { cache: None, f }
    }

    /// Computes `f` for `x` and remembers `x` with the result.
    pub fn update(&mut self, x: T)
        requires
            forall|t: T| #[trigger] old(self).function().requires((t,)),
        ensures
            final(self).function() == old(self).function(),
            final(self).cached() matches Some(entry) && entry.0 == x && computed_from(old(self).function(), x, entry.1),
            final(self).remembers_results(),
    {
        let c = x.clone();
        assert(old(self).function().requires((c,)));
        let y = (self.f)(c);
        self.cache = Some((x, y));
    }

    /// The result of `f` for `x`: the remembered one where `x` is the
    /// remembered argument, else a new one, which is then remembered.
    pub fn get(&mut self, x: T) -> (r: &S)
        requires
            forall|t: T| #[trigger] old(self).function().requires((t,)),
        ensures
            final(self).function() == old(self).function(),
            final(self).cached() matches Some(entry) && *r == entry.1,
            final(self).cached() == old(self).cached()
                || (final(self).cached() matches Some(entry) && entry.0 == x
                    && computed_from(old(self).function(), x, entry.1)),
            T::obeys_eq_spec() && old(self).is_hit(x) ==> final(self).cached() == old(self).cached(),
            T::obeys_eq_spec() && !old(self).is_hit(x) ==> (final(self).cached() matches Some(entry)
                && entry.0 == x && computed_from(old(self).function(), x, *r)),
            old(self).remembers_results() ==> final(self).remembers_results(),
            old(self).remembers_results() && vstd::laws_eq::obeys_concrete_eq::<T>()
                ==> computed_from(old(self).function(), x, *r),
    {
        proof {
            reveal(vstd::laws_eq::obeys_concrete_eq);
        }
        let miss = match &self.cache {
            Some(entry) => entry.0 != x,
            None => true,
        };
        if miss {
            let c = x.clone();
            assert(old(self).function().requires((c,)));
            let y = (self.f)(c);
            self.cache = Some((x, y));
        }
        &self.cache.as_ref().unwrap().1
    }

    /// The remembered result where `x` is the remembered argument, else `None`.
    pub fn get_ref(&self, x: T) -> (r: Option<&S>)
        ensures
            self.cached() is None ==> r is None,
            r matches Some(v) ==> (self.cached() matches Some(entry) && *v == entry.1),
            T::obeys_eq_spec() ==> r == (match self.cached() {
                Some(entry) => if entry.0.eq_spec(&x) { Some(&entry.1) } else { None::<&S> },
                None => None::<&S>,
            }),
            vstd::laws_eq::obeys_concrete_eq::<T>() ==> r == (match self.cached() {
                Some(entry) => if entry.0 == x { Some(&entry.1) } else { None::<&S> },
                None => None::<&S>,
            }),
    {
        proof {
            reveal(vstd::laws_eq::obeys_concrete_eq);
        }
        match &self.cache {
            Some(entry) => {
                if entry.0 == x {
                    Some(&entry.1)
                } else {
                    None
                }
            },
            None => None,
        }
    }
}

} // verus!
