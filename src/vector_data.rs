use vstd::prelude::*;

use crate::error::MatError;
use crate::scalar::Scalar;

verus! {

/// A vector that owns its elements.
pub struct Vector<T> {
    pub data: Vec<T>,
}

impl<T> View for Vector<T> {
    type V = Seq<T>;

    open spec fn view(&self) -> Seq<T> {
        self.data@
    }
}

/// `r` is `s` with `f` applied to each element.
pub open spec fn applied<T, F: Fn(T) -> T>(s: Seq<T>, r: Seq<T>, f: F) -> bool {
    &&& r.len() == s.len()
    &&& forall|i: int| 0 <= i < s.len() ==> f.ensures((s[i],), #[trigger] r[i])
}

impl<T> Vector<T> {
    pub fn new(data: Vec<T>) -> (v: Vector<T>)
        ensures
            v@ == data@,
    {
        Vector { data }
    }

    /// The vector `[f(0), f(1), ..., f(length - 1)]`.
    pub fn from_fn<F: Fn(usize) -> T>(f: F, length: usize) -> (v: Vector<T>)
        requires
            forall|i: usize| i < length ==> #[trigger] f.requires((i,)),
        ensures
            v@.len() == length,
            forall|i: int| 0 <= i < length ==> f.ensures((i as usize,), #[trigger] v@[i]),
    {
        let mut d: Vec<T> = Vec::new();
        let mut k: usize = 0;
        while k < length
            invariant
                k <= length,
                d@.len() == k,
                forall|i: usize| i < length ==> #[trigger] f.requires((i,)),
                forall|i: int| 0 <= i < k ==> f.ensures((i as usize,), #[trigger] d@[i]),
            decreases length - k,
        {
            d.push(f(k));
            k += 1;
        }
        Vector { data: d }
    }

    pub fn get_size(&self) -> (n: usize)
        ensures
            n == self@.len(),
    {
        self.data.len()
    }

    pub fn get_data(&self) -> (d: &Vec<T>)
        ensures
            d@ == self@,
    {
        &self.data
    }

    pub fn get_mut_data(&mut self) -> (d: &mut [T])
        ensures
            d@ == old(self)@,
            final(self)@ == final(d)@,
    {
        self.data.as_mut_slice()
    }

    /// A reference to element `idx`.
    pub fn uget(&self, idx: usize) -> (r: &T)
        requires
            idx < self@.len(),
        ensures
            *r == self@[idx as int],
    {
        &self.data[idx]
    }

    /// A mutable reference to element `idx`.
    pub fn uget_mut(&mut self, idx: usize) -> (r: &mut T)
        requires
            idx < old(self)@.len(),
        ensures
            *r == old(self)@[idx as int],
            final(self)@ == old(self)@.update(idx as int, *final(r)),
    {
        &mut self.data[idx]
    }

    pub fn is_empty(&self) -> (b: bool)
        ensures
            b == (self@.len() == 0),
    {
        self.data.len() == 0
    }

    pub fn as_slice(&self) -> (s: &[T])
        ensures
            s@ == self@,
    {
        self.data.as_slice()
    }

    pub fn as_mut_slice(&mut self) -> (s: &mut [T])
        ensures
            s@ == old(self)@,
            final(self)@ == final(s)@,
    {
        self.data.as_mut_slice()
    }

    /// Hands the elements over, in order.
    pub fn into_iter(self) -> (v: Vec<T>)
        ensures
            v@ == self@,
    {
        self.data
    }
}

impl<T: Copy> Vector<T> {
    /// Applies `f` to every element, in place, and returns the vector.
    pub fn apply<F: Fn(T) -> T>(self, f: &F) -> (v: Vector<T>)
        requires
            forall|x: T| #[trigger] f.requires((x,)),
        ensures
            applied(self@, v@, *f),
    {
        let ghost s = self@;
        let mut d = self.data;
        let n = d.len();
        let mut k: usize = 0;
        while k < n
            invariant
                forall|x: T| #[trigger] f.requires((x,)),
                n == s.len(),
                k <= n,
                d@.len() == n,
                forall|i: int| k <= i < n ==> d@[i] == s[i],
                forall|i: int| 0 <= i < k ==> f.ensures((s[i],), #[trigger] d@[i]),
            decreases n - k,
        {
            let y = f(d[k]);
            d.set(k, y);
            k += 1;
        }
        Vector { data: d }
    }

    /// A copy of the elements, in order.
    pub fn into_vec(&self) -> (v: Vec<T>)
        ensures
            v@ == self@,
    {
        let mut v: Vec<T> = Vec::new();
        let mut k: usize = 0;
        while k < self.data.len()
            invariant
                k <= self@.len(),
                v@ == self@.subrange(0, k as int),
            decreases self@.len() - k,
        {
            v.push(self.data[k]);
            k += 1;
        }
        proof {
            assert(v@ =~= self@);
        }
        v
    }
}

impl<T: Scalar> Vector<T> {
    /// Position of the first greatest element.
    pub fn argsort(&self) -> (res: Result<usize, MatError>)
        ensures
            res is Ok <==> self@.len() > 0,
            match res {
                Ok(p) => {
                    &&& p < self@.len()
                    &&& forall|i: int| 0 <= i < self@.len() ==> !self@[p as int].less(#[trigger] self@[i])
                    &&& forall|i: int| 0 <= i < p ==> (#[trigger] self@[i]).less(self@[p as int])
                },
                Err(e) => e == MatError::EmptyInputError,
            },
    {
        let n = self.data.len();
        if n == 0 {
            return Err(MatError::EmptyInputError);
        }
        proof {
            T::lemma_strict_total_order();
        }
        let mut best: usize = 0;
        let mut k: usize = 1;
        while k < n
            invariant
                n == self@.len(),
                best < k <= n,
                forall|i: int| 0 <= i < k ==> !self@[best as int].less(#[trigger] self@[i]),
                forall|i: int| 0 <= i < best ==> (#[trigger] self@[i]).less(self@[best as int]),
                forall|a: T| !#[trigger] a.less(a),
                forall|a: T, b: T, c: T| #[trigger] a.less(b) && #[trigger] b.less(c) ==> a.less(c),
                forall|a: T, b: T| a.less(b) || b.less(a) || a == b,
            decreases n - k,
        {
            if self.data[best].lt(&self.data[k]) {
                proof {
                    assert forall|i: int| 0 <= i < k implies (#[trigger] self@[i]).less(self@[k as int]) by {
                        if self@[i] != self@[best as int] {
                            assert(self@[i].less(self@[best as int]));
                        }
                    }
                    assert forall|i: int| 0 <= i < k + 1 implies !self@[k as int].less(#[trigger] self@[i]) by {
                        if i < k {
                            assert(self@[i].less(self@[k as int]));
                            if self@[k as int].less(self@[i]) {
                                assert(self@[k as int].less(self@[k as int]));
                            }
                        }
                    }
                }
                best = k;
            }
            k += 1;
        }
        Ok(best)
    }
}


/// Every call of `f` on the same argument gives the same result.
pub open spec fn deterministic<T, F: Fn(T) -> T>(f: F) -> bool {
    forall|a: T, b1: T, b2: T| f.ensures((a,), b1) && f.ensures((a,), b2) ==> b1 == b2
}

/// Applying `f` and then `g` is applying `h`, the composite of the two:
/// `apply(g)(apply(f)(v)) == apply(x => g(f(x)))(v)`.
pub proof fn lemma_apply_compose<T, F: Fn(T) -> T, G: Fn(T) -> T, H: Fn(T) -> T>(
    v: Seq<T>,
    w: Seq<T>,
    u: Seq<T>,
    x: Seq<T>,
    f: F,
    g: G,
    h: H,
)
    requires
        deterministic(f),
        deterministic(g),
        forall|a: T, c: T|
            #[trigger] h.ensures((a,), c) <==> exists|b: T| f.ensures((a,), b) && g.ensures((b,), c),
        applied(v, w, f),
        applied(w, u, g),
        applied(v, x, h),
    ensures
        u == x,
{
    assert forall|i: int| 0 <= i < u.len() implies u[i] == x[i] by {
        assert(h.ensures((v[i],), x[i]));
        assert(f.ensures((v[i],), w[i]));
        assert(g.ensures((w[i],), u[i]));
    }
    assert(u =~= x);
}

} // verus!
