use vstd::prelude::*;

verus! {

/// The sum of the first `n` products of corresponding components: the dot
/// product of the length-`n` prefixes of `a` and `b`.
pub open spec fn spec_dot(a: Seq<i64>, b: Seq<i64>, n: int) -> int
    decreases n,
{
    if n <= 0 {
        0
    } else {
        spec_dot(a, b, n - 1) + a[n - 1] * b[n - 1]
    }
}

/// The sum of the absolute values of the first `n` component products: a
/// bound under which the running dot product cannot overflow.
pub open spec fn spec_dot_abs(a: Seq<i64>, b: Seq<i64>, n: int) -> int
    decreases n,
{
    if n <= 0 {
        0
    } else {
        spec_dot_abs(a, b, n - 1) + vstd::math::abs(a[n - 1] * b[n - 1])
    }
}

/// The absolute-product sum grows monotonically with the prefix length.
pub proof fn lemma_dot_abs_mono(a: Seq<i64>, b: Seq<i64>, m: int, n: int)
    requires
        m <= n,
    ensures
        spec_dot_abs(a, b, m) <= spec_dot_abs(a, b, n),
    decreases n - m,
{
    if m < n {
        lemma_dot_abs_mono(a, b, m, n - 1);
    }
}

/// Every partial dot product stays within the absolute-product sum.
pub proof fn lemma_dot_within_abs(a: Seq<i64>, b: Seq<i64>, n: int)
    ensures
        -spec_dot_abs(a, b, n) <= spec_dot(a, b, n) <= spec_dot_abs(a, b, n),
    decreases n,
{
    if n > 0 {
        lemma_dot_within_abs(a, b, n - 1);
    }
}

/// An N-dimensional vector of integer scalars.
#[derive(Debug, Clone, PartialEq, Eq)]
pub struct Vector<const N: usize> {
    pub data: Vec<i64>,
}

impl<const N: usize> Vector<N> {
    /// The vector holds exactly one scalar per dimension.
    pub open spec fn wf(&self) -> bool {
        self.data@.len() == N
    }

    /// The component at index `i`.
    #[verifier::inline]
    pub open spec fn at(&self, i: int) -> i64 {
        self.data@[i]
    }

    /// The zero vector.
    pub fn new() -> (r: Self)
        ensures
            r.wf(),
            forall|i: int| 0 <= i < N ==> r.at(i) == 0,
    {
        Vector { data: vec![0i64; N] }
    }

    /// A vector of the first N entries of `src`, which must supply at least N.
    pub fn new_from_vec(src: &Vec<i64>) -> (r: Self)
        requires
            src@.len() >= N,
        ensures
            r.wf(),
            forall|i: int| 0 <= i < N ==> r.at(i) == src@[i],
    {
        let mut data: Vec<i64> = Vec::new();
        let mut i: usize = 0;
        while i < N
            invariant
                i <= N,
                src@.len() >= N,
                data@.len() == i,
                forall|k: int| 0 <= k < i ==> data@[k] == src@[k],
            decreases N - i,
        {
            data.push(src[i]);
            i = i + 1;
        }
        Vector { data }
    }

    /// A vector holding exactly the entries of `src`.
    pub fn new_from_array(src: [i64; N]) -> (r: Self)
        ensures
            r.wf(),
            forall|i: int| 0 <= i < N ==> r.at(i) == src@[i],
    {
        let mut data: Vec<i64> = Vec::new();
        let mut i: usize = 0;
        while i < N
            invariant
                i <= N,
                data@.len() == i,
                forall|k: int| 0 <= k < i ==> data@[k] == src@[k],
            decreases N - i,
        {
            data.push(src[i]);
            i = i + 1;
        }
        Vector { data }
    }

    /// The component at index `i`.
    pub fn get(&self, i: usize) -> (r: i64)
        requires
            self.wf(),
            i < N,
        ensures
            r == self.at(i as int),
    {
        self.data[i]
    }

    /// Replaces the component at index `i`.
    pub fn set(&mut self, i: usize, value: i64)
        requires
            old(self).wf(),
            i < N,
        ensures
            final (self).wf(),
            final (self).data@ == old(self).data@.update(i as int, value),
    {
        self.data.set(i, value);
    }

    /// Lifts the vector to a higher dimension M, filling the new trailing
    /// components with `value`.
    pub fn embed<const M: usize>(&self, value: i64) -> (r: Vector<M>)
        requires
            self.wf(),
            N < M,
        ensures
            r.wf(),
            forall|i: int| 0 <= i < N ==> r.at(i) == self.at(i),
            forall|i: int| N <= i < M ==> r.at(i) == value,
    {
        let mut vec: Vector<M> = Vector::new();
        let mut i: usize = 0;
        while i < M
            invariant
                i <= M,
                N < M,
                self.wf(),
                vec.wf(),
                forall|k: int| 0 <= k < i && k < N ==> vec.at(k) == self.at(k),
                forall|k: int| N <= k < i ==> vec.at(k) == value,
            decreases M - i,
        {
            if i < N {
                let v = self.data[i];
                vec.set(i, v);
                assert(vec.at(i as int) == self.at(i as int));
            } else {
                vec.set(i, value);
                assert(vec.at(i as int) == value);
            }
            i = i + 1;
        }
        vec
    }

    /// Truncates the vector to a lower dimension M, dropping the trailing
    /// components.
    pub fn project<const M: usize>(&self) -> (r: Vector<M>)
        requires
            self.wf(),
            N > M,
        ensures
            r.wf(),
            forall|i: int| 0 <= i < M ==> r.at(i) == self.at(i),
    {
        let mut vec: Vector<M> = Vector::new();
        let mut i: usize = 0;
        while i < M
            invariant
                i <= M,
                N > M,
                self.wf(),
                vec.wf(),
                forall|k: int| 0 <= k < i ==> vec.at(k) == self.at(k),
            decreases M - i,
        {
            let v = self.data[i];
            vec.set(i, v);
            i = i + 1;
        }
        vec
    }

    /// Componentwise sum.
    pub fn add(&self, rhs: &Self) -> (r: Self)
        requires
            self.wf(),
            rhs.wf(),
            forall|i: int|
                0 <= i < N ==> i64::MIN <= #[trigger] self.at(i) + rhs.at(i) <= i64::MAX,
        ensures
            r.wf(),
            forall|i: int| 0 <= i < N ==> r.at(i) == self.at(i) + rhs.at(i),
    {
        let mut data: Vec<i64> = Vec::new();
        let mut i: usize = 0;
        while i < N
            invariant
                i <= N,
                self.wf(),
                rhs.wf(),
                forall|k: int|
                    0 <= k < N ==> i64::MIN <= #[trigger] self.at(k) + rhs.at(k) <= i64::MAX,
                data@.len() == i,
                forall|k: int| 0 <= k < i ==> data@[k] == self.at(k) + rhs.at(k),
            decreases N - i,
        {
            assert(i64::MIN <= self.at(i as int) + rhs.at(i as int) <= i64::MAX);
            data.push(self.data[i] + rhs.data[i]);
            i = i + 1;
        }
        Vector { data }
    }

    /// Componentwise difference.
    pub fn sub(&self, rhs: &Self) -> (r: Self)
        requires
            self.wf(),
            rhs.wf(),
            forall|i: int|
                0 <= i < N ==> i64::MIN <= #[trigger] self.at(i) - rhs.at(i) <= i64::MAX,
        ensures
            r.wf(),
            forall|i: int| 0 <= i < N ==> r.at(i) == self.at(i) - rhs.at(i),
    {
        let mut data: Vec<i64> = Vec::new();
        let mut i: usize = 0;
        while i < N
            invariant
                i <= N,
                self.wf(),
                rhs.wf(),
                forall|k: int|
                    0 <= k < N ==> i64::MIN <= #[trigger] self.at(k) - rhs.at(k) <= i64::MAX,
                data@.len() == i,
                forall|k: int| 0 <= k < i ==> data@[k] == self.at(k) - rhs.at(k),
            decreases N - i,
        {
            assert(i64::MIN <= self.at(i as int) - rhs.at(i as int) <= i64::MAX);
            data.push(self.data[i] - rhs.data[i]);
            i = i + 1;
        }
        Vector { data }
    }

    /// Multiplies every component by the scalar `k`.
    pub fn scale(&self, k: i64) -> (r: Self)
        requires
            self.wf(),
            forall|i: int| 0 <= i < N ==> i64::MIN <= #[trigger] (self.at(i) * k) <= i64::MAX,
        ensures
            r.wf(),
            forall|i: int| 0 <= i < N ==> r.at(i) == self.at(i) * k,
    {
        let mut data: Vec<i64> = Vec::new();
        let mut i: usize = 0;
        while i < N
            invariant
                i <= N,
                self.wf(),
                forall|k_: int| 0 <= k_ < N ==> i64::MIN <= #[trigger] (self.at(k_) * k) <= i64::MAX,
                data@.len() == i,
                forall|k_: int| 0 <= k_ < i ==> data@[k_] == self.at(k_) * k,
            decreases N - i,
        {
            assert(i64::MIN <= self.at(i as int) * k <= i64::MAX);
            data.push(self.data[i] * k);
            i = i + 1;
        }
        Vector { data }
    }

    /// The dot product of the two vectors.
    pub fn dot(&self, rhs: &Self) -> (r: i64)
        requires
            self.wf(),
            rhs.wf(),
            spec_dot_abs(self.data@, rhs.data@, N as int) <= i64::MAX,
        ensures
            r == spec_dot(self.data@, rhs.data@, N as int),
    {
        let ghost a = self.data@;
        let ghost b = rhs.data@;
        let mut acc: i64 = 0;
        let mut i: usize = 0;
        while i < N
            invariant
                i <= N,
                self.wf(),
                rhs.wf(),
                a == self.data@,
                b == rhs.data@,
                spec_dot_abs(a, b, N as int) <= i64::MAX,
                acc == spec_dot(a, b, i as int),
            decreases N - i,
        {
            proof {
                lemma_dot_within_abs(a, b, i as int);
                lemma_dot_abs_mono(a, b, i as int, N as int);
                lemma_dot_abs_mono(a, b, i + 1, N as int);
                lemma_dot_within_abs(a, b, i + 1);
            }
            let prod = self.data[i] * rhs.data[i];
            acc = acc + prod;
            i = i + 1;
        }
        acc
    }
}

impl Vector<3> {
    /// The cross product of two 3-dimensional vectors.
    pub fn cross(&self, rhs: &Self) -> (r: Self)
        requires
            self.wf(),
            rhs.wf(),
            i64::MIN <= self.at(1) * rhs.at(2) <= i64::MAX,
            i64::MIN <= self.at(2) * rhs.at(1) <= i64::MAX,
            i64::MIN <= self.at(2) * rhs.at(0) <= i64::MAX,
            i64::MIN <= self.at(0) * rhs.at(2) <= i64::MAX,
            i64::MIN <= self.at(0) * rhs.at(1) <= i64::MAX,
            i64::MIN <= self.at(1) * rhs.at(0) <= i64::MAX,
            i64::MIN <= self.at(1) * rhs.at(2) - self.at(2) * rhs.at(1) <= i64::MAX,
            i64::MIN <= self.at(2) * rhs.at(0) - self.at(0) * rhs.at(2) <= i64::MAX,
            i64::MIN <= self.at(0) * rhs.at(1) - self.at(1) * rhs.at(0) <= i64::MAX,
        ensures
            r.wf(),
            r.at(0) == self.at(1) * rhs.at(2) - self.at(2) * rhs.at(1),
            r.at(1) == self.at(2) * rhs.at(0) - self.at(0) * rhs.at(2),
            r.at(2) == self.at(0) * rhs.at(1) - self.at(1) * rhs.at(0),
    {
        let mut data: Vec<i64> = Vec::new();
        data.push(self.data[1] * rhs.data[2] - self.data[2] * rhs.data[1]);
        data.push(self.data[2] * rhs.data[0] - self.data[0] * rhs.data[2]);
        data.push(self.data[0] * rhs.data[1] - self.data[1] * rhs.data[0]);
        Vector { data }
    }
}

} // verus!
