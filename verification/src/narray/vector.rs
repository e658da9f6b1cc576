use vstd::prelude::*;
use crate::narray::errors::NErrors;
use crate::narray::scalar::Scalar;

verus! {

/// The dot product of two sequences of equal length: the products of the
/// paired elements, added up from the first pair to the last, starting from
/// zero.
pub open spec fn dot_product<T: Scalar>(a: Seq<T>, b: Seq<T>) -> T
    decreases a.len(),
{
    if a.len() == 0 || a.len() != b.len() {
        T::zero_spec()
    } else {
        dot_product(a.drop_last(), b.drop_last()).add_spec(a.last().mul_spec(b.last()))
    }
}

/// The elementwise product of two sequences.
pub open spec fn hadamard_product<T: Scalar>(a: Seq<T>, b: Seq<T>) -> Seq<T> {
    Seq::new(a.len(), |i: int| a[i].mul_spec(b[i]))
}

/// The elementwise sum of two sequences.
pub open spec fn elementwise_sum<T: Scalar>(a: Seq<T>, b: Seq<T>) -> Seq<T> {
    Seq::new(a.len(), |i: int| a[i].add_spec(b[i]))
}

/// The elementwise difference of two sequences.
pub open spec fn elementwise_difference<T: Scalar>(a: Seq<T>, b: Seq<T>) -> Seq<T> {
    Seq::new(a.len(), |i: int| a[i].sub_spec(b[i]))
}

/// Every element of a sequence multiplied by `k`.
pub open spec fn scaled<T: Scalar>(a: Seq<T>, k: T) -> Seq<T> {
    Seq::new(a.len(), |i: int| a[i].mul_spec(k))
}

/// A sequence of `n` zeros.
pub open spec fn zeros<T: Scalar>(n: nat) -> Seq<T> {
    Seq::new(n, |i: int| T::zero_spec())
}

/// A dense vector of scalars. Its view is the sequence of its elements.
#[derive(Debug, PartialEq)]
pub struct NVector<T: Scalar> {
    data: Vec<T>,
    len: usize,
}

impl<T: Scalar> View for NVector<T> {
    type V = Seq<T>;

    closed spec fn view(&self) -> Seq<T> {
        self.data@
    }
}

impl<T: Scalar> Clone for NVector<T> {
    fn clone(&self) -> (r: Self)
        ensures
            r@ == self@,
    {
        proof {
            use_type_invariant(self);
        }
        let mut copy: Vec<T> = Vec::with_capacity(self.len);
        let mut i: usize = 0;
        while i < self.len
            invariant
                i <= self.len,
                self.len == self.data@.len(),
                copy@ == self.data@.take(i as int),
            decreases self.len - i,
        {
            copy.push(self.data[i]);
            proof {
                assert(copy@ =~= self.data@.take(i + 1));
            }
            i = i + 1;
        }
        proof {
            assert(self.data@.take(i as int) =~= self.data@);
        }
        NVector { data: copy, len: self.len }
    }
}

impl<T: Scalar> NVector<T> {
    #[verifier::type_invariant]
    spec fn length_matches(self) -> bool {
        self.len == self.data@.len()
    }

    /// A vector of `length` zeros.
    pub fn new(length: usize) -> (r: NVector<T>)
        ensures
            r@ == zeros::<T>(length as nat),
    {
        let mut data: Vec<T> = Vec::with_capacity(length);
        let mut i: usize = 0;
        while i < length
            invariant
                i <= length,
                data@ == zeros::<T>(i as nat),
            decreases length - i,
        {
            data.push(T::zero());
            proof {
                assert(data@ =~= zeros::<T>((i + 1) as nat));
            }
            i = i + 1;
        }
        NVector { data, len: length }
    }

    /// The vector that holds exactly the elements of `data`, in their order.
    pub fn new_init(data: Vec<T>) -> (r: NVector<T>)
        ensures
            r@ == data@,
    {
        let length = data.len();
        NVector { data, len: length }
    }

    /// The number of elements.
    pub fn len(&self) -> (r: usize)
        ensures
            r == self@.len(),
    {
        proof {
            use_type_invariant(self);
        }
        self.len
    }

    /// The elements, in order.
    pub fn data(&self) -> (r: &Vec<T>)
        ensures
            r@ == self@,
    {
        &self.data
    }

    /// The element at `i`, or `None` where `i` is past the end.
    pub fn get(&self, i: usize) -> (r: Option<T>)
        ensures
            r == (if i < self@.len() { Some(self@[i as int]) } else { None }),
    {
        proof {
            use_type_invariant(self);
        }
        if i >= self.len {
            return None;
        }
        Some(self.data[i])
    }

    /// Replaces the element at `i` by `value`. Past the end nothing is
    /// written and `IndexError` comes back.
    pub fn set(&mut self, i: usize, value: T) -> (r: Result<(), NErrors>)
        ensures
            i < old(self)@.len() ==> r == Ok::<(), NErrors>(())
                && final(self)@ == old(self)@.update(i as int, value),
            i >= old(self)@.len() ==> r == Err::<(), NErrors>(NErrors::IndexError)
                && final(self)@ == old(self)@,
    {
        proof {
            use_type_invariant(&*self);
        }
        if self.len <= i {
            return Err(NErrors::IndexError);
        }
        self.data[i] = value;
        Ok(())
    }

    /// The dot product with `other`, or `ShapeMismatch` where the lengths
    /// differ.
    pub fn dot(&self, other: &NVector<T>) -> (r: Result<T, NErrors>)
        ensures
            self@.len() == other@.len() ==> r == Ok::<T, NErrors>(dot_product(self@, other@)),
            self@.len() != other@.len() ==> r == Err::<T, NErrors>(NErrors::ShapeMismatch),
    {
        proof {
            use_type_invariant(self);
            use_type_invariant(other);
        }
        if self.len != other.len {
            return Err(NErrors::ShapeMismatch);
        }
        let mut acc = T::zero();
        let mut i: usize = 0;
        while i < self.len
            invariant
                i <= self.len,
                self.len == self.data@.len(),
                self.len == other.data@.len(),
                acc == dot_product(self.data@.take(i as int), other.data@.take(i as int)),
            decreases self.len - i,
        {
            proof {
                assert(self.data@.take(i + 1).drop_last() =~= self.data@.take(i as int));
                assert(other.data@.take(i + 1).drop_last() =~= other.data@.take(i as int));
            }
            acc = acc.add(self.data[i].mul(other.data[i]));
            i = i + 1;
        }
        proof {
            assert(self.data@.take(i as int) =~= self.data@);
            assert(other.data@.take(i as int) =~= other.data@);
        }
        Ok(acc)
    }

    /// The elementwise product with `other`, or `ShapeMismatch` where the
    /// lengths differ.
    pub fn hadamard(&self, other: &NVector<T>) -> (r: Result<NVector<T>, NErrors>)
        ensures
            self@.len() == other@.len() ==> (r matches Ok(v)
                && v@ == hadamard_product(self@, other@)),
            self@.len() != other@.len() ==> r matches Err(NErrors::ShapeMismatch),
    {
        proof {
            use_type_invariant(self);
            use_type_invariant(other);
        }
        if self.len != other.len {
            return Err(NErrors::ShapeMismatch);
        }
        let mut out: Vec<T> = Vec::with_capacity(self.len);
        let mut i: usize = 0;
        while i < self.len
            invariant
                i <= self.len,
                self.len == self.data@.len(),
                self.len == other.data@.len(),
                out@ == hadamard_product(self.data@, other.data@).take(i as int),
            decreases self.len - i,
        {
            out.push(self.data[i].mul(other.data[i]));
            proof {
                assert(out@ =~= hadamard_product(self.data@, other.data@).take(i + 1));
            }
            i = i + 1;
        }
        proof {
            assert(out@ =~= hadamard_product(self.data@, other.data@));
        }
        Ok(NVector { data: out, len: self.len })
    }

    /// The elementwise sum with `rhs`, or `ShapeMismatch` where the lengths
    /// differ.
    pub fn add(&self, rhs: &NVector<T>) -> (r: Result<NVector<T>, NErrors>)
        ensures
            self@.len() == rhs@.len() ==> (r matches Ok(v) && v@ == elementwise_sum(self@, rhs@)),
            self@.len() != rhs@.len() ==> r matches Err(NErrors::ShapeMismatch),
    {
        proof {
            use_type_invariant(self);
            use_type_invariant(rhs);
        }
        if self.len != rhs.len {
            return Err(NErrors::ShapeMismatch);
        }
        let mut out: Vec<T> = Vec::with_capacity(self.len);
        let mut i: usize = 0;
        while i < self.len
            invariant
                i <= self.len,
                self.len == self.data@.len(),
                self.len == rhs.data@.len(),
                out@ == elementwise_sum(self.data@, rhs.data@).take(i as int),
            decreases self.len - i,
        {
            out.push(self.data[i].add(rhs.data[i]));
            proof {
                assert(out@ =~= elementwise_sum(self.data@, rhs.data@).take(i + 1));
            }
            i = i + 1;
        }
        proof {
            assert(out@ =~= elementwise_sum(self.data@, rhs.data@));
        }
        Ok(NVector { data: out, len: self.len })
    }

    /// The elementwise difference `self - rhs`, or `ShapeMismatch` where the
    /// lengths differ.
    pub fn sub(&self, rhs: &NVector<T>) -> (r: Result<NVector<T>, NErrors>)
        ensures
            self@.len() == rhs@.len() ==> (r matches Ok(v)
                && v@ == elementwise_difference(self@, rhs@)),
            self@.len() != rhs@.len() ==> r matches Err(NErrors::ShapeMismatch),
    {
        proof {
            use_type_invariant(self);
            use_type_invariant(rhs);
        }
        if self.len != rhs.len {
            return Err(NErrors::ShapeMismatch);
        }
        let mut out: Vec<T> = Vec::with_capacity(self.len);
        let mut i: usize = 0;
        while i < self.len
            invariant
                i <= self.len,
                self.len == self.data@.len(),
                self.len == rhs.data@.len(),
                out@ == elementwise_difference(self.data@, rhs.data@).take(i as int),
            decreases self.len - i,
        {
            out.push(self.data[i].sub(rhs.data[i]));
            proof {
                assert(out@ =~= elementwise_difference(self.data@, rhs.data@).take(i + 1));
            }
            i = i + 1;
        }
        proof {
            assert(out@ =~= elementwise_difference(self.data@, rhs.data@));
        }
        Ok(NVector { data: out, len: self.len })
    }

    /// Every element multiplied by `k`.
    pub fn scale(&self, k: T) -> (r: NVector<T>)
        ensures
            r@ == scaled(self@, k),
    {
        proof {
            use_type_invariant(self);
        }
        let mut out: Vec<T> = Vec::with_capacity(self.len);
        let mut i: usize = 0;
        while i < self.len
            invariant
                i <= self.len,
                self.len == self.data@.len(),
                out@ == scaled(self.data@, k).take(i as int),
            decreases self.len - i,
        {
            out.push(self.data[i].mul(k));
            proof {
                assert(out@ =~= scaled(self.data@, k).take(i + 1));
            }
            i = i + 1;
        }
        proof {
            assert(out@ =~= scaled(self.data@, k));
        }
        NVector { data: out, len: self.len }
    }
}

} // verus!
