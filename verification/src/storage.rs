use vstd::prelude::*;
use std::sync::Arc;
use bytemuck::Pod;
use vstd::layout::size_of;

verus! {

/// `Arc::try_unwrap` of the standard library: hands out the value where
/// this is the only handle to it, and else gives the handle back. Either way
/// what comes back holds the value that went in.
#[verifier::external_body]
fn arc_try_unwrap<T>(a: Arc<Vec<T>>) -> (r: Result<Vec<T>, Arc<Vec<T>>>)
    ensures
        match r {
            Ok(v) => v == *a,
            Err(b) => b == a,
        },
{
    Arc::try_unwrap(a)
}

/// `Arc::clone` of the standard library: one more handle to the same value.
#[verifier::external_body]
fn arc_clone<T>(a: &Arc<Vec<T>>) -> (r: Arc<Vec<T>>)
    ensures
        r == *a,
{
    Arc::clone(a)
}

/// `Arc::strong_count` of the standard library: the number of handles to
/// the value at this moment, the one given among them.
#[verifier::external_body]
fn arc_strong_count<T>(a: &Arc<Vec<T>>) -> (n: usize)
    ensures
        n >= 1,
{
    Arc::strong_count(a)
}

/// `Arc::get_mut` of the standard library, with the vector that it lends
/// taken as a slice by `Vec::as_mut_slice`: lends the elements for writing
/// where this is the only handle to them. What is written through the loan is
/// what the handle holds afterwards. The loan is handed on as a slice, not as
/// the vector, because only a loan of a slice keeps the number of elements,
/// which the views of the storage rely on. Neither call unwinds. Without the
/// loan nothing changes.
#[verifier::external_body]
fn arc_get_mut_slice<T>(a: &mut Arc<Vec<T>>) -> (r: Option<&mut [T]>)
    ensures
        match r {
            Some(s) => s@ == old(a)@ && final(a)@ == final(s)@ && final(s)@.len() == s@.len(),
            None => *final(a) == *old(a),
        },
    no_unwind
{
    Arc::get_mut(a).map(Vec::as_mut_slice)
}

/// `bytemuck::allocation::try_cast_vec`: takes the memory of a vector as a
/// vector of another element type, or gives the vector back. The result
/// covers the same number of bytes.
#[verifier::external_body]
fn cast_vec<A: Pod, B: Pod>(input: Vec<A>) -> (r: Result<Vec<B>, Vec<A>>)
    ensures
        match r {
            Ok(v) => v@.len() * size_of::<B>() == input@.len() * size_of::<A>(),
            Err(v) => v == input,
        },
{
    match bytemuck::allocation::try_cast_vec(input) {
        Ok(v) => Ok(v),
        Err((_, v)) => Err(v),
    }
}

/// `bytemuck::try_cast_slice`: takes the memory of a slice as a slice of
/// another element type, if it can. The result covers the same number of
/// bytes.
#[verifier::external_body]
fn cast_slice<A: Pod, B: Pod>(input: &'static [A]) -> (r: Option<&'static [B]>)
    ensures
        r matches Some(s) ==> s@.len() * size_of::<B>() == input@.len() * size_of::<A>(),
{
    bytemuck::try_cast_slice(input).ok()
}

enum Backing<T: 'static> {
    Owned(Arc<Vec<T>>),
    Static(&'static [T]),
}

/// A region of typed memory that several views can hold at once. It is
/// backed by a vector, which its last holder can take back, or by memory that
/// lives as long as the program, which nobody can.
pub struct SharedStorage<T: 'static> {
    backing: Backing<T>,
}

impl<T: 'static> View for SharedStorage<T> {
    type V = Seq<T>;

    closed spec fn view(&self) -> Seq<T> {
        match self.backing {
            Backing::Owned(a) => a@,
            Backing::Static(s) => s@,
        }
    }
}

impl<T: 'static> SharedStorage<T> {
    /// The storage is backed by a vector.
    pub closed spec fn is_owned(&self) -> bool {
        self.backing is Owned
    }

    /// The storage that holds the elements of `v`.
    pub fn from_vec(v: Vec<T>) -> (s: Self)
        ensures
            s@ == v@,
            s.is_owned(),
    {
        SharedStorage { backing: Backing::Owned(Arc::new(v)) }
    }

    /// The storage that stands for the memory `data`, which is never taken back.
    pub fn from_static(data: &'static [T]) -> (s: Self)
        ensures
            s@ == data@,
            !s.is_owned(),
    {
        SharedStorage { backing: Backing::Static(data) }
    }

    /// The number of elements.
    pub fn len(&self) -> (n: usize)
        ensures
            n == self@.len(),
    {
        match &self.backing {
            Backing::Owned(a) => a.len(),
            Backing::Static(s) => s.len(),
        }
    }

    /// The elements.
    pub fn as_slice(&self) -> (s: &[T])
        ensures
            s@ == self@,
    {
        match &self.backing {
            Backing::Owned(a) => a.as_slice(),
            Backing::Static(s) => s,
        }
    }

    /// The number of holders of this storage at this moment. Memory that
    /// lives as long as the program counts as held twice, so that it never
    /// passes for held by one alone.
    pub fn refcount(&self) -> (n: u64)
        ensures
            n >= 1,
            !self.is_owned() ==> n == 2,
    {
        match &self.backing {
            Backing::Owned(a) => {
                let n: usize = arc_strong_count(a);
                n as u64
            },
            Backing::Static(_) => 2,
        }
    }

    /// Lends the elements for writing, if the storage is backed by a vector
    /// and this is its only holder.
    pub fn try_as_mut_slice(&mut self) -> (r: Option<&mut [T]>)
        ensures
            match r {
                Some(s) => s@ == old(self)@ && final(self)@ == final(s)@ && final(s)@.len()
                    == s@.len() && old(self).is_owned() && final(self).is_owned(),
                None => *final(self) == *old(self),
            },
        no_unwind
    {
        match &mut self.backing {
            Backing::Owned(a) => arc_get_mut_slice(a),
            Backing::Static(_) => None,
        }
    }

    /// Takes the vector back, if the storage is backed by one and this is
    /// its only holder. Else the storage comes back as it was.
    pub fn try_into_vec(self) -> (r: Result<Vec<T>, Self>)
        ensures
            match r {
                Ok(v) => v@ == self@ && self.is_owned(),
                Err(s) => s == self,
            },
            !self.is_owned() ==> r is Err,
    {
        match self.backing {
            Backing::Owned(a) => match arc_try_unwrap(a) {
                Ok(v) => Ok(v),
                Err(a) => Err(SharedStorage { backing: Backing::Owned(a) }),
            },
            Backing::Static(s) => Err(SharedStorage { backing: Backing::Static(s) }),
        }
    }
}

impl<T: 'static> Clone for SharedStorage<T> {
    /// One more holder of the same storage.
    fn clone(&self) -> (r: Self)
        ensures
            r == *self,
    {
        match &self.backing {
            Backing::Owned(a) => SharedStorage { backing: Backing::Owned(arc_clone(a)) },
            Backing::Static(s) => SharedStorage { backing: Backing::Static(*s) },
        }
    }
}

impl<T: Pod> SharedStorage<T> {
    /// Takes the memory of the storage as elements of type `U`, if that can
    /// be done in place: a storage backed by a vector must have this holder
    /// only. The result covers the same number of bytes. Else the storage
    /// comes back with the elements it had.
    pub fn try_transmute<U: Pod>(self) -> (r: Result<SharedStorage<U>, Self>)
        ensures
            match r {
                Ok(s) => s@.len() * size_of::<U>() == self@.len() * size_of::<T>() && s.is_owned()
                    == self.is_owned(),
                Err(s) => s == self,
            },
    {
        match self.backing {
            Backing::Owned(a) => match arc_try_unwrap(a) {
                Ok(v) => match cast_vec::<T, U>(v) {
                    Ok(w) => Ok(SharedStorage { backing: Backing::Owned(Arc::new(w)) }),
                    Err(v) => Err(SharedStorage { backing: Backing::Owned(Arc::new(v)) }),
                },
                Err(a) => Err(SharedStorage { backing: Backing::Owned(a) }),
            },
            Backing::Static(s) => match cast_slice::<T, U>(s) {
                Some(t) => Ok(SharedStorage { backing: Backing::Static(t) }),
                None => Err(SharedStorage { backing: Backing::Static(s) }),
            },
        }
    }
}

} // verus!
