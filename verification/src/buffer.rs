use vstd::prelude::*;
use bytemuck::Pod;
use bytemuck::Zeroable;
use either::Either;
use vstd::layout::size_of;
use vstd::slice::slice_subrange;
use crate::storage::SharedStorage;

verus! {

/// `either::Either`: one of two values, `Left` or `Right`, as the crate
/// declares it. Nothing is claimed of it beyond its two variants.
#[verifier::external_type_specification]
#[verifier::reject_recursive_types(L)]
#[verifier::reject_recursive_types(R)]
pub struct ExEither<L, R>(Either<L, R>);

/// `bytemuck::Zeroable::zeroed`: the value of the type whose bytes are all zero.
#[verifier::external_body]
fn zero_value<T: Zeroable>() -> T {
    T::zeroed()
}

/// A view of a window of a shared storage: where the window starts, and how
/// many elements it has. Views of one storage share its memory; making or
/// narrowing a view copies no element.
pub struct Buffer<T: 'static> {
    storage: SharedStorage<T>,
    offset: usize,
    length: usize,
}

impl<T: 'static> View for Buffer<T> {
    type V = Seq<T>;

    /// The elements in the window.
    closed spec fn view(&self) -> Seq<T> {
        self.storage@.subrange(self.offset as int, self.offset + self.length)
    }
}

/// The number of elements of type `U` that cover the bytes of `n` elements
/// of type `T`, where they do so exactly.
pub open spec fn retyped<T, U>(n: nat) -> Option<nat> {
    if size_of::<U>() != 0 && (n * size_of::<T>()) % size_of::<U>() == 0 {
        Some((n * size_of::<T>()) / size_of::<U>())
    } else {
        None
    }
}

impl<T: 'static> Buffer<T> {
    #[verifier::type_invariant]
    spec fn in_bounds(&self) -> bool {
        self.offset + self.length <= self.storage@.len() <= usize::MAX
    }

    /// The storage behind the view.
    pub closed spec fn storage(&self) -> SharedStorage<T> {
        self.storage
    }

    /// Where the window starts in the storage.
    pub closed spec fn start(&self) -> nat {
        self.offset as nat
    }

    /// All the elements of the storage behind the view.
    pub open spec fn backing(&self) -> Seq<T> {
        self.storage()@
    }

    /// The storage behind the view is backed by a vector.
    pub open spec fn is_owned(&self) -> bool {
        self.storage().is_owned()
    }

    /// The empty buffer.
    pub fn new() -> (b: Self)
        ensures
            b@ == Seq::<T>::empty(),
            b.start() == 0,
            b.backing() == Seq::<T>::empty(),
            b.is_owned(),
    {
        Buffer::from_storage(SharedStorage::from_vec(Vec::new()))
    }

    /// The view of all of `storage`.
    pub fn from_storage(storage: SharedStorage<T>) -> (b: Self)
        ensures
            b@ == storage@,
            b.start() == 0,
            b.storage() == storage,
    {
        let length: usize = storage.len();
        let b = Buffer { storage, offset: 0, length };
        assert(b@ =~= storage@);
        b
    }

    /// The view of all of the memory `data`, which is never taken back.
    pub fn from_static(data: &'static [T]) -> (b: Self)
        ensures
            b@ == data@,
            b.start() == 0,
            b.backing() == data@,
            !b.is_owned(),
    {
        Buffer::from_storage(SharedStorage::from_static(data))
    }

    /// The view of all the elements of `v`, which become its storage.
    pub fn from_vec(v: Vec<T>) -> (b: Self)
        ensures
            b@ == v@,
            b.start() == 0,
            b.backing() == v@,
            b.is_owned(),
    {
        Buffer::from_storage(SharedStorage::from_vec(v))
    }

    /// The number of elements in the window.
    pub fn len(&self) -> (n: usize)
        ensures
            n == self@.len(),
    {
        proof {
            use_type_invariant(self);
        }
        self.length
    }

    /// Whether the window is empty.
    pub fn is_empty(&self) -> (b: bool)
        ensures
            b == (self@.len() == 0),
    {
        proof {
            use_type_invariant(self);
        }
        self.length == 0
    }

    /// Whether the storage holds more elements than the window.
    pub fn is_sliced(&self) -> (b: bool)
        ensures
            b == (self.backing().len() != self@.len()),
            !b ==> self.start() == 0 && self@ == self.backing(),
    {
        proof {
            use_type_invariant(self);
            assert(self.storage@.len() == self.length ==> self@ =~= self.storage@);
        }
        self.storage.len() != self.length
    }

    /// The view that starts where this one starts and reaches to the end of
    /// the storage.
    pub fn expand_end_to_storage(self) -> (b: Self)
        ensures
            b.start() == self.start(),
            b.storage() == self.storage(),
            b@ == self.backing().subrange(self.start() as int, self.backing().len() as int),
    {
        proof {
            use_type_invariant(&self);
        }
        let length: usize = self.storage.len() - self.offset;
        Buffer { storage: self.storage, offset: self.offset, length }
    }

    /// The elements in the window.
    pub fn as_slice(&self) -> (s: &[T])
        ensures
            s@ == self@,
    {
        proof {
            use_type_invariant(self);
        }
        slice_subrange(self.storage.as_slice(), self.offset, self.offset + self.length)
    }

    /// The element at place `index` of the window.
    pub fn get(&self, index: usize) -> (r: &T)
        requires
            index < self@.len(),
        ensures
            *r == self@[index as int],
    {
        proof {
            use_type_invariant(self);
        }
        &self.storage.as_slice()[self.offset + index]
    }

    /// The view of the `length` elements from place `offset` of this window.
    /// It shares the storage.
    pub fn sliced(self, offset: usize, length: usize) -> (b: Self)
        requires
            offset + length <= self@.len(),
        ensures
            b@ == self@.subrange(offset as int, offset + length),
            b.start() == self.start() + offset,
            b.storage() == self.storage(),
    {
        self.sliced_unchecked(offset, length)
    }

    /// Narrows the window to its `length` elements from place `offset`.
    pub fn slice(&mut self, offset: usize, length: usize)
        requires
            offset + length <= old(self)@.len(),
        ensures
            final(self)@ == old(self)@.subrange(offset as int, offset + length),
            final(self).start() == old(self).start() + offset,
            final(self).storage() == old(self).storage(),
    {
        self.slice_unchecked(offset, length)
    }

    /// As `sliced`; the bounds are the caller's to keep.
    #[must_use]
    pub fn sliced_unchecked(self, offset: usize, length: usize) -> (b: Self)
        requires
            offset + length <= self@.len(),
        ensures
            b@ == self@.subrange(offset as int, offset + length),
            b.start() == self.start() + offset,
            b.storage() == self.storage(),
    {
        proof {
            use_type_invariant(&self);
        }
        let b = Buffer { storage: self.storage, offset: self.offset + offset, length };
        assert(b@ =~= self@.subrange(offset as int, offset + length));
        b
    }

    /// As `slice`; the bounds are the caller's to keep.
    pub fn slice_unchecked(&mut self, offset: usize, length: usize)
        requires
            offset + length <= old(self)@.len(),
        ensures
            final(self)@ == old(self)@.subrange(offset as int, offset + length),
            final(self).start() == old(self).start() + offset,
            final(self).storage() == old(self).storage(),
    {
        proof {
            use_type_invariant(&*self);
        }
        let start: usize = self.offset + offset;
        self.length = length;
        self.offset = start;
        assert(self@ =~= old(self)@.subrange(offset as int, offset + length));
    }

    /// Where the window starts in the storage. The window ends within the
    /// storage, and the view holds the elements in the window.
    pub fn offset(&self) -> (n: usize)
        ensures
            n == self.start(),
            n + self@.len() <= self.backing().len(),
            self@ == self.backing().subrange(n as int, n + self@.len()),
    {
        proof {
            use_type_invariant(self);
        }
        self.offset
    }

    /// Sets the number of elements in the window.
    pub fn set_len(&mut self, len: usize)
        requires
            old(self).start() + len <= old(self).backing().len(),
        ensures
            final(self).start() == old(self).start(),
            final(self).storage() == old(self).storage(),
            final(self)@ == old(self).backing().subrange(
                old(self).start() as int,
                old(self).start() + len,
            ),
    {
        proof {
            use_type_invariant(&*self);
        }
        self.length = len;
    }

    /// The view of the `length` elements from place `offset` of `storage`.
    pub fn from_storage_window(storage: SharedStorage<T>, offset: usize, length: usize) -> (b: Self)
        requires
            offset + length <= storage@.len(),
        ensures
            b@ == storage@.subrange(offset as int, offset + length),
            b.start() == offset,
            b.storage() == storage,
    {
        let total: usize = storage.len();
        Buffer { storage, offset, length }
    }

    /// What `into_mut` makes of the answer of the storage: the vector where
    /// the storage gave it back, and else the view of its window of the
    /// storage, which starts at `offset` and has `length` elements.
    pub fn reclaimed(taken: Result<Vec<T>, SharedStorage<T>>, offset: usize, length: usize) -> (r:
        Either<Self, Vec<T>>)
        requires
            taken matches Err(s) ==> offset + length <= s@.len(),
        ensures
            match taken {
                Ok(v) => r == Either::<Self, Vec<T>>::Right(v),
                Err(s) => r matches Either::Left(b) && b@ == s@.subrange(
                    offset as int,
                    offset + length,
                ) && b.start() == offset && b.storage() == s,
            },
    {
        match taken {
            Ok(v) => Either::Right(v),
            Err(storage) => Either::Left(Buffer::from_storage_window(storage, offset, length)),
        }
    }

    /// Takes the elements back as a vector, if the view covers all of its
    /// storage and the storage can be taken back: it is backed by a vector
    /// and this view is its only holder. Else the view comes back as it was.
    pub fn into_mut(self) -> (r: Either<Self, Vec<T>>)
        ensures
            match r {
                Either::Left(b) => b == self,
                Either::Right(v) => v@ == self@ && self.backing() == self@ && self.start() == 0
                    && self.is_owned(),
            },
            self.backing().len() != self@.len() || !self.is_owned() ==> r is Left,
    {
        proof {
            use_type_invariant(&self);
        }
        if self.is_sliced() {
            return Either::Left(self);
        }
        let offset = self.offset;
        let length = self.length;
        let r = Buffer::reclaimed(self.storage.try_into_vec(), offset, length);
        proof {
            if let Either::Left(b) = &r {
                use_type_invariant(b);
            }
        }
        r
    }

    /// Lends the elements in the window for writing, if the storage is
    /// backed by a vector and this view is its only holder.
    pub fn get_mut_slice(&mut self) -> (r: Option<&mut [T]>)
        ensures
            match r {
                Some(s) => s@ == old(self)@ && final(self)@ == final(s)@ && final(self).start()
                    == old(self).start() && old(self).is_owned() && final(self).is_owned(),
                None => *final(self) == *old(self),
            },
            r matches Some(s) ==> final(self).backing() == old(self).backing().subrange(
                0,
                old(self).start() as int,
            ) + final(s)@ + old(self).backing().subrange(
                (old(self).start() + old(self)@.len()) as int,
                old(self).backing().len() as int,
            ),
    {
        proof {
            use_type_invariant(&*self);
        }
        let offset = self.offset;
        let length = self.length;
        match self.storage.try_as_mut_slice() {
            Some(all) => Some(window_mut(all, offset, length)),
            None => None,
        }
    }

    /// The number of holders of the storage at this moment. Another holder
    /// may come or go right after.
    pub fn storage_refcount(&self) -> (n: u64)
        ensures
            n >= 1,
            !self.is_owned() ==> n == 2,
    {
        self.storage.refcount()
    }

    /// Whether the window has a place `offset` at which to split it.
    pub fn check_bound(&self, offset: usize) -> (b: bool)
        ensures
            b == (offset <= self@.len()),
    {
        proof {
            use_type_invariant(self);
        }
        offset <= self.length
    }

    /// The two views that the window falls into at place `offset`: its first
    /// `offset` elements, and the rest. Both share the storage.
    pub fn _split_at_unchecked(&self, offset: usize) -> (r: (Self, Self))
        requires
            offset <= self@.len(),
        ensures
            r.0@ == self@.subrange(0, offset as int),
            r.1@ == self@.subrange(offset as int, self@.len() as int),
            r.0@ + r.1@ == self@,
            r.0@.len() + r.1@.len() == self@.len(),
            r.0.start() == self.start(),
            r.1.start() == self.start() + offset,
            r.0.storage() == self.storage(),
            r.1.storage() == self.storage(),
    {
        proof {
            use_type_invariant(self);
        }
        let left = Buffer { storage: self.storage.clone(), offset: self.offset, length: offset };
        let right = Buffer {
            storage: self.storage.clone(),
            offset: self.offset + offset,
            length: self.length - offset,
        };
        assert(left@ =~= self@.subrange(0, offset as int));
        assert(right@ =~= self@.subrange(offset as int, self@.len() as int));
        assert(left@ + right@ =~= self@);
        (left, right)
    }

    /// As `_split_at_unchecked`.
    pub fn split_at(&self, offset: usize) -> (r: (Self, Self))
        requires
            offset <= self@.len(),
        ensures
            r.0@ == self@.subrange(0, offset as int),
            r.1@ == self@.subrange(offset as int, self@.len() as int),
            r.0@ + r.1@ == self@,
            r.0@.len() + r.1@.len() == self@.len(),
            r.0.start() == self.start(),
            r.1.start() == self.start() + offset,
            r.0.storage() == self.storage(),
            r.1.storage() == self.storage(),
    {
        self._split_at_unchecked(offset)
    }
}

impl<T: 'static> Clone for Buffer<T> {
    /// One more view of the same window. No element is copied.
    fn clone(&self) -> (b: Self)
        ensures
            b == *self,
    {
        proof {
            use_type_invariant(self);
        }
        Buffer { storage: self.storage.clone(), offset: self.offset, length: self.length }
    }
}

impl<T: 'static> Default for Buffer<T> {
    /// The empty buffer, as `new` gives it.
    fn default() -> (b: Self)
        ensures
            b@ == Seq::<T>::empty(),
            b.start() == 0,
            b.backing() == Seq::<T>::empty(),
            b.is_owned(),
    {
        Buffer::new()
    }
}

impl<T: Copy> Buffer<T> {
    /// The elements in the window, copied into a vector.
    pub fn to_vec(&self) -> (v: Vec<T>)
        ensures
            v@ == self@,
    {
        vstd::slice::slice_to_vec(self.as_slice())
    }
}

impl<T: Clone> Buffer<T> {
    /// The elements as a vector: taken back from the storage where
    /// `into_mut` can, copied one by one where it cannot.
    pub fn make_mut(self) -> (v: Vec<T>)
        ensures
            v@.len() == self@.len(),
            forall|i: int| 0 <= i < v@.len() ==> cloned::<T>(self@[i], #[trigger] v@[i]),
    {
        match self.into_mut() {
            Either::Right(v) => v,
            Either::Left(same) => {
                let s = same.as_slice();
                let mut v: Vec<T> = Vec::with_capacity(s.len());
                let mut i: usize = 0;
                while i < s.len()
                    invariant
                        i <= s.len(),
                        v@.len() == i,
                        forall|k: int| 0 <= k < i ==> cloned::<T>(s@[k], #[trigger] v@[k]),
                    decreases s.len() - i,
                {
                    v.push(s[i].clone());
                    i = i + 1;
                }
                v
            },
        }
    }
}

impl<T: Zeroable + Copy> Buffer<T> {
    /// A buffer of `len` elements, each the value whose bytes are all zero.
    pub fn zeroed(len: usize) -> (b: Self)
        ensures
            b@.len() == len,
            b.start() == 0,
            b.backing() == b@,
            b.is_owned(),
            forall|i: int, j: int| 0 <= i < len && 0 <= j < len ==> b@[i] == b@[j],
    {
        let zero: T = zero_value();
        let mut v: Vec<T> = Vec::with_capacity(len);
        let mut i: usize = 0;
        while i < len
            invariant
                i <= len,
                v@.len() == i,
                forall|k: int| 0 <= k < i ==> v@[k] == zero,
            decreases len - i,
        {
            v.push(zero);
            i = i + 1;
        }
        Buffer::from_vec(v)
    }
}

impl<T: Pod> Buffer<T> {
    /// What `try_transmute` makes of the answer of the storage for a view
    /// that started at `offset` with `length` elements: the view of the same
    /// bytes of the retyped storage, or the view as it was.
    pub fn retyped_view<U: Pod>(
        cast: Result<SharedStorage<U>, SharedStorage<T>>,
        offset: usize,
        length: usize,
    ) -> (r: Result<Buffer<U>, Self>)
        requires
            retyped::<T, U>(offset as nat) is Some,
            retyped::<T, U>(length as nat) is Some,
            cast matches Ok(s) ==> (offset + length) * size_of::<T>() <= s@.len() * size_of::<U>(),
            cast matches Err(s) ==> offset + length <= s@.len(),
        ensures
            match cast {
                Ok(s) => r matches Ok(b) && retyped::<T, U>(offset as nat) == Some(b.start())
                    && retyped::<T, U>(length as nat) == Some(b@.len()) && b@ == s@.subrange(
                    b.start() as int,
                    (b.start() + b@.len()) as int,
                ) && b.storage() == s,
                Err(s) => r matches Err(b) && b@ == s@.subrange(offset as int, offset + length)
                    && b.start() == offset && b.storage() == s,
            },
    {
        match cast {
            Err(storage) => Err(Buffer::from_storage_window(storage, offset, length)),
            Ok(storage) => {
                let from: usize = core::mem::size_of::<T>();
                let to: usize = core::mem::size_of::<U>();
                let total: usize = storage.len();
                proof {
                    lemma_retyped_window(
                        offset as int,
                        length as int,
                        total as int,
                        from as int,
                        to as int,
                    );
                }
                proof {
                    lemma_product_fits(offset, from);
                    lemma_product_fits(length, from);
                }
                let start: usize = ((offset as u128 * from as u128) / (to as u128)) as usize;
                let count: usize = ((length as u128 * from as u128) / (to as u128)) as usize;
                Ok(Buffer::from_storage_window(storage, start, count))
            },
        }
    }

    /// Takes the memory behind the view as elements of type `U`. The new
    /// view covers the same bytes: it starts at the same byte and has the same
    /// number of bytes. This fails, and the view comes back as it was, where
    /// `U` has no size, where the window's start or length is no whole number
    /// of elements of `U`, and where the storage cannot be retyped in place.
    pub fn try_transmute<U: Pod>(self) -> (r: Result<Buffer<U>, Self>)
        ensures
            match r {
                Ok(b) => retyped::<T, U>(self@.len()) == Some(b@.len()) && retyped::<T, U>(
                    self.start(),
                ) == Some(b.start()) && retyped::<T, U>(self.backing().len()) == Some(
                    b.backing().len(),
                ) && b.is_owned() == self.is_owned(),
                Err(b) => b == self,
            },
            retyped::<T, U>(self@.len()) is None ==> r is Err,
            retyped::<T, U>(self.start()) is None ==> r is Err,
    {
        proof {
            use_type_invariant(&self);
        }
        let from: usize = core::mem::size_of::<T>();
        let to: usize = core::mem::size_of::<U>();
        if to == 0 {
            return Err(self);
        }
        proof {
            lemma_product_fits(self.length, from);
            lemma_product_fits(self.offset, from);
        }
        let byte_len: u128 = self.length as u128 * from as u128;
        let byte_start: u128 = self.offset as u128 * from as u128;
        if byte_len % (to as u128) != 0 || byte_start % (to as u128) != 0 {
            return Err(self);
        }
        let offset = self.offset;
        let length = self.length;
        let ghost total = self.storage@.len();
        let cast = self.storage.try_transmute::<U>();
        proof {
            assert((offset + length) * from <= total * from) by (nonlinear_arith)
                requires
                    offset + length <= total,
                    0 <= from,
            ;
        }
        let r = Buffer::retyped_view(cast, offset, length);
        proof {
            match &r {
                Ok(b) => {
                    use_type_invariant(b);
                    let new_total = b.backing().len() as int;
                    lemma_retyped_total(total as int, new_total, from as int, to as int);
                },
                Err(b) => {
                    use_type_invariant(b);
                },
            }
        }
        r
    }
}

/// The part of a slice of `length` elements from place `offset`, lent for
/// writing. What is written goes into that part of the slice; the rest of
/// the slice stays.
pub fn window_mut<T>(all: &mut [T], offset: usize, length: usize) -> (r: &mut [T])
    requires
        offset + length <= old(all)@.len(),
    ensures
        r@ == old(all)@.subrange(offset as int, offset + length),
        final(all)@ == old(all)@.subrange(0, offset as int) + final(r)@ + old(all)@.subrange(
            offset + length,
            old(all)@.len() as int,
        ),
{
    let (_, rest) = all.split_at_mut(offset);
    let (window, _) = rest.split_at_mut(length);
    window
}

/// The product of two machine-sized numbers fits in 128 bits.
proof fn lemma_product_fits(a: usize, b: usize)
    ensures
        a * b <= u128::MAX,
{
    assert(a * b <= 0xffff_ffff_ffff_ffff * 0xffff_ffff_ffff_ffff) by (nonlinear_arith)
        requires
            0 <= a <= 0xffff_ffff_ffff_ffff,
            0 <= b <= 0xffff_ffff_ffff_ffff,
    ;
}

/// A window that lies within a storage does so in units of another size
/// too, where its start and its length are whole numbers of them.
proof fn lemma_retyped_window(offset: int, length: int, new_total: int, from: int, to: int)
    requires
        0 <= offset,
        0 <= length,
        0 <= from,
        0 < to,
        (offset + length) * from <= new_total * to,
        (offset * from) % to == 0,
        (length * from) % to == 0,
    ensures
        (offset * from) / to + (length * from) / to <= new_total,
        0 <= (offset * from) / to <= offset * from,
        0 <= (length * from) / to <= length * from,
{
    let a = (offset * from) / to;
    let b = (length * from) / to;
    assert(offset * from == a * to && 0 <= a <= offset * from) by (nonlinear_arith)
        requires
            (offset * from) % to == 0,
            a == (offset * from) / to,
            0 < to,
            0 <= offset,
            0 <= from,
    ;
    assert(length * from == b * to && 0 <= b <= length * from) by (nonlinear_arith)
        requires
            (length * from) % to == 0,
            b == (length * from) / to,
            0 < to,
            0 <= length,
            0 <= from,
    ;
    assert((a + b) * to <= new_total * to) by (nonlinear_arith)
        requires
            offset * from == a * to,
            length * from == b * to,
            (offset + length) * from <= new_total * to,
    ;
    assert(a + b <= new_total) by (nonlinear_arith)
        requires
            (a + b) * to <= new_total * to,
            0 < to,
    ;
}

/// A storage that covers the same bytes in units of another size has a
/// whole number of them.
proof fn lemma_retyped_total(total: int, new_total: int, from: int, to: int)
    requires
        0 < to,
        new_total * to == total * from,
    ensures
        (total * from) % to == 0,
        (total * from) / to == new_total,
{
    assert((total * from) % to == 0 && (total * from) / to == new_total) by (nonlinear_arith)
        requires
            new_total * to == total * from,
            0 < to,
    ;
}

/// Retyping a count of elements and retyping the result back gives the
/// count again.
pub proof fn lemma_retyped_round_trip<T, U>(n: nat)
    requires
        retyped::<T, U>(n) is Some,
        size_of::<T>() != 0,
    ensures
        retyped::<U, T>(retyped::<T, U>(n)->Some_0) == Some(n),
{
    let from = size_of::<T>() as int;
    let to = size_of::<U>() as int;
    let m = (n * from) / to;
    assert(m * to == n * from) by (nonlinear_arith)
        requires
            (n * from) % to == 0,
            m == (n * from) / to,
            0 < to,
    ;
    assert((n * from) % from == 0 && (n * from) / from == n) by (nonlinear_arith)
        requires
            0 < from,
            0 <= n,
    ;
}

} // verus!
