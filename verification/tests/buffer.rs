use either::Either;
use plancore::buffer::window_mut;
use plancore::buffer::Buffer;
use plancore::storage::SharedStorage;

static WORDS: [u32; 4] = [10, 20, 30, 40];

#[test]
fn new_buffer_is_empty() {
    let b: Buffer<u32> = Buffer::new();
    assert_eq!(b.len(), 0);
    assert!(b.is_empty());
    assert!(!b.is_sliced());
    assert_eq!(b.offset(), 0);
    assert_eq!(b.as_slice(), &[] as &[u32]);
    let d: Buffer<u32> = Buffer::default();
    assert!(d.is_empty());
}

#[test]
fn from_vec_views_all_elements() {
    let b = Buffer::from_vec(vec![1u32, 2, 3]);
    assert_eq!(b.len(), 3);
    assert!(!b.is_empty());
    assert!(!b.is_sliced());
    assert_eq!(b.as_slice(), &[1, 2, 3]);
    assert_eq!(*b.get(1), 2);
    assert_eq!(b.storage_refcount(), 1);
}

#[test]
fn from_storage_views_all_elements() {
    let b = Buffer::from_storage(SharedStorage::from_vec(vec![7u8, 8]));
    assert_eq!(b.as_slice(), &[7, 8]);
    assert_eq!(b.offset(), 0);
}

#[test]
fn sliced_is_the_window_of_the_slice() {
    let b = Buffer::from_vec(vec![0u32, 1, 2, 3, 4, 5, 6, 7]);
    let whole = b.as_slice().to_vec();
    let before = b.storage_refcount();
    let s = b.sliced(2, 4);
    assert_eq!(s.as_slice(), &whole[2..6]);
    assert_eq!(s.len(), 4);
    assert_eq!(s.offset(), 2);
    assert!(s.is_sliced());
    assert_eq!(s.storage_refcount(), before);
}

#[test]
fn sliced_accepts_the_whole_and_the_empty_window() {
    let b = Buffer::from_vec(vec![1u32, 2, 3]);
    let all = b.clone().sliced(0, 3);
    assert_eq!(all.as_slice(), &[1, 2, 3]);
    let none = b.clone().sliced(3, 0);
    assert!(none.is_empty());
    assert_eq!(none.offset(), 3);
    let unchecked = b.sliced_unchecked(1, 1);
    assert_eq!(unchecked.as_slice(), &[2]);
}

#[test]
fn slice_narrows_in_place_and_offsets_add_up() {
    let mut b = Buffer::from_vec(vec![0u32, 1, 2, 3, 4, 5, 6, 7]);
    b.slice(1, 6);
    assert_eq!(b.as_slice(), &[1, 2, 3, 4, 5, 6]);
    b.slice_unchecked(2, 3);
    assert_eq!(b.as_slice(), &[3, 4, 5]);
    assert_eq!(b.offset(), 3);
}

#[test]
fn expand_end_reaches_the_end_of_the_storage() {
    let b = Buffer::from_vec(vec![0u32, 1, 2, 3, 4]).sliced(1, 2);
    let e = b.expand_end_to_storage();
    assert_eq!(e.as_slice(), &[1, 2, 3, 4]);
    assert_eq!(e.offset(), 1);
}

#[test]
fn set_len_changes_the_window_length() {
    let mut b = Buffer::from_vec(vec![0u32, 1, 2, 3, 4]).sliced(1, 2);
    b.set_len(4);
    assert_eq!(b.as_slice(), &[1, 2, 3, 4]);
    b.set_len(0);
    assert!(b.is_empty());
}

#[test]
fn into_mut_fails_while_shared_and_succeeds_alone() {
    let b = Buffer::from_vec(vec![1u32, 2, 3]);
    assert_eq!(b.storage_refcount(), 1);
    let other = b.clone();
    assert_eq!(b.storage_refcount(), 2);
    let b = match b.into_mut() {
        Either::Left(same) => same,
        Either::Right(_) => panic!("a shared storage was taken back"),
    };
    assert_eq!(b.as_slice(), &[1, 2, 3]);
    drop(other);
    assert_eq!(b.storage_refcount(), 1);
    match b.into_mut() {
        Either::Left(_) => panic!("a storage held alone was not taken back"),
        Either::Right(mut v) => {
            assert_eq!(v, vec![1, 2, 3]);
            v.push(4);
            assert_eq!(v, vec![1, 2, 3, 4]);
        },
    }
}

#[test]
fn into_mut_of_a_sliced_buffer_gives_it_back() {
    let b = Buffer::from_vec(vec![1u32, 2, 3]).sliced(0, 2);
    match b.into_mut() {
        Either::Left(same) => {
            assert_eq!(same.as_slice(), &[1, 2]);
            assert_eq!(same.offset(), 0);
        },
        Either::Right(_) => panic!("a sliced buffer was taken back"),
    }
}

#[test]
fn static_memory_is_never_taken_back() {
    let b = Buffer::from_static(&WORDS);
    assert_eq!(b.as_slice(), &[10, 20, 30, 40]);
    assert_eq!(b.storage_refcount(), 2);
    let b = match b.into_mut() {
        Either::Left(same) => same,
        Either::Right(_) => panic!("static memory was taken back"),
    };
    assert_eq!(b.make_mut(), vec![10, 20, 30, 40]);
}

#[test]
fn make_mut_copies_the_window_when_shared() {
    let b = Buffer::from_vec(vec![1u32, 2, 3, 4]);
    let keep = b.clone();
    let v = b.sliced(1, 2).make_mut();
    assert_eq!(v, vec![2, 3]);
    assert_eq!(keep.as_slice(), &[1, 2, 3, 4]);
    assert_eq!(keep.make_mut(), vec![1, 2, 3, 4]);
}

#[test]
fn get_mut_slice_needs_a_single_holder() {
    let mut b = Buffer::from_vec(vec![1u32, 2, 3, 4]);
    let other = b.clone();
    assert!(b.get_mut_slice().is_none());
    drop(other);
    b.slice(1, 2);
    match b.get_mut_slice() {
        Some(s) => {
            assert_eq!(s.len(), 2);
            s[0] = 20;
            s[1] = 30;
        },
        None => panic!("a storage held alone was not lent"),
    }
    assert_eq!(b.as_slice(), &[20, 30]);
    assert_eq!(b.expand_end_to_storage().as_slice(), &[20, 30, 4]);
}

#[test]
fn get_mut_slice_of_static_memory_is_none() {
    let mut b = Buffer::from_static(&WORDS);
    assert!(b.get_mut_slice().is_none());
    assert_eq!(b.as_slice(), &[10, 20, 30, 40]);
}

#[test]
fn split_parts_add_up_to_the_whole() {
    let b = Buffer::from_vec(vec![5u32, 6, 7, 8, 9]).sliced(1, 4);
    for offset in 0..=b.len() {
        assert!(b.check_bound(offset));
        let (l, r) = b.split_at(offset);
        assert_eq!(l.len() + r.len(), b.len());
        let mut joined = l.as_slice().to_vec();
        joined.extend_from_slice(r.as_slice());
        assert_eq!(joined, b.as_slice());
        assert_eq!(l.offset(), b.offset());
        assert_eq!(r.offset(), b.offset() + offset);
    }
    assert!(!b.check_bound(b.len() + 1));
}

#[test]
fn split_at_the_ends_gives_an_empty_half() {
    let b = Buffer::from_vec(vec![1u32, 2, 3]);
    let (l, r) = b._split_at_unchecked(0);
    assert!(l.is_empty());
    assert_eq!(r.as_slice(), &[1, 2, 3]);
    let (l, r) = b._split_at_unchecked(3);
    assert_eq!(l.as_slice(), &[1, 2, 3]);
    assert!(r.is_empty());
    let narrower = r.sliced(0, 0);
    assert!(narrower.is_empty());
    assert_eq!(l.sliced(1, 1).as_slice(), &[2]);
}

#[test]
fn transmute_there_and_back_keeps_the_bytes() {
    let b = Buffer::from_vec(vec![1u32, 0x8000_0000, 3, u32::MAX]);
    let signed: Buffer<i32> = match b.try_transmute::<i32>() {
        Ok(s) => s,
        Err(_) => panic!("a storage held alone was not retyped"),
    };
    assert_eq!(signed.as_slice(), &[1, i32::MIN, 3, -1]);
    let back: Buffer<u32> = match signed.try_transmute::<u32>() {
        Ok(s) => s,
        Err(_) => panic!("a storage held alone was not retyped"),
    };
    assert_eq!(back.as_slice(), &[1, 0x8000_0000, 3, u32::MAX]);
}

#[test]
fn transmute_recomputes_the_length() {
    let b = Buffer::from_static(&WORDS);
    let bytes: Buffer<u8> = match b.try_transmute::<u8>() {
        Ok(s) => s,
        Err(_) => panic!("static words were not retyped as bytes"),
    };
    assert_eq!(bytes.len(), 16);
    let window = bytes.sliced(4, 8);
    let words: Buffer<u32> = match window.try_transmute::<u32>() {
        Ok(s) => s,
        Err(_) => panic!("aligned bytes were not retyped as words"),
    };
    assert_eq!(words.len(), 2);
    assert_eq!(words.offset(), 1);
    assert_eq!(words.as_slice(), &[20, 30]);
}

#[test]
fn transmute_to_a_type_without_size_fails() {
    let b = Buffer::from_vec(vec![1u32, 2, 3]);
    match b.try_transmute::<()>() {
        Ok(_) => panic!("a buffer was retyped to a type without size"),
        Err(same) => assert_eq!(same.as_slice(), &[1, 2, 3]),
    }
}

#[test]
fn transmute_of_an_inexact_length_fails() {
    let b = Buffer::from_vec(vec![1u8, 2, 3, 4, 5, 6]);
    match b.try_transmute::<[u8; 4]>() {
        Ok(_) => panic!("six bytes were retyped as groups of four"),
        Err(same) => assert_eq!(same.as_slice(), &[1, 2, 3, 4, 5, 6]),
    }
}

#[test]
fn transmute_of_a_shared_storage_fails() {
    let b = Buffer::from_vec(vec![1u32, 2, 3]);
    let other = b.clone();
    match b.try_transmute::<i32>() {
        Ok(_) => panic!("a shared storage was retyped"),
        Err(same) => assert_eq!(same.as_slice(), &[1, 2, 3]),
    }
    assert_eq!(other.as_slice(), &[1, 2, 3]);
}

#[test]
fn zeroed_holds_zeros() {
    let b: Buffer<u64> = Buffer::zeroed(5);
    assert_eq!(b.as_slice(), &[0, 0, 0, 0, 0]);
    assert!(!b.is_sliced());
    let none: Buffer<u64> = Buffer::zeroed(0);
    assert!(none.is_empty());
}

#[test]
fn storage_gives_its_vector_back_to_its_only_holder() {
    let s = SharedStorage::from_vec(vec![1u8, 2, 3]);
    assert_eq!(s.len(), 3);
    assert_eq!(s.as_slice(), &[1, 2, 3]);
    let t = s.clone();
    assert_eq!(s.refcount(), 2);
    let s = match s.try_into_vec() {
        Ok(_) => panic!("a shared storage was taken back"),
        Err(s) => s,
    };
    drop(t);
    match s.try_into_vec() {
        Ok(v) => assert_eq!(v, vec![1, 2, 3]),
        Err(_) => panic!("a storage held alone was not taken back"),
    }
}

#[test]
fn a_window_of_a_storage_is_a_view() {
    let s = SharedStorage::from_vec(vec![0u16, 1, 2, 3, 4, 5]);
    let b = Buffer::from_storage_window(s, 2, 3);
    assert_eq!(b.as_slice(), &[2, 3, 4]);
    assert_eq!(b.offset(), 2);
    assert!(b.is_sliced());
    assert_eq!(b.expand_end_to_storage().as_slice(), &[2, 3, 4, 5]);
}

#[test]
fn reclaimed_follows_the_answer_of_the_storage() {
    let given: Result<Vec<u16>, SharedStorage<u16>> = Ok(vec![7, 8]);
    match Buffer::reclaimed(given, 0, 2) {
        Either::Right(v) => assert_eq!(v, vec![7, 8]),
        Either::Left(_) => panic!("the vector was not handed out"),
    }
    let kept: Result<Vec<u16>, SharedStorage<u16>> = Err(SharedStorage::from_vec(vec![7, 8, 9]));
    match Buffer::reclaimed(kept, 1, 2) {
        Either::Left(b) => {
            assert_eq!(b.as_slice(), &[8, 9]);
            assert_eq!(b.offset(), 1);
        },
        Either::Right(_) => panic!("a vector was made up"),
    }
}

#[test]
fn retyped_view_follows_the_answer_of_the_storage() {
    let cast: Result<SharedStorage<[u8; 2]>, SharedStorage<u8>> =
        Ok(SharedStorage::from_vec(vec![[0, 1], [2, 3], [4, 5], [6, 7]]));
    match Buffer::<u8>::retyped_view(cast, 2, 4) {
        Ok(b) => {
            assert_eq!(b.offset(), 1);
            assert_eq!(b.len(), 2);
            assert_eq!(b.as_slice(), &[[2, 3], [4, 5]]);
        },
        Err(_) => panic!("the retyped storage was not taken"),
    }
    let kept: Result<SharedStorage<[u8; 2]>, SharedStorage<u8>> =
        Err(SharedStorage::from_vec(vec![0, 1, 2, 3, 4, 5, 6, 7]));
    match Buffer::<u8>::retyped_view(kept, 2, 4) {
        Ok(_) => panic!("a retyped storage was made up"),
        Err(b) => {
            assert_eq!(b.offset(), 2);
            assert_eq!(b.as_slice(), &[2, 3, 4, 5]);
        },
    }
}

#[test]
fn transmute_of_a_window_changes_the_element_size() {
    let b = Buffer::from_vec(vec![0u8, 1, 2, 3, 4, 5, 6, 7]).sliced(2, 4);
    match b.try_transmute::<[u8; 2]>() {
        Ok(pairs) => {
            assert_eq!(pairs.as_slice(), &[[2, 3], [4, 5]]);
            assert_eq!(pairs.offset(), 1);
            match pairs.try_transmute::<u8>() {
                Ok(bytes) => {
                    assert_eq!(bytes.as_slice(), &[2, 3, 4, 5]);
                    assert_eq!(bytes.offset(), 2);
                },
                Err(_) => panic!("pairs held alone were not retyped as bytes"),
            }
        },
        Err(same) => {
            assert_eq!(same.as_slice(), &[2, 3, 4, 5]);
            assert_eq!(same.offset(), 2);
        },
    }
}

#[test]
fn transmute_of_an_odd_start_fails() {
    let b = Buffer::from_vec(vec![0u8, 1, 2, 3, 4, 5, 6, 7]).sliced(1, 4);
    match b.try_transmute::<[u8; 2]>() {
        Ok(_) => panic!("a window that starts inside an element was retyped"),
        Err(same) => assert_eq!(same.as_slice(), &[1, 2, 3, 4]),
    }
}

#[test]
fn window_mut_lends_a_part_of_a_slice() {
    let mut all = [0u32, 1, 2, 3, 4, 5];
    {
        let w = window_mut(&mut all, 2, 3);
        assert_eq!(w, &[2, 3, 4]);
        w[0] = 20;
        w[2] = 40;
    }
    assert_eq!(all, [0, 1, 20, 3, 40, 5]);
    assert!(window_mut(&mut all, 6, 0).is_empty());
}

fn is_send_and_sync<T: Send + Sync>(_: &T) -> bool {
    true
}

#[test]
fn buffers_of_plain_elements_cross_threads() {
    let b = Buffer::from_vec(vec![1u64, 2, 3]);
    assert!(is_send_and_sync(&b));
    assert!(is_send_and_sync(&b.clone().sliced(1, 1)));
}

#[test]
fn to_vec_copies_the_window() {
    let b = Buffer::from_vec(vec![1u8, 2, 3, 4]).sliced(1, 2);
    let mut v = b.to_vec();
    assert_eq!(v, vec![2, 3]);
    v[0] = 9;
    assert_eq!(b.as_slice(), &[2, 3]);
}
