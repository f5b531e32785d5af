use const_alg::array_vec::ArrayVec;

#[test]
fn iter() {
    let a = ArrayVec::<_, 5>::from([10, 20, 30, 40, 50]);

    let mut iter = a.clone().into_iter();

    assert_eq!(iter.next(), Some(10));

    assert_eq!(iter.nth(0), Some(20));
    assert_eq!(iter.nth(2), Some(50));

    let mut iter = a.into_iter();

    assert_eq!(iter.next_back(), Some(50));

    assert_eq!(iter.nth_back(0), Some(40));
    assert_eq!(iter.nth_back(2), Some(10));
}

#[test]
fn pushes_and_pops_follow_stack_discipline() {
    let mut a = ArrayVec::<i32, 4>::new();
    assert_eq!(a.len(), 0);
    assert_eq!(a.push(1), Ok(()));
    assert_eq!(a.push(2), Ok(()));
    assert_eq!(a.len(), 2);
    assert_eq!(a.pop(), Some(2));
    assert_eq!(a.push(3), Ok(()));
    assert_eq!(a.push(4), Ok(()));
    assert_eq!(a.len(), 3);
    assert_eq!(a.as_slice(), &[1, 3, 4]);
    assert_eq!(a.pop(), Some(4));
    assert_eq!(a.pop(), Some(3));
    assert_eq!(a.pop(), Some(1));
    assert_eq!(a.len(), 0);
    assert_eq!(a.pop(), None);
    assert_eq!(a.len(), 0);
}

#[test]
fn push_into_full_buffer_hands_the_value_back() {
    let mut a = ArrayVec::<String, 2>::new();
    assert_eq!(a.push(String::from("a")), Ok(()));
    assert_eq!(a.push(String::from("b")), Ok(()));
    assert_eq!(a.push(String::from("c")), Err(String::from("c")));
    assert_eq!(a.len(), 2);
    assert_eq!(a.as_slice(), &[String::from("a"), String::from("b")]);
    assert_eq!(a.push(String::from("d")), Err(String::from("d")));
    assert_eq!(a.pop(), Some(String::from("b")));
    assert_eq!(a.push(String::from("e")), Ok(()));
    assert_eq!(a.as_slice(), &[String::from("a"), String::from("e")]);
}

#[test]
fn buffer_without_room_is_always_empty() {
    let mut a = ArrayVec::<i32, 0>::new();
    assert_eq!(a.push(1), Err(1));
    assert_eq!(a.pop(), None);
    assert_eq!(a.len(), 0);
    assert_eq!(a.as_slice().len(), 0);
    let mut iter = a.into_iter();
    assert_eq!(iter.size_hint(), (0, Some(0)));
    assert_eq!(iter.next(), None);
    assert_eq!(iter.next_back(), None);
    let empty: [i32; 0] = [];
    match ArrayVec::<i32, 0>::new().try_into() {
        Ok(arr) => assert_eq!(arr, empty),
        Err(_) => panic!("an empty buffer without room did not become an array"),
    }
}

#[test]
fn array_conversion_needs_a_full_buffer() {
    let mut a = ArrayVec::<i32, 3>::new();
    let _ = a.push(1);
    let _ = a.push(2);
    let back = match a.try_into() {
        Ok(_) => panic!("a buffer with room left became an array"),
        Err(back) => back,
    };
    assert_eq!(back.as_slice(), &[1, 2]);
    let mut a = back;
    let _ = a.push(3);
    match a.try_into() {
        Ok(arr) => assert_eq!(arr, [1, 2, 3]),
        Err(_) => panic!("a full buffer did not become an array"),
    }
}

#[test]
fn array_round_trip_is_identity() {
    let arr = [String::from("x"), String::from("y"), String::from("z")];
    let a = ArrayVec::<String, 3>::from(arr.clone());
    assert_eq!(a.len(), 3);
    assert_eq!(a.as_slice(), &arr);
    match a.try_into() {
        Ok(back) => assert_eq!(back, arr),
        Err(_) => panic!("a full buffer did not become an array"),
    }
    let b = ArrayVec::<i32, 2>::from([7, 8]);
    assert_eq!(b.into_array_unchecked(), [7, 8]);
}

#[test]
fn extend_stops_when_full() {
    let mut a = ArrayVec::<i32, 4>::new();
    a.extend(vec![1, 2].into_iter());
    assert_eq!(a.as_slice(), &[1, 2]);
    a.extend(vec![3, 4, 5, 6].into_iter());
    assert_eq!(a.as_slice(), &[1, 2, 3, 4]);
    a.extend(vec![7].into_iter());
    assert_eq!(a.as_slice(), &[1, 2, 3, 4]);
    a.extend(Vec::new().into_iter());
    assert_eq!(a.len(), 4);
    let b = ArrayVec::<i32, 3>::from_iter(vec![9, 8, 7, 6, 5].into_iter());
    assert_eq!(b.as_slice(), &[9, 8, 7]);
    let c = ArrayVec::<i32, 3>::from_iter(vec![9].into_iter());
    assert_eq!(c.as_slice(), &[9]);
    let d = ArrayVec::<i32, 3>::from_iter(0..);
    assert_eq!(d.as_slice(), &[0, 1, 2]);
}

#[test]
fn extend_leaves_what_does_not_fit() {
    let mut a = ArrayVec::<i32, 3>::new();
    let mut source = vec![1, 2, 3, 4, 5].into_iter();
    a.extend(&mut source);
    assert_eq!(a.as_slice(), &[1, 2, 3]);
    assert_eq!(source.next(), Some(4));
    a.extend(&mut source);
    assert_eq!(a.as_slice(), &[1, 2, 3]);
    assert_eq!(source.next(), Some(5));
    assert_eq!(source.next(), None);
}

#[test]
fn clear_and_default() {
    let mut a = ArrayVec::<i32, 3>::from([1, 2, 3]);
    a.clear();
    assert_eq!(a.len(), 0);
    assert_eq!(a.push(5), Ok(()));
    assert_eq!(a.as_slice(), &[5]);
    let d: ArrayVec<i32, 3> = Default::default();
    assert_eq!(d.len(), 0);
}

#[test]
fn mutable_slice_writes_in_place() {
    let mut a = ArrayVec::<i32, 4>::new();
    a.extend(vec![1, 2, 3].into_iter());
    {
        let s = a.as_mut_slice();
        assert_eq!(s.len(), 3);
        s[1] = 20;
    }
    assert_eq!(a.as_slice(), &[1, 20, 3]);
}

#[test]
fn cursor_hands_out_each_item_once() {
    let a = ArrayVec::<i32, 6>::from([1, 2, 3, 4, 5, 6]);
    let mut iter = a.into_iter();
    let mut front = Vec::new();
    let mut back = Vec::new();
    assert_eq!(iter.size_hint(), (6, Some(6)));
    front.push(iter.next().unwrap());
    back.push(iter.next_back().unwrap());
    back.push(iter.next_back().unwrap());
    front.push(iter.next().unwrap());
    assert_eq!(iter.size_hint(), (2, Some(2)));
    assert_eq!(iter.len(), 2);
    front.push(iter.next().unwrap());
    back.push(iter.next_back().unwrap());
    assert_eq!(iter.next(), None);
    assert_eq!(iter.next_back(), None);
    assert_eq!(iter.size_hint(), (0, Some(0)));
    assert_eq!(front, [1, 2, 3]);
    assert_eq!(back, [6, 5, 4]);
}

#[test]
fn cursor_skips_drop_what_they_pass() {
    let a = ArrayVec::<i32, 6>::from([1, 2, 3, 4, 5, 6]);
    let mut iter = a.into_iter();
    assert_eq!(iter.nth(1), Some(2));
    assert_eq!(iter.size_hint(), (4, Some(4)));
    assert_eq!(iter.nth_back(1), Some(5));
    assert_eq!(iter.size_hint(), (2, Some(2)));
    assert_eq!(iter.clone().collect(), [3, 4]);
    assert_eq!(iter.nth(2), None);
    assert_eq!(iter.size_hint(), (0, Some(0)));
    assert_eq!(iter.next(), None);
    let b = ArrayVec::<i32, 3>::from([1, 2, 3]);
    let mut iter = b.into_iter();
    assert_eq!(iter.nth_back(3), None);
    assert_eq!(iter.next(), None);
    assert_eq!(iter.next_back(), None);
    let c = ArrayVec::<i32, 3>::from([1, 2, 3]);
    let mut iter = c.into_iter();
    assert_eq!(iter.nth(2), Some(3));
    assert_eq!(iter.next_back(), None);
}

#[test]
fn cursor_clone_keeps_what_is_left() {
    let a = ArrayVec::<String, 3>::from([String::from("a"), String::from("b"), String::from("c")]);
    let mut iter = a.into_iter();
    assert_eq!(iter.next(), Some(String::from("a")));
    let copy = iter.clone();
    assert_eq!(iter.next_back(), Some(String::from("c")));
    assert_eq!(copy.collect(), [String::from("b"), String::from("c")]);
    assert_eq!(iter.collect(), [String::from("b")]);
}

#[test]
fn buffer_reads_as_a_slice() {
    let mut a = ArrayVec::<i32, 4>::new();
    a.extend(vec![3, 1, 2].into_iter());
    assert_eq!(a.iter().copied().max(), Some(3));
    assert_eq!(a[1], 1);
    assert_eq!(a.first(), Some(&3));
    a[1] = 10;
    a.sort();
    assert_eq!(a.as_slice(), &[2, 3, 10]);
    assert_eq!(a.len(), 3);
}
