use urban_recreation::utils::StackVec4;

#[test]
fn test_stackvec4() {
    let mut vec = StackVec4::<u8>::default();
    vec.push(1);
    vec.push(2);
    vec.push(3);
    vec.push(4);

    assert_eq!(vec.len, 4);
    assert_eq!(vec.data, [Some(1), Some(2), Some(3), Some(4)]);

    vec.remove(1);
    assert_eq!(vec.len, 3);
    assert_eq!(vec.data, [Some(1), Some(3), Some(4), None]);

    vec.remove(0);
    assert_eq!(vec.len, 2);
    assert_eq!(vec.data, [Some(3), Some(4), None, None]);

    vec.remove(1);
    assert_eq!(vec.len, 1);
    assert_eq!(vec.data, [Some(3), None, None, None]);

    vec.push(2);
    vec.push(1);
    vec.push(0);

    vec.data[2] = None;
    vec.compact();

    assert_eq!(vec.len, 3);
    assert_eq!(vec.data, [Some(3), Some(2), Some(0), None]);
}

#[test]
fn push_1_safe_wraps_around() {
    let mut vec = StackVec4::<u8>::default();
    for i in 0..5 {
        vec.push_1_safe(i);
    }
    assert_eq!(vec.len, 5);
    assert_eq!(vec.data, [Some(4), Some(1), Some(2), Some(3)]);
}

#[test]
fn remove_of_an_index_not_in_use_only_shortens() {
    let mut vec = StackVec4::<u8>::default();
    vec.push(7);
    vec.push(8);
    vec.remove(3);
    assert_eq!(vec.len, 1);
    assert_eq!(vec.data, [Some(7), Some(8), None, None]);
}

#[test]
fn compact_of_a_full_vector_keeps_it() {
    let mut vec = StackVec4::<u8>::default();
    vec.push(1);
    vec.push(2);
    vec.push(3);
    vec.push(4);
    vec.compact();
    assert_eq!(vec.len, 4);
    assert_eq!(vec.data, [Some(1), Some(2), Some(3), Some(4)]);
}
