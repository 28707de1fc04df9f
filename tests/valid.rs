use gen_id::Valid;

#[test]
fn valid_partial_eq() {
    let valid = Valid::new(1);

    assert!(valid.eq(&1));
    assert!(!valid.eq(&0));
}

#[test]
fn valid_eq() {
    let valid1 = Valid::new(1);
    let valid2 = Valid::new(2);

    assert_eq!(valid1, valid1);
    assert_ne!(valid1, valid2);
}

#[test]
fn valid_iter() {
    let values = vec![1, 2, 3];
    let valid = Valid::new(values);
    let mut valid_iter = valid.into_iter();

    assert_eq!(Some(Valid::new(1)), valid_iter.next());
    assert_eq!(Some(Valid::new(2)), valid_iter.next());
    assert_eq!(Some(Valid::new(3)), valid_iter.next());
    assert_eq!(None, valid_iter.next());
}

#[test]
fn valid_iter_ref() {
    let values = vec![1, 2, 3];
    let valid = Valid::new(&values);
    let mut valid_iter = valid.into_iter();

    assert_eq!(Some(Valid::new(&1)), valid_iter.next());
    assert_eq!(Some(Valid::new(&2)), valid_iter.next());
    assert_eq!(Some(Valid::new(&3)), valid_iter.next());
    assert_eq!(None, valid_iter.next());
}

#[test]
fn valid_as_ref_and_into_inner() {
    let valid = Valid::new(5);
    assert_eq!(valid.as_ref(), Valid::new(&5));
    assert_eq!(*valid.get(), 5);
    assert_eq!(valid.into_inner(), 5);
}

#[test]
fn valid_new_ref_and_new_mut() {
    let mut x = 3;
    {
        let r = Valid::new_ref(&x);
        assert_eq!(*r.value, 3);
    }
    {
        let m = Valid::new_mut(&mut x);
        *m.value = 4;
    }
    assert_eq!(x, 4);
}
