use toy_vec::ToyVec;

#[test]
fn traversal_yields_all_in_order_then_absence() {
    let mut v: ToyVec<u64> = ToyVec::new();
    for n in 0..7u64 {
        v.push(n * n);
    }
    let mut it = v.iter();
    let mut count: usize = 0;
    while let Some(x) = it.next() {
        assert_eq!(Some(x), v.get(count));
        count += 1;
    }
    assert_eq!(count, 7);
    assert!(it.next().is_none());
    assert!(it.next().is_none());
}

#[test]
fn traversal_of_empty_container_is_absent_at_once() {
    let v: ToyVec<u8> = ToyVec::new();
    let mut it = v.iter();
    assert!(it.next().is_none());
    assert!(it.next().is_none());
}

#[test]
fn several_cursors_may_read_at_once() {
    let mut v: ToyVec<i32> = ToyVec::new();
    v.push(1);
    v.push(2);
    let mut a = v.iter();
    let mut b = v.iter();
    assert_eq!(a.next(), Some(&1));
    assert_eq!(b.next(), Some(&1));
    assert_eq!(a.next(), Some(&2));
    assert_eq!(b.next(), Some(&2));
    assert!(a.next().is_none());
    assert!(b.next().is_none());
}

#[test]
fn scenario_three_appends_one_removal_then_traversal() {
    let mut v: ToyVec<i64> = ToyVec::new();
    v.push(10);
    v.push(20);
    v.push(30);
    assert_eq!(v.len(), 3);
    assert!(v.capacity() >= 3);
    assert_eq!(v.get(1), Some(&20));
    assert_eq!(v.pop(), Some(30));
    assert_eq!(v.len(), 2);
    let mut it = v.iter();
    assert_eq!(it.next(), Some(&10));
    assert_eq!(it.next(), Some(&20));
    assert!(it.next().is_none());
}

#[test]
fn yielded_references_outlive_the_cursor() {
    let mut v: ToyVec<String> = ToyVec::new();
    v.push(String::from("kept"));
    let first = {
        let mut it = v.iter();
        it.next().unwrap()
    };
    assert_eq!(first, "kept");
}
