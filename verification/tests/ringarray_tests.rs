use simv::ringarray::RingArray;

fn contents(r: &RingArray<u32>) -> Vec<u32> {
    r.iter().into_iter().copied().collect()
}

#[test]
fn new_ring_is_empty() {
    let r: RingArray<u32> = RingArray::new(3);
    assert_eq!(r.len(), 0);
    assert!(contents(&r).is_empty());
}

#[test]
fn zero_capacity_ring_is_empty() {
    let r: RingArray<u32> = RingArray::new(0);
    assert_eq!(r.len(), 0);
    assert!(contents(&r).is_empty());
}

#[test]
fn push_below_capacity_keeps_all_in_order() {
    let mut r = RingArray::new(3);
    r.push(10u32);
    r.push(20);
    assert_eq!(r.len(), 2);
    assert_eq!(contents(&r), vec![10, 20]);
}

#[test]
fn push_to_exact_capacity() {
    let mut r = RingArray::new(3);
    r.push(1u32);
    r.push(2);
    r.push(3);
    assert_eq!(r.len(), 3);
    assert_eq!(contents(&r), vec![1, 2, 3]);
}

#[test]
fn push_past_capacity_drops_oldest() {
    let mut r = RingArray::new(3);
    for x in 1u32..=5 {
        r.push(x);
    }
    assert_eq!(r.len(), 3);
    assert_eq!(contents(&r), vec![3, 4, 5]);
}

#[test]
fn capacity_one_keeps_newest() {
    let mut r = RingArray::new(1);
    r.push(7u32);
    r.push(8);
    r.push(9);
    assert_eq!(r.len(), 1);
    assert_eq!(contents(&r), vec![9]);
}

#[test]
fn ring_holds_last_capacity_items_after_many_pushes() {
    let cap = 4usize;
    let mut r = RingArray::new(cap);
    let mut all: Vec<u32> = Vec::new();
    for x in 0u32..23 {
        r.push(x);
        all.push(x);
        let expected: Vec<u32> = all[all.len().saturating_sub(cap)..].to_vec();
        assert_eq!(contents(&r), expected);
        assert_eq!(r.len(), expected.len());
    }
}

#[test]
fn ring_with_strings() {
    let mut r = RingArray::new(2);
    r.push(String::from("a"));
    r.push(String::from("b"));
    r.push(String::from("c"));
    let v: Vec<String> = r.iter().into_iter().cloned().collect();
    assert_eq!(v, vec![String::from("b"), String::from("c")]);
}

#[test]
fn len_never_exceeds_capacity() {
    let mut r = RingArray::new(2);
    for x in 0u32..5 {
        r.push(x);
        assert!(r.len() <= 2);
    }
}
