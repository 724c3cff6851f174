use linked_list::List;

fn generate_test() -> List<i32> {
    list_from(&[0, 1, 2, 3, 4, 5, 6])
}

fn list_from<T: Clone>(v: &[T]) -> List<T> {
    List::from_iter(v.to_vec())
}

#[test]
fn test_iterator() {
    let m = generate_test();
    let mut it = m.iter();
    let mut i = 0;
    while let Some(elt) = it.next() {
        assert_eq!(i as i32, *elt);
        i += 1;
    }
    assert_eq!(i, 7);
    let mut n = List::new();
    assert_eq!(n.iter().next(), None);
    n.push_front(4);
    let mut it = n.iter();
    assert_eq!(it.size_hint(), (1, Some(1)));
    assert_eq!(it.next().unwrap(), &4);
    assert_eq!(it.size_hint(), (0, Some(0)));
    assert_eq!(it.next(), None);
}

#[test]
fn test_iterator_double_end() {
    let mut n = List::new();
    assert_eq!(n.iter().next(), None);
    n.push_front(4);
    n.push_front(5);
    n.push_front(6);
    let mut it = n.iter();
    assert_eq!(it.size_hint(), (3, Some(3)));
    assert_eq!(it.next().unwrap(), &6);
    assert_eq!(it.size_hint(), (2, Some(2)));
    assert_eq!(it.next_back().unwrap(), &4);
    assert_eq!(it.size_hint(), (1, Some(1)));
    assert_eq!(it.next_back().unwrap(), &5);
    assert_eq!(it.next_back(), None);
    assert_eq!(it.next(), None);
}

#[test]
fn test_rev_iter() {
    let m = generate_test();
    let mut it = m.iter();
    let mut i = 0;
    while let Some(elt) = it.next_back() {
        assert_eq!(6 - i as i32, *elt);
        i += 1;
    }
    assert_eq!(i, 7);
    let mut n = List::new();
    assert_eq!(n.iter().next_back(), None);
    n.push_front(4);
    let mut it = n.iter();
    assert_eq!(it.size_hint(), (1, Some(1)));
    assert_eq!(it.next_back().unwrap(), &4);
    assert_eq!(it.size_hint(), (0, Some(0)));
    assert_eq!(it.next_back(), None);
}

#[test]
fn test_mut_iter() {
    let mut m = generate_test();
    let mut len = m.len();
    let mut it = m.iter_mut();
    let mut i = 0;
    while let Some(elt) = it.next() {
        assert_eq!(i as i32, *elt);
        len -= 1;
        i += 1;
    }
    assert_eq!(len, 0);
    let mut n = List::new();
    assert!(n.iter_mut().next().is_none());
    n.push_front(4);
    n.push_back(5);
    let mut it = n.iter_mut();
    assert_eq!(it.size_hint(), (2, Some(2)));
    assert!(it.next().is_some());
    assert!(it.next().is_some());
    assert_eq!(it.size_hint(), (0, Some(0)));
    assert!(it.next().is_none());
}

#[test]
fn test_iterator_mut_double_end() {
    let mut n = List::new();
    assert!(n.iter_mut().next_back().is_none());
    n.push_front(4);
    n.push_front(5);
    n.push_front(6);
    let mut it = n.iter_mut();
    assert_eq!(it.size_hint(), (3, Some(3)));
    assert_eq!(*it.next().unwrap(), 6);
    assert_eq!(it.size_hint(), (2, Some(2)));
    assert_eq!(*it.next_back().unwrap(), 4);
    assert_eq!(it.size_hint(), (1, Some(1)));
    assert_eq!(*it.next_back().unwrap(), 5);
    assert!(it.next_back().is_none());
    assert!(it.next().is_none());
}

#[test]
fn into_iter_yields_every_element_in_order() {
    let list = generate_test();
    let len = list.len();
    let mut it = list.into_iter();
    assert_eq!(it.len(), len);
    assert_eq!(it.size_hint(), (7, Some(7)));
    let mut seen = Vec::new();
    while let Some(x) = it.next() {
        seen.push(x);
        assert_eq!(it.len(), len - seen.len());
    }
    assert_eq!(seen, vec![0, 1, 2, 3, 4, 5, 6]);
    assert_eq!(it.next(), None);
    assert_eq!(it.next_back(), None);
    assert_eq!(it.size_hint(), (0, Some(0)));
}

#[test]
fn into_iter_from_both_ends_meets_in_the_middle() {
    let mut it = generate_test().into_iter();
    let mut fronts = Vec::new();
    let mut backs = Vec::new();
    loop {
        match it.next() {
            Some(x) => fronts.push(x),
            None => break,
        }
        match it.next_back() {
            Some(x) => backs.push(x),
            None => break,
        }
    }
    assert_eq!(fronts, vec![0, 1, 2, 3]);
    assert_eq!(backs, vec![6, 5, 4]);
    assert_eq!(it.len(), 0);
    assert_eq!(it.next(), None);
    assert_eq!(it.next_back(), None);
}

#[test]
fn into_iter_of_an_empty_list() {
    let list: List<String> = List::new();
    let mut it = list.into_iter();
    assert_eq!(it.len(), 0);
    assert_eq!(it.next(), None);
    assert_eq!(it.next_back(), None);
}

#[test]
fn iter_len_counts_down_from_both_ends() {
    let list = generate_test();
    let mut it = list.iter();
    assert_eq!(it.len(), 7);
    assert_eq!(it.next(), Some(&0));
    assert_eq!(it.next_back(), Some(&6));
    assert_eq!(it.next_back(), Some(&5));
    assert_eq!(it.len(), 4);
    assert_eq!(it.next(), Some(&1));
    assert_eq!(it.next(), Some(&2));
    assert_eq!(it.next(), Some(&3));
    assert_eq!(it.len(), 1);
    assert_eq!(it.next_back(), Some(&4));
    assert_eq!(it.len(), 0);
    assert_eq!(it.next(), None);
    assert_eq!(it.next_back(), None);
    assert_eq!(list.len(), 7);
}

#[test]
fn iter_items_outlive_the_iterator() {
    let list = generate_test();
    let (first, last) = {
        let mut it = list.iter();
        (it.next().unwrap(), it.next_back().unwrap())
    };
    assert_eq!(*first + *last, 6);
}

#[test]
fn iter_mut_writes_reach_the_list() {
    let mut list = generate_test();
    {
        let mut it = list.iter_mut();
        assert_eq!(it.len(), 7);
        *it.next().unwrap() += 100;
        *it.next_back().unwrap() += 200;
        assert_eq!(it.len(), 5);
        while let Some(x) = it.next() {
            *x *= 2;
        }
        assert_eq!(it.len(), 0);
        assert!(it.next_back().is_none());
    }
    let mut seen = Vec::new();
    let mut it = list.iter();
    while let Some(x) = it.next() {
        seen.push(*x);
    }
    assert_eq!(seen, vec![100, 2, 4, 6, 8, 10, 206]);
}

#[test]
fn iter_mut_on_a_single_element() {
    let mut list = List::new();
    list.push_back(1);
    let mut it = list.iter_mut();
    assert_eq!(it.size_hint(), (1, Some(1)));
    *it.next_back().unwrap() = 2;
    assert!(it.next().is_none());
    assert!(it.next_back().is_none());
    assert_eq!(list.front(), Some(&2));
}
