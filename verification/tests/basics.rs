use linked_list::List;

#[test]
fn test_basic_front() {
    let mut list = List::new();

    // Try to break an empty list
    assert_eq!(list.len(), 0);
    assert_eq!(list.pop_front(), None);
    assert_eq!(list.len(), 0);

    // Try to break a one item list
    list.push_front(10);
    assert_eq!(list.len(), 1);
    assert_eq!(list.pop_front(), Some(10));
    assert_eq!(list.len(), 0);
    assert_eq!(list.pop_front(), None);
    assert_eq!(list.len(), 0);

    // Mess around
    list.push_front(10);
    assert_eq!(list.len(), 1);
    list.push_front(20);
    assert_eq!(list.len(), 2);
    list.push_front(30);
    assert_eq!(list.len(), 3);
    assert_eq!(list.pop_front(), Some(30));
    assert_eq!(list.len(), 2);
    list.push_front(40);
    assert_eq!(list.len(), 3);
    assert_eq!(list.pop_front(), Some(40));
    assert_eq!(list.len(), 2);
    assert_eq!(list.pop_front(), Some(20));
    assert_eq!(list.len(), 1);
    assert_eq!(list.pop_front(), Some(10));
    assert_eq!(list.len(), 0);
    assert_eq!(list.pop_front(), None);
    assert_eq!(list.len(), 0);
    assert_eq!(list.pop_front(), None);
    assert_eq!(list.len(), 0);
}

#[test]
fn test_basic() {
    let mut m = List::new();
    assert_eq!(m.pop_front(), None);
    assert_eq!(m.pop_back(), None);
    assert_eq!(m.pop_front(), None);
    m.push_front(1);
    assert_eq!(m.pop_front(), Some(1));
    m.push_back(2);
    m.push_back(3);
    assert_eq!(m.len(), 2);
    assert_eq!(m.pop_front(), Some(2));
    assert_eq!(m.pop_front(), Some(3));
    assert_eq!(m.len(), 0);
    assert_eq!(m.pop_front(), None);
    m.push_back(1);
    m.push_back(3);
    m.push_back(5);
    m.push_back(7);
    assert_eq!(m.pop_front(), Some(1));

    let mut n = List::new();
    n.push_front(2);
    n.push_front(3);
    {
        assert_eq!(n.front().unwrap(), &3);
        let x = n.front_mut().unwrap();
        assert_eq!(*x, 3);
        *x = 0;
    }
    {
        assert_eq!(n.back().unwrap(), &2);
        let y = n.back_mut().unwrap();
        assert_eq!(*y, 2);
        *y = 1;
    }
    assert_eq!(n.pop_front(), Some(0));
    assert_eq!(n.pop_front(), Some(1));
}

#[test]
fn new_list_is_empty() {
    let list: List<u8> = List::new();
    assert_eq!(list.len(), 0);
    assert!(list.is_empty());
    assert_eq!(list.front(), None);
    assert_eq!(list.back(), None);
}

#[test]
fn default_list_is_empty() {
    let list: List<u8> = List::default();
    assert!(list.is_empty());
    assert_eq!(list.len(), 0);
}

#[test]
fn three_pushed_at_the_back() {
    let mut list = List::new();
    list.push_back(1);
    list.push_back(2);
    list.push_back(3);
    assert_eq!(list.front(), Some(&1));
    assert_eq!(list.back(), Some(&3));
    assert_eq!(list.len(), 3);
    assert_eq!(list.pop_front(), Some(1));
    assert_eq!(list.pop_front(), Some(2));
    assert_eq!(list.front(), Some(&3));
    assert_eq!(list.back(), Some(&3));
    assert_eq!(list.len(), 1);
}

#[test]
fn pop_on_empty_keeps_len_zero() {
    let mut list: List<i32> = List::new();
    assert_eq!(list.pop_front(), None);
    assert_eq!(list.len(), 0);
    assert_eq!(list.pop_back(), None);
    assert_eq!(list.len(), 0);
    list.push_back(1);
    assert_eq!(list.pop_back(), Some(1));
    assert_eq!(list.pop_back(), None);
    assert_eq!(list.pop_front(), None);
    assert_eq!(list.len(), 0);
    assert!(list.is_empty());
}

#[test]
fn push_at_one_end_pop_at_the_other() {
    let mut list = List::new();
    list.push_front(7);
    assert_eq!(list.pop_back(), Some(7));
    assert!(list.is_empty());
    list.push_back(8);
    assert_eq!(list.pop_front(), Some(8));
    assert!(list.is_empty());
    assert_eq!(list.front(), None);
    assert_eq!(list.back(), None);
}

#[test]
fn single_element_is_front_and_back() {
    let mut list = List::new();
    list.push_front(5);
    assert_eq!(list.front(), Some(&5));
    assert_eq!(list.back(), Some(&5));
    *list.front_mut().unwrap() = 6;
    assert_eq!(list.back(), Some(&6));
    *list.back_mut().unwrap() = 7;
    assert_eq!(list.front(), Some(&7));
    assert_eq!(list.len(), 1);
}

#[test]
fn front_mut_and_back_mut_on_empty() {
    let mut list: List<i32> = List::new();
    assert!(list.front_mut().is_none());
    assert!(list.back_mut().is_none());
    assert_eq!(list.len(), 0);
}

#[test]
fn len_is_pushes_minus_served_pops() {
    let mut list = List::new();
    let mut model: std::collections::VecDeque<u32> = std::collections::VecDeque::new();
    let mut pushes = 0usize;
    let mut served = 0usize;
    let mut seed: u32 = 12345;
    for step in 0..2000u32 {
        seed = seed.wrapping_mul(1664525).wrapping_add(1013904223);
        match (seed >> 16) % 5 {
            0 => {
                list.push_front(step);
                model.push_front(step);
                pushes += 1;
            }
            1 => {
                list.push_back(step);
                model.push_back(step);
                pushes += 1;
            }
            2 | 3 => {
                let got = list.pop_front();
                assert_eq!(got, model.pop_front());
                if got.is_some() {
                    served += 1;
                }
            }
            _ => {
                let got = list.pop_back();
                assert_eq!(got, model.pop_back());
                if got.is_some() {
                    served += 1;
                }
            }
        }
        assert_eq!(list.len(), pushes - served);
        assert_eq!(list.len(), model.len());
        assert_eq!(list.front(), model.front());
        assert_eq!(list.back(), model.back());
        assert_eq!(list.is_empty(), model.is_empty());
    }
    let mut it = list.iter();
    for expected in model.iter() {
        assert_eq!(it.next(), Some(expected));
    }
    assert_eq!(it.next(), None);
}

#[test]
fn order_after_pushes_at_both_ends() {
    let mut list = List::new();
    list.push_back(3);
    list.push_front(2);
    list.push_back(4);
    list.push_front(1);
    list.push_back(5);
    let mut seen = Vec::new();
    let mut it = list.iter();
    while let Some(x) = it.next() {
        seen.push(*x);
    }
    assert_eq!(seen, vec![1, 2, 3, 4, 5]);
}

#[test]
fn clear_empties_the_list() {
    let mut list = List::from_iter(vec![1, 2, 3, 4]);
    assert_eq!(list.len(), 4);
    list.clear();
    assert_eq!(list.len(), 0);
    assert!(list.is_empty());
    assert_eq!(list.pop_front(), None);
    list.clear();
    assert!(list.is_empty());
    list.push_back(9);
    assert_eq!(list.front(), Some(&9));
    assert_eq!(list.back(), Some(&9));
}

#[test]
fn slots_are_used_again_after_pops() {
    let mut list = List::new();
    let mut model: std::collections::VecDeque<i32> = std::collections::VecDeque::new();
    for round in 0..50 {
        for i in 0..10 {
            if i % 2 == 0 {
                list.push_back(round * 10 + i);
                model.push_back(round * 10 + i);
            } else {
                list.push_front(round * 10 + i);
                model.push_front(round * 10 + i);
            }
        }
        for _ in 0..7 {
            assert_eq!(list.pop_front(), model.pop_front());
        }
        assert_eq!(list.len(), (round as usize + 1) * 3);
        assert_eq!(list.front(), model.front());
        assert_eq!(list.back(), model.back());
    }
    assert_eq!(list.len(), 150);
    assert_eq!(list.front(), Some(&200));
    assert_eq!(list.back(), Some(&498));
    let mut count = 0;
    while let Some(x) = list.pop_back() {
        assert_eq!(Some(x), model.pop_back());
        count += 1;
    }
    assert_eq!(count, 150);
    assert!(model.is_empty());
}

#[test]
fn extend_appends_in_order() {
    let mut list = List::new();
    list.push_back(1);
    list.extend(vec![2, 3]);
    list.extend(Vec::new());
    list.extend(vec![4]);
    assert_eq!(list.len(), 4);
    assert_eq!(list.pop_front(), Some(1));
    assert_eq!(list.pop_front(), Some(2));
    assert_eq!(list.pop_front(), Some(3));
    assert_eq!(list.pop_front(), Some(4));
    assert_eq!(list.pop_front(), None);
}

#[test]
fn from_iter_keeps_order() {
    let list = List::from_iter(vec!["a", "b", "c"]);
    assert_eq!(list.len(), 3);
    assert_eq!(list.front(), Some(&"a"));
    assert_eq!(list.back(), Some(&"c"));
    let empty: List<i32> = List::from_iter(Vec::new());
    assert!(empty.is_empty());
}

#[test]
fn clone_shares_nothing() {
    let mut list = List::from_iter(vec![1, 2, 3]);
    let mut copy = list.clone();
    assert!(list == copy);
    *copy.front_mut().unwrap() = 10;
    copy.push_back(4);
    assert_eq!(list.len(), 3);
    assert_eq!(list.front(), Some(&1));
    assert_eq!(copy.len(), 4);
    assert_eq!(copy.front(), Some(&10));
    assert_eq!(list.pop_back(), Some(3));
    assert_eq!(copy.back(), Some(&4));
}

#[test]
fn teardown_of_a_long_list() {
    let mut list = List::new();
    for i in 0..100_000u32 {
        list.push_back(i);
    }
    assert_eq!(list.len(), 100_000);
    drop(list);

    let mut list = List::new();
    for i in 0..100_000u32 {
        list.push_front(vec![i]);
    }
    assert_eq!(list.len(), 100_000);
    list.clear();
    assert!(list.is_empty());
}

#[test]
fn a_new_node_has_no_neighbours() {
    let node = linked_list::Node::new(5);
    assert_eq!(node.front, None);
    assert_eq!(node.back, None);
    assert_eq!(node.element, 5);
}
