use linked_list::List;

#[test]
fn cursor_goes_round_a_list_of_three() {
    let mut list = List::from_iter(vec![10, 20, 30]);
    let mut cursor = list.cursor_mut();
    assert_eq!(cursor.index(), None);
    cursor.move_next();
    assert_eq!(cursor.index(), Some(0));
    cursor.move_next();
    assert_eq!(cursor.index(), Some(1));
    cursor.move_next();
    assert_eq!(cursor.index(), Some(2));
    cursor.move_next();
    assert_eq!(cursor.index(), None);
    cursor.move_next();
    assert_eq!(cursor.index(), Some(0));
    assert_eq!(cursor.current(), Some(&mut 10));
}

#[test]
fn cursor_goes_round_backwards() {
    let mut list = List::from_iter(vec![10, 20, 30]);
    let mut cursor = list.cursor_mut();
    cursor.move_prev();
    assert_eq!(cursor.index(), Some(2));
    assert_eq!(cursor.current(), Some(&mut 30));
    cursor.move_prev();
    assert_eq!(cursor.index(), Some(1));
    cursor.move_prev();
    assert_eq!(cursor.index(), Some(0));
    assert_eq!(cursor.current(), Some(&mut 10));
    cursor.move_prev();
    assert_eq!(cursor.index(), None);
    assert_eq!(cursor.current(), None);
    cursor.move_prev();
    assert_eq!(cursor.index(), Some(2));
}

#[test]
fn cursor_on_an_empty_list_stays_on_the_ghost() {
    let mut list: List<i32> = List::new();
    let mut cursor = list.cursor_mut();
    assert_eq!(cursor.index(), None);
    cursor.move_next();
    assert_eq!(cursor.index(), None);
    cursor.move_prev();
    assert_eq!(cursor.index(), None);
    assert_eq!(cursor.current(), None);
    assert_eq!(cursor.peek_next(), None);
    assert_eq!(cursor.peek_prev(), None);
}

#[test]
fn cursor_peeks_at_the_neighbours() {
    let mut list = List::from_iter(vec![1, 2, 3]);
    let mut cursor = list.cursor_mut();
    assert_eq!(cursor.peek_next(), Some(&1));
    assert_eq!(cursor.peek_prev(), Some(&3));
    cursor.move_next();
    assert_eq!(cursor.peek_next(), Some(&2));
    assert_eq!(cursor.peek_prev(), None);
    assert_eq!(cursor.index(), Some(0));
    cursor.move_next();
    assert_eq!(cursor.peek_next(), Some(&3));
    assert_eq!(cursor.peek_prev(), Some(&1));
    assert_eq!(cursor.index(), Some(1));
    cursor.move_next();
    assert_eq!(cursor.peek_next(), None);
    assert_eq!(cursor.peek_prev(), Some(&2));
    assert_eq!(cursor.index(), Some(2));
}

#[test]
fn cursor_on_a_single_element() {
    let mut list = List::from_iter(vec![7]);
    let mut cursor = list.cursor_mut();
    assert_eq!(cursor.peek_next(), Some(&7));
    assert_eq!(cursor.peek_prev(), Some(&7));
    cursor.move_next();
    assert_eq!(cursor.index(), Some(0));
    assert_eq!(cursor.peek_next(), None);
    assert_eq!(cursor.peek_prev(), None);
    cursor.move_next();
    assert_eq!(cursor.index(), None);
    cursor.move_prev();
    assert_eq!(cursor.index(), Some(0));
    cursor.move_prev();
    assert_eq!(cursor.index(), None);
}

#[test]
fn cursor_writes_reach_the_list() {
    let mut list = List::from_iter(vec![1, 2, 3]);
    {
        let mut cursor = list.cursor_mut();
        cursor.move_next();
        cursor.move_next();
        *cursor.current().unwrap() = 20;
        assert_eq!(cursor.index(), Some(1));
        cursor.move_prev();
        *cursor.current().unwrap() += 10;
        assert_eq!(cursor.peek_next(), Some(&20));
    }
    assert_eq!(list.len(), 3);
    assert_eq!(list.pop_front(), Some(11));
    assert_eq!(list.pop_front(), Some(20));
    assert_eq!(list.pop_front(), Some(3));
}

#[test]
fn cursor_laps_visit_every_element_once() {
    let mut list = List::from_iter(vec![0usize, 1, 2, 3, 4]);
    let mut cursor = list.cursor_mut();
    for _lap in 0..3 {
        for i in 0..5 {
            cursor.move_next();
            assert_eq!(cursor.index(), Some(i));
            assert_eq!(cursor.current().map(|x| *x), Some(i));
        }
        cursor.move_next();
        assert_eq!(cursor.index(), None);
    }
}
