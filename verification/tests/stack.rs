use data_structure_practice::List;

#[test]
fn new_list_holds_nothing() {
    let mut list = List::new();
    assert_eq!(list.pop(), None);
}

#[test]
fn single_element_comes_back() {
    let mut list = List::new();
    list.push(7);
    assert_eq!(list.pop(), Some(7));
    assert_eq!(list.pop(), None);
}

#[test]
fn pops_return_pushes_in_reverse() {
    let pushed = vec![10, -3, 8, 8, 0, 42, -17, 5];
    let mut list = List::new();
    for &elem in &pushed {
        list.push(elem);
    }
    let mut popped = Vec::new();
    for _ in 0..pushed.len() {
        popped.push(list.pop());
    }
    assert_eq!(
        popped,
        vec![Some(5), Some(-17), Some(42), Some(0), Some(8), Some(8), Some(-3), Some(10)]
    );
    assert_eq!(list.pop(), None);
}

#[test]
fn popping_an_empty_list_changes_nothing() {
    let mut list = List::new();
    for _ in 0..5 {
        assert_eq!(list.pop(), None);
    }
    list.push(9);
    assert_eq!(list.pop(), Some(9));
    for _ in 0..5 {
        assert_eq!(list.pop(), None);
    }
}

#[test]
fn the_unpopped_elements_remain() {
    let mut list = List::new();
    for elem in 1..=7 {
        list.push(elem);
    }
    assert_eq!(list.pop(), Some(7));
    assert_eq!(list.pop(), Some(6));
    assert_eq!(list.pop(), Some(5));

    assert_eq!(list.pop(), Some(4));
    assert_eq!(list.pop(), Some(3));
    assert_eq!(list.pop(), Some(2));
    assert_eq!(list.pop(), Some(1));
    assert_eq!(list.pop(), None);
}

#[test]
fn popping_all_that_was_pushed_empties_the_list() {
    let mut list = List::new();
    for elem in 0..4 {
        list.push(elem);
    }
    for _ in 0..4 {
        assert!(list.pop().is_some());
    }
    assert_eq!(list.pop(), None);
}

#[test]
fn a_pop_returns_only_what_is_held() {
    // A fixed series of mixed calls, followed on a plain count of what is held.
    let calls: [Option<i32>; 16] = [
        Some(4),
        Some(4),
        None,
        Some(-1),
        None,
        None,
        None,
        None,
        Some(6),
        Some(2),
        Some(6),
        None,
        Some(3),
        None,
        None,
        None,
    ];
    let answers = [
        Some(4),
        Some(-1),
        Some(4),
        None,
        None,
        Some(6),
        Some(3),
        Some(2),
        Some(6),
    ];
    let mut list = List::new();
    let mut held: Vec<i32> = Vec::new();
    let mut next_answer = 0;
    for call in calls {
        match call {
            Some(elem) => {
                list.push(elem);
                held.push(elem);
            }
            None => {
                let got = list.pop();
                assert_eq!(got, answers[next_answer]);
                next_answer += 1;
                match got {
                    Some(elem) => {
                        let at = held.iter().rposition(|&h| h == elem);
                        assert!(at.is_some());
                        held.remove(at.unwrap());
                    }
                    None => assert!(held.is_empty()),
                }
            }
        }
    }
    assert_eq!(next_answer, answers.len());
    assert!(held.is_empty());
    assert_eq!(list.pop(), None);
}

#[test]
fn pushes_after_exhaustion_start_afresh() {
    let mut list = List::new();
    list.push(1);
    assert_eq!(list.pop(), Some(1));
    assert_eq!(list.pop(), None);
    list.push(2);
    list.push(3);
    assert_eq!(list.pop(), Some(3));
    assert_eq!(list.pop(), Some(2));
    assert_eq!(list.pop(), None);
}

#[test]
fn extreme_and_equal_elements_are_kept_apart() {
    let mut list = List::new();
    list.push(i32::MIN);
    list.push(i32::MAX);
    list.push(0);
    list.push(i32::MAX);
    assert_eq!(list.pop(), Some(i32::MAX));
    assert_eq!(list.pop(), Some(0));
    assert_eq!(list.pop(), Some(i32::MAX));
    assert_eq!(list.pop(), Some(i32::MIN));
    assert_eq!(list.pop(), None);
}

#[test]
fn teardown_of_a_long_list() {
    let mut list = List::new();
    for elem in 0..100_000 {
        list.push(elem);
    }
    drop(list);
}

#[test]
fn teardown_of_a_very_long_list_after_some_pops() {
    let mut list = List::new();
    for elem in 0..1_000_000 {
        list.push(elem);
    }
    assert_eq!(list.pop(), Some(999_999));
    assert_eq!(list.pop(), Some(999_998));
    drop(list);
}

#[test]
fn teardown_of_an_empty_list() {
    let list = List::new();
    drop(list);

    let mut emptied = List::new();
    emptied.push(1);
    assert_eq!(emptied.pop(), Some(1));
    drop(emptied);
}

#[test]
fn long_list_pops_in_order() {
    let mut list = List::new();
    for elem in 0..100_000 {
        list.push(elem);
    }
    for elem in (0..100_000).rev() {
        assert_eq!(list.pop(), Some(elem));
    }
    assert_eq!(list.pop(), None);
}
