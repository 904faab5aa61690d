use linked_stack::List;

#[test]
fn test_all() {
    let mut list = List::new();
    println!("list: {:?}", list);
    assert_eq!(list.peek(), None);
    assert_eq!(list.peek_mut(), None);
    assert_eq!(list.pop(), None);

    list.push(1);
    list.push(2);
    list.push(3);
    println!("list: {:?}", list);

    let peek_val = list.peek();
    println!("peek_val: {:?}", peek_val);
    assert_eq!(peek_val, Some(&3));

    let peek_mut_val = list.peek_mut();
    println!("peek_mut_val: {:?}", peek_mut_val);
    assert_eq!(peek_mut_val, Some(&mut 3));

    assert_eq!(list.pop(), Some(3));
    assert_eq!(list.pop(), Some(2));
    println!("list: {:?}", list);
}

#[test]
fn test_into_iter() {
    let mut list = List::new();
    list.push(1);
    list.push(2);
    list.push(3);

    let mut iter = list.into_iter();
    while let Some(cur) = iter.next() {
        println!("[{:?}] => ", cur)
    }
}

#[test]
fn test_iter() {
    let mut list = List::new();
    list.push(1);
    list.push(2);
    list.push(3);

    let mut iter = list.iter();
    while let Some(cur) = iter.next() {
        println!("[{:?}] => ", cur)
    }
    println!();

    println!("after: {:?}", list);
}

#[test]
fn test_iter_mut() {
    let mut list = List::new();
    list.push(1);
    list.push(2);
    list.push(3);

    let mut iter = list.iter_mut();
    while let Some(cur) = iter.next() {
        println!("[{:?}] => ", cur);
        *cur = *cur + 1;
    }
    println!();

    println!("after: {:?}", list);
}

#[test]
fn lifo_order() {
    let mut list = List::new();
    for e in [1, 2, 3, 4, 5] {
        list.push(e);
    }
    assert_eq!(list.pop(), Some(5));
    assert_eq!(list.pop(), Some(4));
    assert_eq!(list.pop(), Some(3));
    assert_eq!(list.pop(), Some(2));
    assert_eq!(list.pop(), Some(1));
    assert_eq!(list.pop(), None);
}

#[test]
fn push_three_pop_three() {
    let mut list = List::new();
    list.push(1);
    list.push(2);
    list.push(3);
    assert_eq!(list.peek(), Some(&3));
    assert_eq!(list.pop(), Some(3));
    assert_eq!(list.pop(), Some(2));
    assert_eq!(list.pop(), Some(1));
    assert_eq!(list.pop(), None);
}

#[test]
fn empty_semantics() {
    let mut list: List<i32> = List::new();
    assert_eq!(list.pop(), None);
    assert_eq!(list.peek(), None);
    assert_eq!(list.peek_mut(), None);
}

#[test]
fn peek_does_not_disturb_pop() {
    let mut peeked = List::new();
    let mut unpeeked = List::new();
    for e in [10, 20, 30] {
        peeked.push(e);
        unpeeked.push(e);
    }
    assert_eq!(peeked.peek(), Some(&30));
    assert_eq!(peeked.pop(), unpeeked.pop());
    assert_eq!(peeked.pop(), unpeeked.pop());
    assert_eq!(peeked.pop(), unpeeked.pop());
    assert_eq!(peeked.pop(), unpeeked.pop());
}

#[test]
fn peek_mut_writes_the_top() {
    let mut list = List::new();
    list.push(1);
    list.push(2);
    if let Some(top) = list.peek_mut() {
        *top = 42;
    }
    assert_eq!(list.pop(), Some(42));
    assert_eq!(list.pop(), Some(1));
    assert_eq!(list.pop(), None);
}

#[test]
fn read_iter_restartable() {
    let mut list = List::new();
    list.push(1);
    list.push(2);
    list.push(3);

    let mut first = Vec::new();
    let mut iter = list.iter();
    while let Some(cur) = iter.next() {
        first.push(*cur);
    }

    let mut second = Vec::new();
    let mut iter = list.iter();
    while let Some(cur) = iter.next() {
        second.push(*cur);
    }

    assert_eq!(first, vec![3, 2, 1]);
    assert_eq!(first, second);
}

#[test]
fn read_iters_coexist() {
    let mut list = List::new();
    list.push(1);
    list.push(2);

    let mut a = list.iter();
    let mut b = list.iter();
    assert_eq!(a.next(), Some(&2));
    assert_eq!(b.next(), Some(&2));
    assert_eq!(a.next(), Some(&1));
    assert_eq!(b.next(), Some(&1));
    assert_eq!(a.next(), None);
    assert_eq!(b.next(), None);
}

#[test]
fn owning_iter_exhaustion() {
    let mut list = List::new();
    list.push(1);
    list.push(2);
    list.push(3);

    let mut iter = list.into_iter();
    assert_eq!(iter.next(), Some(3));
    assert_eq!(iter.next(), Some(2));
    assert_eq!(iter.next(), Some(1));
    assert_eq!(iter.next(), None);
    assert_eq!(iter.next(), None);
    assert_eq!(iter.next(), None);
}

#[test]
fn mutation_visible_to_read_iter() {
    let mut list = List::new();
    list.push(1);
    list.push(2);
    list.push(3);

    let mut iter = list.iter_mut();
    while let Some(cur) = iter.next() {
        *cur = *cur + 1;
    }

    let mut seen = Vec::new();
    let mut iter = list.iter();
    while let Some(cur) = iter.next() {
        seen.push(*cur);
    }
    assert_eq!(seen, vec![4, 3, 2]);
}

#[test]
fn write_at_updates_one_position() {
    let mut list = List::new();
    list.push(1);
    list.push(2);
    list.push(3);

    list.write_at(0, 30);
    list.write_at(2, 10);
    list.write_at(3, 99);

    let mut seen = Vec::new();
    let mut iter = list.iter();
    while let Some(cur) = iter.next() {
        seen.push(*cur);
    }
    assert_eq!(seen, vec![30, 2, 10]);
}

#[test]
fn clear_empties_the_stack() {
    let mut list = List::new();
    for e in 0..100 {
        list.push(e);
    }
    list.clear();
    assert_eq!(list.pop(), None);
    assert_eq!(list.peek(), None);
}

#[test]
fn deep_teardown() {
    let mut list = List::new();
    for e in 0..100_000 {
        list.push(e);
    }
    assert_eq!(list.peek(), Some(&99_999));
    drop(list);
}
