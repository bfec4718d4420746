use gap_text::raw_gap_buf::RawGapBuf;

#[test]
fn new() {
    let s_buf: RawGapBuf<String> = RawGapBuf::new();
    assert_eq!(s_buf.len(), 0);
    assert_eq!(s_buf.gap_len(), 0);
}

#[test]
fn get_parts() {
    let s_buf: RawGapBuf<String> = RawGapBuf::new();
    let (start, end) = s_buf.get_parts();
    assert!(start.is_empty());
    assert!(end.is_empty());
}

#[test]
fn gap_len() {
    let s_buf: RawGapBuf<String> = RawGapBuf::new();
    assert_eq!(s_buf.gap_len(), 0);
    let s_buf: RawGapBuf<String> = RawGapBuf::new_with(vec!["Hello".to_string()], 0, vec![]);
    assert_eq!(s_buf.gap_len(), 0);
    s_buf.drop_in_place();
}

#[test]
fn total_len() {
    let s_buf = RawGapBuf::new_with(vec!["Hi"], 0, vec![]);
    assert_eq!(1, s_buf.total_len());
}

#[test]
fn clone() {
    let s_buf: RawGapBuf<String> =
        RawGapBuf::new_with(vec!["Hello".to_string(), "Bye".to_string()], 0, vec![]);
    let cloned_s_buf = s_buf.clone();
    assert_eq!(s_buf.get_parts(), cloned_s_buf.get_parts());
    s_buf.drop_in_place();
    cloned_s_buf.drop_in_place();
}

#[test]
fn new_with() {
    let s_buf = RawGapBuf::new_with(
        vec!["Hi", "Bye"].into_iter().map(String::from).collect(),
        10,
        vec!["1", "2", "3"].into_iter().map(String::from).collect(),
    );
    assert_eq!(
        s_buf.get_parts(),
        (["Hi", "Bye"].map(String::from).as_slice(), ["1", "2", "3"].map(String::from).as_slice())
    );

    assert_eq!(s_buf.gap_len(), 10);

    s_buf.drop_in_place();
}

#[test]
fn new_with_slice() {
    let s_buf = RawGapBuf::new_with_slice(
        &[[1, 2, 3].as_slice(), [4, 5, 6].as_slice()],
        10,
        &[[7, 8, 9].as_slice(), [10, 11, 12].as_slice()],
    );
    assert_eq!(
        s_buf.get_parts(),
        ([1, 2, 3, 4, 5, 6].as_slice(), [7, 8, 9, 10, 11, 12].as_slice())
    );

    assert_eq!(s_buf.gap_len(), 10);
}

#[test]
fn start_with_offset() {
    let s_buf = RawGapBuf::new_with(vec!["a", "b", "c"], 3, vec!["1", "2"]);
    for i in 0..3 {
        assert_eq!(s_buf.start_with_offset(i), i);
    }
    for i in 3..8 {
        assert_eq!(s_buf.start_with_offset(i), i + 3);
    }
}

#[test]
fn end_with_offset() {
    let s_buf = RawGapBuf::new_with(vec!["a", "b", "c"], 3, vec!["1", "2"]);
    for i in 0..4 {
        assert_eq!(s_buf.end_with_offset(i), i);
    }
    for i in 4..9 {
        assert_eq!(s_buf.end_with_offset(i), i + 3);
    }
}

#[test]
fn move_gap_start_to() {
    let mut s_buf = RawGapBuf::new_with(
        vec!["1", "2", "3"].into_iter().map(String::from).collect(),
        2,
        vec!["a", "b", "c"].into_iter().map(String::from).collect(),
    );

    // move gap to start
    s_buf.move_gap_start_to(0);
    assert_eq!(
        s_buf.get_parts(),
        (
            [].as_slice(),
            ["1", "2", "3", "a", "b", "c"].map(String::from).as_slice()
        )
    );

    // move gap to end
    s_buf.move_gap_start_to(6);
    assert_eq!(
        s_buf.get_parts(),
        (
            ["1", "2", "3", "a", "b", "c"].map(String::from).as_slice(),
            [].as_slice()
        )
    );

    // move the gap by an amount that fits the gap backward
    s_buf.move_gap_start_to(4);
    assert_eq!(
        s_buf.get_parts(),
        (
            ["1", "2", "3", "a"].map(String::from).as_slice(),
            ["b", "c"].map(String::from).as_slice()
        )
    );

    // move the gap by an amount that fits the gap forward 2x
    s_buf.move_gap_start_to(2);
    assert_eq!(
        s_buf.get_parts(),
        (
            ["1", "2"].map(String::from).as_slice(),
            ["3", "a", "b", "c"].map(String::from).as_slice()
        )
    );

    s_buf.move_gap_start_to(0);
    assert_eq!(
        s_buf.get_parts(),
        (
            [].as_slice(),
            ["1", "2", "3", "a", "b", "c"].map(String::from).as_slice()
        )
    );

    // move the gap by an amount that doesnt fit in the gap forward
    s_buf.move_gap_start_to(4);
    assert_eq!(
        s_buf.get_parts(),
        (
            ["1", "2", "3", "a"].map(String::from).as_slice(),
            ["b", "c"].map(String::from).as_slice()
        )
    );

    // move the gap by an amount that doesnt fit in the gap backward
    s_buf.move_gap_start_to(1);
    assert_eq!(
        s_buf.get_parts(),
        (
            ["1"].map(String::from).as_slice(),
            ["2", "3", "a", "b", "c"].map(String::from).as_slice()
        )
    );

    s_buf.drop_in_place();
}

#[test]
fn move_gap_out_of() {
    let mut s_buf = RawGapBuf::new_with(vec!["1", "2", "3"], 10, vec!["4", "5", "6", "7"]);
    s_buf.move_gap_out_of(1, 5);
    assert_eq!(
        s_buf.get_parts(),
        (["1"].as_slice(), ["2", "3", "4", "5", "6", "7"].as_slice())
    );

    // this test doesn't just validate the results slice's validity
    // it also checks if we are moving the minimal elements needed
    s_buf.move_gap_out_of(0, s_buf.len());
    assert_eq!(
        s_buf.get_parts(),
        ([].as_slice(), ["1", "2", "3", "4", "5", "6", "7"].as_slice())
    );

    s_buf.move_gap_out_of(1, s_buf.len());
    assert_eq!(
        s_buf.get_parts(),
        ([].as_slice(), ["1", "2", "3", "4", "5", "6", "7"].as_slice())
    );
}

#[test]
fn to_slice() {
    let mut s_buf: RawGapBuf<u8> = RawGapBuf::new_with(vec![], 0, vec![]);
    let s = s_buf.to_slice();
    assert!(s.is_empty());

    let mut s_buf: RawGapBuf<u8> = RawGapBuf::new_with(vec![1, 2, 3], 0, vec![4, 5, 6]);
    let s = s_buf.to_slice();
    assert_eq!(s, &[1, 2, 3, 4, 5, 6]);

    let mut s_buf: RawGapBuf<u8> = RawGapBuf::new_with(vec![1, 2, 3], 1, vec![]);
    let s = s_buf.to_slice();
    assert_eq!(s, &[1, 2, 3]);

    let mut s_buf: RawGapBuf<u8> = RawGapBuf::new_with(vec![], 1, vec![1, 2, 3]);
    let s = s_buf.to_slice();
    assert_eq!(s, &[1, 2, 3]);

    let mut s_buf: RawGapBuf<u8> = RawGapBuf::new_with(vec![1, 2, 3], 1, vec![4, 5, 6, 7, 8]);
    let s = s_buf.to_slice();
    assert_eq!(s, &[1, 2, 3, 4, 5, 6, 7, 8]);
}

#[test]
fn get() {
    let s_buf = RawGapBuf::new_with(vec![1, 2, 3], 10, vec![4, 5]);
    assert_eq!(s_buf.get(0), Some(&1));
    assert_eq!(s_buf.get(1), Some(&2));
    assert_eq!(s_buf.get(2), Some(&3));
    assert_eq!(s_buf.get(3), Some(&4));
    assert_eq!(s_buf.get(4), Some(&5));
    assert_eq!(s_buf.get(5), None);
    assert_eq!(s_buf.get(6), None);
}

#[test]
fn get_range() {
    let s_buf = RawGapBuf::new_with(vec![1, 2, 3], 10, vec![4, 5]);

    // check if all values stored are returned
    assert_eq!(
        s_buf.get_range(0, s_buf.len()),
        Some(([1, 2, 3].as_slice(), [4, 5].as_slice())),
    );
    assert_eq!(s_buf.get_range(0, s_buf.len()), Some(s_buf.get_parts()));

    // get empty range
    for i in 0..5 {
        assert_eq!(s_buf.get_range(i, i), Some(([].as_slice(), [].as_slice())));
    }
    assert_eq!(s_buf.get_range(5, 5).unwrap(), ([].as_slice(), [].as_slice()));
    assert_eq!(s_buf.get_range(6, 6), None);

    // get single item as slice
    assert_eq!(s_buf.get_range(3, 4), Some(([4].as_slice(), [].as_slice())));
    assert_eq!(s_buf.get_range(4, 5), Some(([5].as_slice(), [].as_slice())));
    assert_eq!(s_buf.get_range(5, 6), None);

    // get items across the gap
    assert_eq!(
        s_buf.get_range(1, 5),
        Some(([2, 3].as_slice(), [4, 5].as_slice()))
    );

    // get items with reversed range
    assert_eq!(s_buf.get_range(6, 4), None);
}

#[test]
fn get_slice() {
    let mut s_buf = RawGapBuf::new_with(vec![1, 2, 3], 10, vec![4, 5, 6]);

    assert_eq!(s_buf.get_slice(0, 0).unwrap(), &[] as &[i32]);
    assert_eq!(s_buf.get_parts(), ([1, 2, 3].as_slice(), [4, 5, 6].as_slice()));
    assert_eq!(s_buf.get_slice(0, 1).unwrap(), &[1]);
    assert_eq!(s_buf.get_parts(), ([1, 2, 3].as_slice(), [4, 5, 6].as_slice()));
    assert_eq!(s_buf.get_slice(1, 2).unwrap(), &[2]);
    assert_eq!(s_buf.get_parts(), ([1, 2, 3].as_slice(), [4, 5, 6].as_slice()));
    assert_eq!(s_buf.get_slice(2, 3).unwrap(), &[3]);
    assert_eq!(s_buf.get_parts(), ([1, 2, 3].as_slice(), [4, 5, 6].as_slice()));

    // these tests don't just validate the results but also check if the shifting was performed
    // with minimal copies.
    assert_eq!(s_buf.get_slice(2, 5).unwrap(), &[3, 4, 5]);
    assert_eq!(s_buf.get_parts(), ([1, 2].as_slice(), [3, 4, 5, 6].as_slice()));

    assert_eq!(s_buf.get_slice(0, 3).unwrap(), &[1, 2, 3]);
    assert_eq!(s_buf.get_parts(), ([1, 2, 3].as_slice(), [4, 5, 6].as_slice()));

    assert_eq!(s_buf.get_slice(0, 5).unwrap(), &[1, 2, 3, 4, 5]);
    assert_eq!(s_buf.get_parts(), ([1, 2, 3, 4, 5].as_slice(), [6].as_slice()));
}

#[test]
fn grow_gap() {
    let mut s_buf = RawGapBuf::<String>::new();
    s_buf.grow_gap(20);
    assert_eq!(s_buf.gap_len(), 20);
    assert!(s_buf.is_empty());
    s_buf.grow_start(vec![String::from("Hi")]);
    s_buf.grow_end(vec![String::from("Bye")]);

    assert_eq!(
        s_buf.get_parts(),
        (["Hi".to_string()].as_slice(), ["Bye".to_string()].as_slice())
    );

    s_buf.grow_gap(10);
    assert_eq!(
        s_buf.get_parts(),
        (["Hi".to_string()].as_slice(), ["Bye".to_string()].as_slice())
    );

    s_buf.grow_gap(20);
    assert_eq!(
        s_buf.get_parts(),
        (["Hi".to_string()].as_slice(), ["Bye".to_string()].as_slice())
    );

    s_buf.grow_gap(0);
    assert_eq!(
        s_buf.get_parts(),
        (["Hi".to_string()].as_slice(), ["Bye".to_string()].as_slice())
    );

    s_buf.grow_gap(30);
    assert_eq!(
        s_buf.get_parts(),
        (["Hi".to_string()].as_slice(), ["Bye".to_string()].as_slice())
    );

    s_buf.drop_in_place();
}

#[test]
fn shrink_gap() {
    let mut s_buf = RawGapBuf::<String>::new();
    s_buf.grow_gap(20);
    assert_eq!(s_buf.gap_len(), 20);
    assert!(s_buf.is_empty());
    s_buf.grow_start(vec![String::from("Hi")]);
    s_buf.grow_end(vec![String::from("Bye")]);

    s_buf.shrink_gap(10);

    assert_eq!(s_buf.gap_len(), 8);
    assert_eq!(
        s_buf.get_parts(),
        (["Hi".to_string()].as_slice(), ["Bye".to_string()].as_slice())
    );

    s_buf.drop_in_place();

    let mut s_buf = RawGapBuf::<String>::new();
    s_buf.grow_gap(20);
    assert_eq!(s_buf.gap_len(), 20);
    assert!(s_buf.is_empty());
    s_buf.grow_start(vec![String::from("Hi")]);
    s_buf.grow_end(vec![String::from("Bye")]);

    s_buf.shrink_gap(18);

    assert_eq!(s_buf.gap_len(), 0);
    assert_eq!(
        s_buf.get_parts(),
        (["Hi".to_string()].as_slice(), ["Bye".to_string()].as_slice())
    );

    s_buf.drop_in_place();
}

#[test]
fn grow_gap_at_positions() {
    let mut s_buf = RawGapBuf::new_with(vec![1, 2, 3], 2, vec![4, 5]);
    s_buf.grow_gap_at(4, 1);
    assert_eq!(s_buf.gap_len(), 6);
    assert_eq!(s_buf.get_parts(), ([1].as_slice(), [2, 3, 4, 5].as_slice()));
    s_buf.grow_gap_at(0, 5);
    assert_eq!(s_buf.gap_len(), 6);
    assert_eq!(s_buf.get_parts(), ([1, 2, 3, 4, 5].as_slice(), [].as_slice()));
}

#[test]
fn shrink_start_and_end() {
    let mut s_buf = RawGapBuf::new_with(vec![1, 2, 3], 1, vec![4, 5, 6]);
    s_buf.shrink_start(2);
    assert_eq!(s_buf.get_parts(), ([1].as_slice(), [4, 5, 6].as_slice()));
    assert_eq!(s_buf.gap_len(), 3);
    s_buf.shrink_end(1);
    assert_eq!(s_buf.get_parts(), ([1].as_slice(), [5, 6].as_slice()));
    assert_eq!(s_buf.gap_len(), 4);
}
