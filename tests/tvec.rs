use raphtory_core::iter::GenLockedIter;
use raphtory_core::tvec::DefaultTVec;

#[test]
fn push() {
    let mut tvec = DefaultTVec::default();

    tvec.push(4, 12); // i:0 t: 4
    tvec.push(9, 3); // i:1 t: 3
    tvec.push(1, 2); // i: 2 t: 2

    assert_eq!(tvec.iter(), vec![&12, &3, &2]);
}

#[test]
fn timed_iter() {
    let mut tvec = DefaultTVec::default();

    tvec.push(4, 12);
    tvec.push(9, 3);
    tvec.push(1, 2);

    assert_eq!(tvec.iter_window(0, 5), vec![&2, &12]);
}

#[test]
fn insert() {
    let mut tvec = DefaultTVec::default();

    tvec.push(4, 12); // t: 4 i:0
    tvec.push(9, 3); // t: 9 i:1
    tvec.push(1, 2); // t: 1 i:2

    // at a different t:3 override the index 2
    tvec.insert(3, 19, 2);

    assert_eq!(tvec.iter_window(0, 5), vec![&2, &19, &12]);
}

#[test]
fn insert_iter_time() {
    let mut tvec = DefaultTVec::default();

    tvec.push(4, String::from("one")); // t: 4 i:0
    tvec.push(9, String::from("two")); // t: 9 i:1
    tvec.push(1, String::from("three")); // t: 1 i:2

    // at a different t:3 override the index 2
    tvec.insert(3, String::from("four"), 2);

    assert_eq!(
        tvec.iter_window_t(0, 5),
        vec![
            (&1u64, &String::from("three")),
            (&3u64, &String::from("four")),
            (&4u64, &String::from("one")),
        ]
    );

    // from time 3 onwards you cannot see the item "three"
    assert_eq!(
        tvec.iter_window_t(3, 100),
        vec![
            (&3u64, &String::from("four")),
            (&4u64, &String::from("one")),
            (&9u64, &String::from("two")),
        ]
    );
}

#[test]
fn push_and_count() {
    let mut tvec = DefaultTVec::default();

    tvec.push(4, String::from("one")); // t: 4 i:0
    tvec.push(9, String::from("two")); // t: 9 i:1
    tvec.push(1, String::from("three")); // t: 1 i:2

    assert_eq!(tvec.len(), 3);
}

#[test]
fn insert_and_count() {
    let mut tvec = DefaultTVec::default();

    tvec.push(4, String::from("one")); // t: 4 i:0
    tvec.push(9, String::from("two")); // t: 9 i:1
    tvec.push(1, String::from("three")); // t: 1 i:2
    tvec.insert(19, String::from("four"), 0); // t: 19 i:0

    // len includes all versions
    assert_eq!(tvec.len(), 4);
}

#[test]
fn single_cell_keeps_versions_in_time_order() {
    let mut tvec = DefaultTVec::new(5, 'a');
    tvec.insert(2, 'b', 0);
    tvec.insert(5, 'c', 0);
    assert_eq!(tvec.iter(), vec![&'b', &'a', &'c']);
    assert_eq!(tvec.len(), 3);
    assert_eq!(tvec.len_t(0, 3), 1);
}

#[test]
fn insert_at_same_time_keeps_both_versions() {
    let mut tvec = DefaultTVec::default();
    tvec.push(4, 1);
    tvec.push(9, 2);
    tvec.insert(4, 3, 0);
    assert_eq!(tvec.len(), 3);
    assert_eq!(tvec.iter_window(4, 5), vec![&1, &3]);
}

#[test]
fn window_excludes_its_end() {
    let mut tvec = DefaultTVec::default();
    tvec.push(4, 1);
    tvec.push(5, 2);
    assert_eq!(tvec.iter_window(4, 5), vec![&1]);
    assert_eq!(tvec.iter_window(6, 9), Vec::<&i32>::new());
}

#[test]
fn locked_iter_hands_out_items_in_order() {
    let owner = vec![3u64, 1, 2];
    let mut it = GenLockedIter::from(owner, |o: &Vec<u64>| o.iter().map(|x| x * 10).collect());
    assert_eq!(it.next(), Some(30));
    assert_eq!(it.next(), Some(10));
    assert_eq!(it.owner(), &vec![3u64, 1, 2]);
    assert_eq!(it.next(), Some(20));
    assert_eq!(it.next(), None);
}
