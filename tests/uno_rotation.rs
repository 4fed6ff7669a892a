use monte_carlo::uno_basic_game::{rotate_by, rotate_by_reverse};

#[test]
fn test_rotate_by() {
    let mut mem = [1, 2, 3, 4, 5, 6, 7];
    rotate_by(&mut mem, 2);
    assert_eq!(mem, [6, 7, 1, 2, 3, 4, 5]);

    let mut mem = [1, 2, 3, 4, 5, 6, 7, 8];
    rotate_by(&mut mem, 2);
    assert_eq!(mem, [7, 8, 1, 2, 3, 4, 5, 6]);

    let mut mem = (0..200).collect::<Vec<_>>();
    rotate_by(&mut mem, 50);
    assert_eq!(mem, (150..200).chain(0..150).collect::<Vec<u8>>())
}

#[test]
fn test_rotate_by_reverse() {
    let mut mem = [1, 2, 3, 4, 5, 6, 7];
    rotate_by_reverse(&mut mem, 2);
    assert_eq!(mem, [3, 4, 5, 6, 7, 1, 2]);

    let mut mem = [1, 2, 3, 4, 5, 6, 7, 8];
    rotate_by_reverse(&mut mem, 2);
    assert_eq!(mem, [3, 4, 5, 6, 7, 8, 1, 2]);

    let mut mem = (0..200).collect::<Vec<u8>>();
    rotate_by_reverse(&mut mem, 50);
    assert_eq!(mem, (50..200).chain(0..50).collect::<Vec<u8>>())
}

#[test]
fn rotation_by_length_or_more_is_a_no_op() {
    let mut mem = [1u8, 2, 3];
    rotate_by(&mut mem, 3);
    assert_eq!(mem, [1, 2, 3]);
    rotate_by_reverse(&mut mem, 5);
    assert_eq!(mem, [1, 2, 3]);
    rotate_by(&mut mem, 0);
    assert_eq!(mem, [1, 2, 3]);
}
