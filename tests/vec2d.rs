use board::vec2d_error::Vec2dError;
use board::Vec2d;

#[test]
fn test_new() {
    let board = Vec2d::new('a', 2, 2).unwrap();
    assert_eq!(board, Vec2d::new_from_vec(vec!['a', 'a', 'a', 'a'], 2).unwrap());
    assert_eq!(board.tiles(), &vec!['a', 'a', 'a', 'a']);
    assert_eq!(board.width(), 2);
    let board = Vec2d::new(&'a', 0, 2);
    assert!(board.is_err())
}

#[test]
fn test_get() {
    let board = Vec2d::new('a', 2, 3).unwrap();
    assert_eq!(board.get(1, 1), Some(&'a'));
    assert_eq!(board.get(0, 0), Some(&'a'));
    assert_eq!(board.get(1, 2), Some(&'a'));
    assert_eq!(board.get(2, 2), None);
    assert_eq!(board.get(1, 3), None);
}

#[test]
fn test_get_mut() {
    let mut board = Vec2d::new('a', 2, 3).unwrap();
    assert_eq!(board.get_mut(1, 1), Some(&mut 'a'));
    assert_eq!(board.get_mut(0, 0), Some(&mut 'a'));
    assert_eq!(board.get_mut(1, 2), Some(&mut 'a'));
    assert_eq!(board.get_mut(2, 2), None);
    assert_eq!(board.get_mut(1, 3), None);
}

#[test]
fn new_fills_every_tile() {
    let board = Vec2d::new('a', 2, 3).unwrap();
    assert_eq!(board.tiles(), &vec!['a', 'a', 'a', 'a', 'a', 'a']);
    assert_eq!(board.width(), 2);
    assert_eq!(board.height(), 3);
    assert_eq!(board.get(2, 2), None);
    assert_eq!(board.get(1, 2), Some(&'a'));
}

#[test]
fn new_single_tile() {
    let board = Vec2d::new(7u8, 1, 1).unwrap();
    assert_eq!(board.tiles(), &vec![7u8]);
    assert_eq!(board.height(), 1);
}

#[test]
fn new_rejects_zero_width_or_height() {
    assert_eq!(
        Vec2d::new('a', 0, 3),
        Err(Vec2dError::WidthOrHeightIs0 { width: 0, height: 3 })
    );
    assert_eq!(
        Vec2d::new('a', 3, 0),
        Err(Vec2dError::WidthOrHeightIs0 { width: 3, height: 0 })
    );
    assert_eq!(
        Vec2d::new('a', 0, 0),
        Err(Vec2dError::WidthOrHeightIs0 { width: 0, height: 0 })
    );
}

#[test]
fn new_from_vec_indexes_row_major() {
    let board = Vec2d::new_from_vec(vec!['a', 'b', 'c', 'd'], 2).unwrap();
    assert_eq!(*board.index((1, 0)), 'b');
    assert_eq!(*board.index((0, 1)), 'c');
    assert_eq!(board.get(1, 1), Some(&'d'));
    assert_eq!(board.height(), 2);
    let board = Vec2d::new_from_vec(vec!['a', 'b', 'c', 'd'], 3);
    assert!(board.is_err());
}

#[test]
fn new_from_vec_errors() {
    assert_eq!(
        Vec2d::new_from_vec(vec!['a', 'b', 'c', 'd'], 3),
        Err(Vec2dError::InputNotDivisibleByWidth { width: 3, input_len: 4 })
    );
    assert_eq!(
        Vec2d::<char>::new_from_vec(vec![], 2),
        Err(Vec2dError::WidthOrInputLenIs0 { width: 2, input_len: 0 })
    );
    assert_eq!(
        Vec2d::new_from_vec(vec![1, 2], 0),
        Err(Vec2dError::WidthOrInputLenIs0 { width: 0, input_len: 2 })
    );
}

#[test]
fn new_from_vec_one_row() {
    let board = Vec2d::new_from_vec(vec![1, 2, 3], 3).unwrap();
    assert_eq!(board.height(), 1);
    assert_eq!(board.get_row(0), Some(&[1, 2, 3][..]));
    assert_eq!(board.get_row(1), None);
}

#[test]
fn round_trip_returns_same_vec() {
    let input = vec!['a', 'b', 'c', 'd', 'e', 'f'];
    let board = Vec2d::new_from_vec(input.clone(), 3).unwrap();
    assert_eq!(board.to_vec(), input);
}

#[test]
fn get_agrees_with_index() {
    let board = Vec2d::new_from_vec((0..12).collect::<Vec<u32>>(), 4).unwrap();
    for y in 0..3 {
        for x in 0..4 {
            assert_eq!(board.get(x, y), Some(&((y * 4 + x) as u32)));
            assert_eq!(board.get(x, y), Some(board.index((x, y))));
        }
    }
    assert_eq!(board.get(4, 0), None);
    assert_eq!(board.get(4, 1), None);
    assert_eq!(board.get(0, 3), None);
    assert_eq!(board.get(usize::MAX, usize::MAX), None);
    assert_eq!(board.get(0, usize::MAX), None);
}

#[test]
fn get_mut_writes_through() {
    let mut board = Vec2d::new_from_vec(vec![1, 2, 3, 4, 5, 6], 3).unwrap();
    *board.get_mut(2, 1).unwrap() = 60;
    *board.index_mut((0, 0)) = 10;
    assert_eq!(board.tiles(), &vec![10, 2, 3, 4, 5, 60]);
    assert_eq!(board.get_mut(3, 0), None);
    assert_eq!(board.get_mut(0, 2), None);
}

#[test]
fn rows_are_contiguous() {
    let mut board = Vec2d::new_from_vec(vec![1, 2, 3, 4, 5, 6], 2).unwrap();
    assert_eq!(board.get_row(0), Some(&[1, 2][..]));
    assert_eq!(board.get_row(2), Some(&[5, 6][..]));
    assert_eq!(board.get_row(3), None);
    board.get_row_mut(1).unwrap()[0] = 30;
    assert_eq!(board.get_row_mut(3), None);
    assert_eq!(board.tiles(), &vec![1, 2, 30, 4, 5, 6]);
}

#[test]
fn rows_in_order() {
    let mut board = Vec2d::new_from_vec(vec![1, 2, 3, 4, 5, 6], 2).unwrap();
    let rows = board.iter_rows();
    assert_eq!(rows, vec![&[1, 2][..], &[3, 4][..], &[5, 6][..]]);
    for row in board.iter_rows_mut() {
        row[1] = 0;
    }
    assert_eq!(board.tiles(), &vec![1, 0, 3, 0, 5, 0]);
}

#[test]
fn iter_xy_sweeps_all_positions() {
    let board = Vec2d::new('a', 2, 3).unwrap();
    let xy = board.iter_xy();
    assert_eq!(xy.len(), 2);
    let mut count = 0;
    for (x, rows) in xy {
        assert_eq!(rows, 0..3);
        for y in rows {
            assert_eq!(*board.index((x, y)), 'a');
            count += 1;
        }
    }
    assert_eq!(count, 6);
}

#[test]
fn with_pos_covers_every_position_once() {
    let board = Vec2d::new_from_vec((0..6).collect::<Vec<u32>>(), 3).unwrap();
    let pairs = board.iter_with_pos();
    assert_eq!(pairs.len(), 6);
    let mut seen = vec![false; 6];
    for ((x, y), tile) in pairs.iter() {
        assert_eq!(board.index((*x, *y)), *tile);
        assert!(!seen[y * 3 + x]);
        seen[y * 3 + x] = true;
    }
    assert!(seen.iter().all(|s| *s));
    assert_eq!(pairs[4], ((1, 1), &4));
}

#[test]
fn with_pos_mut_writes_through() {
    let mut board = Vec2d::new('a', 2, 2).unwrap();
    for ((x, y), tile) in board.iter_with_pos_mut() {
        if x == 1 && y == 0 {
            *tile = 'b';
        }
    }
    assert_eq!(board.tiles(), &vec!['a', 'b', 'a', 'a']);
}

#[test]
fn for_each_tile_sets_constant() {
    let mut board = Vec2d::new('a', 2, 3).unwrap();
    board.for_each_tile(|_tile: &char| 'b');
    assert_eq!(board.tiles(), &vec!['b', 'b', 'b', 'b', 'b', 'b']);
}

#[test]
fn for_each_tile_in_order() {
    let mut board = Vec2d::new_from_vec(vec![1, 2, 3, 4], 2).unwrap();
    board.for_each_tile(|t: &i32| t * 10);
    assert_eq!(board.tiles(), &vec![10, 20, 30, 40]);
}

#[test]
fn error_messages() {
    assert_eq!(
        Vec2dError::WidthOrHeightIs0 { width: 0, height: 12 }.message(),
        "Width should be non-zero. Width: 0, height: 12"
    );
    assert_eq!(
        Vec2dError::WidthOrHeightIs0 { width: 305, height: 0 }.message(),
        "Height should be non-zero. Width: 305, height: 0"
    );
    assert_eq!(
        Vec2dError::WidthOrInputLenIs0 { width: 0, input_len: 4 }.message(),
        "Width should be non-zero. Width: 0, input_len: 4"
    );
    assert_eq!(
        Vec2dError::WidthOrInputLenIs0 { width: 2, input_len: 0 }.message(),
        "input_len should be non-zero. Width: 2, height: 0"
    );
    assert_eq!(
        Vec2dError::InputNotDivisibleByWidth { width: 3, input_len: 10 }.message(),
        "The input_len is not divisible by the width: 10 % 3 = 1"
    );
    assert_eq!(
        Vec2dError::WidthOrHeightIs0 { width: 0, height: usize::MAX }.message(),
        format!("Width should be non-zero. Width: 0, height: {}", usize::MAX)
    );
}
