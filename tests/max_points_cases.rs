use max_points::colinear::{create_test_vector, max_points};
use max_points::line::{Line, Point};

#[test]
fn main_testcase_1() {
    let points = [[1,1],[2,2],[3,3]];
    let vec_points = create_test_vector(&points);
    assert_eq!(max_points(vec_points), 3);
}

#[test]
fn main_testcase_2() {
    let points = [[1,1],[3,2],[5,3],[4,1],[2,3],[1,4]];
    let vec_points = create_test_vector(&points);
    assert_eq!(max_points(vec_points), 4);
}

#[test]
fn main_testcase_3() {
    let points = [[0,0]];
    let vec_points = create_test_vector(&points);
    assert_eq!(max_points(vec_points), 1);
}

#[test]
fn main_testcase_4() {
    let points = [[0,0],[4,5],[7,8],[8,9],[5,6],[3,4],[1,1]];
    let vec_points = create_test_vector(&points);
    assert_eq!(max_points(vec_points), 5);
}

#[test]
fn main_testcase_5() {
    let points = [[7,3],[19,19],[-16,3],[13,17],[-18,1],[-18,-17],[13,-3],[3,7],[-11,12],[7,19],[19,-12],[20,-18],[-16,-15],[-10,-15],[-16,-18],[-14,-1],[18,10],[-13,8],[7,-5],[-4,-9],[-11,2],[-9,-9],[-5,-16],[10,14],[-3,4],[1,-20],[2,16],[0,14],[-14,5],[15,-11],[3,11],[11,-10],[-1,-7],[16,7],[1,-11],[-8,-3],[1,-6],[19,7],[3,6],[-1,-2],[7,-3],[-6,-8],[7,1],[-15,12],[-17,9],[19,-9],[1,0],[9,-10],[6,20],[-12,-4],[-16,-17],[14,3],[0,-1],[-18,9],[-15,15],[-3,-15],[-5,20],[15,-14],[9,-17],[10,-14],[-7,-11],[14,9],[1,-1],[15,12],[-5,-1],[-17,-5],[15,-2],[-12,11],[19,-18],[8,7],[-5,-3],[-17,-1],[-18,13],[15,-3],[4,18],[-14,-15],[15,8],[-18,-12],[-15,19],[-9,16],[-9,14],[-12,-14],[-2,-20],[-3,-13],[10,-7],[-2,-10],[9,10],[-1,7],[-17,-6],[-15,20],[5,-17],[6,-6],[-11,-8]];
    let vec_points = create_test_vector(&points);
    assert_eq!(max_points(vec_points), 6);
}

#[test]
fn main_testcase_6() {
    let points = [[10,2],[-15,3],[-15,-7],[0,2],[-15,10],[-15,-15]];
    let vec_points = create_test_vector(&points);
    assert_eq!(max_points(vec_points), 4);
}

#[test]
fn unit_tests_testcase_1() {
    let points = [[1,1],[2,2],[3,3]];
    let vec_points = create_test_vector(&points);
    assert_eq!(max_points(vec_points), 3);
}

#[test]
fn unit_tests_testcase_2() {
    let points = [[1,1],[3,2],[5,3],[4,1],[2,3],[1,4]];
    let vec_points = create_test_vector(&points);
    assert_eq!(max_points(vec_points), 4);
}

#[test]
fn unit_tests_testcase_3() {
    let points = [[0,0]];
    let vec_points = create_test_vector(&points);
    assert_eq!(max_points(vec_points), 1);
}

#[test]
fn unit_tests_testcase_4() {
    let points = [[0,0],[4,5],[7,8],[8,9],[5,6],[3,4],[1,1]];
    let vec_points = create_test_vector(&points);
    assert_eq!(max_points(vec_points), 5);
}

#[test]
fn unit_tests_testcase_5() {
    let points = [[7,3],[19,19],[-16,3],[13,17],[-18,1],[-18,-17],[13,-3],[3,7],[-11,12],[7,19],[19,-12],[20,-18],[-16,-15],[-10,-15],[-16,-18],[-14,-1],[18,10],[-13,8],[7,-5],[-4,-9],[-11,2],[-9,-9],[-5,-16],[10,14],[-3,4],[1,-20],[2,16],[0,14],[-14,5],[15,-11],[3,11],[11,-10],[-1,-7],[16,7],[1,-11],[-8,-3],[1,-6],[19,7],[3,6],[-1,-2],[7,-3],[-6,-8],[7,1],[-15,12],[-17,9],[19,-9],[1,0],[9,-10],[6,20],[-12,-4],[-16,-17],[14,3],[0,-1],[-18,9],[-15,15],[-3,-15],[-5,20],[15,-14],[9,-17],[10,-14],[-7,-11],[14,9],[1,-1],[15,12],[-5,-1],[-17,-5],[15,-2],[-12,11],[19,-18],[8,7],[-5,-3],[-17,-1],[-18,13],[15,-3],[4,18],[-14,-15],[15,8],[-18,-12],[-15,19],[-9,16],[-9,14],[-12,-14],[-2,-20],[-3,-13],[10,-7],[-2,-10],[9,10],[-1,7],[-17,-6],[-15,20],[5,-17],[6,-6],[-11,-8]];
    let vec_points = create_test_vector(&points);
    assert_eq!(max_points(vec_points), 6);
}

#[test]
fn unit_tests_testcase_6() {
    let points = [[10,2],[-15,3],[-15,-7],[0,2],[-15,10],[-15,-15]];
    let vec_points = create_test_vector(&points);
    assert_eq!(max_points(vec_points), 4);
}
fn run(points: &[[i32; 2]]) -> i32 {
    max_points(create_test_vector(points))
}

#[test]
fn no_points_give_zero() {
    assert_eq!(run(&[]), 0);
}

#[test]
fn repeated_point_counts_once() {
    assert_eq!(run(&[[1, 1], [1, 1], [1, 1]]), 1);
    assert_eq!(run(&[[1, 1], [1, 1], [2, 2]]), 2);
    assert_eq!(run(&[[1, 1], [2, 2], [1, 1], [3, 3], [0, 5]]), 3);
}

#[test]
fn parallel_lines_with_fractional_intercepts_stay_apart() {
    // y = x / 2 and y = (x - 1) / 2
    assert_eq!(run(&[[0, 0], [2, 1], [1, 0], [3, 1]]), 2);
}

#[test]
fn reversed_order_is_one_line() {
    assert_eq!(run(&[[3, 3], [2, 2], [1, 1]]), 3);
    assert_eq!(run(&[[2, 2], [1, 1], [3, 3]]), 3);
}

#[test]
fn distinct_points_without_three_on_a_line_give_two() {
    assert_eq!(run(&[[0, 0], [1, 0], [0, 1], [5, 7]]), 2);
    assert_eq!(run(&[[4, -2], [9, 9]]), 2);
}

#[test]
fn permuted_input_gives_same_answer() {
    assert_eq!(run(&[[1, 4], [2, 3], [4, 1], [5, 3], [3, 2], [1, 1]]), 4);
    assert_eq!(run(&[[-15, -15], [-15, 10], [0, 2], [-15, -7], [-15, 3], [10, 2]]), 4);
}

#[test]
fn extreme_coordinates() {
    assert_eq!(run(&[[i32::MIN, i32::MIN], [i32::MAX, i32::MAX], [0, 0]]), 3);
    assert_eq!(run(&[[i32::MIN, i32::MAX], [i32::MAX, i32::MIN], [0, 0], [1, 1]]), 2);
}

#[test]
fn point_from_vector() {
    assert_eq!(Point::from(&vec![-3, 8]), Point { x: -3, y: 8 });
}

#[test]
fn line_keys_are_reduced_and_ordered() {
    let a = Point { x: 1, y: 1 };
    let b = Point { x: 3, y: 2 };
    let c = Point { x: 5, y: 3 };
    assert_eq!(Line::find_line(&a, &b), Line::Regular { dx: 2, dy: 1, b: 1 });
    assert_eq!(Line::find_line(&b, &a), Line::Regular { dx: 2, dy: 1, b: 1 });
    assert_eq!(Line::find_line(&a, &c), Line::find_line(&b, &c));
    let o = Point { x: 0, y: 0 };
    let d = Point { x: 2, y: -4 };
    assert_eq!(Line::find_line(&o, &d), Line::Regular { dx: 1, dy: -2, b: 0 });
    assert_eq!(Line::find_line(&d, &o), Line::Regular { dx: 1, dy: -2, b: 0 });
}

#[test]
fn vertical_and_horizontal_keys() {
    let p = Point { x: -15, y: 3 };
    let q = Point { x: -15, y: -7 };
    assert_eq!(Line::find_line(&p, &q), Line::Vertical(-15));
    assert_eq!(Line::find_line(&q, &p), Line::Vertical(-15));
    let r = Point { x: 10, y: 2 };
    let s = Point { x: 0, y: 2 };
    assert_eq!(Line::find_line(&r, &s), Line::Regular { dx: 1, dy: 0, b: 2 });
}

#[test]
fn fractional_intercept_is_kept_exactly() {
    let p = Point { x: 1, y: 0 };
    let q = Point { x: 3, y: 1 };
    // intercept -1/2 = b / dx
    assert_eq!(Line::find_line(&p, &q), Line::Regular { dx: 2, dy: 1, b: -1 });
    let o = Point { x: 0, y: 0 };
    let r = Point { x: 2, y: 1 };
    assert_ne!(Line::find_line(&p, &q), Line::find_line(&o, &r));
}

#[test]
fn create_test_vector_keeps_pairs() {
    assert_eq!(create_test_vector(&[[1, 2], [-3, 4]]), vec![vec![1, 2], vec![-3, 4]]);
}
