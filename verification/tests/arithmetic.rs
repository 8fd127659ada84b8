use mandlebrot::combinatorics::{factorial, n_choose_r, power_of_i, PowerOfI};
use mandlebrot::render::{max_count, thread_height, thread_start_y, tile_pixel, ThreadSplitter, THREADS};
use mandlebrot::sorting::{distinct_keys, stable_order};

#[test]
fn factorial_small_values() {
    assert_eq!(factorial(0), 1);
    assert_eq!(factorial(1), 1);
    assert_eq!(factorial(5), 120);
    assert_eq!(factorial(12), 479001600);
}

#[test]
fn choose_through_factorials() {
    assert_eq!(n_choose_r(5, 2), 10);
    assert_eq!(n_choose_r(6, 3), 20);
    assert_eq!(n_choose_r(12, 6), 924);
}

#[test]
fn choose_edge_cases_need_no_factorial() {
    assert_eq!(n_choose_r(10, 0), 1);
    assert_eq!(n_choose_r(10, 10), 1);
    assert_eq!(n_choose_r(0, 0), 1);
    assert_eq!(n_choose_r(1000, 1), 1000);
    assert_eq!(n_choose_r(1000, 999), 1000);
}

#[test]
fn choose_is_symmetric() {
    for r in 0..=12 {
        assert_eq!(n_choose_r(12, r), n_choose_r(12, 12 - r));
    }
    assert_eq!(n_choose_r(12, 4), 495);
}

#[test]
fn pascal_rule_holds() {
    for n in 1..=12u32 {
        for r in 1..n {
            assert_eq!(n_choose_r(n, r), n_choose_r(n - 1, r - 1) + n_choose_r(n - 1, r));
        }
    }
}

#[test]
fn powers_of_i_cycle() {
    assert_eq!(power_of_i(0), PowerOfI::PlusReal);
    assert_eq!(power_of_i(1), PowerOfI::PlusImaginary);
    assert_eq!(power_of_i(2), PowerOfI::MinusReal);
    assert_eq!(power_of_i(3), PowerOfI::MinusImaginary);
    assert_eq!(power_of_i(6), PowerOfI::MinusReal);
    for k in 0..40 {
        assert_eq!(power_of_i(k + 4), power_of_i(k));
    }
}

#[test]
fn splitter_tiles_a_band() {
    let s = ThreadSplitter::new(100, 50, 8);
    assert_eq!(s.x_excess, 4);
    assert_eq!(s.y_excess, 2);
    assert_eq!(s.x_end, 12);
    assert_eq!(s.y_end, 6);
    assert_eq!(s.tile_size(8, 12, 0), (4, 8));
    assert_eq!(s.tile_size(8, 0, 6), (8, 2));
    assert_eq!(s.tile_size(8, 3, 3), (8, 8));
}

#[test]
fn tiles_cover_each_pixel_once() {
    let (width, height, quality) = (37usize, 23usize, 5usize);
    let s = ThreadSplitter::new(width, height, quality);
    let mut hits = vec![0u32; width * height];
    for x in 0..=s.x_end {
        for y in 0..=s.y_end {
            let (w, h) = s.tile_size(quality, x, y);
            for i in 0..w {
                for j in 0..h {
                    let (px, py) = tile_pixel(0, quality, x, y, i, j);
                    hits[py as usize * width + px as usize] += 1;
                }
            }
        }
    }
    assert!(hits.iter().all(|&h| h == 1));
}

#[test]
fn tile_widths_add_up_to_the_band() {
    let s = ThreadSplitter::new(100, 50, 8);
    let total: usize = (0..=s.x_end).map(|x| s.tile_size(8, x, 0).0).sum();
    assert_eq!(total, 100);
    let rows: usize = (0..=s.y_end).map(|y| s.tile_size(8, 0, y).1).sum();
    assert_eq!(rows, 50);
}

#[test]
fn bands_cover_the_rows() {
    let h = thread_height(1080);
    assert_eq!(h, 90);
    assert_eq!(thread_start_y(0, h), 0);
    assert_eq!(thread_start_y(THREADS - 1, h), 990);
    assert_eq!(thread_height(11), 0);
}

#[test]
fn tile_pixel_offsets() {
    assert_eq!(tile_pixel(90, 4, 2, 3, 1, 2), (9, 104));
}

#[test]
fn max_count_of_counts() {
    assert_eq!(max_count(&vec![]), 0);
    assert_eq!(max_count(&vec![3, 9, 2, 9, 1]), 9);
    assert_eq!(max_count(&vec![0, 0]), 0);
}

#[test]
fn stable_order_of_keys() {
    assert_eq!(stable_order(&vec![3, 1, 2, 1]), vec![1, 3, 2, 0]);
    assert_eq!(stable_order(&vec![]), Vec::<usize>::new());
    assert_eq!(stable_order(&vec![5, 5, 5]), vec![0, 1, 2]);
    let mut seed: u32 = 7;
    for n in 0..30usize {
        let keys: Vec<u32> = (0..n)
            .map(|_| {
                seed = seed.wrapping_mul(1103515245).wrapping_add(12345);
                (seed >> 16) % 6
            })
            .collect();
        let mut expected: Vec<usize> = (0..n).collect();
        expected.sort_by_key(|&i| keys[i]);
        assert_eq!(stable_order(&keys), expected);
    }
}

#[test]
fn distinct_key_check() {
    assert!(distinct_keys(&vec![]));
    assert!(distinct_keys(&vec![1, 2, 3]));
    assert!(!distinct_keys(&vec![1, 2, 1]));
    assert!(!distinct_keys(&vec![4, 4]));
}
