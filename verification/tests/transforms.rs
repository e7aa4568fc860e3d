use rand::Rng;
use wht::{fwht, fwht4, fwht8, fwht4_checked, fwht8_checked, fwht_stage, wht2, wht4, wht8,
    Lane4, Lane8, Naive};

#[test]
fn naive_wht_01() {
    let data: &mut Vec<i64> = &mut vec![1, 0, 1, 0, 0, 1, 1, 0];
    let expected: Vec<i64> = vec![4, 2, 0, -2, 0, 2, 0, 2];

    let mut transform = Naive::new();
    transform.init(data);

    transform.process(data);
    assert_eq!(*data, expected);
}

#[test]
fn fwht_01() {
    let data: &mut Vec<i64> = &mut vec![1, 0, 1, 0, 0, 1, 1, 0];
    let expected: Vec<i64> = vec![4, 2, 0, -2, 0, 2, 0, 2];

    fwht(data);
    assert_eq!(*data, expected);
}

#[test]
fn inlined_wht8_01() {
    let data: &mut [i64; 8] = &mut [1, 0, 1, 0, 0, 1, 1, 0];
    let expected: [i64; 8] = [4, 2, 0, -2, 0, 2, 0, 2];

    wht8(data);
    assert_eq!(*data, expected);
}

#[test]
fn fwht8_01() {
    let data: &mut Vec<i64> = &mut vec![1, 0, 1, 0, 0, 1, 1, 0];
    let expected: Vec<i64> = vec![4, 2, 0, -2, 0, 2, 0, 2];

    let frame = Lane8 { e: [0; 8] };
    let mut scratch = vec![frame; 8];

    fwht8(data, &mut scratch);
    assert_eq!(*data, expected);
}

#[test]
fn fwht4_01() {
    let mut arr = [0i32; 1024];
    rand::thread_rng().fill(&mut arr[..]);

    let data1 = &mut arr.iter().map(|&x| x as i64).collect::<Vec<_>>();
    let data2 = &mut data1.to_owned();
    let data3 = &mut data1.to_owned();

    let mut naive = Naive::new();
    naive.init(data1);

    naive.process(data1);
    fwht(data2);
    let frame = Lane4 { e: [0; 4] };
    let mut scratch = vec![frame; 256];
    fwht4(data3, &mut scratch);

    assert_eq!(data1, data2);
    assert_eq!(data1, data3);
}

#[test]
fn fwht8_02() {
    let mut arr = [0i32; 1024];
    rand::thread_rng().fill(&mut arr[..]);

    let data1 = &mut arr.iter().map(|&x| x as i64).collect::<Vec<_>>();
    let data2 = &mut data1.to_owned();
    let data3 = &mut data1.to_owned();

    let mut naive = Naive::new();
    naive.init(data1);

    naive.process(data1);
    fwht(data2);
    let frame = Lane8 { e: [0; 8] };
    let mut scratch = vec![frame; 256];
    fwht8(data3, &mut scratch);

    assert_eq!(data1, data2);
    assert_eq!(data1, data3);
}

#[test]
fn golden_vector_all_variants() {
    let input: Vec<i64> = vec![1, 0, 1, 0, 0, 1, 1, 0];
    let expected: Vec<i64> = vec![4, 2, 0, -2, 0, 2, 0, 2];

    let mut a = input.clone();
    let mut naive = Naive::new();
    naive.init(&a);
    naive.process(&mut a);
    assert_eq!(a, expected);

    let mut b = input.clone();
    fwht(&mut b);
    assert_eq!(b, expected);

    let mut c = input.clone();
    let mut scratch4 = vec![Lane4 { e: [0; 4] }; 2];
    fwht4(&mut c, &mut scratch4);
    assert_eq!(c, expected);

    let mut d = input.clone();
    let mut scratch8 = vec![Lane8 { e: [0; 8] }; 1];
    fwht8(&mut d, &mut scratch8);
    assert_eq!(d, expected);
}

#[test]
fn involution_scales_by_length() {
    let input: Vec<i64> = vec![1, 0, 1, 0, 0, 1, 1, 0];
    let mut twice = input.clone();
    fwht(&mut twice);
    fwht(&mut twice);
    let scaled: Vec<i64> = input.iter().map(|&x| 8 * x).collect();
    assert_eq!(twice, scaled);

    let input16: Vec<i64> = vec![3, -1, 4, 1, -5, 9, 2, -6, 5, 3, -5, 8, 9, -7, 9, 3];
    let mut twice16 = input16.clone();
    fwht(&mut twice16);
    fwht(&mut twice16);
    let scaled16: Vec<i64> = input16.iter().map(|&x| 16 * x).collect();
    assert_eq!(twice16, scaled16);
}

#[test]
fn linearity_of_transform() {
    let a: Vec<i64> = vec![3, -1, 4, 1, -5, 9, 2, -6];
    let b: Vec<i64> = vec![2, 7, -1, 8, 2, -8, 1, 8];
    let sum: Vec<i64> = a.iter().zip(b.iter()).map(|(&x, &y)| x + y).collect();

    let mut wa = a.clone();
    let mut wb = b.clone();
    let mut wsum = sum.clone();
    fwht(&mut wa);
    fwht(&mut wb);
    fwht(&mut wsum);
    let pointwise: Vec<i64> = wa.iter().zip(wb.iter()).map(|(&x, &y)| x + y).collect();
    assert_eq!(wsum, pointwise);
}

#[test]
fn kernels_match_fast_transform() {
    let mut k2: [i64; 2] = [5, -3];
    let mut f2: Vec<i64> = vec![5, -3];
    wht2(&mut k2);
    fwht(&mut f2);
    assert_eq!(k2.to_vec(), f2);

    let mut k4: [i64; 4] = [5, -3, 2, 7];
    let mut f4: Vec<i64> = vec![5, -3, 2, 7];
    wht4(&mut k4);
    fwht(&mut f4);
    assert_eq!(k4.to_vec(), f4);

    let mut k8: [i64; 8] = [5, -3, 2, 7, -9, 0, 4, 1];
    let mut f8: Vec<i64> = vec![5, -3, 2, 7, -9, 0, 4, 1];
    wht8(&mut k8);
    fwht(&mut f8);
    assert_eq!(k8.to_vec(), f8);
}

#[test]
fn variants_agree_on_larger_random_input() {
    let mut arr = [0i32; 16384];
    rand::thread_rng().fill(&mut arr[..]);

    let data1 = &mut arr.iter().map(|&x| x as i64).collect::<Vec<_>>();
    let data2 = &mut data1.to_owned();
    let data3 = &mut data1.to_owned();

    fwht(data1);
    let mut scratch4 = vec![Lane4 { e: [0; 4] }; 4096];
    fwht4(data2, &mut scratch4);
    let mut scratch8 = vec![Lane8 { e: [0; 8] }; 2048];
    fwht8(data3, &mut scratch8);

    assert_eq!(data1, data2);
    assert_eq!(data1, data3);
}

#[test]
fn stage_chunks_match_whole_stage() {
    // One butterfly stage applied to disjoint chunks of whole blocks gives
    // the same result as applied to the whole array: the decomposition the
    // parallel driver relies on, for any worker count.
    let input: Vec<i64> = vec![3, -1, 4, 1, -5, 9, 2, -6, 5, 3, -5, 8, 9, -7, 9, 3];
    for h in [1usize, 2, 4, 8] {
        let mut whole = input.clone();
        fwht_stage(&mut whole, h);

        let mut left: Vec<i64> = input[..8].to_vec();
        let mut right: Vec<i64> = input[8..].to_vec();
        if 2 * h <= 8 {
            fwht_stage(&mut left, h);
            fwht_stage(&mut right, h);
            let mut joined = left;
            joined.extend_from_slice(&right);
            assert_eq!(whole, joined);
        } else {
            let mut alone = input.clone();
            fwht_stage(&mut alone, h);
            assert_eq!(whole, alone);
        }
    }
}

#[test]
fn empty_and_single_element_inputs() {
    let mut empty: Vec<i64> = vec![];
    fwht(&mut empty);
    assert_eq!(empty, Vec::<i64>::new());

    let mut single: Vec<i64> = vec![42];
    fwht(&mut single);
    assert_eq!(single, vec![42]);
}

#[test]
fn checked_variants_refuse_bad_shapes() {
    // Length not divisible by the block width.
    let original: Vec<i64> = vec![1, 2, 3, 4];
    let mut data = original.clone();
    let mut scratch8 = vec![Lane8 { e: [0; 8] }; 4];
    assert!(!fwht8_checked(&mut data, &mut scratch8));
    assert_eq!(data, original);

    // Length divisible by the width but not a power of two.
    let original12: Vec<i64> = vec![1, 2, 3, 4, 5, 6, 7, 8, 9, 10, 11, 12];
    let mut data12 = original12.clone();
    let mut scratch4 = vec![Lane4 { e: [0; 4] }; 3];
    assert!(!fwht4_checked(&mut data12, &mut scratch4));
    assert_eq!(data12, original12);

    // Undersized scratch buffer.
    let original8: Vec<i64> = vec![1, 0, 1, 0, 0, 1, 1, 0];
    let mut data8 = original8.clone();
    let mut small = vec![Lane4 { e: [0; 4] }; 1];
    assert!(!fwht4_checked(&mut data8, &mut small));
    assert_eq!(data8, original8);

    // A good shape goes through and transforms.
    let mut ok = original8.clone();
    let mut scratch = vec![Lane4 { e: [0; 4] }; 2];
    assert!(fwht4_checked(&mut ok, &mut scratch));
    assert_eq!(ok, vec![4, 2, 0, -2, 0, 2, 0, 2]);
}
