use lab::batch::{convert_chunked, convert_each, LANES};
use lab::lanes::{convert_in_lanes, Lanes};
use rand::distributions::Standard;
use rand::{Rng, SeedableRng, StdRng};

fn random_rgbs(seed: u8, n: usize) -> Vec<[u8; 3]> {
    let mut rng: StdRng = SeedableRng::from_seed([seed; 32]);
    rng.sample_iter(&Standard).take(n).collect()
}

fn widen(l: Lanes<u8>) -> Lanes<u16> {
    let mut out = Lanes { first: [0u16; 8], second: [0u16; 8], third: [0u16; 8] };
    for j in 0..8 {
        out.first[j] = l.first[j] as u16 * 257;
        out.second[j] = l.second[j] as u16 * 257;
        out.third[j] = l.third[j] as u16 * 257;
    }
    out
}

fn narrow(l: Lanes<u16>) -> Lanes<u8> {
    let mut out = Lanes { first: [0u8; 8], second: [0u8; 8], third: [0u8; 8] };
    for j in 0..8 {
        out.first[j] = (l.first[j] / 257) as u8;
        out.second[j] = (l.second[j] / 257) as u8;
        out.third[j] = (l.third[j] / 257) as u8;
    }
    out
}

fn forward(rgbs: &[[u8; 3]]) -> Vec<[u16; 3]> {
    convert_chunked(rgbs, [0u8; 3], &|c: [[u8; 3]; 8]| convert_in_lanes(&c, &widen))
}

fn inverse(wide: &[[u16; 3]]) -> Vec<[u8; 3]> {
    convert_chunked(wide, [u16::MAX; 3], &|c: [[u16; 3]; 8]| convert_in_lanes(&c, &narrow))
}

fn widen_one(rgb: [u8; 3]) -> [u16; 3] {
    [rgb[0] as u16 * 257, rgb[1] as u16 * 257, rgb[2] as u16 * 257]
}

#[test]
fn avx_test_avx_labs_to_rgbs() {
    let rgbs = random_rgbs(0, 512);
    let wide = forward(&rgbs);
    let back = inverse(&wide);
    assert_eq!(back.as_slice(), rgbs.as_slice());
}

#[test]
fn chunked_matches_each_at_every_boundary() {
    for &n in &[0usize, 1, 7, 8, 9, 15, 16, 17, 512] {
        let rgbs = random_rgbs(1, n);
        let chunked = forward(&rgbs);
        let each = convert_each(&rgbs, &widen_one);
        assert_eq!(chunked.len(), n);
        assert_eq!(chunked, each);
    }
}

#[test]
fn chunked_keeps_input_order() {
    let rgbs: Vec<[u8; 3]> = (0..20u8).map(|i| [i, 100 + i, 200 + i]).collect();
    let wide = forward(&rgbs);
    for (i, w) in wide.iter().enumerate() {
        let i = i as u16;
        assert_eq!(*w, [i * 257, (100 + i) * 257, (200 + i) * 257]);
    }
    let mut shuffled = rgbs.clone();
    shuffled.reverse();
    shuffled.swap(0, 11);
    let wide_shuffled = forward(&shuffled);
    for (k, rgb) in shuffled.iter().enumerate() {
        let at = rgbs.iter().position(|x| x == rgb).unwrap();
        assert_eq!(wide_shuffled[k], wide[at]);
    }
}

#[test]
fn chunked_pads_the_last_chunk() {
    // Every lane reports how many lanes of its chunk hold the pad value.
    let count_pad = |c: [u32; 8]| {
        let pads = c.iter().filter(|&&x| x == 999).count() as u32;
        [pads; 8]
    };
    let input: Vec<u32> = (0..11).collect();
    let out = convert_chunked(&input, 999, &count_pad);
    assert_eq!(out, vec![0, 0, 0, 0, 0, 0, 0, 0, 5, 5, 5]);
}

#[test]
fn chunked_engine_sees_chunks_in_order() {
    // Every lane reports the first element of its chunk.
    let first = |c: [u32; 8]| [c[0]; 8];
    let input: Vec<u32> = (100..120).collect();
    let out = convert_chunked(&input, 0, &first);
    let mut expected = vec![100u32; 8];
    expected.extend(vec![108u32; 8]);
    expected.extend(vec![116u32; 4]);
    assert_eq!(out, expected);
}

#[test]
fn chunked_on_empty_input() {
    let out = convert_chunked(&[] as &[u32], 0, &|c: [u32; 8]| c);
    assert!(out.is_empty());
    let each = convert_each(&[] as &[u32], &|x: u32| x + 1);
    assert!(each.is_empty());
}

#[test]
fn chunked_on_exact_multiple_of_lanes() {
    let input: Vec<u32> = (0..(2 * LANES as u32)).collect();
    let out = convert_chunked(&input, 7, &|c: [u32; 8]| {
        let mut r = c;
        for x in r.iter_mut() {
            *x *= 3;
        }
        r
    });
    let expected: Vec<u32> = input.iter().map(|x| x * 3).collect();
    assert_eq!(out, expected);
}

#[test]
fn each_applies_function_in_order() {
    let out = convert_each(&[1u32, 2, 3, 40], &|x: u32| x * 10 + 1);
    assert_eq!(out, vec![11, 21, 31, 401]);
}
