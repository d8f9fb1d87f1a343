use nanofft::reorder::{bit_reverse_reorder, bit_reverse_reorder_dyn, log2_exact, reverse_index};
use nanofft::trig::{sin_cos, QUARTER_TURN};

struct Lcg(u64);

impl Lcg {
    fn next_unit(&mut self) -> f64 {
        self.0 = self.0.wrapping_mul(6364136223846793005).wrapping_add(1442695040888963407);
        ((self.0 >> 11) as f64) / ((1u64 << 53) as f64) * 2.0 - 1.0
    }
}

fn reference_dft(x: &[(f64, f64)]) -> Vec<(f64, f64)> {
    let n = x.len();
    (0..n)
        .map(|k| {
            let mut re = 0.0;
            let mut im = 0.0;
            for (j, &(a, b)) in x.iter().enumerate() {
                let t = -2.0 * std::f64::consts::PI * ((k * j) % n) as f64 / n as f64;
                re += a * t.cos() - b * t.sin();
                im += a * t.sin() + b * t.cos();
            }
            (re, im)
        })
        .collect()
}

fn normalised_error(got: &[(f64, f64)], want: &[(f64, f64)]) -> f64 {
    let mut sum = 0.0;
    for (g, w) in got.iter().zip(want.iter()) {
        let err = (g.0 - w.0).powi(2) + (g.1 - w.1).powi(2);
        let mag = w.0.powi(2) + w.1.powi(2);
        sum += err / mag;
    }
    sum.sqrt() / got.len() as f64
}

fn decode_i16(data: &[(i16, i16)], range: i16) -> Vec<(f64, f64)> {
    let scale = 2f64.powi(range as i32) / i16::MAX as f64;
    data.iter().map(|&(a, b)| (a as f64 * scale, b as f64 * scale)).collect()
}

fn decode_i32(data: &[(i32, i32)], range: i16) -> Vec<(f64, f64)> {
    let scale = 2f64.powi(range as i32) / i32::MAX as f64;
    data.iter().map(|&(a, b)| (a as f64 * scale, b as f64 * scale)).collect()
}

fn random_input(n: usize, seed: u64) -> Vec<(f64, f64)> {
    let mut rng = Lcg(seed);
    (0..n).map(|_| (rng.next_unit(), rng.next_unit())).collect()
}

fn error_i16(n: usize, seed: u64) -> f64 {
    let x = random_input(n, seed);
    let mut data: Vec<(i16, i16)> =
        x.iter().map(|&(a, b)| ((a * i16::MAX as f64) as i16, (b * i16::MAX as f64) as i16)).collect();
    let range = nanofft::i16::fft_pairs_dyn(&mut data);
    normalised_error(&decode_i16(&data, range), &reference_dft(&x))
}

fn error_i32(n: usize, seed: u64) -> f64 {
    let x = random_input(n, seed);
    let mut data: Vec<(i32, i32)> =
        x.iter().map(|&(a, b)| ((a * i32::MAX as f64) as i32, (b * i32::MAX as f64) as i32)).collect();
    let range = nanofft::i32::fft_pairs_dyn(&mut data);
    normalised_error(&decode_i32(&data, range), &reference_dft(&x))
}

#[test]
fn bit_reverse_order_of_eight() {
    let mut data = [0u8, 1, 2, 3, 4, 5, 6, 7];
    bit_reverse_reorder(&mut data);
    assert_eq!(data, [0, 4, 2, 6, 1, 5, 3, 7]);
}

#[test]
fn bit_reverse_twice_is_identity() {
    let before: Vec<u32> = (0..1024).map(|i| i * 7 + 3).collect();
    let mut data = before.clone();
    bit_reverse_reorder_dyn(&mut data);
    assert_ne!(data, before);
    bit_reverse_reorder_dyn(&mut data);
    assert_eq!(data, before);
}

#[test]
fn reverse_index_and_log2() {
    assert_eq!(reverse_index(1, 3), 4);
    assert_eq!(reverse_index(6, 3), 3);
    assert_eq!(reverse_index(1, 10), 512);
    assert_eq!(log2_exact(1), 0);
    assert_eq!(log2_exact(1024), 10);
}

#[test]
fn sin_cos_endpoints() {
    assert_eq!(sin_cos(0), (0, u32::MAX as i64));
    assert_eq!(sin_cos(QUARTER_TURN), (-(u32::MAX as i64), 0));
    let (s, c) = sin_cos(u32::MAX);
    assert!(s < 0 && (-s as f64) < 0.01 * u32::MAX as f64);
    assert!(c < 0 && (-c as f64) > 0.999 * u32::MAX as f64);
}

#[test]
fn sin_cos_eighth_turn() {
    let (s, c) = sin_cos(QUARTER_TURN / 2);
    let expected = (std::f64::consts::FRAC_1_SQRT_2 * u32::MAX as f64).round() as i64;
    assert_eq!(s, -expected);
    assert_eq!(c, expected);
}

#[test]
fn i16_impulse() {
    let mut data = [(0i16, 0i16); 8];
    data[0] = (i16::MAX, 0);
    let range = nanofft::i16::fft_pairs(&mut data);
    assert_eq!(range, 0);
    for &(re, im) in data.iter() {
        assert_eq!((re, im), (i16::MAX, 0));
    }
}

#[test]
fn i16_dc_rescaling() {
    let mut data = [(i16::MAX, 0i16); 8];
    let range = nanofft::i16::fft_pairs(&mut data);
    assert_eq!(range, 3);
    let out = decode_i16(&data, range);
    assert!((out[0].0 - 8.0).abs() < 1e-2, "{:?}", out[0]);
    assert!(out[0].1.abs() < 1e-2);
    for k in 1..8 {
        assert!(out[k].0.abs() < 1e-2 && out[k].1.abs() < 1e-2, "bin {} is {:?}", k, out[k]);
    }
}

#[test]
fn i32_single_tone() {
    let n = 16;
    let mut data = [(0i32, 0i32); 16];
    for (j, d) in data.iter_mut().enumerate() {
        let v = (2.0 * std::f64::consts::PI * 3.0 * j as f64 / n as f64).cos();
        *d = ((v * i32::MAX as f64) as i32, 0);
    }
    let range = nanofft::i32::fft_pairs(&mut data);
    let out = decode_i32(&data, range);
    for k in 0..n {
        let want = if k == 3 || k == 13 { 8.0 } else { 0.0 };
        assert!((out[k].0 - want).abs() < 1e-6, "bin {} is {:?}", k, out[k]);
        assert!(out[k].1.abs() < 1e-6, "bin {} is {:?}", k, out[k]);
    }
}

#[test]
fn i32_impulse_and_dc() {
    let mut imp = [(0i32, 0i32); 8];
    imp[0] = (i32::MAX, 0);
    let range = nanofft::i32::fft_pairs(&mut imp);
    let out = decode_i32(&imp, range);
    for &(re, im) in out.iter() {
        assert!((re - 1.0).abs() < 1e-8 && im.abs() < 1e-8);
    }
    let mut dc = [(i32::MAX, 0i32); 8];
    let range = nanofft::i32::fft_pairs(&mut dc);
    assert_eq!(range, 3);
    let out = decode_i32(&dc, range);
    assert!((out[0].0 - 8.0).abs() < 1e-6);
    for k in 1..8 {
        assert!(out[k].0.abs() < 1e-6 && out[k].1.abs() < 1e-6);
    }
}

#[test]
fn split_and_interleaved_agree_i16() {
    let x = random_input(1024, 11);
    let mut re = [0i16; 1024];
    let mut im = [0i16; 1024];
    let mut pairs = [(0i16, 0i16); 1024];
    for (k, &(a, b)) in x.iter().enumerate() {
        re[k] = (a * 32767.0) as i16;
        im[k] = (b * 32767.0) as i16;
        pairs[k] = (re[k], im[k]);
    }
    let mut dynamic = pairs.to_vec();
    let r1 = nanofft::i16::fft_arrays(&mut re, &mut im);
    let r2 = nanofft::i16::fft_pairs(&mut pairs);
    let r3 = nanofft::i16::fft_pairs_dyn(&mut dynamic);
    assert_eq!(r1, r2);
    assert_eq!(r2, r3);
    for k in 0..1024 {
        assert_eq!((re[k], im[k]), pairs[k]);
        assert_eq!(pairs[k], dynamic[k]);
    }
}

#[test]
fn split_and_interleaved_agree_i32() {
    let x = random_input(1024, 12);
    let mut re = [0i32; 1024];
    let mut im = [0i32; 1024];
    let mut pairs = [(0i32, 0i32); 1024];
    for (k, &(a, b)) in x.iter().enumerate() {
        re[k] = (a * i32::MAX as f64) as i32;
        im[k] = (b * i32::MAX as f64) as i32;
        pairs[k] = (re[k], im[k]);
    }
    let r1 = nanofft::i32::fft_arrays(&mut re, &mut im);
    let r2 = nanofft::i32::fft_pairs(&mut pairs);
    assert_eq!(r1, r2);
    for k in 0..1024 {
        assert_eq!((re[k], im[k]), pairs[k]);
    }
}

fn mean_error(error: fn(usize, u64) -> f64, n: usize, runs: u64) -> f64 {
    (0..runs).map(|seed| error(n, 1000 + seed)).sum::<f64>() / runs as f64
}

#[test]
fn reference_agreement_i16() {
    let e4 = mean_error(error_i16, 4, 16);
    let e256 = mean_error(error_i16, 256, 4);
    let e4096 = error_i16(4096, 3);
    assert!(e4 <= 1e-4, "{}", e4);
    assert!(e256 <= 1e-3, "{}", e256);
    assert!(e4096 <= 1e-3, "{}", e4096);
}

#[test]
fn reference_agreement_i32() {
    let e4 = mean_error(error_i32, 4, 16);
    let e256 = mean_error(error_i32, 256, 4);
    let e4096 = error_i32(4096, 6);
    assert!(e4 <= 1e-8, "{}", e4);
    assert!(e256 <= 1e-7, "{}", e256);
    assert!(e4096 <= 1e-6, "{}", e4096);
}

#[test]
fn linearity_i32() {
    let n = 256;
    let a = random_input(n, 21);
    let b = random_input(n, 22);
    let alpha = 0.25;
    let encode = |x: &[(f64, f64)]| -> Vec<(i32, i32)> {
        x.iter().map(|&(r, i)| ((r * 0.5 * i32::MAX as f64) as i32, (i * 0.5 * i32::MAX as f64) as i32)).collect()
    };
    let mix: Vec<(f64, f64)> = a.iter().zip(b.iter()).map(|(p, q)| (alpha * p.0 + q.0, alpha * p.1 + q.1)).collect();
    let mut da = encode(&a);
    let mut db = encode(&b);
    let mut dm = encode(&mix);
    let ra = nanofft::i32::fft_pairs_dyn(&mut da);
    let rb = nanofft::i32::fft_pairs_dyn(&mut db);
    let rm = nanofft::i32::fft_pairs_dyn(&mut dm);
    let fa = decode_i32(&da, ra);
    let fb = decode_i32(&db, rb);
    let fm = decode_i32(&dm, rm);
    for k in 0..n {
        let want = (alpha * fa[k].0 + fb[k].0, alpha * fa[k].1 + fb[k].1);
        assert!((fm[k].0 - want.0).abs() < 1e-6 && (fm[k].1 - want.1).abs() < 1e-6, "bin {}", k);
    }
}

#[test]
fn parseval_i32() {
    let n = 512;
    let x = random_input(n, 31);
    let mut data: Vec<(i32, i32)> =
        x.iter().map(|&(a, b)| ((a * i32::MAX as f64) as i32, (b * i32::MAX as f64) as i32)).collect();
    let time_energy: f64 = data
        .iter()
        .map(|&(a, b)| (a as f64 / i32::MAX as f64).powi(2) + (b as f64 / i32::MAX as f64).powi(2))
        .sum();
    let range = nanofft::i32::fft_pairs_dyn(&mut data);
    let freq_energy: f64 = decode_i32(&data, range).iter().map(|&(a, b)| a * a + b * b).sum();
    assert!((time_energy - freq_energy / n as f64).abs() < 1e-6 * time_energy);
}

#[test]
fn small_inputs_are_not_shifted() {
    let mut data = [(100i16, -50i16); 16];
    let range = nanofft::i16::fft_pairs(&mut data);
    assert_eq!(range, 0);
    assert_eq!(data[0], (1600, -800));
    assert_eq!(data.len(), 16);
    for k in 1..16 {
        assert_eq!(data[k], (0, 0), "bin {}", k);
    }
}
