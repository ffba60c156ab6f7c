use ffix::dyadic::Dyadic;
use ffix::format::{Format, RoundingMode};
use ffix::quantization::quantize_fix;
use ffix::types::Ffix;

const MODES: [RoundingMode; 4] =
    [RoundingMode::Floor, RoundingMode::Ceiling, RoundingMode::TowardZero, RoundingMode::AwayFromZero];

fn number(x: f64) -> Dyadic {
    Dyadic::from_bits(x.to_bits()).unwrap()
}

fn as_number(a: &Ffix) -> f64 {
    a.value() as f64 / a.format().scale() as f64
}

/// Rounding of a double to an integer, in doubles.
fn round_in_doubles(x: f64, mode: RoundingMode) -> f64 {
    match mode {
        RoundingMode::Floor => x.floor(),
        RoundingMode::Ceiling => x.ceil(),
        RoundingMode::AwayFromZero => x.round(),
        RoundingMode::TowardZero => {
            if (x - x.trunc()).abs() == 0.5 {
                x.trunc()
            } else {
                x.round()
            }
        }
    }
}

/// Quantization in doubles: exact for words of up to 26 bits.
fn quantize_in_doubles(x: f64, f: &Format) -> f64 {
    let sign_bits = if f.signed() { 1 } else { 0 };
    let fs = 2f64.powi((f.word_bits() - f.frac_bits() - sign_bits) as i32);
    let scale = 2f64.powi(f.frac_bits() as i32);
    let upper = fs - 1.0 / scale;
    let lower = if f.signed() { -fs } else { 0.0 };
    let quantized = round_in_doubles(x * scale, f.rounding()) / scale;
    if quantized > upper {
        upper
    } else if quantized < lower {
        lower
    } else {
        quantized
    }
}

/// A small generator of repeatable pseudo-random numbers.
struct Lcg(u64);

impl Lcg {
    fn next(&mut self) -> u64 {
        self.0 = self.0.wrapping_mul(6364136223846793005).wrapping_add(1442695040888963407);
        self.0 >> 11
    }

    /// A double between -span and span.
    fn double(&mut self, span: f64) -> f64 {
        (self.next() as f64 / (1u64 << 53) as f64 * 2.0 - 1.0) * span
    }
}

fn formats() -> Vec<Format> {
    let mut all = Vec::new();
    for mode in MODES {
        for (signed, w, f) in
            [(true, 8u32, 4u32), (false, 8, 4), (true, 18, 12), (true, 24, 16), (false, 12, 0), (true, 5, 4), (false, 26, 25), (true, 1, 0)]
        {
            all.push(Format::new(signed, w, f, mode).unwrap());
        }
    }
    all
}

#[test]
fn quantization_agrees_with_doubles() {
    let mut rng = Lcg(1);
    for f in formats() {
        let span = 2.0 * f.full_scale() as f64;
        for _ in 0..2000 {
            let x = rng.double(span);
            let k = quantize_fix(&number(x), &f);
            assert_eq!(k as f64 / f.scale() as f64, quantize_in_doubles(x, &f), "{} in {:?}", x, f);
        }
        // points on the grid and halfway between
        let step = 0.5 / f.scale() as f64;
        let mut x = -span;
        let mut n = 0;
        while x <= span && n < 4000 {
            let k = quantize_fix(&number(x), &f);
            assert_eq!(k as f64 / f.scale() as f64, quantize_in_doubles(x, &f), "{} in {:?}", x, f);
            x += step;
            n += 1;
        }
    }
}

#[test]
fn arithmetic_agrees_with_doubles() {
    let mut rng = Lcg(7);
    for f in formats() {
        let span = 1.5 * f.full_scale() as f64;
        for _ in 0..1000 {
            let a = Ffix::new(&number(rng.double(span)), f);
            let b = Ffix::new(&number(rng.double(span)), f);
            let (x, y) = (as_number(&a), as_number(&b));
            assert_eq!(as_number(&a.add(b).unwrap()), quantize_in_doubles(x + y, &f));
            assert_eq!(as_number(&a.sub(b).unwrap()), quantize_in_doubles(x - y, &f));
            assert_eq!(as_number(&a.mul(b).unwrap()), quantize_in_doubles(x * y, &f));
            assert_eq!(as_number(&a.neg()), quantize_in_doubles(-x, &f));
            assert_eq!(a < b, x < y);
            assert_eq!(a == b, x == y);
            assert_eq!(a >= b, x >= y);
        }
    }
}

#[test]
fn exact_quotients_agree_with_doubles() {
    // quotients by powers of two are exact in doubles
    let mut rng = Lcg(11);
    for f in formats() {
        if f.frac_bits() == 0 {
            continue;
        }
        let span = 1.5 * f.full_scale() as f64;
        for _ in 0..500 {
            let a = Ffix::new(&number(rng.double(span)), f);
            for divisor in [0.5, -0.5, 0.25, 1.0, -1.0, 2.0, 4.0, -8.0] {
                let b = Ffix::new(&number(divisor), f);
                if b.is_zero() {
                    continue;
                }
                let (x, y) = (as_number(&a), as_number(&b));
                assert_eq!(as_number(&a.div(b).unwrap()), quantize_in_doubles(x / y, &f), "{} / {} in {:?}", x, y, f);
            }
        }
    }
}

#[test]
fn casts_agree_with_doubles() {
    let mut rng = Lcg(13);
    let all = formats();
    for from in &all {
        let span = 1.5 * from.full_scale() as f64;
        for to in &all {
            for _ in 0..20 {
                let a = Ffix::new(&number(rng.double(span)), *from);
                let cast = a.cast(*to);
                assert_eq!(as_number(&cast), quantize_in_doubles(as_number(&a), to));
                assert_eq!(cast.format(), *to);
            }
        }
    }
}

#[test]
fn small_formats_hold_every_law_on_every_value() {
    for mode in MODES {
        for signed in [true, false] {
            for w in 1u32..=6 {
                for fr in 0..w {
                    let f = Format::new(signed, w, fr, mode).unwrap();
                    let (lower, upper) = (f.lower_limit(), f.upper_limit());
                    assert_eq!(upper - lower, (1i64 << w) - 1);
                    for k in lower..=upper {
                        let a = Ffix::new(&Dyadic::new(k, -(fr as i32)), f);
                        assert_eq!(a.value(), k);
                        assert_eq!(a.cast(f).value(), k);
                        assert_eq!(a.pow(1).value(), k);
                        for j in lower..=upper {
                            let b = Ffix::new(&Dyadic::new(j, -(fr as i32)), f);
                            let sum = a.add(b).unwrap().value();
                            assert_eq!(sum, (k + j).clamp(lower, upper));
                            let product = a.mul(b).unwrap().value();
                            assert!(lower <= product && product <= upper);
                            assert_eq!(as_number(&a.mul(b).unwrap()), quantize_in_doubles(as_number(&a) * as_number(&b), &f));
                            assert_eq!(a.mul(b).unwrap().value(), b.mul(a).unwrap().value());
                            assert_eq!(a < b, k < j);
                            assert_eq!(a == b, k == j);
                        }
                    }
                }
            }
        }
    }
}
