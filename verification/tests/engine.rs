use rsqrt_test::basic_rsqrt::BasicRSqrt;
use rsqrt_test::exact_rsqrt::ExactRSqrt;
use rsqrt_test::generate;
use rsqrt_test::operation_tester::OpTester;
use rsqrt_test::quake_rsqrt::QuakeRSqrt;
use rsqrt_test::FillBuffer;
use rsqrt_test::QRSqrt;
use rsqrt_test::Scalar;

/// The host-side scalar: plain IEEE-754 single precision.
#[derive(Clone, Copy, PartialEq, Debug)]
struct F32(f32);

impl Scalar for F32 {
    // Specification-level item: erased ghost code, never called at run time.
    fn counting_value(_c: usize) -> F32 {
        unreachable!()
    }

    fn from_count(c: usize) -> F32 {
        F32(c as f32)
    }

    // Specification-level item: erased ghost code, never called at run time.
    fn relative_error(_approx: F32, _exact: F32) -> F32 {
        unreachable!()
    }

    fn rel_error(approx: F32, exact: F32) -> F32 {
        F32((approx.0 - exact.0).abs() / exact.0.abs())
    }
}

impl QRSqrt<F32> for ExactRSqrt {
    // Specification-level item: erased ghost code, never called at run time.
    fn approx(_x: F32) -> F32 {
        unreachable!()
    }

    fn q_rsqrt(x: F32) -> F32 {
        F32((1.0f64 / (x.0 as f64).sqrt()) as f32)
    }
}

impl QRSqrt<F32> for BasicRSqrt {
    // Specification-level item: erased ghost code, never called at run time.
    fn approx(_x: F32) -> F32 {
        unreachable!()
    }

    fn q_rsqrt(x: F32) -> F32 {
        F32(1.0f32 / x.0.sqrt())
    }
}

impl QRSqrt<F32> for QuakeRSqrt {
    // Specification-level item: erased ghost code, never called at run time.
    fn approx(_x: F32) -> F32 {
        unreachable!()
    }

    fn q_rsqrt(x: F32) -> F32 {
        let num = x.0;
        assert!(num.is_finite() && num > 0.0);
        let y = f32::from_bits(QuakeRSqrt::magic_guess(num.to_bits()));
        F32(y * 0.703952253f32 * (2.38924456f32 - num * y * y))
    }
}

fn sample_domain() -> Vec<f32> {
    vec![
        0.001, 0.0025, 0.01, 0.25, 0.5, 1.0, 2.0, 4.0, 5.0, 10.0, 123.456, 2048.0, 31415.9,
        99999.0, 100000.0,
    ]
}

#[test]
fn strategies_positive_on_positive_inputs() {
    for x in sample_domain() {
        assert!(<ExactRSqrt as QRSqrt<F32>>::q_rsqrt(F32(x)).0 > 0.0);
        assert!(<BasicRSqrt as QRSqrt<F32>>::q_rsqrt(F32(x)).0 > 0.0);
        assert!(<QuakeRSqrt as QRSqrt<F32>>::q_rsqrt(F32(x)).0 > 0.0);
    }
}

#[test]
fn exact_baseline_known_values() {
    assert_eq!(<ExactRSqrt as QRSqrt<F32>>::q_rsqrt(F32(1.0)).0, 1.0);
    assert_eq!(<ExactRSqrt as QRSqrt<F32>>::q_rsqrt(F32(4.0)).0, 0.5);
    assert_eq!(<ExactRSqrt as QRSqrt<F32>>::q_rsqrt(F32(0.25)).0, 2.0);
}

#[test]
fn quake_error_bound_over_domain() {
    for x in sample_domain() {
        let exact = <ExactRSqrt as QRSqrt<F32>>::q_rsqrt(F32(x)).0;
        let approx = <QuakeRSqrt as QRSqrt<F32>>::q_rsqrt(F32(x)).0;
        let rel = (approx - exact).abs() / exact.abs();
        assert!(rel < 2.0f32.powi(-8), "x = {}: relative error {}", x, rel);
    }
}

#[test]
fn quake_error_bound_at_five() {
    let exact = <ExactRSqrt as QRSqrt<F32>>::q_rsqrt(F32(5.0)).0;
    let approx = <QuakeRSqrt as QRSqrt<F32>>::q_rsqrt(F32(5.0)).0;
    let rel = (approx - exact).abs() / exact.abs();
    assert!(rel < 2.0f32.powi(-10), "relative error {}", rel);
}

#[test]
fn quake_magic_guess_known_value() {
    // 1.0f32 has bit pattern 0x3f800000; the guess is MAGIC - (bits >> 1).
    let guess = QuakeRSqrt::magic_guess(1.0f32.to_bits());
    assert_eq!(guess, 0x5f1ffff9 - (0x3f800000 >> 1));
}

#[test]
fn generate_reproduces_input_prefix() {
    let input = vec![F32(2.0), F32(3.0), F32(4.0), F32(5.0), F32(6.0)];
    let (reference, exact) = generate::<F32, ExactRSqrt>(&input, 3);
    assert_eq!(reference.len(), 3);
    assert_eq!(exact.len(), 3);
    assert_eq!(reference, vec![F32(2.0), F32(3.0), F32(4.0)]);
    for i in 0..3 {
        assert_eq!(exact[i], <ExactRSqrt as QRSqrt<F32>>::q_rsqrt(reference[i]));
    }
}

#[test]
fn generate_filler_policy() {
    let input: Vec<F32> = vec![];
    let (reference, exact) = generate::<F32, ExactRSqrt>(&input, 5);
    assert_eq!(
        reference,
        vec![F32(1.0), F32(2.0), F32(3.0), F32(4.0), F32(5.0)]
    );
    assert_eq!(exact.len(), 5);
}

#[test]
fn generate_partial_input_then_filler() {
    let input = vec![F32(0.25), F32(9.0)];
    let (reference, _) = generate::<F32, ExactRSqrt>(&input, 5);
    assert_eq!(
        reference,
        vec![F32(0.25), F32(9.0), F32(1.0), F32(2.0), F32(3.0)]
    );
}

#[test]
fn run_twice_same_strategy_identical() {
    let input = sample_domain().into_iter().map(F32).collect::<Vec<_>>();
    let mut tester: OpTester<F32> = OpTester::new::<ExactRSqrt>(&input, 15);
    tester.run_q_sqrt_seq::<BasicRSqrt>();
    assert!(tester.calculate_error());
    let result1 = tester.result_values().unwrap().clone();
    let error1 = tester.error_values().unwrap().clone();
    tester.run_q_sqrt_seq::<BasicRSqrt>();
    assert!(tester.calculate_error());
    assert_eq!(tester.result_values().unwrap(), &result1);
    assert_eq!(tester.error_values().unwrap(), &error1);
}

#[test]
fn second_run_overwrites_fully() {
    let input = sample_domain().into_iter().map(F32).collect::<Vec<_>>();
    let mut tester: OpTester<F32> = OpTester::new::<ExactRSqrt>(&input, 15);
    tester.run_q_sqrt_seq::<BasicRSqrt>();
    tester.run_q_sqrt_seq::<QuakeRSqrt>();
    let reference = tester.reference_values().clone();
    let result = tester.result_values().unwrap();
    assert_eq!(result.len(), 15);
    for i in 0..15 {
        assert_eq!(result[i], <QuakeRSqrt as QRSqrt<F32>>::q_rsqrt(reference[i]));
    }
}

#[test]
fn error_before_any_run_reports_none() {
    let input = vec![F32(1.0)];
    let mut tester: OpTester<F32> = OpTester::new::<ExactRSqrt>(&input, 1);
    assert!(tester.result_values().is_none());
    assert!(!tester.calculate_error());
    assert!(tester.error_values().is_none());
}

#[test]
fn engine_len_is_dataset_length() {
    let input = vec![F32(3.0)];
    let tester: OpTester<F32> = OpTester::new::<ExactRSqrt>(&input, 7);
    assert_eq!(tester.len(), 7);
    assert_eq!(tester.reference_values().len(), 7);
    assert_eq!(tester.exact_values().len(), 7);
}

#[test]
fn error_matches_relative_error_formula() {
    let input = sample_domain().into_iter().map(F32).collect::<Vec<_>>();
    let mut tester: OpTester<F32> = OpTester::new::<ExactRSqrt>(&input, 15);
    tester.run_q_sqrt_seq::<QuakeRSqrt>();
    assert!(tester.calculate_error());
    let reference = tester.reference_values().clone();
    let exact = tester.exact_values().clone();
    let result = tester.result_values().unwrap().clone();
    let error = tester.error_values().unwrap();
    assert_eq!(error.len(), 15);
    for i in 0..15 {
        assert_eq!(exact[i], <ExactRSqrt as QRSqrt<F32>>::q_rsqrt(reference[i]));
        assert_eq!(error[i].0, (result[i].0 - exact[i].0).abs() / exact[i].0.abs());
    }
}

#[test]
fn fill_buffer_lifecycle() {
    let mut buf: FillBuffer<u32> = FillBuffer::new(3);
    assert_eq!(buf.len(), 0);
    assert_eq!(buf.capacity(), 3);
    buf.push(7);
    buf.push(8);
    assert_eq!(buf.len(), 2);
    buf.push(9);
    let v = buf.finish();
    assert_eq!(v, vec![7, 8, 9]);
}
