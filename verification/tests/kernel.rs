use dp_regression::fixed_point::ArithmeticFault;
use dp_regression::interleave::interleave;
use dp_regression::kernel::{commit, run_columns, run_embedded, run_interleaved, KernelError};
use dp_regression::loader::LoadError;
use dp_regression::statistics::Model;

fn embedded(pairs: &[(i64, i64)]) -> Vec<u8> {
    let mut bytes = Vec::new();
    for (x, y) in pairs {
        bytes.extend_from_slice(&x.to_le_bytes());
        bytes.extend_from_slice(&y.to_le_bytes());
    }
    bytes
}

#[test]
fn run_interleaved_commits_the_line() {
    assert_eq!(
        run_interleaved(&[10000, 20000, 20000, 40000, 30000, 60000]),
        Ok(Model { slope: 20000, intercept: 2857 })
    );
}

#[test]
fn run_interleaved_refuses_an_odd_length() {
    assert_eq!(run_interleaved(&[10000, 20000, 20000]), Err(KernelError::ShapeMismatch));
    assert_eq!(run_interleaved(&[1]), Err(KernelError::ShapeMismatch));
}

#[test]
fn run_interleaved_without_a_line() {
    assert_eq!(run_interleaved(&[]), Err(KernelError::Undetermined));
    assert_eq!(run_interleaved(&[10000, 20000]), Err(KernelError::Undetermined));
    assert_eq!(
        run_interleaved(&[10000, 20000, 10000, 30000]),
        Err(KernelError::Undetermined)
    );
}

#[test]
fn run_interleaved_stops_at_the_first_fault() {
    assert_eq!(
        run_interleaved(&[10000, 20000, i64::MAX, 1, 20000, 40000]),
        Err(KernelError::Arithmetic(ArithmeticFault::Overflow))
    );
}

#[test]
fn run_columns_commits_the_line() {
    let xs = [10000, 20000, 30000, 40000, 50000];
    let ys = [31000, 49000, 72000, 88000, 111000];
    assert_eq!(run_columns(&xs, &ys), Ok(Model { slope: 19900, intercept: 15392 }));
}

#[test]
fn run_columns_refuses_columns_of_unequal_length() {
    assert_eq!(run_columns(&[1, 2, 3], &[1, 2]), Err(KernelError::ShapeMismatch));
    assert_eq!(run_columns(&[], &[1]), Err(KernelError::ShapeMismatch));
}

#[test]
fn both_encodings_give_one_line() {
    let xs = [-10000, 0, 10000, 20000];
    let ys = [50000, 30000, 10000, -10000];
    assert_eq!(run_interleaved(&interleave(&xs, &ys)), run_columns(&xs, &ys));
    assert_eq!(run_columns(&xs, &ys), Ok(Model { slope: -20000, intercept: 33871 }));
}

#[test]
fn the_encodings_are_not_interchangeable() {
    // Two columns written one after the other are not an alternating sequence.
    let xs = [10000, 20000, 30000];
    let ys = [20000, 40000, 60000];
    let mut columns = xs.to_vec();
    columns.extend_from_slice(&ys);
    assert_ne!(run_interleaved(&columns), run_columns(&xs, &ys));
}

#[test]
fn run_embedded_commits_the_line() {
    let pairs = [(10000, 31000), (20000, 49000), (30000, 72000), (40000, 88000), (50000, 111000)];
    assert_eq!(
        run_embedded(&embedded(&pairs), 1024, 5),
        Ok(Model { slope: 19900, intercept: 15392 })
    );
}

#[test]
fn run_embedded_refuses_a_bad_buffer() {
    let bytes = embedded(&[(10000, 20000), (20000, 40000)]);
    assert_eq!(
        run_embedded(&bytes[..30], 1024, 2),
        Err(KernelError::Load(LoadError::LengthMismatch))
    );
    assert_eq!(run_embedded(&bytes, 1024, 1400), Err(KernelError::Load(LoadError::LengthMismatch)));
    assert_eq!(run_embedded(&bytes, 1028, 2), Err(KernelError::Load(LoadError::Misaligned)));
}

#[test]
fn run_embedded_without_a_line() {
    assert_eq!(run_embedded(&[], 1024, 0), Err(KernelError::Undetermined));
    let bytes = embedded(&[(10000, 20000), (10000, 40000)]);
    assert_eq!(run_embedded(&bytes, 1024, 2), Err(KernelError::Undetermined));
}

#[test]
fn run_embedded_reports_overflow() {
    let bytes = embedded(&[(3037000500, 1), (0, 0)]);
    assert_eq!(
        run_embedded(&bytes, 1024, 2),
        Err(KernelError::Arithmetic(ArithmeticFault::Overflow))
    );
}

#[test]
fn commit_names_each_outcome() {
    let model = Model { slope: 1, intercept: 2 };
    assert_eq!(commit(Ok(Some(model))), Ok(model));
    assert_eq!(commit(Ok(None)), Err(KernelError::Undetermined));
    assert_eq!(
        commit(Err(ArithmeticFault::DivisionByZero)),
        Err(KernelError::Arithmetic(ArithmeticFault::DivisionByZero))
    );
}
