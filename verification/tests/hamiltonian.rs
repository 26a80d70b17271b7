use riemann_solver::hamiltonian::{BerryKeatingSystem, GueSystem, MatrixEntry};
use riemann_solver::RiemannError;

fn value(e: MatrixEntry) -> (f64, f64) {
    match e {
        MatrixEntry::Zero => (0.0, 0.0),
        MatrixEntry::HalfImaginaryRoot { negative, radicand } => {
            let m = (radicand as f64).sqrt() / 2.0;
            (0.0, if negative { -m } else { m })
        }
    }
}

#[test]
fn test_berry_keating_creation() {
    let bk = BerryKeatingSystem::new(10).unwrap();
    assert_eq!(bk.size(), 10);
}

#[test]
fn test_matrix_purely_imaginary_antisymmetric() {
    let bk = BerryKeatingSystem::new(5).unwrap();
    let h = bk.hamiltonian_entries();

    for i in 0..5 {
        for j in 0..5 {
            let (re, im) = value(h[i][j]);
            let (re_t, im_t) = value(h[j][i]);
            assert!(re.abs() < 1e-10, "Non-zero real part at ({}, {})", i, j);
            let diff = ((re + re_t).powi(2) + (im + im_t).powi(2)).sqrt();
            assert!(diff < 1e-10, "Matrix not anti-symmetric at ({}, {})", i, j);
        }
    }
}

#[test]
fn test_tridiagonal_structure() {
    let bk = BerryKeatingSystem::new(10).unwrap();
    let h = bk.hamiltonian_entries();

    for i in 0..10 {
        for j in 0..10 {
            if (i as i32 - j as i32).abs() > 1 {
                let (re, im) = value(h[i][j]);
                let elem = (re * re + im * im).sqrt();
                assert!(elem < 1e-10, "Non-tridiagonal element at ({}, {}): {}", i, j, elem);
            }
        }
    }
}

#[test]
fn berry_keating_zero_truncation_is_refused() {
    assert!(matches!(BerryKeatingSystem::new(0), Err(RiemannError::InvalidSize(0))));
}

#[test]
fn berry_keating_entries_exact() {
    let bk = BerryKeatingSystem::new(4).unwrap();
    assert_eq!(bk.matrix_element(1, 0), MatrixEntry::HalfImaginaryRoot { negative: false, radicand: 1 });
    assert_eq!(bk.matrix_element(0, 1), MatrixEntry::HalfImaginaryRoot { negative: true, radicand: 1 });
    assert_eq!(bk.matrix_element(3, 2), MatrixEntry::HalfImaginaryRoot { negative: false, radicand: 3 });
    assert_eq!(bk.matrix_element(2, 3), MatrixEntry::HalfImaginaryRoot { negative: true, radicand: 3 });
    assert_eq!(bk.matrix_element(2, 2), MatrixEntry::Zero);
    assert_eq!(bk.matrix_element(0, 2), MatrixEntry::Zero);
    let h = bk.hamiltonian_entries();
    assert_eq!(h.len(), 4);
    assert!(h.iter().all(|row| row.len() == 4));
    assert_eq!(h[2][1], MatrixEntry::HalfImaginaryRoot { negative: false, radicand: 2 });
    assert_eq!(h[1][2], MatrixEntry::HalfImaginaryRoot { negative: true, radicand: 2 });
    let (_, im) = value(h[1][0]);
    assert!((im - 0.5).abs() < 1e-12);
}

#[test]
fn test_gue_creation() {
    let gue = GueSystem::new(10, None).unwrap();
    assert_eq!(gue.size(), 10);
}

#[test]
fn gue_zero_size_is_refused() {
    assert!(matches!(GueSystem::new(0, Some(3)), Err(RiemannError::InvalidSize(0))));
}
