use satfire::hilbert::{HilbertCoord, HilbertCurve};

#[test]
fn test_integer_coordinat_converstions() {
    let test_coords_i1 = [
        HilbertCoord { x: 0, y: 0 },
        HilbertCoord { x: 0, y: 1 },
        HilbertCoord { x: 1, y: 1 },
        HilbertCoord { x: 1, y: 0 },
    ];

    let test_coords_i2 = [
        HilbertCoord { x: 0, y: 0 },
        HilbertCoord { x: 1, y: 0 },
        HilbertCoord { x: 1, y: 1 },
        HilbertCoord { x: 0, y: 1 },
        HilbertCoord { x: 0, y: 2 },
        HilbertCoord { x: 0, y: 3 },
        HilbertCoord { x: 1, y: 3 },
        HilbertCoord { x: 1, y: 2 },
        HilbertCoord { x: 2, y: 2 },
        HilbertCoord { x: 2, y: 3 },
        HilbertCoord { x: 3, y: 3 },
        HilbertCoord { x: 3, y: 2 },
        HilbertCoord { x: 3, y: 1 },
        HilbertCoord { x: 2, y: 1 },
        HilbertCoord { x: 2, y: 0 },
        HilbertCoord { x: 3, y: 0 },
    ];

    let test_dist = [0u64, 1, 2, 3, 4, 5, 6, 7, 8, 9, 10, 11, 12, 13, 14, 15];

    let hc = HilbertCurve::new(1);
    for h in 0..4 {
        let coords = hc.integer_to_coords(test_dist[h]);
        assert_eq!(coords, test_coords_i1[h]);

        let h2 = hc.coords_to_integer(test_coords_i1[h]);
        assert_eq!(h2, test_dist[h]);
    }

    let hc = HilbertCurve::new(2);
    for h in 0..16 {
        let coords = hc.integer_to_coords(test_dist[h]);
        assert_eq!(coords, test_coords_i2[h]);

        let h2 = hc.coords_to_integer(test_coords_i2[h]);
        assert_eq!(h2, test_dist[h]);
    }
}

#[test]
fn hilbert_round_trip_on_a_larger_curve() {
    let hc = HilbertCurve::new(5);
    assert_eq!(hc.iterations(), 5);
    let max = hc.calc_max_num();
    assert_eq!(max, 1023);
    for h in 0..=max {
        let c = hc.integer_to_coords(h);
        assert!(c.x < 32 && c.y < 32);
        assert_eq!(hc.coords_to_integer(c), h);
    }
    for x in 0..32u32 {
        for y in 0..32u32 {
            let c = HilbertCoord { x, y };
            assert_eq!(hc.integer_to_coords(hc.coords_to_integer(c)), c);
        }
    }
}

#[test]
fn hilbert_max_dimension() {
    assert_eq!(HilbertCurve::calc_max_dim_for_iterations(1), 1);
    assert_eq!(HilbertCurve::calc_max_dim_for_iterations(2), 3);
    assert_eq!(HilbertCurve::calc_max_dim_for_iterations(10), 1023);
    assert_eq!(HilbertCurve::new(2).calc_max_num(), 15);
}
