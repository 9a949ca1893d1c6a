use tracer_core::hit::{sphere_hit, NearestHit};

/// Order-preserving integer encoding of an IEEE double: non-negative values
/// get their sign bit set, negative values are bitwise complemented, so that
/// integer order on the codes matches numeric order on the doubles.
fn code(t: f64) -> u64 {
    let bits = t.to_bits();
    if t >= 0.0 {
        bits | (1u64 << 63)
    } else {
        !bits
    }
}

fn decode(c: u64) -> f64 {
    if c & (1u64 << 63) != 0 {
        f64::from_bits(c & !(1u64 << 63))
    } else {
        f64::from_bits(!c)
    }
}

/// The intersection arithmetic of a sphere, exactly as a renderer computes
/// it, with the decision handed to the library.
fn hit_sphere(
    center: (f64, f64, f64),
    radius: f64,
    origin: (f64, f64, f64),
    dir: (f64, f64, f64),
    t_min: f64,
    t_max: f64,
) -> Option<f64> {
    let oc = (origin.0 - center.0, origin.1 - center.1, origin.2 - center.2);
    let a = dir.0 * dir.0 + dir.1 * dir.1 + dir.2 * dir.2;
    let half_b = oc.0 * dir.0 + oc.1 * dir.1 + oc.2 * dir.2;
    let c = oc.0 * oc.0 + oc.1 * oc.1 + oc.2 * oc.2 - radius * radius;
    let discriminant = half_b * half_b - a * c;
    let (near, far) = if discriminant >= 0.0 {
        let sq = discriminant.sqrt();
        ((-half_b - sq) / a, (-half_b + sq) / a)
    } else {
        (0.0, 0.0)
    };
    sphere_hit(
        discriminant >= 0.0,
        code(near),
        code(far),
        code(t_min),
        code(t_max),
    )
    .map(decode)
}

#[test]
fn encoding_round_trips_exactly() {
    for &t in &[0.0, 0.001, 1.5, 2.0, -3.25, f64::INFINITY] {
        assert_eq!(decode(code(t)), t);
    }
    assert!(code(0.001) < code(1.5));
    assert!(code(1.5) < code(f64::INFINITY));
    assert!(code(-3.25) < code(0.0));
}

// A ray passing farther from the center than the radius has a negative
// discriminant and must miss.
#[test]
fn ray_beyond_radius_misses() {
    let hit = hit_sphere(
        (0.0, 0.0, -1.0),
        0.5,
        (0.0, 2.0, 0.0),
        (0.0, 0.0, -1.0),
        0.001,
        f64::INFINITY,
    );
    assert_eq!(hit, None);
}

#[test]
fn negative_discriminant_is_always_a_miss() {
    assert_eq!(
        sphere_hit(false, code(1.0), code(2.0), code(0.001), code(f64::INFINITY)),
        None
    );
}

// A ray from (0,0,2) along -z at a sphere of radius r about the origin
// first hits at t = 2 - r.
#[test]
fn head_on_hit_at_two_minus_radius() {
    for &r in &[0.5, 1.0, 0.25] {
        let hit = hit_sphere(
            (0.0, 0.0, 0.0),
            r,
            (0.0, 0.0, 2.0),
            (0.0, 0.0, -1.0),
            0.001,
            f64::INFINITY,
        );
        assert_eq!(hit, Some(2.0 - r));
    }
}

#[test]
fn near_root_preferred_over_far() {
    assert_eq!(
        sphere_hit(true, code(1.5), code(2.5), code(0.001), code(f64::INFINITY)),
        Some(code(1.5))
    );
}

#[test]
fn far_root_taken_when_near_is_behind_window() {
    // Near root below t_min, as when the ray starts inside the sphere.
    assert_eq!(
        sphere_hit(true, code(-1.0), code(1.0), code(0.001), code(f64::INFINITY)),
        Some(code(1.0))
    );
}

// The window is open at both ends: a root exactly at t_min or t_max is
// rejected.
#[test]
fn root_exactly_at_t_min_rejected() {
    assert_eq!(
        sphere_hit(true, code(2.0), code(4.0), code(2.0), code(4.0)),
        None
    );
    // The far root still counts when only the near one sits on the bound.
    assert_eq!(
        sphere_hit(true, code(2.0), code(3.0), code(2.0), code(4.0)),
        Some(code(3.0))
    );
}

#[test]
fn root_exactly_at_t_max_rejected() {
    assert_eq!(
        sphere_hit(true, code(4.0), code(5.0), code(1.0), code(4.0)),
        None
    );
}

#[test]
fn nearest_hit_keeps_closest_and_shrinks_window() {
    let mut scan = NearestHit::new(code(f64::INFINITY));
    assert_eq!(scan.result(), None);

    scan.observe(0, Some(code(5.0)));
    assert_eq!(scan.result(), Some(0));
    assert_eq!(decode(scan.current_limit()), 5.0);

    // A miss changes nothing.
    scan.observe(1, None);
    assert_eq!(scan.result(), Some(0));
    assert_eq!(decode(scan.current_limit()), 5.0);

    // A nearer hit takes over and shrinks the window.
    scan.observe(2, Some(code(2.0)));
    assert_eq!(scan.result(), Some(2));
    assert_eq!(decode(scan.current_limit()), 2.0);

    // A farther candidate than the current bound is ignored.
    scan.observe(3, Some(code(7.0)));
    assert_eq!(scan.result(), Some(2));
    assert_eq!(decode(scan.current_limit()), 2.0);
}

// The scan's shrinking window means ties between primitives go to the one
// scanned first: an equal parameter is not strictly inside the new window.
#[test]
fn nearest_hit_tie_goes_to_first_primitive() {
    let mut scan = NearestHit::new(code(f64::INFINITY));
    scan.observe(0, Some(code(3.0)));
    let limit = decode(scan.current_limit());
    // The second primitive is queried with the shrunk window (t_min, 3.0),
    // in which its own hit at 3.0 is not strictly inside.
    assert_eq!(
        sphere_hit(true, code(3.0), code(6.0), code(0.001), code(limit)),
        None
    );
    scan.observe(1, None);
    assert_eq!(scan.result(), Some(0));
}
