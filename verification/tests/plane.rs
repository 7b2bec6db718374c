use bounded_plane::linear::integer_root;
use bounded_plane::{
    AffineTransform, BoundCheck, ConstructionError, Direction, ExactPoint, Matrix3, Matrix4, Plane,
    Point, RectangularBounds, Vector3,
};

fn shifted_plane() -> Plane<RectangularBounds> {
    let bounds = RectangularBounds { width: 5, height: 5 };
    let m = Matrix4::new(1, 0, 0, 0, 0, 1, 0, 0, 0, 0, 1, 1, 0, 0, 0, 1);
    let t = AffineTransform::from_matrix(&m).unwrap();
    Plane::new(t, bounds).unwrap()
}

fn skewed_plane() -> Plane<RectangularBounds> {
    let linear = Matrix3::from_columns(
        Vector3::new(2, 1, 0),
        Vector3::new(-1, 3, 1),
        Vector3::new(0, 2, -5),
    );
    let t = AffineTransform::new(linear, Vector3::new(7, -4, 9));
    Plane::new(t, RectangularBounds { width: 6, height: 4 }).unwrap()
}

#[test]
fn test_local_to_global() {
    let bounds = RectangularBounds { width: 5, height: 5 };

    let m = Matrix4::new(1, 0, 0, 0, 0, 1, 0, 0, 0, 0, 1, 1, 0, 0, 0, 1);
    let t = AffineTransform::from_matrix(&m).unwrap();

    let plane = Plane::new(t, bounds).unwrap();
    let local_pt = Point::new(1, 1, 0);

    let global_point = plane.local_to_global(local_pt);
    assert_eq!(global_point, Point::new(1, 1, 1).widen());
}

#[test]
fn test_global_to_local() {
    let bounds = RectangularBounds { width: 5, height: 5 };

    let m = Matrix4::new(1, 0, 0, 0, 0, 1, 0, 0, 0, 0, 1, 1, 0, 0, 0, 1);
    let t = AffineTransform::from_matrix(&m).unwrap();

    let plane = Plane::new(t, bounds).unwrap();
    let global_pt = Point::new(1, 1, 1);

    let local_point = plane.global_to_local(global_pt);
    assert_eq!(local_point, Point::new(1, 1, 0).widen());
}

#[test]
fn test_is_inside() {
    let bounds = RectangularBounds { width: 5, height: 5 };

    let m = Matrix4::new(1, 0, 0, 0, 0, 1, 0, 0, 0, 0, 1, 1, 0, 0, 0, 1);
    let t = AffineTransform::from_matrix(&m).unwrap();

    let plane = Plane::new(t, bounds).unwrap();

    let mut global_pt = Point::new(1, 1, 1);
    assert_eq!(plane.is_inside(global_pt), true);

    global_pt = Point::new(1, 1, 2);
    assert_eq!(plane.is_inside(global_pt), false);

    global_pt = Point::new(-10, 1, 1);
    assert_eq!(plane.is_inside(global_pt), false);
}

#[test]
fn identity_plane_from_basis_maps_both_ways() {
    let plane = Plane::from_basis(
        Vector3::new(0, 0, 1),
        Direction::new(1, 0, 0),
        Direction::new(0, 1, 0),
        RectangularBounds { width: 5, height: 5 },
    )
    .unwrap();
    assert_eq!(plane.local_to_global(Point::new(1, 1, 0)), ExactPoint::new(1, 1, 1, 1).unwrap());
    assert_eq!(plane.global_to_local(Point::new(1, 1, 1)), ExactPoint::new(1, 1, 0, 1).unwrap());
}

#[test]
fn basis_and_transform_give_the_same_plane() {
    let from_basis = Plane::from_basis(
        Vector3::new(0, 0, 1),
        Direction::new(1, 0, 0),
        Direction::new(0, 1, 0),
        RectangularBounds { width: 5, height: 5 },
    )
    .unwrap();
    let from_transform = shifted_plane();
    assert_eq!(from_basis.transformation(), from_transform.transformation());
    assert_eq!(from_basis.inverse_rotation(), from_transform.inverse_rotation());
    assert_eq!(from_basis.bounds(), from_transform.bounds());
}

#[test]
fn containment_on_the_identity_plane() {
    let plane = Plane::from_basis(
        Vector3::new(0, 0, 1),
        Direction::new(1, 0, 0),
        Direction::new(0, 1, 0),
        RectangularBounds { width: 5, height: 5 },
    )
    .unwrap();
    assert!(plane.is_inside(Point::new(1, 1, 1)));
    assert!(!plane.is_inside(Point::new(1, 1, 2)));
    assert!(!plane.is_inside(Point::new(-10, 1, 1)));
}

#[test]
fn edge_of_the_bound_is_inside() {
    let bounds = RectangularBounds { width: 5, height: 5 };
    // local (2.5, 2.5, 0)
    assert!(bounds.inside_bounds(ExactPoint::new(5, 5, 0, 2).unwrap()));
    assert!(bounds.inside_bounds(ExactPoint::new(-5, -5, 0, 2).unwrap()));
    assert!(bounds.inside_bounds(ExactPoint::new(5, -5, 0, 2).unwrap()));
    // global (2.5, 2.5, 1) on the plane through (0, 0, 1)
    let plane = shifted_plane();
    assert!(plane.is_inside(Point::from_ratio(5, 5, 2, 2).unwrap()));
    assert!(plane.is_inside(Point::from_ratio(-5, 5, 2, 2).unwrap()));
}

#[test]
fn just_beyond_the_edge_is_outside() {
    let bounds = RectangularBounds { width: 5, height: 5 };
    assert!(!bounds.inside_bounds(ExactPoint::new(6, 5, 0, 2).unwrap()));
    assert!(!bounds.inside_bounds(ExactPoint::new(5, -6, 0, 2).unwrap()));
    assert!(!bounds.inside_bounds(ExactPoint::new(251, 0, 0, 100).unwrap()));
    assert!(bounds.inside_bounds(ExactPoint::new(250, 0, 0, 100).unwrap()));
    assert!(bounds.inside_bounds(ExactPoint::new(249, 0, 0, 100).unwrap()));
    assert!(!bounds.inside_bounds(ExactPoint::new(3, 0, 0, 1).unwrap()));
    assert!(bounds.inside_bounds(ExactPoint::new(2, -2, 0, 1).unwrap()));
    let plane = shifted_plane();
    assert!(!plane.is_inside(Point::from_ratio(2501, 0, 1000, 1000).unwrap()));
    assert!(plane.is_inside(Point::from_ratio(2500, 0, 1000, 1000).unwrap()));
}

#[test]
fn even_extents_have_integer_edges() {
    let bounds = RectangularBounds { width: 6, height: 4 };
    assert!(bounds.inside_bounds(ExactPoint::new(3, 2, 0, 1).unwrap()));
    assert!(bounds.inside_bounds(ExactPoint::new(-3, -2, 0, 1).unwrap()));
    assert!(!bounds.inside_bounds(ExactPoint::new(4, 2, 0, 1).unwrap()));
    assert!(!bounds.inside_bounds(ExactPoint::new(3, 3, 0, 1).unwrap()));
    assert!(!bounds.inside_bounds(ExactPoint::new(7, 0, 0, 2).unwrap()));
    assert!(bounds.inside_bounds(ExactPoint::new(0, 5, 0, 3).unwrap()));
    assert!(!bounds.inside_bounds(ExactPoint::new(0, 7, 0, 3).unwrap()));
}

#[test]
fn empty_extent_holds_the_axis_only() {
    let bounds = RectangularBounds { width: 0, height: 2 };
    assert!(bounds.inside_bounds(ExactPoint::new(0, 1, 0, 1).unwrap()));
    assert!(!bounds.inside_bounds(ExactPoint::new(1, 0, 0, 1000).unwrap()));
    assert!(!bounds.inside_bounds(ExactPoint::new(-1, 0, 0, 1000).unwrap()));
}

#[test]
fn bound_ignores_the_third_coordinate() {
    let bounds = RectangularBounds { width: 5, height: 5 };
    for z in [0i128, 1, -1, 1000, i128::MAX, i128::MIN] {
        assert!(bounds.inside_bounds(ExactPoint::new(2, 2, z, 1).unwrap()));
        assert!(!bounds.inside_bounds(ExactPoint::new(3, 2, z, 1).unwrap()));
        assert!(bounds.inside_bounds(ExactPoint::new(5, -5, z, 2).unwrap()));
    }
}

#[test]
fn bound_has_room_for_the_widest_values() {
    let bounds = RectangularBounds { width: u32::MAX, height: u32::MAX };
    assert!(!bounds.inside_bounds(ExactPoint::new(i128::MIN, 0, 0, 1).unwrap()));
    assert!(!bounds.inside_bounds(ExactPoint::new(0, i128::MAX, 0, 1).unwrap()));
    assert!(bounds.inside_bounds(ExactPoint::new(i128::MIN, i128::MAX, 0, i128::MAX).unwrap()));
    assert!(bounds.inside_bounds(ExactPoint::new(i128::MAX, i128::MIN, 7, i128::MAX).unwrap()));
    let narrow = RectangularBounds { width: 2, height: 2 };
    assert!(narrow.inside_bounds(ExactPoint::new(i128::MAX, -i128::MAX, 0, i128::MAX).unwrap()));
    assert!(!narrow.inside_bounds(ExactPoint::new(i128::MIN, 0, 0, i128::MAX).unwrap()));
    let unit = RectangularBounds { width: 1, height: 1 };
    assert!(!unit.inside_bounds(ExactPoint::new(i128::MAX / 2 + 1, 0, 0, i128::MAX).unwrap()));
    assert!(unit.inside_bounds(ExactPoint::new(i128::MAX / 2, 0, 0, i128::MAX).unwrap()));
}

#[test]
fn parallel_directions_are_rejected() {
    let r = Plane::from_basis(
        Vector3::new(0, 0, 1),
        Direction::new(1, 0, 0),
        Direction::new(2, 0, 0),
        RectangularBounds { width: 5, height: 5 },
    );
    assert_eq!(r.err(), Some(ConstructionError::DegenerateBasis));
}

#[test]
fn zero_direction_is_rejected() {
    let bounds = RectangularBounds { width: 5, height: 5 };
    let r = Plane::from_basis(
        Vector3::new(0, 0, 0),
        Direction::new(0, 0, 0),
        Direction::new(0, 1, 0),
        bounds,
    );
    assert_eq!(r.err(), Some(ConstructionError::DegenerateBasis));
    let r = Plane::from_basis(
        Vector3::new(0, 0, 0),
        Direction::new(3, -6, 9),
        Direction::new(-2, 4, -6),
        bounds,
    );
    assert_eq!(r.err(), Some(ConstructionError::DegenerateBasis));
}

#[test]
fn singular_transform_is_rejected() {
    let linear = Matrix3::from_columns(
        Vector3::new(1, 2, 3),
        Vector3::new(2, 4, 6),
        Vector3::new(0, 0, 1),
    );
    let t = AffineTransform::new(linear, Vector3::new(0, 0, 0));
    let r = Plane::new(t, RectangularBounds { width: 5, height: 5 });
    assert_eq!(r.err(), Some(ConstructionError::SingularTransform));
    let zero = Matrix3::from_columns(
        Vector3::new(0, 0, 0),
        Vector3::new(0, 0, 0),
        Vector3::new(0, 0, 0),
    );
    let r = Plane::new(
        AffineTransform::new(zero, Vector3::new(1, 2, 3)),
        RectangularBounds { width: 5, height: 5 },
    );
    assert_eq!(r.err(), Some(ConstructionError::SingularTransform));
}

#[test]
fn errors_say_what_failed() {
    assert_eq!(
        ConstructionError::DegenerateBasis.message(),
        "the directions are parallel or zero and span no plane"
    );
    assert_eq!(ConstructionError::SingularTransform.message(), "the transform has no inverse");
}

#[test]
fn skewed_plane_maps_to_exact_values() {
    let plane = skewed_plane();
    // (7, -4, 9) + 3 * (2, 1, 0) - 2 * (-1, 3, 1) + 1 * (0, 2, -5)
    assert_eq!(
        plane.local_to_global(Point::new(3, -2, 1)),
        ExactPoint::new(15, -5, 2, 1).unwrap()
    );
    // determinant -39: the numerators change sign, the denominator is 39
    assert_eq!(
        plane.global_to_local(Point::new(15, -5, 2)),
        ExactPoint::new(117, -78, 39, 39).unwrap()
    );
    // (0, 0, 0) = (7, -4, 9) - 3 * (2, 1, 0) + 1 * (-1, 3, 1) + 2 * (0, 2, -5)
    assert_eq!(
        plane.global_to_local(Point::new(0, 0, 0)),
        ExactPoint::new(-117, 39, 78, 39).unwrap()
    );
}

#[test]
fn rational_points_keep_their_denominator() {
    let plane = skewed_plane();
    let p = Point::from_ratio(1, 2, 3, 4).unwrap();
    // 4 * (7, -4, 9) + 1 * (2, 1, 0) + 2 * (-1, 3, 1) + 3 * (0, 2, -5)
    assert_eq!(plane.local_to_global(p), ExactPoint::new(28, -3, 23, 4).unwrap());
    let g = Point::from_ratio(28, -3, 23, 4).unwrap();
    assert_eq!(plane.global_to_local(g), ExactPoint::new(39, 78, 117, 156).unwrap());
}

#[test]
fn round_trip_from_local_gives_the_same_position() {
    let plane = skewed_plane();
    for p in [
        Point::new(0, 0, 0),
        Point::new(3, -2, 1),
        Point::new(-100, 250, 7),
        Point::from_ratio(1, 2, 3, 4).unwrap(),
        Point::from_ratio(-7, 11, 0, 13).unwrap(),
    ] {
        let g = plane.local_to_global(p).narrow().unwrap();
        let back = plane.global_to_local(g).narrow().unwrap();
        assert!(back.same_position(&p));
        assert_eq!(back.x(), 39 * p.x());
        assert_eq!(back.y(), 39 * p.y());
        assert_eq!(back.z(), 39 * p.z());
        assert_eq!(back.w(), 39 * p.w());
    }
}

#[test]
fn round_trip_from_global_gives_the_same_position() {
    let plane = skewed_plane();
    for g in [
        Point::new(0, 0, 0),
        Point::new(15, -5, 2),
        Point::new(-31, 17, 400),
        Point::from_ratio(5, 5, 2, 2).unwrap(),
        Point::from_ratio(-9, 1, 8, 3).unwrap(),
    ] {
        let l = plane.global_to_local(g).narrow().unwrap();
        let back = plane.local_to_global(l).narrow().unwrap();
        assert!(back.same_position(&g));
        assert_eq!(back.w(), 39 * g.w());
    }
}

#[test]
fn cached_inverse_times_rotation_is_the_scaled_identity() {
    for plane in [shifted_plane(), skewed_plane()] {
        let m = plane.transformation().linear();
        let inv = plane.inverse_rotation();
        assert!(inv.denominator > 0);
        let columns = [m.x_axis, m.y_axis, m.z_axis];
        let rows = [inv.x_row, inv.y_row, inv.z_row];
        for i in 0..3 {
            for j in 0..3 {
                // (inverse * rotation)[i][j]
                let left = rows[i].x as i128 * columns[j].x as i128
                    + rows[i].y as i128 * columns[j].y as i128
                    + rows[i].z as i128 * columns[j].z as i128;
                // (rotation * inverse)[i][j]
                let row_i = [
                    [m.x_axis.x, m.y_axis.x, m.z_axis.x],
                    [m.x_axis.y, m.y_axis.y, m.z_axis.y],
                    [m.x_axis.z, m.y_axis.z, m.z_axis.z],
                ][i];
                let column_j = [
                    [rows[0].x, rows[1].x, rows[2].x],
                    [rows[0].y, rows[1].y, rows[2].y],
                    [rows[0].z, rows[1].z, rows[2].z],
                ][j];
                let right = row_i[0] as i128 * column_j[0] as i128
                    + row_i[1] as i128 * column_j[1] as i128
                    + row_i[2] as i128 * column_j[2] as i128;
                let expected = if i == j { inv.denominator } else { 0 };
                assert_eq!(left, expected);
                assert_eq!(right, expected);
            }
        }
    }
}

#[test]
fn inverse_of_a_skewed_matrix_is_exact() {
    let m = Matrix3::from_columns(
        Vector3::new(2, 1, 0),
        Vector3::new(-1, 3, 1),
        Vector3::new(0, 2, -5),
    );
    assert_eq!(m.determinant(), -39);
    let inv = m.try_inverse().unwrap();
    assert_eq!(inv.denominator, 39);
    assert_eq!((inv.x_row.x, inv.x_row.y, inv.x_row.z), (17, 5, 2));
    assert_eq!((inv.y_row.x, inv.y_row.y, inv.y_row.z), (-5, 10, 4));
    assert_eq!((inv.z_row.x, inv.z_row.y, inv.z_row.z), (-1, 2, -7));
}

#[test]
fn inverse_of_the_identity_is_the_identity() {
    let inv = Matrix3::identity().try_inverse().unwrap();
    assert_eq!(inv.denominator, 1);
    assert_eq!((inv.x_row.x, inv.x_row.y, inv.x_row.z), (1, 0, 0));
    assert_eq!((inv.y_row.x, inv.y_row.y, inv.y_row.z), (0, 1, 0));
    assert_eq!((inv.z_row.x, inv.z_row.y, inv.z_row.z), (0, 0, 1));
    assert_eq!(Matrix3::identity().determinant(), 1);
}

#[test]
fn singular_matrix_has_no_inverse() {
    let m = Matrix3::from_columns(
        Vector3::new(1, 2, 3),
        Vector3::new(4, 5, 6),
        Vector3::new(7, 8, 9),
    );
    assert_eq!(m.determinant(), 0);
    assert_eq!(m.try_inverse(), None);
}

#[test]
fn determinant_has_room_for_the_widest_entries() {
    let least = i32::MIN;
    let m = Matrix3::from_columns(
        Vector3::new(least, 0, 0),
        Vector3::new(0, least, 0),
        Vector3::new(0, 0, least),
    );
    assert_eq!(m.determinant(), -(1i128 << 93));
    let inv = m.try_inverse().unwrap();
    assert_eq!(inv.denominator, 1i128 << 93);
    assert_eq!(inv.x_row.x, -(1i64 << 62));
    let n = Matrix3::from_columns(
        Vector3::new(least, least, least),
        Vector3::new(least, i32::MAX, least),
        Vector3::new(i32::MAX, least, least),
    );
    let d = n.determinant();
    let a = least as i128;
    let b = i32::MAX as i128;
    assert_eq!(d, a * (b * a - a * a) + a * (a * b - a * a) + a * (a * a - b * b));
}

#[test]
fn cross_products_are_exact() {
    assert_eq!(
        Direction::new(1, 0, 0).cross(&Direction::new(0, 1, 0)),
        Vector3::new(0, 0, 1)
    );
    assert_eq!(
        Direction::new(1, 2, 3).cross(&Direction::new(-4, 5, 6)),
        Vector3::new(-3, -18, 13)
    );
    let v = Vector3::new(1, 2, 3).cross(&Vector3::new(-4, 5, 6));
    assert_eq!((v.x, v.y, v.z), (-3, -18, 13));
    let least = i16::MIN;
    assert_eq!(
        Direction::new(0, least, least).cross(&Direction::new(0, i16::MAX, least)),
        Vector3::new(least as i32 * least as i32 - least as i32 * i16::MAX as i32, 0, 0)
    );
    assert_eq!(Direction::new(3, -4, 5).to_vector(), Vector3::new(3, -4, 5));
}

#[test]
fn plane_of_a_slanted_basis() {
    // axes (1, 1, 0) and (0, 1, 1); their cross product (1, -1, 1) has the
    // length sqrt(3), so the third axis is (1, -1, 1) * 2^31 / 3719550786
    let plane = Plane::from_basis(
        Vector3::new(10, 20, 30),
        Direction::new(1, 1, 0),
        Direction::new(0, 1, 1),
        RectangularBounds { width: 4, height: 2 },
    )
    .unwrap();
    let t = plane.transformation();
    assert_eq!(t.linear().x_axis, Vector3::new(1, 1, 0));
    assert_eq!(t.linear().y_axis, Vector3::new(0, 1, 1));
    assert_eq!(t.linear().z_axis, Vector3::new(1, -1, 1));
    assert_eq!(t.translation(), Vector3::new(10, 20, 30));
    assert_eq!(t.normal_scale(), (2147483648, 3719550786));
    let inverse = plane.inverse_rotation();
    assert_eq!(inverse.denominator, 6442450944);
    assert_eq!(
        (inverse.x_row.x, inverse.x_row.y, inverse.x_row.z),
        (4294967296, 2147483648, -2147483648)
    );
    assert_eq!(
        (inverse.y_row.x, inverse.y_row.y, inverse.y_row.z),
        (-2147483648, 2147483648, 4294967296)
    );
    assert_eq!(
        (inverse.z_row.x, inverse.z_row.y, inverse.z_row.z),
        (3719550786, -3719550786, 3719550786)
    );
    // origin + 2 u - 1 v is on the plane, at local (2, -1, 0)
    assert_eq!(
        plane.global_to_local(Point::new(12, 21, 29)),
        ExactPoint::new(12884901888, -6442450944, 0, 6442450944).unwrap()
    );
    assert!(plane.is_inside(Point::new(12, 21, 29)));
    // origin + 2 u - 2 v is on the plane, beyond the height
    assert!(!plane.is_inside(Point::new(12, 20, 28)));
    // one step along the normal is off the plane
    assert!(!plane.is_inside(Point::new(13, 20, 30)));
    assert_eq!(
        plane.local_to_global(Point::new(2, -1, 0)),
        ExactPoint::new(44634609432, 78110566506, 107866972794, 3719550786).unwrap()
    );
    // one unit of height goes one unit of length along the normal
    let up = plane.local_to_global(Point::new(0, 0, 1));
    assert_eq!(up, ExactPoint::new(39342991508, 72243532072, 113734007228, 3719550786).unwrap());
    let (dx, dy, dz) = (up.x() - 10 * up.w(), up.y() - 20 * up.w(), up.z() - 30 * up.w());
    assert_eq!((dx, dy, dz), (2147483648, -2147483648, 2147483648));
    let length_squared = dx * dx + dy * dy + dz * dz;
    let one = up.w() * up.w();
    assert!(one <= length_squared);
    assert!(100000 * (length_squared - one) <= one);
}

#[test]
fn third_axis_along_a_coordinate_axis_is_the_unit_vector() {
    // (2, 0, 0) x (0, 1, 0) = (0, 0, 2): the third axis is (0, 0, 1)
    let center = Vector3::new(0, 0, 0);
    let bounds = RectangularBounds { width: 5, height: 5 };
    let plane =
        Plane::from_basis(center, Direction::new(2, 0, 0), Direction::new(0, 1, 0), bounds).unwrap();
    let t = plane.transformation();
    assert_eq!(t.linear().z_axis, Vector3::new(0, 0, 1));
    assert_eq!(t.normal_scale(), (1, 1));
    assert_eq!(plane.local_to_global(Point::new(0, 0, 1)), ExactPoint::new(0, 0, 1, 1).unwrap());
    assert_eq!(plane.global_to_local(Point::new(0, 0, 1)), ExactPoint::new(0, 0, 2, 2).unwrap());
    assert_eq!(plane.local_to_global(Point::new(1, 1, 0)), ExactPoint::new(2, 1, 0, 1).unwrap());
    // the same plane from the transform with the columns (2, 0, 0),
    // (0, 1, 0) and the unit normal
    let columns = Matrix3::from_columns(
        Vector3::new(2, 0, 0),
        Vector3::new(0, 1, 0),
        Vector3::new(0, 0, 1),
    );
    let by_transform = Plane::new(AffineTransform::new(columns, center), bounds).unwrap();
    assert_eq!(plane.transformation(), by_transform.transformation());
    assert_eq!(plane.inverse_rotation(), by_transform.inverse_rotation());
    assert_eq!(
        by_transform.local_to_global(Point::new(0, 0, 1)),
        ExactPoint::new(0, 0, 1, 1).unwrap()
    );
    // (0, 4, 0) x (3, 0, 0) = (0, 0, -12): the third axis is (0, 0, -1)
    let plane = Plane::from_basis(
        Vector3::new(0, 0, 1),
        Direction::new(0, 4, 0),
        Direction::new(3, 0, 0),
        bounds,
    )
    .unwrap();
    assert_eq!(plane.transformation().linear().z_axis, Vector3::new(0, 0, -1));
    assert_eq!(plane.transformation().normal_scale(), (1, 1));
    assert_eq!(plane.local_to_global(Point::new(1, 1, 1)), ExactPoint::new(3, 4, 0, 1).unwrap());
    assert_eq!(
        plane.global_to_local(Point::new(3, 4, 0)),
        ExactPoint::new(12, 12, 12, 12).unwrap()
    );
    // (0, 0, 5) x (7, 0, 0) = (0, 35, 0)
    let plane = Plane::from_basis(center, Direction::new(0, 0, 5), Direction::new(7, 0, 0), bounds)
        .unwrap();
    assert_eq!(plane.transformation().linear().z_axis, Vector3::new(0, 1, 0));
}

#[test]
fn third_axis_has_unit_length_where_the_cross_product_has_a_whole_length() {
    // (2, -1, 0) x (0, 1, -1) = (1, 2, 2), of length 3
    let plane = Plane::from_basis(
        Vector3::new(0, 0, 0),
        Direction::new(2, -1, 0),
        Direction::new(0, 1, -1),
        RectangularBounds { width: 5, height: 5 },
    )
    .unwrap();
    let t = plane.transformation();
    assert_eq!(t.linear().z_axis, Vector3::new(1, 2, 2));
    assert_eq!(t.normal_scale(), (1, 3));
    // three units of height go to (1, 2, 2)
    let g = plane.local_to_global(Point::new(0, 0, 3));
    assert_eq!(g, ExactPoint::new(3, 6, 6, 3).unwrap());
    assert!(g.narrow().unwrap().same_position(&Point::new(1, 2, 2)));
    // and (1, 2, 2) is three units above the plane
    let l = plane.global_to_local(Point::new(1, 2, 2));
    assert_eq!((l.x(), l.y()), (0, 0));
    assert_eq!(l.z(), 3 * l.w());
    assert!(l.w() > 0);
}

#[test]
fn third_axis_is_within_tolerance_of_unit_length() {
    for (u, v) in [
        ((1i16, 1i16, 0i16), (0i16, 1i16, 1i16)),
        ((1, 0, 0), (1, 1, 0)),
        ((1, 2, 3), (-4, 5, 6)),
        ((i16::MIN, i16::MAX, i16::MIN), (i16::MAX, i16::MIN, i16::MIN)),
        ((i16::MIN, 0, 0), (0, i16::MIN, 1)),
        ((7, 0, 0), (0, 0, -7)),
        ((100, -200, 300), (301, 200, -100)),
        ((1, 0, 0), (0, 1, 0)),
    ] {
        let t = AffineTransform::from_basis(
            Vector3::new(0, 0, 0),
            Direction::new(u.0, u.1, u.2),
            Direction::new(v.0, v.1, v.2),
        )
        .unwrap();
        let c = t.linear().z_axis;
        // along the cross product, on its side
        let product = Direction::new(u.0, u.1, u.2).cross(&Direction::new(v.0, v.1, v.2));
        let parallel = product.cross(&c);
        assert_eq!((parallel.x, parallel.y, parallel.z), (0, 0, 0));
        assert!(
            product.x as i128 * c.x as i128
                + product.y as i128 * c.y as i128
                + product.z as i128 * c.z as i128
                > 0
        );
        let (num, den) = t.normal_scale();
        assert!(num >= 1 && den >= 1);
        let cc = c.x as i128 * c.x as i128 + c.y as i128 * c.y as i128 + c.z as i128 * c.z as i128;
        let n = num as i128 * num as i128 * cc;
        let d = den as i128 * den as i128;
        // the squared length n / d of the third axis is one within 1e-5
        assert!(d <= n);
        assert!(100000 * (n - d) <= d);
        // orthogonal to both directions
        assert_eq!(c.x as i64 * u.0 as i64 + c.y as i64 * u.1 as i64 + c.z as i64 * u.2 as i64, 0);
        assert_eq!(c.x as i64 * v.0 as i64 + c.y as i64 * v.1 as i64 + c.z as i64 * v.2 as i64, 0);
    }
}

#[test]
fn plane_of_a_basis_is_the_plane_of_its_transform() {
    for (u, v) in [
        (Direction::new(1, 1, 0), Direction::new(0, 1, 1)),
        (Direction::new(2, 0, 0), Direction::new(0, 1, 0)),
        (Direction::new(1, 0, 0), Direction::new(0, 1, 0)),
        (Direction::new(-5, 7, 11), Direction::new(13, 0, -2)),
    ] {
        let center = Vector3::new(4, -5, 6);
        let bounds = RectangularBounds { width: 9, height: 7 };
        let by_basis = Plane::from_basis(center, u, v, bounds).unwrap();
        let transform = AffineTransform::from_basis(center, u, v).unwrap();
        let by_transform = Plane::new(transform, bounds).unwrap();
        assert_eq!(by_basis.transformation(), transform);
        assert_eq!(by_basis.transformation(), by_transform.transformation());
        assert_eq!(by_basis.inverse_rotation(), by_transform.inverse_rotation());
        for p in [Point::new(0, 0, 1), Point::new(3, -2, 5), Point::from_ratio(1, 2, 3, 4).unwrap()] {
            assert_eq!(by_basis.local_to_global(p), by_transform.local_to_global(p));
            assert_eq!(by_basis.global_to_local(p), by_transform.global_to_local(p));
            assert_eq!(by_basis.is_inside(p), by_transform.is_inside(p));
        }
    }
    assert_eq!(
        AffineTransform::from_basis(
            Vector3::new(0, 0, 0),
            Direction::new(1, 0, 0),
            Direction::new(2, 0, 0)
        ),
        None
    );
}

#[test]
fn scaled_third_axis_keeps_the_round_trip_exact() {
    let plane = Plane::from_basis(
        Vector3::new(10, 20, 30),
        Direction::new(1, 1, 0),
        Direction::new(0, 1, 1),
        RectangularBounds { width: 4, height: 2 },
    )
    .unwrap();
    // global (11, 19, 31) is the origin plus (1, -1, 1): sqrt(3) above it
    let l = plane.global_to_local(Point::new(11, 19, 31));
    assert_eq!((l.x(), l.y()), (0, 0));
    assert_eq!((l.z(), l.w()), (3 * 3719550786, 3 * 2147483648));
    // its height squared is 3 within 1e-5
    assert!(3 * l.w() * l.w() >= l.z() * l.z());
    assert!(100000 * (3 * l.w() * l.w() - l.z() * l.z()) <= 3 * l.w() * l.w());
    // the inverse undoes the axes exactly
    let inverse = plane.inverse_rotation();
    let t = plane.transformation();
    let (num, den) = t.normal_scale();
    let m = t.linear();
    let columns = [
        [den as i128 * m.x_axis.x as i128, den as i128 * m.x_axis.y as i128, den as i128 * m.x_axis.z as i128],
        [den as i128 * m.y_axis.x as i128, den as i128 * m.y_axis.y as i128, den as i128 * m.y_axis.z as i128],
        [num as i128 * m.z_axis.x as i128, num as i128 * m.z_axis.y as i128, num as i128 * m.z_axis.z as i128],
    ];
    let rows = [inverse.x_row, inverse.y_row, inverse.z_row];
    for i in 0..3 {
        for j in 0..3 {
            let entry = rows[i].x as i128 * columns[j][0]
                + rows[i].y as i128 * columns[j][1]
                + rows[i].z as i128 * columns[j][2];
            let expected = if i == j { den as i128 * inverse.denominator } else { 0 };
            assert_eq!(entry, expected);
        }
    }
}

#[test]
fn is_inside_has_room_for_the_widest_values() {
    let least = i32::MIN;
    let most = i32::MAX;
    let linear = Matrix3::from_columns(
        Vector3::new(least, most, least),
        Vector3::new(most, least, least),
        Vector3::new(least, least, most),
    );
    let plane = Plane::new(
        AffineTransform::new(linear, Vector3::new(least, most, least)),
        RectangularBounds { width: u32::MAX, height: u32::MAX },
    )
    .unwrap();
    for g in [
        Point::new(least, least, least),
        Point::new(most, most, most),
        Point::from_ratio(least, most, least, most).unwrap(),
        Point::from_ratio(most, least, most, most).unwrap(),
        Point::from_ratio(least, least, least, 1).unwrap(),
    ] {
        let local = plane.global_to_local(g);
        assert!(local.w() > 0);
        let expected = local.z() == 0 && plane.bounds().inside_bounds(local);
        assert_eq!(plane.is_inside(g), expected);
        let global = plane.local_to_global(g);
        assert_eq!(global.w(), g.w() as i128);
    }
    // the origin of the frame is on the plane
    assert!(plane.is_inside(Point::new(least, most, least)));
}

#[test]
fn affine_matrices_convert_both_ways() {
    let m = Matrix4::new(1, 2, 3, 4, 5, 6, 7, 8, 9, 10, 11, 12, 0, 0, 0, 1);
    let t = AffineTransform::from_matrix(&m).unwrap();
    assert_eq!(t.linear().x_axis, Vector3::new(1, 5, 9));
    assert_eq!(t.linear().y_axis, Vector3::new(2, 6, 10));
    assert_eq!(t.linear().z_axis, Vector3::new(3, 7, 11));
    assert_eq!(t.translation(), Vector3::new(4, 8, 12));
    assert_eq!(t.normal_scale(), (1, 1));
    assert_eq!(t.to_matrix(), Some(m));
    assert_eq!(AffineTransform::from_matrix(&t.to_matrix().unwrap()), Some(t));
    let scaled = AffineTransform::from_basis(
        Vector3::new(0, 0, 0),
        Direction::new(1, 1, 0),
        Direction::new(0, 1, 1),
    )
    .unwrap();
    assert_eq!(scaled.to_matrix(), None);
}

#[test]
fn matrices_that_are_not_affine_are_refused() {
    for m in [
        Matrix4::new(1, 0, 0, 0, 0, 1, 0, 0, 0, 0, 1, 0, 0, 0, 0, 2),
        Matrix4::new(1, 0, 0, 0, 0, 1, 0, 0, 0, 0, 1, 0, 1, 0, 0, 1),
        Matrix4::new(1, 0, 0, 0, 0, 1, 0, 0, 0, 0, 1, 0, 0, 1, 0, 1),
        Matrix4::new(1, 0, 0, 0, 0, 1, 0, 0, 0, 0, 1, 0, 0, 0, 1, 1),
        Matrix4::new(1, 0, 0, 0, 0, 1, 0, 0, 0, 0, 1, 0, 0, 0, 0, 0),
    ] {
        assert_eq!(AffineTransform::from_matrix(&m), None);
    }
}

#[test]
fn denominators_must_be_positive() {
    assert_eq!(Point::from_ratio(1, 2, 3, 0), None);
    assert_eq!(Point::from_ratio(1, 2, 3, -1), None);
    assert_eq!(ExactPoint::new(1, 2, 3, 0), None);
    assert_eq!(ExactPoint::new(1, 2, 3, -5), None);
    let p = Point::from_ratio(1, 2, 3, 4).unwrap();
    assert_eq!((p.x(), p.y(), p.z(), p.w()), (1, 2, 3, 4));
    let q = Point::new(-1, -2, -3);
    assert_eq!((q.x(), q.y(), q.z(), q.w()), (-1, -2, -3, 1));
    let e = ExactPoint::new(1, 2, 3, 4).unwrap();
    assert_eq!((e.x(), e.y(), e.z(), e.w()), (1, 2, 3, 4));
}

#[test]
fn narrowing_keeps_what_has_room() {
    let p = Point::from_ratio(i32::MIN, i32::MAX, -7, i32::MAX).unwrap();
    assert_eq!(p.widen().narrow(), Some(p));
    assert_eq!(p.widen(), ExactPoint::new(i32::MIN as i128, i32::MAX as i128, -7, i32::MAX as i128).unwrap());
    let beyond = i32::MAX as i128 + 1;
    let below = i32::MIN as i128 - 1;
    assert_eq!(ExactPoint::new(beyond, 0, 0, 1).unwrap().narrow(), None);
    assert_eq!(ExactPoint::new(0, below, 0, 1).unwrap().narrow(), None);
    assert_eq!(ExactPoint::new(0, 0, beyond, 1).unwrap().narrow(), None);
    assert_eq!(ExactPoint::new(0, 0, 0, beyond).unwrap().narrow(), None);
}

#[test]
fn same_position_compares_fractions() {
    let p = Point::from_ratio(1, -2, 3, 2).unwrap();
    assert!(p.same_position(&Point::from_ratio(2, -4, 6, 4).unwrap()));
    assert!(p.same_position(&Point::from_ratio(50, -100, 150, 100).unwrap()));
    assert!(!p.same_position(&Point::from_ratio(1, -2, 3, 3).unwrap()));
    assert!(!p.same_position(&Point::from_ratio(2, -4, 7, 4).unwrap()));
    assert!(!p.same_position(&Point::new(1, -2, 3)));
    assert!(Point::new(0, 0, 0).same_position(&Point::from_ratio(0, 0, 0, 9).unwrap()));
    let wide = Point::from_ratio(i32::MIN, i32::MAX, i32::MIN, i32::MAX).unwrap();
    assert!(wide.same_position(&wide));
    assert!(!wide.same_position(&Point::from_ratio(i32::MIN, i32::MAX, i32::MAX, i32::MAX).unwrap()));
}

#[test]
fn image_of_a_local_point_is_inside_when_the_bound_holds_it() {
    let plane = skewed_plane();
    for (p, expected) in [
        (Point::new(0, 0, 0), true),
        (Point::new(3, 2, 0), true),
        (Point::new(-3, -2, 0), true),
        (Point::new(4, 0, 0), false),
        (Point::new(0, 3, 0), false),
        (Point::new(1, 1, 1), false),
        (Point::new(0, 0, -1), false),
        (Point::from_ratio(5, 3, 0, 2).unwrap(), true),
        (Point::from_ratio(7, 3, 0, 2).unwrap(), false),
        (Point::from_ratio(5, 3, 1, 2).unwrap(), false),
    ] {
        assert_eq!(plane.bounds().inside_bounds(p.widen()), expected || p.z() != 0);
        let g = plane.local_to_global(p).narrow().unwrap();
        assert_eq!(plane.is_inside(g), expected);
    }
}

#[test]
fn bound_gives_one_answer_for_every_form_of_a_position() {
    let bounds = RectangularBounds { width: 5, height: 3 };
    for (x, y, w) in [(5i128, 3i128, 2i128), (5, 4, 2), (6, 3, 2), (-5, -3, 2), (0, 0, 1), (1, 1, 3)] {
        let plain = bounds.inside_bounds(ExactPoint::new(x, y, 0, w).unwrap());
        for k in [2i128, 3, 1000, 1 << 100] {
            let scaled = ExactPoint::new(k * x, k * y, 17, k * w).unwrap();
            assert_eq!(bounds.inside_bounds(scaled), plain);
        }
    }
}

#[test]
fn integer_roots_are_exact() {
    assert_eq!(integer_root(0), 0);
    assert_eq!(integer_root(1), 1);
    assert_eq!(integer_root(2), 1);
    assert_eq!(integer_root(3), 1);
    assert_eq!(integer_root(4), 2);
    assert_eq!(integer_root(99), 9);
    assert_eq!(integer_root(100), 10);
    assert_eq!(integer_root(3 << 62), 3719550786);
    assert_eq!(integer_root(u64::MAX), u32::MAX);
    assert_eq!(integer_root((u32::MAX as u64) * (u32::MAX as u64)), u32::MAX);
    assert_eq!(integer_root((u32::MAX as u64) * (u32::MAX as u64) - 1), u32::MAX - 1);
}
