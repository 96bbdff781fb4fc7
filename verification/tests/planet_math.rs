use planet_tilemap::planet::{wrap_coord, wrapped_delta, PlanetPosition};

#[test]
fn wrap_reduces_into_extent() {
    assert_eq!(wrap_coord(0, 900), 0);
    assert_eq!(wrap_coord(899, 900), 899);
    assert_eq!(wrap_coord(900, 900), 0);
    assert_eq!(wrap_coord(901, 900), 1);
    assert_eq!(wrap_coord(-1, 900), 899);
    assert_eq!(wrap_coord(-900, 900), 0);
    assert_eq!(wrap_coord(-901, 900), 899);
    assert_eq!(wrap_coord(2700, 900), 0);
}

#[test]
fn normalize_is_idempotent() {
    // A position already inside the planet is left unchanged.
    let p = PlanetPosition { x: 123, y: 456 };
    let n = p.normalize(900, 900);
    assert_eq!(n, p);
    let again = n.normalize(900, 900);
    assert_eq!(again, n);
}

#[test]
fn normalize_shifted_by_extent_matches() {
    // Normalizing (extent + k) gives the same result as normalizing k.
    for k in [0i64, 1, 17, 899] {
        let shifted = PlanetPosition { x: 900 + k, y: k }.normalize(900, 700);
        let plain = PlanetPosition { x: k, y: k }.normalize(900, 700);
        assert_eq!(shifted, plain);
        let shifted_y = PlanetPosition { x: k, y: 700 + k }.normalize(900, 700);
        assert_eq!(shifted_y, plain);
    }
}

#[test]
fn normalize_negative_coordinates() {
    let n = PlanetPosition { x: -100, y: -1 }.normalize(900, 900);
    assert_eq!(n, PlanetPosition { x: 800, y: 899 });
}

#[test]
fn wrapped_delta_shortest_path() {
    // Raw differences beyond half the extent cross the seam instead.
    assert_eq!(wrapped_delta(8, 9), -1);
    assert_eq!(wrapped_delta(-8, 9), 1);
    assert_eq!(wrapped_delta(1, 9), 1);
    assert_eq!(wrapped_delta(-1, 9), -1);
    assert_eq!(wrapped_delta(4, 9), 4);
    assert_eq!(wrapped_delta(5, 9), -4);
    assert_eq!(wrapped_delta(0, 9), 0);
}
