use svg2png::errors::ItemError;
use svg2png::geometry::{compute_geometry, Geometry, CANVAS_SIDE, MARGIN};

#[test]
fn fixed_constants_give_256_canvas_and_192_region() {
    let g = compute_geometry(CANVAS_SIDE, MARGIN).unwrap();
    assert_eq!(
        g,
        Geometry { canvas_side: 256, render_side: 192, offset: 32 }
    );
}

#[test]
fn geometry_is_idempotent() {
    let first = compute_geometry(CANVAS_SIDE, MARGIN).unwrap();
    let second = compute_geometry(CANVAS_SIDE, MARGIN).unwrap();
    assert_eq!(first, second);
}

#[test]
fn margin_of_half_the_canvas_is_rejected() {
    assert!(matches!(
        compute_geometry(CANVAS_SIDE, 128),
        Err(ItemError::Geometry)
    ));
}

#[test]
fn oversized_margin_is_rejected() {
    assert!(matches!(
        compute_geometry(CANVAS_SIDE, 200),
        Err(ItemError::Geometry)
    ));
}

#[test]
fn zero_canvas_is_rejected() {
    assert!(matches!(compute_geometry(0, 0), Err(ItemError::Geometry)));
}
