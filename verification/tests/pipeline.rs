use std::sync::Arc;

use resvg::tiny_skia::Pixmap;
use resvg::usvg::fontdb::Database;
use svg2png::batch::{run_batch, run_batch_with_hues, BatchItem, Outcome};
use svg2png::errors::ItemError;
use svg2png::pipeline::render_image;

const EMPTY_SVG: &[u8] = b"<svg xmlns=\"http://www.w3.org/2000/svg\" width=\"10\" height=\"10\"></svg>";

const RECT_SVG: &[u8] = b"<svg xmlns=\"http://www.w3.org/2000/svg\" width=\"4\" height=\"4\"><rect width=\"4\" height=\"4\" fill=\"#336699\"/></svg>";

fn fonts() -> Arc<Database> {
    Arc::new(Database::new())
}

fn corner_coords() -> [(u32, u32); 4] {
    [(0, 0), (255, 0), (0, 255), (255, 255)]
}

#[test]
fn empty_scene_gives_canvas_of_the_background_color() {
    // hue 0 generates the pastel background (239, 143, 143, 255)
    let png = render_image(&EMPTY_SVG.to_vec(), 0, &fonts()).unwrap();
    let pixmap = Pixmap::decode_png(&png).unwrap();
    assert_eq!(pixmap.width(), 256);
    assert_eq!(pixmap.height(), 256);
    for (x, y) in corner_coords() {
        let p = pixmap.pixel(x, y).unwrap();
        assert_eq!((p.red(), p.green(), p.blue(), p.alpha()), (239, 143, 143, 255));
    }
    // the render region is also untouched for a contentless scene
    let center = pixmap.pixel(128, 128).unwrap();
    assert_eq!(
        (center.red(), center.green(), center.blue(), center.alpha()),
        (239, 143, 143, 255)
    );
}

#[test]
fn malformed_bytes_give_a_parse_error() {
    let r = render_image(&b"this is not a vector document".to_vec(), 0, &fonts());
    assert!(matches!(r, Err(ItemError::Parse(_))));
}

#[test]
fn covering_rect_fills_the_render_region_and_spares_the_margin() {
    let png = render_image(&RECT_SVG.to_vec(), 120_000, &fonts()).unwrap();
    let pixmap = Pixmap::decode_png(&png).unwrap();
    // inside the render region: the opaque rectangle's own color
    for (x, y) in [(32u32, 32u32), (128, 128), (223, 223)] {
        let p = pixmap.pixel(x, y).unwrap();
        assert_eq!((p.red(), p.green(), p.blue(), p.alpha()), (0x33, 0x66, 0x99, 255));
    }
    // outside it: the pastel background for hue 120 degrees
    for (x, y) in corner_coords() {
        let p = pixmap.pixel(x, y).unwrap();
        assert_eq!((p.red(), p.green(), p.blue(), p.alpha()), (143, 239, 143, 255));
    }
    // just outside the region boundary the background still shows
    let edge = pixmap.pixel(31, 128).unwrap();
    assert_eq!((edge.red(), edge.green(), edge.blue(), edge.alpha()), (143, 239, 143, 255));
}

#[test]
fn two_draws_differ_only_in_background() {
    let first = render_image(&RECT_SVG.to_vec(), 0, &fonts()).unwrap();
    let second = render_image(&RECT_SVG.to_vec(), 180_000, &fonts()).unwrap();
    let a = Pixmap::decode_png(&first).unwrap();
    let b = Pixmap::decode_png(&second).unwrap();
    // identical vector-layer content within the render region
    for y in 32u32..224 {
        for x in 32u32..224 {
            assert_eq!(a.pixel(x, y).unwrap(), b.pixel(x, y).unwrap());
        }
    }
    // different backgrounds at the corners
    let ca = a.pixel(0, 0).unwrap();
    let cb = b.pixel(0, 0).unwrap();
    assert_eq!((ca.red(), ca.green(), ca.blue()), (239, 143, 143));
    assert_eq!((cb.red(), cb.green(), cb.blue()), (143, 239, 239));
}

#[test]
fn batch_isolates_the_malformed_item() {
    let items = vec![
        BatchItem { name: b"a.svg".to_vec(), data: RECT_SVG.to_vec() },
        BatchItem { name: b"b.svg".to_vec(), data: b"broken".to_vec() },
        BatchItem { name: b"c.svg".to_vec(), data: RECT_SVG.to_vec() },
        BatchItem { name: b"d.svg".to_vec(), data: EMPTY_SVG.to_vec() },
    ];
    let hues = vec![0u32, 90_000, 180_000, 270_000];
    let outcomes = run_batch_with_hues(&items, &hues, &fonts());
    assert_eq!(outcomes.len(), 4);
    let rendered: Vec<&Outcome> = outcomes
        .iter()
        .filter(|o| matches!(o, Outcome::Rendered { .. }))
        .collect();
    assert_eq!(rendered.len(), 3);
    match &outcomes[1] {
        Outcome::Failed { error } => assert!(matches!(error, ItemError::Parse(_))),
        Outcome::Rendered { .. } => panic!("malformed item must not render"),
    }
    match &outcomes[0] {
        Outcome::Rendered { name, .. } => assert_eq!(name, &b"a.png".to_vec()),
        Outcome::Failed { .. } => panic!("valid item must render"),
    }
    match &outcomes[2] {
        Outcome::Rendered { name, .. } => assert_eq!(name, &b"c.png".to_vec()),
        Outcome::Failed { .. } => panic!("valid item must render"),
    }
}

#[test]
fn batch_reports_an_item_without_a_name() {
    let items = vec![BatchItem { name: Vec::new(), data: RECT_SVG.to_vec() }];
    let outcomes = run_batch_with_hues(&items, &vec![0u32], &fonts());
    assert_eq!(outcomes.len(), 1);
    match &outcomes[0] {
        Outcome::Failed { error } => assert!(matches!(error, ItemError::Name)),
        Outcome::Rendered { .. } => panic!("nameless item must not render"),
    }
}

#[test]
fn batch_with_random_hues_renders_every_valid_item() {
    let items = vec![
        BatchItem { name: b"one.svg".to_vec(), data: EMPTY_SVG.to_vec() },
        BatchItem { name: b"two.svg".to_vec(), data: RECT_SVG.to_vec() },
    ];
    let mut rng = rand::thread_rng();
    let outcomes = run_batch(&items, &mut rng, &fonts());
    assert_eq!(outcomes.len(), 2);
    for outcome in &outcomes {
        match outcome {
            Outcome::Rendered { png, .. } => {
                let pixmap = Pixmap::decode_png(png).unwrap();
                assert_eq!((pixmap.width(), pixmap.height()), (256, 256));
            }
            Outcome::Failed { .. } => panic!("valid items must render"),
        }
    }
}
