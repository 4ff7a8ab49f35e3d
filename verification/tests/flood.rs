use rx::color::Rgba8;
use rx::flood::FloodFiller;

fn a() -> Rgba8 {
    Rgba8::new(1, 1, 1, 255)
}

fn b() -> Rgba8 {
    Rgba8::new(2, 2, 2, 255)
}

/// The pixels, rows from the top, that the spans cover.
fn covered(spans: &[(rx::rect::Rect<usize>, Rgba8)], h: usize) -> Vec<(usize, usize)> {
    let mut out = Vec::new();
    for (r, _) in spans {
        assert_eq!(r.y2, r.y1 + 1);
        for x in r.x1..r.x2 {
            out.push((x, h - 1 - r.y1));
        }
    }
    out.sort();
    out
}

#[test]
fn flood_fills_the_connected_area() {
    // Rows from the top:
    //   a a b
    //   a b a
    //   a a a
    let pixels = vec![a(), a(), b(), a(), b(), a(), a(), a(), a()];
    let red = Rgba8::new(255, 0, 0, 255);
    let f = FloodFiller::new(pixels, 3, 3, 0, 0, red).unwrap();
    let spans = f.run().unwrap();
    assert!(spans.iter().all(|(_, c)| *c == red));
    let cells = covered(&spans, 3);
    let mut dedup = cells.clone();
    dedup.dedup();
    assert_eq!(dedup.len(), cells.len(), "spans are disjoint");
    assert_eq!(cells, vec![(0, 0), (0, 1), (0, 2), (1, 0), (1, 2), (2, 1), (2, 2)]);
    // The first span holds the starting point, the bottom left pixel.
    let first = &spans[0].0;
    assert_eq!(first.y1, 0);
    assert!(first.x1 <= 0 && 0 < first.x2);
}

#[test]
fn flood_stops_at_other_colors() {
    // Rows from the top:
    //   a b a
    //   a b a
    let pixels = vec![a(), b(), a(), a(), b(), a()];
    let f = FloodFiller::new(pixels, 3, 2, 2, 1, b()).unwrap();
    let spans = f.run().unwrap();
    assert_eq!(covered(&spans, 2), vec![(2, 0), (2, 1)]);
}

#[test]
fn flood_with_same_color_does_nothing() {
    let f = FloodFiller::new(vec![a(); 4], 2, 2, 1, 1, a()).unwrap();
    assert!(f.run().is_none());
}

#[test]
fn flood_outside_the_grid() {
    assert!(FloodFiller::new(vec![a(); 4], 2, 2, 2, 0, b()).is_none());
    assert!(FloodFiller::new(vec![a(); 4], 2, 2, 0, 2, b()).is_none());
}

#[test]
fn flood_reaches_around_corners_and_not_across_diagonals() {
    // Rows from the top; the fill starts at the bottom left.
    //   a b a a
    //   a b a b
    //   a a a b
    //   b b b a
    let pixels = vec![
        a(), b(), a(), a(), //
        a(), b(), a(), b(), //
        a(), a(), a(), b(), //
        b(), b(), b(), a(),
    ];
    let red = Rgba8::new(255, 0, 0, 255);
    let f = FloodFiller::new(pixels, 4, 4, 0, 1, red).unwrap();
    let spans = f.run().unwrap();
    let cells = covered(&spans, 4);
    let mut dedup = cells.clone();
    dedup.dedup();
    assert_eq!(dedup.len(), cells.len(), "spans are disjoint");
    assert_eq!(
        cells,
        vec![(0, 0), (0, 1), (0, 2), (1, 2), (2, 0), (2, 1), (2, 2), (3, 0)]
    );
}
