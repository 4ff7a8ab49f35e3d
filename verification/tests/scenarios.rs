use rx::brush::{Brush, BrushMode, BrushState};
use rx::autocomplete::Completer;
use rx::cmd::{Command, CommandLine};
use rx::color::Rgba8;
use rx::session::Session;
use rx::view::FileStatus;
use rx::gfx::Point2;
use rx::palette::Palette;
use rx::rect::Rect;
use rx::util::stitch_frames;
use rx::view::layer::{FrameRange, Layer, LayerCoords};
use rx::view::resource::{Compressed, Edit, LayerResource, Snapshot, SnapshotId, ViewResource};
use rx::view::{ViewCoords, ViewExtent};

fn px(n: u8) -> Rgba8 {
    Rgba8::new(n, n, n, 0xff)
}

#[test]
fn simple() {
    let extent = ViewExtent::new(2, 2, 1);
    let mut v = ViewResource::new(vec![px(0); 4], extent);
    assert_eq!(v.current_edit(), 0);
    v.record_view_painted(vec![px(1), px(0), px(0), px(0)]);
    assert_eq!(v.current_edit(), 1);
    let (s, pixels) = v.layer.current_snapshot();
    assert_eq!(s.id, SnapshotId(1));
    assert_eq!(pixels, &[px(1), px(0), px(0), px(0)][..]);
}

#[test]
fn view_resource_records_resizes() {
    let small = ViewExtent::new(1, 1, 1);
    let large = ViewExtent::new(2, 1, 1);
    let mut v = ViewResource::new(vec![px(7)], small);
    v.record_view_resized(vec![px(7), px(0)], large);
    assert_eq!(v.extent, large);
    assert_eq!(v.history_prev(), Some((0, Edit::ViewResized(small, large))));
    assert_eq!(v.extent, small);
    assert_eq!(v.layer.current_snapshot().1, &[px(7)][..]);
    assert_eq!(v.history_next(), Some((1, Edit::ViewResized(small, large))));
    assert_eq!(v.extent, large);
    assert_eq!(v.layer.current_snapshot().1, &[px(7), px(0)][..]);
}

#[test]
fn snapshots() {
    let extent = ViewExtent::new(1, 1, 1);
    let mut v = ViewResource::new(vec![px(0)], extent);
    v.record_view_painted(vec![px(1)]);
    v.record_view_painted(vec![px(2)]);
    assert_eq!(v.history_prev(), Some((1, Edit::ViewPainted)));
    assert_eq!(v.layer.current_snapshot().1, &[px(1)][..]);
    assert_eq!(v.history_prev(), Some((0, Edit::ViewPainted)));
    assert_eq!(v.layer.current_snapshot().1, &[px(0)][..]);
    // Nothing left to undo.
    assert_eq!(v.history_prev(), None);
    assert_eq!(v.history_next(), Some((1, Edit::ViewPainted)));
    // Painting after an undo drops the edits that came after it.
    v.record_view_painted(vec![px(3)]);
    assert_eq!(v.history_next(), None);
    assert_eq!(v.layer.current_snapshot().1, &[px(3)][..]);
    assert_eq!(v.history_prev(), Some((1, Edit::ViewPainted)));
    assert_eq!(v.layer.current_snapshot().1, &[px(1)][..]);
}

#[test]
fn layers_snapshots() {
    let extent = ViewExtent::new(2, 1, 1);
    let mut l = LayerResource::new(vec![px(0), px(0)], extent);
    l.push_snapshot(vec![px(1), px(2)], extent);
    assert_eq!(l.current_snapshot().0.id, SnapshotId(1));
    assert_eq!(l.prev_snapshot().map(|s| s.id), Some(SnapshotId(0)));
    assert_eq!(l.current_snapshot().1, &[px(0), px(0)][..]);
    assert!(l.prev_snapshot().is_none());
    assert_eq!(l.next_snapshot().map(|s| s.id), Some(SnapshotId(1)));
    assert_eq!(l.current_snapshot().1, &[px(1), px(2)][..]);
    assert!(l.next_snapshot().is_none());
    let (s, rect) = l.get_snapshot_rect(&Rect::new(1, 0, 2, 1)).unwrap();
    assert_eq!(s.id, SnapshotId(1));
    assert_eq!(rect, vec![px(2)]);
}

#[test]
fn brush_basic() {
    let mut b = Brush::default();
    assert!(!b.is_drawing());
    b.start_drawing(Point2::new(0, 0), px(9), ViewExtent::new(8, 8, 1));
    assert!(b.is_drawing());
    b.draw(Point2::new(3, 0));
    assert_eq!(
        b.stroke,
        vec![Point2::new(0, 0), Point2::new(1, 0), Point2::new(2, 0), Point2::new(3, 0)]
    );
    assert_eq!(b.color, px(9));
    b.stop_drawing();
    assert_eq!(b.state, BrushState::DrawEnded(ViewExtent::new(8, 8, 1)));
    b.update();
    assert_eq!(b.state, BrushState::NotDrawing);
    assert!(b.stroke.is_empty());
}

#[test]
fn brush_advanced() {
    let mut b = Brush::default();
    assert!(b.set(BrushMode::XSym));
    assert!(!b.set(BrushMode::XSym));
    b.toggle(BrushMode::Multi);
    assert!(b.is_set(BrushMode::Multi));
    let extent = ViewExtent::new(4, 4, 2);
    let heads = b.expand(ViewCoords::new(1, 2), extent);
    assert_eq!(
        heads,
        vec![
            ViewCoords::new(1, 2),
            ViewCoords::new(2, 2),
            ViewCoords::new(1, 2),
            ViewCoords::new(5, 2),
            ViewCoords::new(2, 2),
            ViewCoords::new(6, 2),
        ]
    );
    assert!(b.unset(BrushMode::XSym));
    assert!(!b.is_set(BrushMode::XSym));
    b.toggle(BrushMode::Multi);
    assert!(!b.is_set(BrushMode::Multi));

    // Pixel-perfect mode drops the corners of L-shaped steps; the filter
    // keeps the first and last points of the stroke.
    let mut p = Brush::default();
    p.set(BrushMode::Perfect);
    p.start_drawing(Point2::new(0, 0), px(1), ViewExtent::new(8, 8, 1));
    p.draw(Point2::new(1, 0));
    assert_eq!(p.stroke, vec![Point2::new(0, 0), Point2::new(1, 0)]);
    p.draw(Point2::new(1, 1));
    assert_eq!(p.stroke, vec![Point2::new(0, 0), Point2::new(1, 1), Point2::new(1, 1)]);
}

#[test]
fn frames_are_stitched_side_by_side() {
    let f1 = vec![1, 2, 3, 4];
    let f2 = vec![5, 6, 7, 8];
    // Two 2x2 frames side by side, row by row.
    assert_eq!(stitch_frames(vec![f1.clone(), f2], 2, 2, 0), vec![1, 2, 5, 6, 3, 4, 7, 8]);
    assert_eq!(stitch_frames(vec![f1.clone()], 2, 2, 0), f1);
    assert_eq!(stitch_frames(Vec::<Vec<i32>>::new(), 2, 2, 0), Vec::<i32>::new());
    let e = ViewExtent::new(2, 2, 3);
    assert_eq!(e.width(), 6);
    assert_eq!(e.height(), 2);
}

#[test]
fn layers() {
    let l = Layer::new(FrameRange::Partial { start: 1, end: 3 }, 2);
    assert!(l.is_visible);
    assert_eq!(l.index, 2);
    assert_eq!(l.frames, FrameRange::Partial { start: 1, end: 3 });
    let mut c = LayerCoords::new(-4, 12);
    c.clamp(Rect::new(0, 0, 8, 8));
    assert_eq!((c.0.x, c.0.y), (0, 8));
}

#[test]
fn palette_adds_each_color_once() {
    let mut p = Palette::new(2);
    p.add(px(1));
    p.add(px(2));
    p.add(px(1));
    p.add(px(3));
    assert_eq!(p.size(), 3);
    assert_eq!(p.colors, vec![px(1), px(2), px(3)]);
    // Cells are 10 pixels; the palette is two cells tall and two wide.
    // The first cell holds the last color.
    p.handle_cursor_moved(5, 5, 10);
    assert_eq!(p.hover, Some(px(3)));
    p.handle_cursor_moved(5, 15, 10);
    assert_eq!(p.hover, Some(px(2)));
    p.handle_cursor_moved(15, 5, 10);
    assert_eq!(p.hover, Some(px(1)));
    // The fourth cell is empty.
    p.handle_cursor_moved(15, 15, 10);
    assert_eq!(p.hover, None);
    p.handle_cursor_moved(-1, 5, 10);
    assert_eq!(p.hover, None);
    p.handle_cursor_moved(25, 5, 10);
    assert_eq!(p.hover, None);
    p.clear();
    assert_eq!(p.size(), 0);
}

#[test]
fn view_extent_and_snapshot() {
    let e = ViewExtent::new(3, 2, 2);
    assert_eq!(e.rect(), Rect::new(0, 0, 6, 2));
    let s = Snapshot::new(SnapshotId(0), &vec![px(0); 12], e);
    // Rows count from the top; coordinates from the bottom.
    assert_eq!(s.coord_to_index(ViewCoords::new(4, 0)), Some(10));
    assert_eq!(s.coord_to_index(ViewCoords::new(1, 1)), Some(1));
    assert_eq!(s.coord_to_index(ViewCoords::new(1, 2)), None);
    assert_eq!(s.width(), 6);
    assert_eq!(s.height(), 2);
    assert_eq!(s.pixels(), vec![px(0); 12]);
}

#[test]
fn archive() {
    let pixels = vec![px(1), px(2), Rgba8::new(3, 4, 5, 6)];
    let c = Compressed::from(&pixels).unwrap();
    let bytes = c.decompress().unwrap();
    assert_eq!(bytes, vec![1, 1, 1, 255, 2, 2, 2, 255, 3, 4, 5, 6]);
    assert_eq!(Rgba8::align(&bytes), pixels);
}

#[test]
fn layer_default_is_hidden() {
    let l = rx::view::layer::Layer::default();
    assert!(!l.is_visible);
    assert_eq!(l.index, 0);
    assert_eq!(l.frames, rx::view::layer::FrameRange::Full);
}

#[derive(Debug)]
struct NoCompletions;

impl Completer for NoCompletions {
    type Options = ();

    fn complete(&self, _input: &str, _opts: ()) -> Vec<String> {
        Vec::new()
    }
}

/// A session editing one blank view of `w` by `h` pixels.
fn editing(w: u32, h: u32) -> Session<NoCompletions> {
    let mut s = Session::new(CommandLine::new("/dev/null", NoCompletions));
    let id = s.views.add(FileStatus::New("scene.png".to_owned()), w, h);
    s.views.activate(id);
    s
}

fn run(s: &mut Session<NoCompletions>, line: &str) {
    let cmd = s.cmdline.parse(line).expect("the command parses");
    s.command(cmd);
}

#[test]
fn resize() {
    let mut s = editing(128, 128);
    run(&mut s, ":f/resize 32 64");
    let v = s.views.active().expect("an active view");
    assert_eq!((v.fw, v.fh, v.nframes), (32, 64, 1));
    run(&mut s, ":f/resize 0 64");
    assert_eq!(s.message.string, "Error: cannot set frame dimension to `0`");
}

#[test]
fn frames() {
    let mut s = editing(16, 16);
    run(&mut s, ":f/add");
    run(&mut s, ":f/clone");
    run(&mut s, ":f/clone 0");
    assert_eq!(s.views.active().map(|v| v.nframes), Some(4));
    run(&mut s, ":f/remove");
    assert_eq!(s.views.active().map(|v| v.nframes), Some(3));
    run(&mut s, ":f/clone 7");
    assert_eq!(s.message.string, "Error: clone index must be in the range 0..2");
}

#[test]
fn palette() {
    let mut s = editing(8, 8);
    run(&mut s, ":p/add #ffffff");
    run(&mut s, ":p/add #112233");
    run(&mut s, ":p/add #ffffff");
    assert_eq!(s.palette.size(), 2);
    run(&mut s, ":p/sort");
    assert_eq!(s.palette.colors[0], Rgba8::new(0x11, 0x22, 0x33, 0xff));
    run(&mut s, ":p/clear");
    assert_eq!(s.palette.size(), 0);
}

#[test]
fn views() {
    let mut s = editing(8, 8);
    run(&mut s, ":q");
    assert_eq!(s.message.string, "Error: no write since last change (enter `:q!` to quit without saving)");
    assert_eq!(s.views.len(), 1);
    run(&mut s, ":q!");
    assert!(s.views.is_empty());
}
