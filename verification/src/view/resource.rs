use crate::color::{rgba8_from_bytes, rgba8_to_bytes, rgba_bytes, Rgba8};
use crate::rect::Rect;
use crate::view::{ViewCoords, ViewExtent};
use nonempty::NonEmpty;
use vstd::prelude::*;

verus! {

#[verifier::external_type_specification]
#[verifier::external_body]
#[verifier::reject_recursive_types(T)]
pub struct ExNonEmpty<T>(NonEmpty<T>);

#[verifier::external_type_specification]
#[verifier::external_body]
pub struct ExSnapError(snap::Error);

////////////////////////////////////////////////////////////////////////////////
// Snappy compression.

/// Whether an input of `n` bytes can be compressed: the compressed size
/// bound `32 + n + n / 6` must fit in 32 bits.
pub open spec fn compress_ok(n: nat) -> bool {
    32 + n + n / 6 <= u32::MAX
}

/// The Snappy encoding of a byte sequence.
pub uninterp spec fn snappy_compress(input: Seq<u8>) -> Seq<u8>;

/// Calls `snap::Encoder::compress_vec`. It succeeds exactly when
/// `max_compress_len` of the input length is non-zero, and yields the Snappy
/// encoding of the input.
#[verifier::external_body]
fn snappy_compress_vec(input: &[u8]) -> (r: Result<Vec<u8>, snap::Error>)
    ensures
        (r is Ok) == compress_ok(input@.len()),
        r matches Ok(v) ==> v@ == snappy_compress(input@),
{
    snap::Encoder::new().compress_vec(input)
}

/// Calls `snap::Decoder::decompress_vec`. Decoding what the encoder produced
/// gives back the original bytes; nothing is said of other inputs.
#[verifier::external_body]
fn snappy_decompress_vec(input: &[u8]) -> (r: Result<Vec<u8>, snap::Error>)
    ensures
        r is Ok <== (exists|b: Seq<u8>|
            compress_ok(b.len()) && #[trigger] snappy_compress(b) == input@),
        r matches Ok(v) ==> (forall|b: Seq<u8>|
            compress_ok(b.len()) && #[trigger] snappy_compress(b) == input@ ==> v@ == b),
{
    snap::Decoder::new().decompress_vec(input)
}

/// Compressed data.
#[derive(Debug)]
pub struct Compressed<T>(T);

impl Compressed<Vec<u8>> {
    pub closed spec fn bytes(&self) -> Seq<u8> {
        self.0@
    }

    /// Compress a pixel buffer.
    pub fn from(input: &[Rgba8]) -> (r: Result<Self, snap::Error>)
        requires
            input@.len() * 4 <= usize::MAX,
        ensures
            (r is Ok) == compress_ok(rgba_bytes(input@).len()),
            r matches Ok(c) ==> c.bytes() == snappy_compress(rgba_bytes(input@)),
    {
        let bytes = rgba8_to_bytes(input);
        match snappy_compress_vec(bytes.as_slice()) {
            Ok(v) => Ok(Compressed(v)),
            Err(e) => Err(e),
        }
    }

    /// Decompress into bytes.
    pub fn decompress(&self) -> (r: Result<Vec<u8>, snap::Error>)
        ensures
            r is Ok <== (exists|b: Seq<u8>|
                compress_ok(b.len()) && #[trigger] snappy_compress(b) == self.bytes()),
            r matches Ok(v) ==> (forall|b: Seq<u8>|
                compress_ok(b.len()) && #[trigger] snappy_compress(b) == self.bytes() ==> v@ == b),
    {
        snappy_decompress_vec(self.0.as_slice())
    }
}

////////////////////////////////////////////////////////////////////////////////
// Snapshots.

/// Snapshot identifier.
#[derive(Clone, Copy, Debug, PartialEq, Eq, Structural, Default)]
pub struct SnapshotId(pub usize);

/// A compressed copy of the pixels of a view at some point in time.
pub struct Snapshot {
    pub id: SnapshotId,
    pub extent: ViewExtent,
    size: usize,
    pixels: Compressed<Vec<u8>>,
    content: Ghost<Seq<Rgba8>>,
}

impl Snapshot {
    /// The pixels that the snapshot holds.
    pub closed spec fn content(&self) -> Seq<Rgba8> {
        self.content@
    }

    pub closed spec fn snapshot_id(&self) -> SnapshotId {
        self.id
    }

    pub closed spec fn view_extent(&self) -> ViewExtent {
        self.extent
    }

    pub closed spec fn wf(&self) -> bool {
        &&& self.pixels.bytes() == snappy_compress(rgba_bytes(self.content@))
        &&& compress_ok(rgba_bytes(self.content@).len())
        &&& self.size == self.content@.len()
        &&& self.content@.len() == self.extent.spec_size()
    }

    pub fn new(id: SnapshotId, pixels: &[Rgba8], extent: ViewExtent) -> (s: Self)
        requires
            compress_ok(4 * pixels@.len()),
            pixels@.len() == extent.spec_size(),
        ensures
            s.wf(),
            s.snapshot_id() == id,
            s.view_extent() == extent,
            s.content() == pixels@,
    {
        proof {
            crate::color::lemma_rgba_bytes(pixels@);
        }
        let size = pixels.len();
        let compressed = match Compressed::from(pixels) {
            Ok(c) => c,
            Err(_) => {
                proof {
                    assert(false);
                }
                Compressed(Vec::new())
            },
        };
        Self { id, extent, size, pixels: compressed, content: Ghost(pixels@) }
    }

    /// The index of the pixel at the given coordinates, counting rows from
    /// the top.
    pub fn coord_to_index(&self, p: ViewCoords<u32>) -> (r: Option<usize>)
        requires
            self.view_extent().spec_width() <= u32::MAX,
            p.y < self.view_extent().fh ==> (self.view_extent().fh - p.y - 1) * self.view_extent().spec_width() + p.x
                <= u32::MAX,
        ensures
            p.y < self.view_extent().fh ==> r == Some(
                ((self.view_extent().fh - p.y - 1) * self.view_extent().spec_width() + p.x) as usize,
            ),
            p.y >= self.view_extent().fh ==> r.is_none(),
    {
        let h = self.height();
        if p.y < h {
            let y = h - p.y - 1;
            proof {
                assert(y * self.view_extent().spec_width() <= u32::MAX) by (nonlinear_arith)
                    requires
                        y * self.view_extent().spec_width() + p.x <= u32::MAX,
                ;
            }
            Some((y * self.width() + p.x) as usize)
        } else {
            None
        }
    }

    pub fn width(&self) -> (w: u32)
        requires
            self.view_extent().spec_width() <= u32::MAX,
        ensures
            w == self.view_extent().spec_width(),
    {
        self.extent.width()
    }

    pub fn height(&self) -> (h: u32)
        ensures
            h == self.view_extent().fh,
    {
        self.extent.fh
    }

    /// Decompress the snapshot pixels.
    pub fn pixels(&self) -> (out: Vec<Rgba8>)
        requires
            self.wf(),
        ensures
            out@ == self.content(),
    {
        match self.pixels.decompress() {
            Ok(bytes) => rgba8_from_bytes(bytes.as_slice(), Ghost(self.content@)),
            Err(_) => {
                proof {
                    assert(false);
                }
                Vec::new()
            },
        }
    }
}

} // verus!

verus! {

////////////////////////////////////////////////////////////////////////////////
// Non-empty lists of snapshots and edits.

/// What a non-empty list of snapshots holds, in order.
pub uninterp spec fn snapshots_of(ne: NonEmpty<Snapshot>) -> Seq<Snapshot>;

/// What a non-empty list of edits holds, in order.
pub uninterp spec fn edits_of(ne: NonEmpty<Edit>) -> Seq<Edit>;

/// Calls `NonEmpty::new`: a list of one snapshot.
#[verifier::external_body]
fn snapshots_new(s: Snapshot) -> (ne: NonEmpty<Snapshot>)
    ensures
        snapshots_of(ne) == seq![s],
{
    NonEmpty::new(s)
}

/// Calls `NonEmpty::len`: the tail's length plus one.
#[verifier::external_body]
fn snapshots_len(ne: &NonEmpty<Snapshot>) -> (n: usize)
    ensures
        n == snapshots_of(*ne).len(),
        n >= 1,
{
    ne.len()
}

/// Calls `NonEmpty::get`: the element at `index`, if the list is long enough.
#[verifier::external_body]
fn snapshots_get(ne: &NonEmpty<Snapshot>, index: usize) -> (r: Option<&Snapshot>)
    ensures
        index < snapshots_of(*ne).len() ==> r is Some && *r.unwrap() == snapshots_of(*ne)[index as int],
        index >= snapshots_of(*ne).len() ==> r.is_none(),
{
    ne.get(index)
}

/// Calls `NonEmpty::truncate`, which keeps the first `len` elements and
/// panics when `len` is zero.
#[verifier::external_body]
fn snapshots_truncate(ne: &mut NonEmpty<Snapshot>, len: usize)
    requires
        len >= 1,
    ensures
        len < snapshots_of(*old(ne)).len() ==> snapshots_of(*final(ne)) == snapshots_of(
            *old(ne),
        ).subrange(0, len as int),
        len >= snapshots_of(*old(ne)).len() ==> snapshots_of(*final(ne)) == snapshots_of(*old(ne)),
{
    ne.truncate(len)
}

/// Calls `NonEmpty::push`: appends at the end.
#[verifier::external_body]
fn snapshots_push(ne: &mut NonEmpty<Snapshot>, s: Snapshot)
    ensures
        snapshots_of(*final(ne)) == snapshots_of(*old(ne)).push(s),
{
    ne.push(s)
}

/// Calls `NonEmpty::new`: a list of one edit.
#[verifier::external_body]
fn edits_new(e: Edit) -> (ne: NonEmpty<Edit>)
    ensures
        edits_of(ne) == seq![e],
{
    NonEmpty::new(e)
}

/// Calls `NonEmpty::len`: the tail's length plus one.
#[verifier::external_body]
fn edits_len(ne: &NonEmpty<Edit>) -> (n: usize)
    ensures
        n == edits_of(*ne).len(),
        n >= 1,
{
    ne.len()
}

/// Calls `NonEmpty::get`: the element at `index`, if the list is long enough.
#[verifier::external_body]
fn edits_get(ne: &NonEmpty<Edit>, index: usize) -> (r: Option<&Edit>)
    ensures
        index < edits_of(*ne).len() ==> r is Some && *r.unwrap() == edits_of(*ne)[index as int],
        index >= edits_of(*ne).len() ==> r.is_none(),
{
    ne.get(index)
}

/// Calls `NonEmpty::truncate`, which keeps the first `len` elements and
/// panics when `len` is zero.
#[verifier::external_body]
fn edits_truncate(ne: &mut NonEmpty<Edit>, len: usize)
    requires
        len >= 1,
    ensures
        len < edits_of(*old(ne)).len() ==> edits_of(*final(ne)) == edits_of(*old(ne)).subrange(
            0,
            len as int,
        ),
        len >= edits_of(*old(ne)).len() ==> edits_of(*final(ne)) == edits_of(*old(ne)),
{
    ne.truncate(len)
}

/// Calls `NonEmpty::push`: appends at the end.
#[verifier::external_body]
fn edits_push(ne: &mut NonEmpty<Edit>, e: Edit)
    ensures
        edits_of(*final(ne)) == edits_of(*old(ne)).push(e),
{
    ne.push(e)
}

////////////////////////////////////////////////////////////////////////////////
// Layer snapshots.

/// The snapshots of a layer, with the current one decompressed.
pub struct LayerResource {
    /// Non empty list of view snapshots.
    snapshots: NonEmpty<Snapshot>,
    /// Current layer snapshot.
    snapshot: usize,
    /// Current layer pixels, decompressed.
    pixels: Vec<Rgba8>,
}

/// Whether `rect` lies within a view of the given width and height.
pub open spec fn rect_within(rect: Rect<i32>, width: int, height: int) -> bool {
    0 <= rect.x1 && 0 <= rect.y1 && rect.x2 <= width && rect.y2 <= height
}

/// Row `y` of a pixel buffer whose rows are stored from the top, restricted
/// to the `w` columns starting at `x1`.
pub open spec fn flipped_row(pixels: Seq<Rgba8>, width: int, height: int, x1: int, w: int, y: int) -> Seq<Rgba8> {
    let offset = (height - y - 1) * width + x1;
    pixels.subrange(offset, offset + w)
}

/// Rows `hi - 1` down to `lo` of a pixel buffer stored from the top.
pub open spec fn rect_rows(pixels: Seq<Rgba8>, width: int, height: int, x1: int, w: int, lo: int, hi: int) -> Seq<Rgba8>
    decreases hi - lo,
{
    if hi <= lo {
        Seq::empty()
    } else {
        rect_rows(pixels, width, height, x1, w, lo + 1, hi) + flipped_row(pixels, width, height, x1, w, lo)
    }
}

/// A snapshot as the pixels it holds and the extent of the view.
pub open spec fn snapshot_model(s: Snapshot) -> (Seq<Rgba8>, ViewExtent) {
    (s.content(), s.view_extent())
}

impl LayerResource {
    pub closed spec fn snaps(&self) -> Seq<Snapshot> {
        snapshots_of(self.snapshots)
    }

    /// The snapshots as pixels and extents, oldest first.
    pub closed spec fn history(&self) -> Seq<(Seq<Rgba8>, ViewExtent)> {
        self.snaps().map_values(|s: Snapshot| snapshot_model(s))
    }

    /// Index of the current snapshot.
    pub closed spec fn current(&self) -> int {
        self.snapshot as int
    }

    pub closed spec fn wf(&self) -> bool {
        &&& self.snaps().len() >= 1
        &&& self.snapshot < self.snaps().len()
        &&& forall|i: int|
            0 <= i < self.snaps().len() ==> (#[trigger] self.snaps()[i]).wf() && self.snaps()[i].snapshot_id()
                == SnapshotId(i as usize)
        &&& self.pixels@ == self.snaps()[self.snapshot as int].content()
    }

    /// The current snapshot is one of the history's.
    pub proof fn lemma_current_within(&self)
        requires
            self.wf(),
        ensures
            0 <= self.current() < self.history().len(),
    {
    }

    pub fn new(pixels: Vec<Rgba8>, extent: ViewExtent) -> (l: Self)
        requires
            compress_ok(4 * pixels@.len()),
            pixels@.len() == extent.spec_size(),
        ensures
            l.wf(),
            l.history() == seq![(pixels@, extent)],
            l.current() == 0,
            0 <= l.current() < l.history().len(),
    {
        let s = Snapshot::new(SnapshotId(0), pixels.as_slice(), extent);
        let l = Self { snapshots: snapshots_new(s), snapshot: 0, pixels };
        assert(l.history() =~= seq![(pixels@, extent)]);
        l
    }

    /// The current snapshot and its pixels.
    pub fn current_snapshot(&self) -> (r: (&Snapshot, &[Rgba8]))
        requires
            self.wf(),
        ensures
            *r.0 == self.snaps()[self.current()],
            r.1@ == self.history()[self.current()].0,
    {
        (snapshots_get(&self.snapshots, self.snapshot).unwrap(), self.pixels.as_slice())
    }

    /// The pixels of `rect` within the current snapshot, row by row from the
    /// top, if the rectangle lies within the snapshot.
    pub fn get_snapshot_rect(&self, rect: &Rect<i32>) -> (r: Option<(&Snapshot, Vec<Rgba8>)>)
        requires
            self.wf(),
            rect.x1 <= rect.x2,
            rect.y1 <= rect.y2,
            self.history()[self.current()].1.spec_width() <= i32::MAX,
            self.history()[self.current()].1.fh <= i32::MAX,
        ensures
            ({
                let (pixels, extent) = self.history()[self.current()];
                &&& (r is Some) == rect_within(*rect, extent.spec_width(), extent.fh as int)
                &&& r matches Some(
                    res,
                ) ==> *res.0 == self.snaps()[self.current()] && res.1@ == rect_rows(
                    pixels,
                    extent.spec_width(),
                    extent.fh as int,
                    rect.x1 as int,
                    rect.x2 - rect.x1,
                    rect.y1 as int,
                    rect.y2 as int,
                )
            }),
    {
        let (snapshot, pixels) = self.current_snapshot();
        let ghost ext = snapshot.view_extent();
        proof {
            assert(self.snaps()[self.current()].wf());
            assert(pixels@.len() == ext.fw * ext.fh * ext.nframes);
            assert(pixels@.len() == ext.spec_width() * ext.fh) by (nonlinear_arith)
                requires
                    pixels@.len() == ext.fw * ext.fh * ext.nframes,
                    ext.spec_width() == ext.fw * ext.nframes,
            ;
        }
        let total_w = snapshot.width();
        let total_h = snapshot.height();
        let sw = total_w as i32;
        let sh = total_h as i32;
        if !(0 <= rect.x1 && 0 <= rect.y1) || !(sw >= rect.x2 && sh >= rect.y2) {
            return None;
        }
        let w = (rect.x2 - rect.x1) as usize;
        let x1 = rect.x1 as usize;
        let y1 = rect.y1 as usize;
        let tw = total_w as usize;
        let th = total_h as usize;
        let plen = pixels.len();
        let mut buffer: Vec<Rgba8> = Vec::new();
        let mut y = rect.y2 as usize;
        while y > y1
            invariant
                y1 <= y <= rect.y2,
                y1 == rect.y1,
                x1 == rect.x1,
                w == rect.x2 - rect.x1,
                x1 + w <= tw,
                rect.y2 <= th,
                tw == ext.spec_width(),
                th == ext.fh,
                pixels@.len() == tw * th,
                plen == pixels@.len(),
                buffer@ == rect_rows(pixels@, tw as int, th as int, x1 as int, w as int, y as int, rect.y2 as int),
            decreases y - y1,
        {
            y = y - 1;
            let row = th - y - 1;
            proof {
                assert(row * tw + tw <= tw * th) by (nonlinear_arith)
                    requires
                        row + 1 <= th,
                ;
            }
            assert(row * tw + tw <= plen);
            let offset = row * tw + x1;
            let ghost before = buffer@;
            let mut c: usize = 0;
            while c < w
                invariant
                    c <= w,
                    offset + w <= pixels@.len(),
                    plen == pixels@.len(),
                    buffer@ == before + pixels@.subrange(offset as int, offset + c),
                decreases w - c,
            {
                buffer.push(pixels[offset + c]);
                proof {
                    assert(buffer@ =~= before + pixels@.subrange(offset as int, offset + c + 1));
                }
                c = c + 1;
            }
        }
        Some((snapshot, buffer))
    }

    /// Add a snapshot after the current one, discarding those that came
    /// after it.
    pub fn push_snapshot(&mut self, pixels: Vec<Rgba8>, extent: ViewExtent)
        requires
            old(self).wf(),
            compress_ok(4 * pixels@.len()),
            pixels@.len() == extent.spec_size(),
        ensures
            final(self).wf(),
            final(self).history() == old(self).history().subrange(0, old(self).current() + 1).push(
                (pixels@, extent),
            ),
            final(self).current() == old(self).current() + 1,
            0 <= final(self).current() < final(self).history().len(),
    {
        let ghost old_snaps = self.snaps();
        let len = snapshots_len(&self.snapshots);
        if self.snapshot != len - 1 {
            snapshots_truncate(&mut self.snapshots, self.snapshot + 1);
            self.snapshot = snapshots_len(&self.snapshots) - 1;
        }
        assert(self.snaps() =~= old_snaps.subrange(0, self.snapshot + 1));
        self.snapshot = self.snapshot + 1;
        let s = Snapshot::new(SnapshotId(self.snapshot), pixels.as_slice(), extent);
        snapshots_push(&mut self.snapshots, s);
        self.pixels = pixels;
        assert(self.snaps() =~= old_snaps.subrange(0, self.snapshot as int).push(s));
        assert(self.history() =~= old_snaps.map_values(|s: Snapshot| snapshot_model(s)).subrange(
            0,
            self.snapshot as int,
        ).push((self.pixels@, extent)));
    }

    /// Step back to the previous snapshot, if any.
    pub fn prev_snapshot(&mut self) -> (r: Option<&Snapshot>)
        requires
            old(self).wf(),
        ensures
            final(self).wf(),
            0 <= final(self).current() < final(self).history().len(),
            final(self).history() == old(self).history(),
            old(self).current() == 0 ==> r.is_none() && final(self).current() == 0,
            old(self).current() > 0 ==> final(self).current() == old(self).current() - 1 && (r matches Some(s)
                && *s == final(self).snaps()[final(self).current()]),
    {
        if self.snapshot == 0 {
            return None;
        }
        match snapshots_get(&self.snapshots, self.snapshot - 1) {
            Some(snapshot) => {
                self.snapshot = self.snapshot - 1;
                self.pixels = snapshot.pixels();
                Some(snapshot)
            },
            None => None,
        }
    }

    /// Step forward to the next snapshot, if any.
    pub fn next_snapshot(&mut self) -> (r: Option<&Snapshot>)
        requires
            old(self).wf(),
        ensures
            final(self).wf(),
            0 <= final(self).current() < final(self).history().len(),
            final(self).history() == old(self).history(),
            old(self).current() + 1 >= old(self).history().len()
                ==> r.is_none() && final(self).current() == old(self).current(),
            old(self).current() + 1 < old(self).history().len()
                ==> final(self).current() == old(self).current() + 1
                && (r matches Some(s) && *s == final(self).snaps()[final(self).current()]),
    {
        let len = snapshots_len(&self.snapshots);
        if self.snapshot + 1 >= len {
            return None;
        }
        match snapshots_get(&self.snapshots, self.snapshot + 1) {
            Some(snapshot) => {
                self.snapshot = self.snapshot + 1;
                self.pixels = snapshot.pixels();
                Some(snapshot)
            },
            None => None,
        }
    }
}

////////////////////////////////////////////////////////////////////////////////
// View edits and undo/redo.

/// An edit of a view.
#[derive(Clone, Copy, Debug, PartialEq, Eq, Structural)]
pub enum Edit {
    ViewResized(ViewExtent, ViewExtent),
    ViewPainted,
    Initial,
}

pub type EditId = usize;


/// Whether an edit at some position in the history is consistent with the
/// extents of the snapshots before and at that position.
pub open spec fn edit_consistent(e: Edit, before: ViewExtent, after: ViewExtent) -> bool {
    match e {
        Edit::ViewResized(from, to) => from == before && to == after,
        Edit::ViewPainted => after == before,
        Edit::Initial => false,
    }
}

/// The abstract state of a view resource: the edit history, the snapshots
/// (pixels and extent) one per edit, the cursor into both, and the extent.
#[verifier::ext_equal]
pub struct ResourceModel {
    pub edits: Seq<Edit>,
    pub snaps: Seq<(Seq<Rgba8>, ViewExtent)>,
    pub cursor: int,
    pub extent: ViewExtent,
}

impl ResourceModel {
    pub open spec fn wf(self) -> bool {
        &&& self.edits.len() == self.snaps.len()
        &&& self.snaps.len() >= 1
        &&& 0 <= self.cursor < self.snaps.len()
        &&& self.edits[0] == Edit::Initial
        &&& forall|i: int|
            1 <= i < self.edits.len() ==> edit_consistent(
                #[trigger] self.edits[i],
                self.snaps[i - 1].1,
                self.snaps[i].1,
            )
        &&& self.extent == self.snaps[self.cursor].1
    }

    /// The pixels of the current snapshot.
    pub open spec fn pixels(self) -> Seq<Rgba8> {
        self.snaps[self.cursor].0
    }

    /// Record an edit with the snapshot that it produced, dropping what came
    /// after the cursor.
    pub open spec fn record(self, e: Edit, p: Seq<Rgba8>, x: ViewExtent) -> Self {
        ResourceModel {
            edits: self.edits.subrange(0, self.cursor + 1).push(e),
            snaps: self.snaps.subrange(0, self.cursor + 1).push((p, x)),
            cursor: self.cursor + 1,
            extent: x,
        }
    }

    pub open spec fn painted(self, p: Seq<Rgba8>) -> Self {
        self.record(Edit::ViewPainted, p, self.extent)
    }

    pub open spec fn resized(self, p: Seq<Rgba8>, x: ViewExtent) -> Self {
        self.record(Edit::ViewResized(self.extent, x), p, x)
    }

    /// Whether undo has an edit to revert.
    pub open spec fn can_undo(self) -> bool {
        self.cursor > 0 && self.edits[self.cursor] != Edit::Initial
    }

    /// Whether redo has an edit to replay.
    pub open spec fn can_redo(self) -> bool {
        self.cursor + 1 < self.edits.len() && self.edits[self.cursor + 1] != Edit::Initial
    }

    pub open spec fn undo(self) -> Self {
        if self.can_undo() {
            match self.edits[self.cursor] {
                Edit::ViewResized(from, _) => ResourceModel {
                    cursor: self.cursor - 1,
                    extent: from,
                    ..self
                },
                _ => ResourceModel { cursor: self.cursor - 1, ..self },
            }
        } else {
            self
        }
    }

    pub open spec fn redo(self) -> Self {
        if self.can_redo() {
            match self.edits[self.cursor + 1] {
                Edit::ViewResized(_, to) => ResourceModel {
                    cursor: self.cursor + 1,
                    extent: to,
                    ..self
                },
                _ => ResourceModel { cursor: self.cursor + 1, ..self },
            }
        } else {
            self
        }
    }
}

/// Every operation keeps the history well-formed.
pub proof fn law_operations_keep_wf(m: ResourceModel, p: Seq<Rgba8>, x: ViewExtent)
    requires
        m.wf(),
    ensures
        m.painted(p).wf(),
        m.resized(p, x).wf(),
        m.undo().wf(),
        m.redo().wf(),
{
    let r = m.painted(p);
    assert forall|i: int| 1 <= i < r.edits.len() implies edit_consistent(
        #[trigger] r.edits[i],
        r.snaps[i - 1].1,
        r.snaps[i].1,
    ) by {
        if i < r.edits.len() - 1 {
            assert(r.edits[i] == m.edits[i]);
        }
    }
    let r = m.resized(p, x);
    assert forall|i: int| 1 <= i < r.edits.len() implies edit_consistent(
        #[trigger] r.edits[i],
        r.snaps[i - 1].1,
        r.snaps[i].1,
    ) by {
        if i < r.edits.len() - 1 {
            assert(r.edits[i] == m.edits[i]);
        }
    }
    if m.can_undo() {
        assert(edit_consistent(m.edits[m.cursor], m.snaps[m.cursor - 1].1, m.snaps[m.cursor].1));
    }
    if m.can_redo() {
        assert(edit_consistent(
            m.edits[m.cursor + 1],
            m.snaps[m.cursor].1,
            m.snaps[m.cursor + 1].1,
        ));
    }
}

/// Undoing an edit right after it was recorded gives back the pixels and
/// the extent that the view had before the edit.
pub proof fn law_undo_reverts_record(m: ResourceModel, p: Seq<Rgba8>, x: ViewExtent)
    requires
        m.wf(),
    ensures
        m.painted(p).undo().pixels() == m.pixels(),
        m.painted(p).undo().extent == m.extent,
        m.painted(p).undo().cursor == m.cursor,
        m.resized(p, x).undo().pixels() == m.pixels(),
        m.resized(p, x).undo().extent == m.extent,
        m.resized(p, x).undo().cursor == m.cursor,
{
}

/// Redo after undo gives back the state before the undo.
pub proof fn law_redo_after_undo(m: ResourceModel)
    requires
        m.wf(),
        m.cursor > 0,
    ensures
        m.undo().redo() == m,
{
    assert(edit_consistent(m.edits[m.cursor], m.snaps[m.cursor - 1].1, m.snaps[m.cursor].1));
}

/// Undo after redo gives back the state before the redo.
pub proof fn law_undo_after_redo(m: ResourceModel)
    requires
        m.wf(),
        m.cursor + 1 < m.edits.len(),
    ensures
        m.redo().undo() == m,
{
    assert(edit_consistent(
        m.edits[m.cursor + 1],
        m.snaps[m.cursor].1,
        m.snaps[m.cursor + 1].1,
    ));
}

/// The history after painting the snapshots `ps` in turn.
pub open spec fn painted_all(m: ResourceModel, ps: Seq<Seq<Rgba8>>) -> ResourceModel
    decreases ps.len(),
{
    if ps.len() == 0 {
        m
    } else {
        painted_all(m, ps.drop_last()).painted(ps.last())
    }
}

/// The history after undoing `k` times.
pub open spec fn undone(m: ResourceModel, k: nat) -> ResourceModel
    decreases k,
{
    if k == 0 {
        m
    } else {
        undone(m, (k - 1) as nat).undo()
    }
}

/// The history after redoing `k` times.
pub open spec fn redone(m: ResourceModel, k: nat) -> ResourceModel
    decreases k,
{
    if k == 0 {
        m
    } else {
        redone(m, (k - 1) as nat).redo()
    }
}

/// The paint edits recorded for `k` snapshots.
pub open spec fn paints(k: nat) -> Seq<Edit> {
    Seq::new(k, |i: int| Edit::ViewPainted)
}

/// The history that painting the snapshots `ps` in turn gives: they follow
/// the snapshots up to the cursor, and the cursor is on the last of them.
proof fn lemma_painted_all(m: ResourceModel, ps: Seq<Seq<Rgba8>>)
    requires
        m.wf(),
    ensures
        painted_all(m, ps).wf(),
        ps.len() > 0 ==> painted_all(m, ps).edits == m.edits.subrange(0, m.cursor + 1) + paints(ps.len()),
        ps.len() > 0 ==> painted_all(m, ps).snaps == m.snaps.subrange(0, m.cursor + 1) + Seq::new(
            ps.len(),
            |i: int| (ps[i], m.extent),
        ),
        painted_all(m, ps).cursor == m.cursor + ps.len(),
        painted_all(m, ps).extent == m.extent,
    decreases ps.len(),
{
    if ps.len() > 0 {
        let d = ps.drop_last();
        lemma_painted_all(m, d);
        let q = painted_all(m, d);
        law_operations_keep_wf(q, ps.last(), m.extent);
        if d.len() > 0 {
            assert(q.edits.subrange(0, q.cursor + 1) =~= q.edits);
            assert(q.snaps.subrange(0, q.cursor + 1) =~= q.snaps);
        }
        assert(painted_all(m, ps).edits =~= m.edits.subrange(0, m.cursor + 1) + paints(ps.len()));
        assert(painted_all(m, ps).snaps =~= m.snaps.subrange(0, m.cursor + 1) + Seq::new(
            ps.len(),
            |i: int| (ps[i], m.extent),
        ));
    }
}

/// Undoing `j` of the `k` paints recorded steps back `j` snapshots.
proof fn lemma_undone(m: ResourceModel, ps: Seq<Seq<Rgba8>>, j: nat)
    requires
        m.wf(),
        j <= ps.len(),
        ps.len() > 0,
    ensures
        undone(painted_all(m, ps), j) == (ResourceModel {
            cursor: m.cursor + ps.len() - j,
            ..painted_all(m, ps)
        }),
    decreases j,
{
    lemma_painted_all(m, ps);
    if j > 0 {
        lemma_undone(m, ps, (j - 1) as nat);
        let q = painted_all(m, ps);
        let c = m.cursor + ps.len() - j + 1;
        assert(q.edits[c] == Edit::ViewPainted);
    }
}

/// Redoing `j` of the paints undone steps forward `j` snapshots.
proof fn lemma_redone(m: ResourceModel, ps: Seq<Seq<Rgba8>>, j: nat)
    requires
        m.wf(),
        j <= ps.len(),
        ps.len() > 0,
    ensures
        redone(undone(painted_all(m, ps), ps.len()), j) == (ResourceModel {
            cursor: m.cursor + j,
            ..painted_all(m, ps)
        }),
    decreases j,
{
    lemma_painted_all(m, ps);
    lemma_undone(m, ps, ps.len());
    if j > 0 {
        lemma_redone(m, ps, (j - 1) as nat);
        let q = painted_all(m, ps);
        let c = m.cursor + j;
        assert(q.edits[c] == Edit::ViewPainted);
    }
}

/// Painting snapshots in turn, then undoing as many times, gives back the
/// pixels the view had; redoing as many times then gives the last snapshot
/// painted.
pub proof fn law_undo_redo_sequence(m: ResourceModel, ps: Seq<Seq<Rgba8>>)
    requires
        m.wf(),
        ps.len() > 0,
    ensures
        undone(painted_all(m, ps), ps.len()).pixels() == m.pixels(),
        undone(painted_all(m, ps), ps.len()).extent == m.extent,
        redone(undone(painted_all(m, ps), ps.len()), ps.len()).pixels() == ps.last(),
        redone(undone(painted_all(m, ps), ps.len()), ps.len()) == painted_all(m, ps),
{
    lemma_painted_all(m, ps);
    lemma_undone(m, ps, ps.len());
    lemma_redone(m, ps, ps.len());
    let q = painted_all(m, ps);
    assert(q.snaps[m.cursor] == m.snaps[m.cursor]);
    assert(q.snaps[m.cursor + ps.len()] == (ps[ps.len() - 1], m.extent));
}

/// The pixels of a view, with an undo/redo history of its edits.
pub struct ViewResource {
    pub layer: LayerResource,
    pub history: NonEmpty<Edit>,
    pub cursor: usize,
    pub extent: ViewExtent,
}

impl ViewResource {
    pub closed spec fn model(&self) -> ResourceModel {
        ResourceModel {
            edits: edits_of(self.history),
            snaps: self.layer.history(),
            cursor: self.cursor as int,
            extent: self.extent,
        }
    }

    /// A well-formed resource has a well-formed model.
    pub proof fn lemma_wf_model(&self)
        requires
            self.wf(),
        ensures
            self.model().wf(),
    {
    }

    /// The model's cursor and extent are the resource's own.
    pub proof fn lemma_model_fields(&self)
        ensures
            self.model().cursor == self.cursor,
            self.model().extent == self.extent,
    {
    }

    pub closed spec fn wf(&self) -> bool {
        &&& self.layer.wf()
        &&& self.cursor == self.layer.current()
        &&& self.model().wf()
    }

    pub fn new(pixels: Vec<Rgba8>, extent: ViewExtent) -> (r: Self)
        requires
            compress_ok(4 * pixels@.len()),
            pixels@.len() == extent.spec_size(),
        ensures
            r.wf(),
            r.model() == (ResourceModel {
                edits: seq![Edit::Initial],
                snaps: seq![(pixels@, extent)],
                cursor: 0,
                extent,
            }),
    {
        let r = Self {
            layer: LayerResource::new(pixels, extent),
            history: edits_new(Edit::Initial),
            cursor: 0,
            extent,
        };
        assert(r.model().snaps[0].1 == extent);
        r
    }

    /// Record a resize of the view, with the pixels after it.
    pub fn record_view_resized(&mut self, pixels: Vec<Rgba8>, extent: ViewExtent)
        requires
            old(self).wf(),
            compress_ok(4 * pixels@.len()),
            pixels@.len() == extent.spec_size(),
        ensures
            final(self).wf(),
            final(self).model() == old(self).model().resized(pixels@, extent),
    {
        proof {
            law_operations_keep_wf(self.model(), pixels@, extent);
        }
        self.history_record(Edit::ViewResized(self.extent, extent));
        self.extent = extent;
        self.layer.push_snapshot(pixels, extent);
        assert(self.model() =~= old(self).model().resized(self.layer.history().last().0, extent));
    }

    /// Record a change to the pixels of the view.
    pub fn record_view_painted(&mut self, pixels: Vec<Rgba8>)
        requires
            old(self).wf(),
            compress_ok(4 * pixels@.len()),
            pixels@.len() == old(self).model().extent.spec_size(),
        ensures
            final(self).wf(),
            final(self).model() == old(self).model().painted(pixels@),
    {
        proof {
            law_operations_keep_wf(self.model(), pixels@, self.extent);
        }
        let extent = self.extent;
        self.history_record(Edit::ViewPainted);
        self.layer.push_snapshot(pixels, extent);
        assert(self.model() =~= old(self).model().painted(self.layer.history().last().0));
    }

    /// Drop the edits after the cursor.
    pub fn history_truncate(&mut self)
        requires
            old(self).cursor < edits_of(old(self).history).len(),
        ensures
            edits_of(final(self).history) == edits_of(old(self).history).subrange(
                0,
                old(self).cursor + 1,
            ),
            final(self).cursor == old(self).cursor,
            final(self).layer == old(self).layer,
            final(self).extent == old(self).extent,
    {
        let len = edits_len(&self.history);
        if self.cursor != len - 1 {
            edits_truncate(&mut self.history, self.cursor + 1);
            self.cursor = edits_len(&self.history) - 1;
        }
        assert(edits_of(self.history) =~= edits_of(old(self).history).subrange(
            0,
            old(self).cursor + 1,
        ));
    }

    /// Add an edit after the cursor, dropping the edits that came after it,
    /// and move the cursor onto it.
    pub fn history_record(&mut self, edit: Edit)
        requires
            old(self).cursor < edits_of(old(self).history).len(),
        ensures
            edits_of(final(self).history) == edits_of(old(self).history).subrange(
                0,
                old(self).cursor + 1,
            ).push(edit),
            final(self).cursor == old(self).cursor + 1,
            final(self).layer == old(self).layer,
            final(self).extent == old(self).extent,
    {
        self.history_truncate();
        let len = edits_len(&self.history);
        assert(self.cursor < len);
        self.cursor = self.cursor + 1;
        edits_push(&mut self.history, edit);
    }

    /// Undo the edit under the cursor. Returns the new cursor and the edit.
    pub fn history_prev(&mut self) -> (r: Option<(usize, Edit)>)
        requires
            old(self).wf(),
        ensures
            final(self).wf(),
            final(self).model() == old(self).model().undo(),
            old(self).model().can_undo() ==> r == Some(
                (final(self).cursor, old(self).model().edits[old(self).cursor as int]),
            ),
            !old(self).model().can_undo() ==> r.is_none(),
    {
        proof {
            law_operations_keep_wf(self.model(), Seq::empty(), self.extent);
        }
        if self.cursor == 0 {
            return None;
        }
        let edit = match edits_get(&self.history, self.cursor) {
            Some(e) => *e,
            None => {
                return None;
            },
        };
        match edit {
            Edit::ViewResized(from, _) => {
                self.extent = from;
                self.layer.prev_snapshot();
            },
            Edit::ViewPainted => {
                self.layer.prev_snapshot();
            },
            _ => {
                return None;
            },
        }
        self.cursor = self.cursor - 1;
        assert(self.model() =~= old(self).model().undo());
        Some((self.cursor, edit))
    }

    /// Redo the edit after the cursor. Returns the new cursor and the edit.
    pub fn history_next(&mut self) -> (r: Option<(usize, Edit)>)
        requires
            old(self).wf(),
        ensures
            final(self).wf(),
            final(self).model() == old(self).model().redo(),
            old(self).model().can_redo() ==> r == Some(
                (final(self).cursor, old(self).model().edits[final(self).cursor as int]),
            ),
            !old(self).model().can_redo() ==> r.is_none(),
    {
        proof {
            law_operations_keep_wf(self.model(), Seq::empty(), self.extent);
        }
        let len = edits_len(&self.history);
        if self.cursor + 1 >= len {
            return None;
        }
        let edit = match edits_get(&self.history, self.cursor + 1) {
            Some(e) => *e,
            None => {
                return None;
            },
        };
        match edit {
            Edit::ViewResized(_, to) => {
                self.cursor = self.cursor + 1;
                self.extent = to;
                self.layer.next_snapshot();
            },
            Edit::ViewPainted => {
                self.cursor = self.cursor + 1;
                self.layer.next_snapshot();
            },
            _ => {
                return None;
            },
        }
        assert(self.model() =~= old(self).model().redo());
        Some((self.cursor, edit))
    }

    /// The pixels of the current snapshot.
    pub fn current_pixels(&self) -> (p: &[Rgba8])
        requires
            self.wf(),
        ensures
            p@ == self.model().pixels(),
    {
        let (_, pixels) = self.layer.current_snapshot();
        pixels
    }

    /// The identifier of the current edit.
    pub fn current_edit(&self) -> (id: EditId)
        ensures
            id == self.cursor,
    {
        self.cursor
    }
}

} // verus!
