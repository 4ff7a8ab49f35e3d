use crate::rect::Rect;
use std::collections::VecDeque;
use crate::view::resource::SnapshotId;
use vstd::view::View as HasView;
use vstd::prelude::*;

pub mod layer;
pub mod path;
pub mod pixels;
pub mod resource;

verus! {

/// The extent of a view: frame size and number of frames.
#[derive(Clone, Copy, Debug, PartialEq, Eq, Structural)]
pub struct ViewExtent {
    /// Frame width.
    pub fw: u32,
    /// Frame height.
    pub fh: u32,
    /// Number of frames.
    pub nframes: usize,
}

impl ViewExtent {
    /// Width of all frames side by side.
    pub open spec fn spec_width(self) -> int {
        self.fw * self.nframes
    }

    /// Number of pixels of a view with this extent.
    pub open spec fn spec_size(self) -> int {
        self.fw * self.fh * self.nframes
    }

    pub fn new(fw: u32, fh: u32, nframes: usize) -> (e: Self)
        ensures
            e == (ViewExtent { fw, fh, nframes }),
    {
        ViewExtent { fw, fh, nframes }
    }

    /// View width. Frame width times number of frames.
    pub fn width(&self) -> (w: u32)
        requires
            self.spec_width() <= u32::MAX,
        ensures
            w == self.spec_width(),
    {
        proof {
            assert(self.nframes <= u32::MAX || self.fw == 0) by (nonlinear_arith)
                requires
                    self.fw * self.nframes <= u32::MAX,
            ;
        }
        if self.fw == 0 {
            0
        } else {
            self.fw * (self.nframes as u32)
        }
    }

    /// View height.
    pub fn height(&self) -> (h: u32)
        ensures
            h == self.fh,
    {
        self.fh
    }

    /// The view area, with its origin at zero.
    pub fn rect(&self) -> (r: Rect<u32>)
        requires
            self.spec_width() <= u32::MAX,
        ensures
            r == (Rect::<u32> { x1: 0, y1: 0, x2: self.spec_width() as u32, y2: self.fh }),
    {
        Rect::new(0, 0, self.width(), self.fh)
    }
}

/// View coordinates, relative to the bottom left corner of the view.
#[derive(Clone, Copy, Debug, PartialEq, Eq, Structural)]
pub struct ViewCoords<T> {
    pub x: T,
    pub y: T,
}

impl<T> ViewCoords<T> {
    pub fn new(x: T, y: T) -> (p: Self)
        ensures
            p == (ViewCoords { x, y }),
    {
        ViewCoords { x, y }
    }
}

/// A view identifier.
#[derive(Clone, Copy, Debug, PartialEq, Eq, Structural)]
pub struct ViewId(pub u16);

impl ViewId {
    /// The identifier of no view.
    pub fn none() -> (v: Self)
        ensures
            v == ViewId(0),
    {
        ViewId(0)
    }
}

/// Current state of the view.
#[derive(Clone, Copy, Debug, PartialEq, Eq, Structural)]
pub enum ViewState {
    /// The view is okay. It doesn't need to be redrawn or saved.
    Okay,
    /// The view has been touched, the changes need to be stored in a snapshot.
    Dirty,
    /// The view is damaged, it needs to be redrawn from a snapshot.
    /// This happens when undo/redo is used.
    Damaged,
}

/// A view operation to be carried out by the renderer.
#[derive(Clone, Copy, Debug, PartialEq, Eq, Structural)]
pub enum ViewOp {
    /// Copy the area of one frame of the view to that of another.
    Blit { src: usize, dst: usize },
}

/// Status of the underlying file displayed by the view.
#[derive(Clone, Debug, PartialEq)]
pub enum FileStatus {
    /// There is no file being displayed.
    NoFile,
    /// The file is new and unsaved.
    New(String),
    /// The file is saved and unmodified.
    Saved(String),
    /// The file has been modified since the last save.
    Modified(String),
}

/// How a file status is shown.
pub open spec fn status_text(fs: FileStatus) -> Seq<char> {
    match fs {
        FileStatus::NoFile => Seq::empty(),
        FileStatus::Saved(p) => p@,
        FileStatus::New(p) => p@ + " [new]"@,
        FileStatus::Modified(p) => p@ + " [modified]"@,
    }
}

/// The file a status is about, if any.
pub open spec fn status_file(fs: FileStatus) -> Option<Seq<char>> {
    match fs {
        FileStatus::NoFile => None,
        FileStatus::Saved(p) => Some(p@),
        FileStatus::New(p) => Some(p@),
        FileStatus::Modified(p) => Some(p@),
    }
}

impl FileStatus {
    /// How the status is shown: the file, and whether it is new or
    /// modified.
    pub fn to_string(&self) -> (s: String)
        ensures
            s@ == status_text(*self),
    {
        let mut s = String::new();
        match self {
            FileStatus::NoFile => {},
            FileStatus::Saved(p) => s.append(p.as_str()),
            FileStatus::New(p) => {
                s.append(p.as_str());
                s.append(" [new]");
            },
            FileStatus::Modified(p) => {
                s.append(p.as_str());
                s.append(" [modified]");
            },
        }
        s
    }
}

/// A view on a sprite or image: frames side by side, the file it shows,
/// and what the renderer is to do with it. Where it stands on screen and
/// how it is animated in time are kept apart from it.
pub struct View {
    /// Frame width.
    pub fw: u32,
    /// Frame height.
    pub fh: u32,
    /// Number of frames.
    pub nframes: usize,
    /// Identifier.
    pub id: ViewId,
    /// List of operations to carry out on the view. Cleared every frame.
    pub ops: Vec<ViewOp>,
    /// Whether the view is flipped in the X axis.
    pub flip_x: bool,
    /// Whether the view is flipped in the Y axis.
    pub flip_y: bool,
    /// Status of the file displayed by this view.
    pub file_status: FileStatus,
    /// State of the view.
    pub state: ViewState,
    /// Delay between animation frames, in milliseconds.
    pub animation_delay: u64,
    /// Which view snapshot has been saved to disk, if any.
    pub saved_snapshot: Option<SnapshotId>,
}

/// The default frame delay for animations, in milliseconds.
pub const DEFAULT_ANIMATION_DELAY: u64 = 160;

/// The status of a file once the view is restored to a snapshot, `saved`
/// telling whether that snapshot is the one saved.
pub open spec fn restored_status(fs: FileStatus, saved: bool) -> FileStatus {
    match fs {
        FileStatus::Modified(f) => if saved {
            FileStatus::Saved(f)
        } else {
            FileStatus::Modified(f)
        },
        FileStatus::Saved(f) => FileStatus::Modified(f),
        other => other,
    }
}

/// The status of a file once the view is touched: a saved file is then
/// modified.
pub open spec fn touched_status(fs: FileStatus) -> FileStatus {
    match fs {
        FileStatus::Saved(p) => FileStatus::Modified(p),
        _ => fs,
    }
}

impl View {
    /// Which snapshot has been saved to disk, if any.
    pub open spec fn saved_id(&self) -> Option<SnapshotId> {
        self.saved_snapshot
    }

    /// A view of one frame of the given size. A view of a saved file starts
    /// saved at the first snapshot.
    pub fn new(id: ViewId, fs: FileStatus, fw: u32, fh: u32) -> (v: Self)
        ensures
            v.id == id,
            v.fw == fw,
            v.fh == fh,
            v.nframes == 1,
            v.file_status == fs,
            v.state == ViewState::Okay,
            v.ops@.len() == 0,
            !v.flip_x && !v.flip_y,
            v.animation_delay == DEFAULT_ANIMATION_DELAY,
            v.saved_id() == if fs is Saved { Some(SnapshotId(0)) } else { None },
    {
        let saved_snapshot = match &fs {
            FileStatus::Saved(_) => Some(SnapshotId(0)),
            _ => None,
        };
        View {
            fw,
            fh,
            nframes: 1,
            id,
            ops: Vec::new(),
            flip_x: false,
            flip_y: false,
            file_status: fs,
            state: ViewState::Okay,
            animation_delay: DEFAULT_ANIMATION_DELAY,
            saved_snapshot,
        }
    }

    /// The view's extent: frame size and number of frames.
    pub fn extent(&self) -> (e: ViewExtent)
        ensures
            e == (ViewExtent { fw: self.fw, fh: self.fh, nframes: self.nframes }),
    {
        ViewExtent::new(self.fw, self.fh, self.nframes)
    }

    /// View width: frame width times number of frames.
    pub fn width(&self) -> (w: u32)
        requires
            self.fw * self.nframes <= u32::MAX,
        ensures
            w == self.fw * self.nframes,
    {
        self.extent().width()
    }

    /// View height.
    pub fn height(&self) -> (h: u32)
        ensures
            h == self.fh,
    {
        self.fh
    }

    /// View file name, if any.
    pub fn file_name(&self) -> (f: Option<&String>)
        ensures
            match (f, status_file(self.file_status)) {
                (Some(a), Some(b)) => a@ == b,
                (None, None) => true,
                _ => false,
            },
    {
        match &self.file_status {
            FileStatus::New(f) => Some(f),
            FileStatus::Modified(f) => Some(f),
            FileStatus::Saved(f) => Some(f),
            FileStatus::NoFile => None,
        }
    }

    /// Mark the view as saved at a snapshot, to `path`: where it shows no
    /// file, or a new or modified file at that same path.
    pub fn save_as(&mut self, id: SnapshotId, path: String)
        ensures
            ({
                let saves = match old(self).file_status {
                    FileStatus::NoFile => true,
                    FileStatus::New(p) => p@ == path@,
                    FileStatus::Modified(p) => p@ == path@,
                    FileStatus::Saved(_) => false,
                };
                if saves {
                    final(self).file_status == FileStatus::Saved(path) && final(self).saved_id() == Some(id)
                } else {
                    final(self).file_status == old(self).file_status && final(self).saved_id() == old(self).saved_id()
                }
            }),
            final(self).state == old(self).state,
            final(self).nframes == old(self).nframes,
            final(self).fw == old(self).fw,
            final(self).fh == old(self).fh,
    {
        let saves = match &self.file_status {
            FileStatus::Modified(p) | FileStatus::New(p) => crate::view::path::eq_chars(
                crate::text::chars_of(p.as_str()).as_slice(),
                crate::text::chars_of(path.as_str()).as_slice(),
            ),
            FileStatus::NoFile => true,
            FileStatus::Saved(_) => false,
        };
        if saves {
            self.file_status = FileStatus::Saved(path);
            self.saved_snapshot = Some(id);
        }
    }

    /// View has been modified: a saved file becomes modified, and the view
    /// is dirty.
    pub fn touch(&mut self)
        ensures
            *final(self) == (View {
                file_status: touched_status(old(self).file_status),
                state: ViewState::Dirty,
                ..*old(self)
            }),
    {
        let mut fs = FileStatus::NoFile;
        std::mem::swap(&mut fs, &mut self.file_status);
        self.file_status = match fs {
            FileStatus::Saved(p) => FileStatus::Modified(p),
            other => other,
        };
        self.state = ViewState::Dirty;
    }
}

impl View {
    /// Extend the view by one frame.
    pub fn extend(&mut self)
        requires
            old(self).nframes < usize::MAX,
        ensures
            *final(self) == (View {
                nframes: (old(self).nframes + 1) as usize,
                file_status: touched_status(old(self).file_status),
                state: ViewState::Dirty,
                ..*old(self)
            }),
    {
        self.nframes = self.nframes + 1;
        self.touch();
    }

    /// Shrink the view by one frame, leaving it at least one.
    pub fn shrink(&mut self)
        ensures
            *final(self) == if old(self).nframes > 1 {
                View {
                    nframes: (old(self).nframes - 1) as usize,
                    file_status: touched_status(old(self).file_status),
                    state: ViewState::Dirty,
                    ..*old(self)
                }
            } else {
                *old(self)
            },
    {
        if self.nframes > 1 {
            self.nframes = self.nframes - 1;
            self.touch();
        }
    }

    /// Extend the view by one frame that is a copy of the frame at `index`,
    /// or of the last frame for `-1`.
    pub fn extend_clone(&mut self, index: i32)
        requires
            1 <= old(self).nframes < usize::MAX,
        ensures
            final(self).ops@ == old(self).ops@.push(
                ViewOp::Blit {
                    src: if index == -1 { (old(self).nframes - 1) as usize } else { index as usize },
                    dst: old(self).nframes,
                },
            ),
            *final(self) == (View {
                nframes: (old(self).nframes + 1) as usize,
                file_status: touched_status(old(self).file_status),
                state: ViewState::Dirty,
                ops: final(self).ops,
                ..*old(self)
            }),
    {
        let src: usize = if index == -1 {
            self.nframes - 1
        } else {
            index as usize
        };
        self.ops.push(ViewOp::Blit { src, dst: self.nframes });
        self.extend();
    }

    /// Reset the view's frames: their size and number.
    pub fn reset(&mut self, fw: u32, fh: u32, nframes: usize)
        ensures
            *final(self) == (View { fw, fh, nframes, ..*old(self) }),
    {
        self.fw = fw;
        self.fh = fh;
        self.nframes = nframes;
    }

    /// Resize the view's frames.
    pub fn resize_frames(&mut self, fw: u32, fh: u32)
        ensures
            *final(self) == (View { fw, fh, ..*old(self) }),
    {
        let n = self.nframes;
        self.reset(fw, fh, n);
    }

    /// Slice the view into `nframes` frames of equal width, where its width
    /// divides evenly; gives whether it did.
    pub fn slice(&mut self, nframes: usize) -> (ok: bool)
        requires
            0 < nframes <= u32::MAX,
            old(self).fw * old(self).nframes <= u32::MAX,
        ensures
            ok == ((old(self).fw * old(self).nframes) % (nframes as int) == 0),
            *final(self) == if ok {
                View { fw: ((old(self).fw * old(self).nframes) / (nframes as int)) as u32, nframes, ..*old(self) }
            } else {
                *old(self)
            },
    {
        let w = self.width();
        let n = nframes as u32;
        if w % n == 0 {
            let fh = self.fh;
            self.reset(w / n, fh, nframes);
            return true;
        }
        false
    }

    /// Set the delay between animation frames.
    pub fn set_animation_delay(&mut self, ms: u64)
        ensures
            *final(self) == (View { animation_delay: ms, ..*old(self) }),
    {
        self.animation_delay = ms;
    }

    /// Set the view state to `Okay`, with no operations left.
    pub fn okay(&mut self)
        ensures
            final(self).state == ViewState::Okay,
            final(self).ops@.len() == 0,
            final(self).nframes == old(self).nframes,
            final(self).file_status == old(self).file_status,
    {
        self.state = ViewState::Okay;
        self.ops.clear();
    }

    /// Restore the view to the snapshot `sid`, of extent `extent`: its
    /// frames take that extent, it is to be redrawn from the snapshot, and
    /// its file status follows: a modified file whose saved snapshot this is
    /// is saved again, and a saved one is modified.
    pub fn restore(&mut self, sid: SnapshotId, extent: ViewExtent)
        ensures
            *final(self) == (View {
                fw: extent.fw,
                fh: extent.fh,
                nframes: extent.nframes,
                state: ViewState::Damaged,
                file_status: restored_status(old(self).file_status, old(self).saved_id() == Some(sid)),
                ..*old(self)
            }),
    {
        let saved = self.is_snapshot_saved(sid);
        let mut fs = FileStatus::NoFile;
        std::mem::swap(&mut fs, &mut self.file_status);
        self.file_status = match fs {
            FileStatus::Modified(f) => if saved {
                FileStatus::Saved(f)
            } else {
                FileStatus::Modified(f)
            },
            FileStatus::Saved(f) => FileStatus::Modified(f),
            other => other,
        };
        self.fw = extent.fw;
        self.fh = extent.fh;
        self.nframes = extent.nframes;
        self.state = ViewState::Damaged;
    }

    /// The view is to be restored from a snapshot, as after undo or redo.
    pub fn damaged(&mut self)
        ensures
            final(self).state == ViewState::Damaged,
            final(self).nframes == old(self).nframes,
            final(self).file_status == old(self).file_status,
    {
        self.state = ViewState::Damaged;
    }

    pub fn is_damaged(&self) -> (b: bool)
        ensures
            b == (self.state == ViewState::Damaged),
    {
        self.state == ViewState::Damaged
    }

    pub fn is_dirty(&self) -> (b: bool)
        ensures
            b == (self.state == ViewState::Dirty),
    {
        self.state == ViewState::Dirty
    }

    pub fn is_okay(&self) -> (b: bool)
        ensures
            b == (self.state == ViewState::Okay),
    {
        self.state == ViewState::Okay
    }

    /// The file status as a string.
    pub fn status(&self) -> (s: String)
        ensures
            s@ == status_text(self.file_status),
    {
        self.file_status.to_string()
    }

    /// Whether the given snapshot has been saved to disk.
    pub fn is_snapshot_saved(&self, id: SnapshotId) -> (b: bool)
        ensures
            b == (self.saved_id() == Some(id)),
    {
        match self.saved_snapshot {
            Some(s) => s.0 == id.0,
            None => false,
        }
    }
}

/// Maximum number of views in the list of recently active views.
pub const MAX_LRU: usize = 64;

/// Whether a view is the one that `View::new` makes.
pub open spec fn fresh_view(v: View, id: ViewId, fs: FileStatus, fw: u32, fh: u32) -> bool {
    &&& v.id == id
    &&& v.fw == fw
    &&& v.fh == fh
    &&& v.nframes == 1
    &&& v.file_status == fs
    &&& v.state == ViewState::Okay
    &&& v.ops@.len() == 0
    &&& v.animation_delay == DEFAULT_ANIMATION_DELAY
}

/// Where the view with identifier `id` stands, from place `i` on.
pub open spec fn find_from(views: Seq<View>, id: ViewId, i: int) -> Option<int>
    decreases views.len() - i,
{
    if i < 0 || i >= views.len() {
        None
    } else if views[i].id == id {
        Some(i)
    } else {
        find_from(views, id, i + 1)
    }
}

/// The identifiers of the views, in order.
pub open spec fn view_ids(views: Seq<View>) -> Seq<ViewId> {
    views.map_values(|v: View| v.id)
}

/// Whether a view identifier is another than `id`.
pub open spec fn not_id(id: ViewId) -> spec_fn(ViewId) -> bool {
    |v: ViewId| v != id
}

/// The recently active views, without `id`.
pub open spec fn without_id(lru: Seq<ViewId>, id: ViewId) -> Seq<ViewId> {
    lru.filter(not_id(id))
}

/// Where the first view with an identifier above `id` stands, from place
/// `i` on.
pub open spec fn first_above(views: Seq<View>, id: ViewId, i: int) -> Option<int>
    decreases views.len() - i,
{
    if i < 0 || i >= views.len() {
        None
    } else if views[i].id.0 > id.0 {
        Some(i)
    } else {
        first_above(views, id, i + 1)
    }
}

/// Where the last view with an identifier below `id` stands, from place
/// `i` down.
pub open spec fn last_below(views: Seq<View>, id: ViewId, i: int) -> Option<int>
    decreases i + 1,
{
    if i < 0 || i >= views.len() {
        None
    } else if views[i].id.0 < id.0 {
        Some(i)
    } else {
        last_below(views, id, i - 1)
    }
}

/// The identifier of the view at place `i`, if any.
pub open spec fn id_at(views: Seq<View>, i: Option<int>) -> Option<ViewId> {
    match i {
        Some(k) => Some(views[k].id),
        None => None,
    }
}

/// Manages views: which exist, which is active, and which were active
/// recently.
pub struct ViewManager {
    /// Currently active view.
    pub active_id: ViewId,
    /// The views, by increasing identifier.
    views: Vec<View>,
    /// The next identifier.
    next_id: u16,
    /// The recently active views, most recent first.
    lru: VecDeque<ViewId>,
}

impl ViewManager {
    /// The views, by increasing identifier.
    pub closed spec fn all(&self) -> Seq<View> {
        self.views@
    }

    /// The recently active views, most recent first.
    pub closed spec fn recent(&self) -> Seq<ViewId> {
        self.lru@
    }

    /// The currently active view.
    pub closed spec fn current(&self) -> ViewId {
        self.active_id
    }

    /// The identifier the next view gets.
    pub closed spec fn next(&self) -> u16 {
        self.next_id
    }

    /// The view with identifier `id`, if any.
    pub open spec fn view_of(&self, id: ViewId) -> Option<View> {
        match find_from(self.all(), id, 0) {
            Some(i) => Some(self.all()[i]),
            None => None,
        }
    }

    /// Identifiers increase, stay below the next one, and the recently
    /// active views exist.
    pub closed spec fn wf(&self) -> bool {
        &&& forall|i: int, j: int| 0 <= i < j < self.views@.len() ==> (#[trigger] self.views@[i]).id.0 < (
        #[trigger] self.views@[j]).id.0
        &&& forall|i: int| 0 <= i < self.views@.len() ==> 0 < (#[trigger] self.views@[i]).id.0 < self.next_id
        &&& forall|i: int| 0 <= i < self.lru@.len() ==> #[trigger] view_ids(self.views@).contains(self.lru@[i])
        &&& self.next_id >= 1
    }

    /// No views.
    pub fn new() -> (m: Self)
        ensures
            m.wf(),
            m.all().len() == 0,
            m.recent().len() == 0,
            m.current() == ViewId(0),
            m.next() == 1,
    {
        ViewManager { active_id: ViewId(0), views: Vec::new(), next_id: 1, lru: VecDeque::new() }
    }

    /// Where the view with identifier `id` stands.
    fn find(&self, id: ViewId) -> (r: Option<usize>)
        ensures
            match r {
                Some(i) => find_from(self.all(), id, 0) == Some(i as int) && i < self.all().len()
                    && self.all()[i as int].id == id,
                None => find_from(self.all(), id, 0) is None,
            },
    {
        let mut i: usize = 0;
        while i < self.views.len()
            invariant
                i <= self.views@.len(),
                find_from(self.views@, id, 0) == find_from(self.views@, id, i as int),
            decreases self.views@.len() - i,
        {
            if self.views[i].id.0 == id.0 {
                return Some(i);
            }
            i = i + 1;
        }
        None
    }

    /// Add a view of one frame, with a new identifier.
    pub fn add(&mut self, fs: FileStatus, w: u32, h: u32) -> (id: ViewId)
        requires
            old(self).wf(),
            old(self).next() < u16::MAX,
        ensures
            final(self).wf(),
            id == ViewId(old(self).next()),
            final(self).next() == old(self).next() + 1,
            final(self).all().len() == old(self).all().len() + 1,
            final(self).all().drop_last() == old(self).all(),
            fresh_view(final(self).all().last(), id, fs, w, h),
            final(self).recent() == old(self).recent(),
            final(self).current() == old(self).current(),
    {
        let id = ViewId(self.next_id);
        self.next_id = self.next_id + 1;
        let ghost old_views = self.views@;
        self.views.push(View::new(id, fs, w, h));
        proof {
            assert(self.views@.drop_last() =~= old_views);
            let n = old_views.len() as int;
            assert forall|i: int, j: int| 0 <= i < j < self.views@.len() implies (#[trigger] self.views@[i]).id.0
                < (#[trigger] self.views@[j]).id.0 by {
                assert(self.views@[i] == old_views[i]);
                if j < n {
                    assert(self.views@[j] == old_views[j]);
                }
            }
            assert forall|i: int| 0 <= i < self.views@.len() implies 0 < (#[trigger] self.views@[i]).id.0
                < self.next_id by {
                if i < n {
                    assert(self.views@[i] == old_views[i]);
                }
            }
            assert forall|i: int| 0 <= i < self.lru@.len() implies #[trigger] view_ids(self.views@).contains(self.lru@[i]) by {
                assert(self.lru@[i] == old(self).lru@[i]);
                assert(view_ids(old(self).views@).contains(old(self).lru@[i]));
                let k = choose|k: int| 0 <= k < view_ids(old_views).len() && view_ids(old_views)[k] == self.lru@[i];
                assert(view_ids(self.views@)[k] == self.lru@[i]);
            }
        }
        id
    }

    /// The view with identifier `id`, if any.
    pub fn get(&self, id: ViewId) -> (v: Option<&View>)
        ensures
            match (v, self.view_of(id)) {
                (Some(a), Some(b)) => *a == b,
                (None, None) => true,
                _ => false,
            },
    {
        match self.find(id) {
            Some(i) => Some(&self.views[i]),
            None => None,
        }
    }

    /// The identifier of the active view.
    pub fn current_id(&self) -> (id: ViewId)
        ensures
            id == self.current(),
    {
        self.active_id
    }

    /// The currently active view, if any.
    pub fn active(&self) -> (v: Option<&View>)
        ensures
            match (v, self.view_of(self.current())) {
                (Some(a), Some(b)) => *a == b,
                (None, None) => true,
                _ => false,
            },
    {
        self.get(self.active_id)
    }

    /// The view that comes after `id`, by identifier, if any.
    pub fn after(&self, id: ViewId) -> (r: Option<ViewId>)
        ensures
            r == id_at(self.all(), first_above(self.all(), id, 0)),
            r matches Some(v) ==> view_ids(self.all()).contains(v),
    {
        let mut i: usize = 0;
        while i < self.views.len()
            invariant
                i <= self.views@.len(),
                first_above(self.views@, id, 0) == first_above(self.views@, id, i as int),
            decreases self.views@.len() - i,
        {
            if self.views[i].id.0 > id.0 {
                assert(view_ids(self.views@)[i as int] == self.views@[i as int].id);
                return Some(self.views[i].id);
            }
            i = i + 1;
        }
        None
    }

    /// The view that comes before `id`, by identifier, if any.
    pub fn before(&self, id: ViewId) -> (r: Option<ViewId>)
        ensures
            r == id_at(self.all(), last_below(self.all(), id, self.all().len() - 1)),
            r matches Some(v) ==> view_ids(self.all()).contains(v),
    {
        let mut i: usize = self.views.len();
        while i > 0
            invariant
                i <= self.views@.len(),
                last_below(self.views@, id, self.views@.len() - 1) == last_below(self.views@, id, i - 1),
            decreases i,
        {
            if self.views[i - 1].id.0 < id.0 {
                assert(view_ids(self.views@)[i - 1] == self.views@[i - 1].id);
                return Some(self.views[i - 1].id);
            }
            i = i - 1;
        }
        None
    }

    /// Whether the view `id` is among the recently active ones.
    pub fn is_recent(&self, id: ViewId) -> (b: bool)
        ensures
            b == self.recent().contains(id),
    {
        let mut i: usize = 0;
        while i < self.lru.len()
            invariant
                i <= self.lru@.len(),
                forall|j: int| 0 <= j < i ==> self.lru@[j] != id,
            decreases self.lru@.len() - i,
        {
            if self.lru[i].0 == id.0 {
                assert(self.lru@[i as int] == id);
                return true;
            }
            i = i + 1;
        }
        false
    }

    /// How many entries the list of recently active views has.
    pub fn recent_len(&self) -> (n: usize)
        ensures
            n == self.recent().len(),
    {
        self.lru.len()
    }

    /// The identifiers of the views, in order.
    pub fn ids(&self) -> (v: Vec<ViewId>)
        ensures
            v@ == view_ids(self.all()),
    {
        let mut v: Vec<ViewId> = Vec::new();
        let mut i: usize = 0;
        while i < self.views.len()
            invariant
                i <= self.views@.len(),
                v@ == view_ids(self.views@).take(i as int),
            decreases self.views@.len() - i,
        {
            v.push(self.views[i].id);
            assert(v@ =~= view_ids(self.views@).take(i + 1));
            i = i + 1;
        }
        assert(view_ids(self.views@).take(i as int) =~= view_ids(self.views@));
        v
    }

    /// The view with the lowest identifier, if any.
    pub fn first(&self) -> (r: Option<ViewId>)
        ensures
            r == if self.all().len() > 0 { Some(self.all()[0].id) } else { None::<ViewId> },
            r matches Some(v) ==> view_ids(self.all()).contains(v),
    {
        if self.views.len() > 0 {
            assert(view_ids(self.views@)[0] == self.views@[0].id);
            Some(self.views[0].id)
        } else {
            None
        }
    }

    /// The view with the highest identifier, if any.
    pub fn last_by_id(&self) -> (r: Option<ViewId>)
        ensures
            r == if self.all().len() > 0 { Some(self.all().last().id) } else { None::<ViewId> },
            r matches Some(v) ==> view_ids(self.all()).contains(v),
    {
        let n = self.views.len();
        if n > 0 {
            assert(view_ids(self.views@)[n - 1] == self.views@[n - 1].id);
            Some(self.views[n - 1].id)
        } else {
            None
        }
    }

    /// The most recently active view, if any.
    pub fn last(&self) -> (v: Option<ViewId>)
        ensures
            v == if self.recent().len() > 0 { Some(self.recent()[0]) } else { None::<ViewId> },
    {
        if self.lru.len() > 0 {
            Some(self.lru[0])
        } else {
            None
        }
    }

    /// Number of views.
    pub fn len(&self) -> (n: usize)
        ensures
            n == self.all().len(),
    {
        self.views.len()
    }

    pub fn is_empty(&self) -> (b: bool)
        ensures
            b == (self.all().len() == 0),
    {
        self.views.len() == 0
    }

    /// Activate a view: it becomes the most recently active one.
    pub fn activate(&mut self, id: ViewId)
        requires
            old(self).wf(),
            view_ids(old(self).all()).contains(id),
        ensures
            final(self).wf(),
            final(self).current() == id,
            final(self).all() == old(self).all(),
            final(self).next() == old(self).next(),
            final(self).recent() == if old(self).current() == id {
                old(self).recent()
            } else {
                let r = seq![id] + old(self).recent();
                if r.len() > MAX_LRU { r.take(MAX_LRU as int) } else { r }
            },
    {
        if self.active_id.0 == id.0 {
            return;
        }
        self.active_id = id;
        let ghost l0 = self.lru@;
        self.lru.push_front(id);
        self.lru.truncate(MAX_LRU);
        proof {
            let r = seq![id] + l0;
            assert(self.lru@ =~= if r.len() > MAX_LRU { r.take(MAX_LRU as int) } else { r });
            assert forall|i: int| 0 <= i < self.lru@.len() implies #[trigger] view_ids(self.views@).contains(self.lru@[i]) by {
                if i > 0 {
                    assert(self.lru@[i] == l0[i - 1]);
                }
            }
        }
    }
}

impl ViewManager {
    /// Remove a view: it is forgotten among the recently active views, and
    /// the most recently active view left is activated, if any.
    pub fn remove(&mut self, id: ViewId)
        requires
            old(self).wf(),
            old(self).recent().len() > 0,
        ensures
            final(self).wf(),
            removal(*old(self), *final(self), id),
    {
        let ghost old_views = self.views@;
        let ghost old_lru = self.lru@;
        match self.find(id) {
            Some(i) => {
                self.views.remove(i);
            },
            None => {},
        }
        assert(self.views@ == removed(old_views, id));
        let mut lru: VecDeque<ViewId> = VecDeque::new();
        std::mem::swap(&mut lru, &mut self.lru);
        let n = lru.len();
        let mut k: usize = 0;
        assert(old_lru.take(0) =~= Seq::<ViewId>::empty());
        proof {
            reveal(Seq::filter);
        }
        while k < n
            invariant
                n == old_lru.len(),
                k <= n,
                lru@ == old_lru.skip(k as int),
                self.lru@ == old_lru.take(k as int).filter(not_id(id)),
                self.views@ == removed(old_views, id),
                self.next_id == old(self).next_id,
                self.active_id == old(self).active_id,
            decreases n - k,
        {
            let ghost l0 = self.lru@;
            match lru.pop_front() {
                Some(v) => {
                    assert(v == old_lru[k as int]);
                    proof {
                        old_lru.take(k as int).lemma_filter_push(v, not_id(id));
                        assert(old_lru.take(k + 1) =~= old_lru.take(k as int).push(v));
                    }
                    if v.0 != id.0 {
                        self.lru.push_back(v);
                    }
                },
                None => {},
            }
            assert(lru@ =~= old_lru.skip(k + 1));
            k = k + 1;
        }
        assert(old_lru.take(k as int) =~= old_lru);
        proof {
            assert(self.views@ == removed(old_views, id));
            lemma_removed(old_views, id, self.next_id);
            assert forall|j: int| 0 <= j < self.lru@.len() implies #[trigger] view_ids(self.views@).contains(self.lru@[j]) by {
                let x = self.lru@[j];
                old_lru.lemma_filter_pred(not_id(id), j);
                assert(self.lru@.contains(x));
                old_lru.lemma_filter_contains_rev(not_id(id), x);
                let m = choose|m: int| 0 <= m < old_lru.len() && old_lru[m] == x;
                assert(view_ids(old(self).views@).contains(old(self).lru@[m]));
            }
        }
        if self.lru.len() > 0 {
            let v = self.lru[0];
            self.activate(v);
        } else {
            self.active_id = ViewId(0);
        }
    }
}

/// What removing the view `id` does to a manager: the view is gone, and
/// forgotten among the recently active views; the most recently active view
/// left becomes the active one, if any.
pub open spec fn removal(before: ViewManager, after: ViewManager, id: ViewId) -> bool {
    &&& after.all() == removed(before.all(), id)
    &&& after.view_of(id) is None
    &&& after.next() == before.next()
    &&& {
        let l = without_id(before.recent(), id);
        if l.len() > 0 {
            &&& after.current() == l[0]
            &&& after.recent() == if before.current() == l[0] {
                l
            } else {
                let r = seq![l[0]] + l;
                if r.len() > MAX_LRU {
                    r.take(MAX_LRU as int)
                } else {
                    r
                }
            }
        } else {
            after.current() == ViewId(0) && after.recent() == l
        }
    }
}

impl ViewManager {
    /// Set the delay between animation frames of every view.
    pub fn set_animation_delays(&mut self, ms: u64)
        requires
            old(self).wf(),
        ensures
            final(self).wf(),
            final(self).all().len() == old(self).all().len(),
            forall|i: int|
                0 <= i < old(self).all().len() ==> #[trigger] final(self).all()[i] == (View {
                    animation_delay: ms,
                    ..old(self).all()[i]
                }),
            final(self).recent() == old(self).recent(),
            final(self).current() == old(self).current(),
            final(self).next() == old(self).next(),
    {
        let ghost before = self.views@;
        let mut rest: Vec<View> = Vec::new();
        std::mem::swap(&mut rest, &mut self.views);
        let n = rest.len();
        let mut out: Vec<View> = Vec::new();
        let mut k: usize = 0;
        while k < n
            invariant
                n == before.len(),
                k <= n,
                rest@ == before.subrange(k as int, n as int),
                out@.len() == k,
                forall|j: int| 0 <= j < k ==> #[trigger] out@[j] == (View { animation_delay: ms, ..before[j] }),
            decreases n - k,
        {
            let mut v = rest.remove(0);
            assert(v == before[k as int]);
            v.set_animation_delay(ms);
            out.push(v);
            assert(rest@ =~= before.subrange(k + 1, n as int));
            k = k + 1;
        }
        self.views = out;
        proof {
            assert(view_ids(self.views@) =~= view_ids(before));
            assert forall|i: int, j: int| 0 <= i < j < self.views@.len() implies (#[trigger] self.views@[i]).id.0
                < (#[trigger] self.views@[j]).id.0 by {
                assert(self.views@[i].id == before[i].id);
                assert(self.views@[j].id == before[j].id);
            }
            assert forall|i: int| 0 <= i < self.views@.len() implies 0 < (#[trigger] self.views@[i]).id.0
                < self.next_id by {
                assert(self.views@[i].id == before[i].id);
            }
        }
    }
}

/// The views without the one with identifier `id`.
pub open spec fn removed(views: Seq<View>, id: ViewId) -> Seq<View> {
    match find_from(views, id, 0) {
        Some(i) => views.remove(i),
        None => views,
    }
}

/// Replacing a view by one with the same identifier leaves it found where
/// it was.
pub proof fn lemma_find_after_update(views: Seq<View>, id: ViewId, i: int, w: View)
    requires
        find_from(views, id, 0) == Some(i),
        w.id == id,
    ensures
        find_from(views.update(i, w), id, 0) == Some(i),
{
    lemma_find_from(views, id, 0);
    let u = views.update(i, w);
    lemma_find_from(u, id, 0);
    if find_from(u, id, 0) != Some(i) {
        match find_from(u, id, 0) {
            Some(k) => {
                if k < i {
                    assert(u[k] == views[k]);
                } else {
                    assert(u[i].id == id);
                }
            },
            None => {
                assert(u[i].id == id);
            },
        }
    }
}

/// A view whose identifier is among the views' is found.
pub proof fn lemma_found(views: Seq<View>, id: ViewId)
    requires
        view_ids(views).contains(id),
    ensures
        find_from(views, id, 0) is Some,
{
    if find_from(views, id, 0) is None {
        lemma_find_none(views, id, 0);
        let j = choose|j: int| 0 <= j < view_ids(views).len() && view_ids(views)[j] == id;
        assert(views[j].id == id);
    }
}

/// The identifiers of a well-formed manager's views increase.
pub proof fn lemma_ids_increase(m: ViewManager)
    requires
        m.wf(),
    ensures
        forall|i: int, j: int|
            0 <= i < j < m.all().len() ==> (#[trigger] view_ids(m.all())[i]).0 < (#[trigger] view_ids(m.all())[j]).0,
{
}

/// After a view is removed, the views left are those there before, but the
/// one removed.
pub proof fn lemma_removal_ids(before: ViewManager, after: ViewManager, id: ViewId)
    requires
        before.wf(),
        removal(before, after, id),
    ensures
        forall|x: ViewId|
            #[trigger] view_ids(after.all()).contains(x) <==> (view_ids(before.all()).contains(x) && x != id),
{
    let views = before.all();
    let nv = after.all();
    lemma_removed(views, id, before.next());
    lemma_find_none(nv, id, 0);
    assert forall|x: ViewId| #[trigger] view_ids(nv).contains(x) implies view_ids(views).contains(x) && x != id by {
        let j = choose|j: int| 0 <= j < view_ids(nv).len() && view_ids(nv)[j] == x;
        assert(nv[j].id == x);
        match find_from(views, id, 0) {
            Some(i) => {
                lemma_find_unique(views, id, i);
                if j < i {
                    assert(nv[j] == views[j]);
                    assert(view_ids(views)[j] == x);
                } else {
                    assert(nv[j] == views[j + 1]);
                    assert(view_ids(views)[j + 1] == x);
                }
            },
            None => {
                assert(view_ids(views)[j] == x);
            },
        }
    }
}

/// Removing a view keeps the identifiers increasing and below `next`, and
/// keeps every other view.
proof fn lemma_removed(views: Seq<View>, id: ViewId, next: u16)
    requires
        forall|i: int, j: int| 0 <= i < j < views.len() ==> (#[trigger] views[i]).id.0 < (#[trigger] views[j]).id.0,
        forall|i: int| 0 <= i < views.len() ==> 0 < (#[trigger] views[i]).id.0 < next,
    ensures
        ({
            let nv = removed(views, id);
            &&& forall|i: int, j: int| 0 <= i < j < nv.len() ==> (#[trigger] nv[i]).id.0 < (#[trigger] nv[j]).id.0
            &&& forall|i: int| 0 <= i < nv.len() ==> 0 < (#[trigger] nv[i]).id.0 < next
            &&& forall|x: ViewId| x != id && #[trigger] view_ids(views).contains(x) ==> view_ids(nv).contains(x)
            &&& find_from(nv, id, 0) is None
        }),
{
    lemma_find_from(views, id, 0);
    let nv = removed(views, id);
    match find_from(views, id, 0) {
        Some(k) => {
            assert forall|i: int| 0 <= i < nv.len() implies nv[i] == if i < k { views[i] } else { views[i + 1] } by {}
            assert forall|i: int, j: int| 0 <= i < j < nv.len() implies (#[trigger] nv[i]).id.0 < (#[trigger] nv[j]).id.0 by {
                let a = if i < k { i } else { i + 1 };
                let b = if j < k { j } else { j + 1 };
                assert(nv[i] == views[a] && nv[j] == views[b]);
            }
            assert forall|i: int| 0 <= i < nv.len() implies 0 < (#[trigger] nv[i]).id.0 < next by {
                let a = if i < k { i } else { i + 1 };
                assert(nv[i] == views[a]);
            }
            assert forall|x: ViewId| x != id && #[trigger] view_ids(views).contains(x) implies view_ids(nv).contains(x) by {
                let m = choose|m: int| 0 <= m < view_ids(views).len() && view_ids(views)[m] == x;
                if m < k {
                    assert(view_ids(nv)[m] == x);
                } else {
                    assert(m != k);
                    assert(view_ids(nv)[m - 1] == x);
                }
            }
            assert forall|i: int| 0 <= i < nv.len() implies (#[trigger] nv[i]).id != id by {
                let a = if i < k { i } else { i + 1 };
                assert(nv[i] == views[a]);
                if a < k {
                    assert(views[a].id.0 < views[k].id.0);
                } else {
                    assert(views[k].id.0 < views[a].id.0);
                }
            }
            lemma_find_none_of(nv, id, 0);
        },
        None => {
            lemma_find_none_of(nv, id, 0);
        },
    }
}

/// Where no view has identifier `id`, none is found.
proof fn lemma_find_none_of(views: Seq<View>, id: ViewId, i: int)
    requires
        0 <= i <= views.len(),
        forall|m: int| i <= m < views.len() ==> (#[trigger] views[m]).id != id,
    ensures
        find_from(views, id, i) is None,
    decreases views.len() - i,
{
    if i < views.len() {
        lemma_find_none_of(views, id, i + 1);
    }
}

/// `find_from` finds the view with that identifier.
proof fn lemma_find_from(views: Seq<View>, id: ViewId, i: int)
    requires
        0 <= i <= views.len(),
    ensures
        find_from(views, id, i) matches Some(k) ==> i <= k < views.len() && views[k].id == id
            && forall|m: int| i <= m < k ==> (#[trigger] views[m]).id != id,
        find_from(views, id, i) is None ==> forall|m: int| i <= m < views.len() ==> (#[trigger] views[m]).id != id,
    decreases views.len() - i,
{
    if i < views.len() {
        lemma_find_from(views, id, i + 1);
    }
}

pub proof fn lemma_find_unique(views: Seq<View>, id: ViewId, i: int)
    requires
        find_from(views, id, 0) == Some(i),
    ensures
        0 <= i < views.len(),
        views[i].id == id,
{
    lemma_find_from(views, id, 0);
}

proof fn lemma_find_none(views: Seq<View>, id: ViewId, i: int)
    requires
        0 <= i <= views.len(),
        find_from(views, id, i) is None,
    ensures
        forall|m: int| i <= m < views.len() ==> (#[trigger] views[m]).id != id,
{
    lemma_find_from(views, id, i);
}

impl ViewManager {
    /// The view with identifier `id`, to change it; its identifier stays.
    pub fn get_mut(&mut self, id: ViewId) -> (r: Option<&mut View>)
        requires
            old(self).wf(),
        ensures
            match find_from(old(self).all(), id, 0) {
                Some(i) => r matches Some(v) && *v == old(self).all()[i] && final(self).all()
                    == old(self).all().update(i, *final(v)),
                None => r is None && *final(self) == *old(self),
            },
            final(self).recent() == old(self).recent(),
            final(self).current() == old(self).current(),
            final(self).next() == old(self).next(),
    {
        match self.find(id) {
            Some(i) => Some(&mut self.views[i]),
            None => None,
        }
    }
}

/// Changing a view through `get_mut` while keeping its identifier keeps the
/// manager well-formed.
pub proof fn lemma_update_keeps_wf(before: ViewManager, after: ViewManager, i: int, v: View)
    requires
        before.wf(),
        0 <= i < before.all().len(),
        v.id == before.all()[i].id,
        after.all() == before.all().update(i, v),
        after.recent() == before.recent(),
        after.next() == before.next(),
    ensures
        after.wf(),
{
    assert forall|a: int, b: int| 0 <= a < b < after.views@.len() implies (#[trigger] after.views@[a]).id.0
        < (#[trigger] after.views@[b]).id.0 by {
        assert(after.views@[a].id == before.views@[a].id);
        assert(after.views@[b].id == before.views@[b].id);
    }
    assert forall|a: int| 0 <= a < after.views@.len() implies 0 < (#[trigger] after.views@[a]).id.0 < after.next_id by {
        assert(after.views@[a].id == before.views@[a].id);
    }
    assert(view_ids(after.views@) =~= view_ids(before.views@));
}

} // verus!
