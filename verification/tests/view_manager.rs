use rx::view::resource::SnapshotId;
use rx::view::{FileStatus, View, ViewId, ViewManager, ViewOp, ViewState};

#[test]
fn new_views_and_their_status() {
    let v = View::new(ViewId(1), FileStatus::Saved("a.png".to_string()), 8, 4);
    assert_eq!(v.width(), 8);
    assert_eq!(v.height(), 4);
    assert!(v.is_okay());
    assert!(v.is_snapshot_saved(SnapshotId(0)));
    assert_eq!(v.status(), "a.png");
    assert_eq!(v.file_name(), Some(&"a.png".to_string()));

    let v = View::new(ViewId(2), FileStatus::NoFile, 8, 4);
    assert_eq!(v.status(), "");
    assert_eq!(v.file_name(), None);
    assert!(!v.is_snapshot_saved(SnapshotId(0)));
}

#[test]
fn editing_marks_files_modified() {
    let mut v = View::new(ViewId(1), FileStatus::Saved("a.png".to_string()), 8, 4);
    v.extend();
    assert_eq!(v.nframes, 2);
    assert_eq!(v.width(), 16);
    assert!(v.is_dirty());
    assert_eq!(v.status(), "a.png [modified]");
    v.okay();
    v.shrink();
    v.shrink();
    assert_eq!(v.nframes, 1);
    v.damaged();
    assert!(v.is_damaged());

    let mut n = View::new(ViewId(3), FileStatus::New("b.png".to_string()), 2, 2);
    assert_eq!(n.status(), "b.png [new]");
    n.save_as(SnapshotId(4), "c.png".to_string());
    assert_eq!(n.status(), "b.png [new]");
    n.save_as(SnapshotId(4), "b.png".to_string());
    assert_eq!(n.file_status, FileStatus::Saved("b.png".to_string()));
    assert!(n.is_snapshot_saved(SnapshotId(4)));
}

#[test]
fn cloning_and_slicing_frames() {
    let mut v = View::new(ViewId(1), FileStatus::NoFile, 4, 4);
    v.extend_clone(-1);
    v.extend_clone(0);
    assert_eq!(v.ops, vec![ViewOp::Blit { src: 0, dst: 1 }, ViewOp::Blit { src: 0, dst: 2 }]);
    assert_eq!(v.nframes, 3);
    assert!(!v.slice(5));
    assert!(v.slice(6));
    assert_eq!((v.fw, v.nframes), (2, 6));
    v.resize_frames(3, 3);
    assert_eq!((v.fw, v.fh, v.nframes), (3, 3, 6));
    v.set_animation_delay(99);
    assert_eq!(v.animation_delay, 99);
    v.okay();
    assert!(v.ops.is_empty());
    assert_eq!(v.state, ViewState::Okay);
}

#[test]
fn managing_views() {
    let mut m = ViewManager::new();
    assert!(m.is_empty());
    let a = m.add(FileStatus::NoFile, 8, 8);
    let b = m.add(FileStatus::New("b.png".to_string()), 4, 4);
    assert_eq!((a, b), (ViewId(1), ViewId(2)));
    assert_eq!(m.len(), 2);
    assert!(m.active().is_none());

    m.activate(a);
    m.activate(b);
    assert_eq!(m.active().unwrap().id, b);
    assert_eq!(m.last(), Some(b));

    if let Some(v) = m.get_mut(a) {
        v.extend();
    }
    assert_eq!(m.get(a).unwrap().nframes, 2);

    m.remove(b);
    assert!(m.get(b).is_none());
    assert_eq!(m.active_id, a);
    assert_eq!(m.last(), Some(a));

    m.remove(a);
    assert!(m.is_empty());
    assert_eq!(m.active_id, ViewId(0));
    assert_eq!(m.last(), None);
}
