use herobot::watch::change_path;
use herobot::watch::FsEvent;

#[test]
fn writes_surface_their_path() {
    let r = change_path(FsEvent::Written { path: String::from("/w/a.txt") });
    assert_eq!(r, Some(String::from("/w/a.txt")));
}

#[test]
fn creations_surface_their_path() {
    let r = change_path(FsEvent::Created { path: String::from("/w/new.txt") });
    assert_eq!(r, Some(String::from("/w/new.txt")));
}

#[test]
fn other_events_are_dropped() {
    assert_eq!(change_path(FsEvent::Other), None);
}
