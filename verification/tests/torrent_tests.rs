use remote_media_pi::client::{status_label, torrent_from_fields, Torrent};

#[test]
fn test_torrent_creation() {
    let torrent = Torrent {
        id: 1,
        name: "Test Movie".to_string(),
        status: "downloading".to_string(),
        size: 1000000000, // 1GB
        progress: 50,
    };

    assert_eq!(torrent.id, 1);
    assert_eq!(torrent.name, "Test Movie");
    assert_eq!(torrent.status, "downloading");
    assert_eq!(torrent.size, 1000000000);
    assert_eq!(torrent.progress, 50);
}

#[test]
fn test_torrent_clone() {
    let torrent = Torrent {
        id: 1,
        name: "Test Movie".to_string(),
        status: "downloading".to_string(),
        size: 1000000000,
        progress: 50,
    };

    let cloned = torrent.clone();
    assert_eq!(torrent.id, cloned.id);
    assert_eq!(torrent.name, cloned.name);
    assert_eq!(torrent.status, cloned.status);
    assert_eq!(torrent.size, cloned.size);
    assert_eq!(torrent.progress, cloned.progress);
}

#[test]
fn status_label_from_codes() {
    assert_eq!(status_label(Some(0), None, false, None), "paused");
    assert_eq!(status_label(Some(1), None, false, None), "paused");
    assert_eq!(status_label(Some(2), None, false, None), "paused");
    assert_eq!(status_label(Some(3), None, false, None), "downloading");
    assert_eq!(status_label(Some(4), None, false, None), "downloading");
    assert_eq!(status_label(Some(5), None, false, None), "done");
    assert_eq!(status_label(Some(6), None, false, None), "done");
}

#[test]
fn status_label_fallbacks() {
    // An unknown code falls back to the flags.
    assert_eq!(status_label(Some(7), Some(true), false, None), "done");
    assert_eq!(status_label(None, Some(true), false, None), "done");
    assert_eq!(status_label(None, None, true, None), "error");
    assert_eq!(status_label(None, Some(false), true, Some(true)), "error");
    assert_eq!(status_label(None, None, false, Some(true)), "paused");
    assert_eq!(status_label(None, Some(false), false, Some(false)), "downloading");
    assert_eq!(status_label(None, None, false, None), "downloading");
}

#[test]
fn torrent_from_fields_copies_and_labels() {
    let t = torrent_from_fields(
        42,
        "Some Show".to_string(),
        Some(4),
        None,
        false,
        None,
        786432000,
        75,
    );
    assert_eq!(t.id, 42);
    assert_eq!(t.name, "Some Show");
    assert_eq!(t.status, "downloading");
    assert_eq!(t.size, 786432000);
    assert_eq!(t.progress, 75);
}
