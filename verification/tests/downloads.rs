use std::collections::BTreeMap;

use harddrive_party::chunker::{Chunker, MAX_ENTRIES_PER_MESSAGE};
use harddrive_party::downloads::{details_request, wanted_entries, Wanted};
use harddrive_party::paths::{
    output_path_for_remote_path, remote_path_is_within_request, safe_remote_relative_path,
};
use harddrive_party::peer::{
    after_download, completed_event, ensure_existing_directory, make_read_request,
    parent_directories, reject_existing_symlink_or_directory, start_offset, AfterDownload, Download,
    DownloadInput, DownloadOutput, FileDownload, PathKind,
};
use harddrive_party::peer_id::PeerId;
use harddrive_party::time::{get_timestamp, timestamp_of, Duration};
use harddrive_party::ui_messages::{DownloadEvent, DownloadInfo, PeerInfo};
use harddrive_party::wire_messages::{Entry, Request};
use harddrive_party::wishlist::{
    add_requested_file, file_completed, get_download_progress_for_request, get_request, requested,
    requested_files, requests_for_peer, DownloadRequest, RequestRow, RequestedFile, WishListError,
};

fn file(path: &str, size: u64) -> RequestedFile {
    RequestedFile {
        path: path.to_string(),
        size,
        request_id: 42,
        downloaded: false,
    }
}

fn alice() -> PeerInfo {
    PeerInfo {
        id: PeerId::new([1; 32]),
        name: "alice".to_string(),
    }
}

#[test]
fn safe_remote_relative_path_accepts_normal_relative_paths() {
    assert_eq!(
        safe_remote_relative_path("share/subdir/file.txt").unwrap().components,
        vec!["share", "subdir", "file.txt"]
    );
}

#[test]
fn safe_remote_relative_path_rejects_traversal_and_absolute_paths() {
    for path in ["../outside", "share/../../outside", "/tmp/outside", "."] {
        assert!(
            safe_remote_relative_path(path).is_err(),
            "expected {path:?} to be rejected"
        );
    }
}

#[test]
fn remote_path_scope_is_component_based() {
    let requested = safe_remote_relative_path("share").unwrap();
    let child = safe_remote_relative_path("share/subdir/file.txt").unwrap();
    let sibling_with_prefix = safe_remote_relative_path("share-other/file.txt").unwrap();

    assert!(remote_path_is_within_request(&requested, &child));
    assert!(!remote_path_is_within_request(&requested, &sibling_with_prefix));
}

#[test]
fn output_path_for_remote_path_rejects_empty_and_unsafe_paths() {
    let download_dir = "/tmp/downloads";

    assert!(output_path_for_remote_path(download_dir, "").is_err());
    assert!(output_path_for_remote_path(download_dir, "../../escape").is_err());
    assert_eq!(
        output_path_for_remote_path(download_dir, "share/file.txt").unwrap(),
        "/tmp/downloads/share/file.txt"
    );
}

#[test]
fn setup_download_rejects_symlink_parent() {
    let path = safe_remote_relative_path("link/file.txt").unwrap();
    let parents = parent_directories("/downloads", &path);
    assert_eq!(parents, vec!["/downloads/link"]);
    assert_eq!(ensure_existing_directory(PathKind::Directory, "/downloads"), Ok(true));
    assert!(ensure_existing_directory(PathKind::Symlink, &parents[0]).is_err());
    assert!(ensure_existing_directory(PathKind::Other, &parents[0]).is_err());
    assert_eq!(ensure_existing_directory(PathKind::Missing, &parents[0]), Ok(false));
}

#[test]
fn setup_download_rejects_symlink_target() {
    assert!(reject_existing_symlink_or_directory(PathKind::Symlink, "/d/file.txt").is_err());
    assert!(reject_existing_symlink_or_directory(PathKind::Directory, "/d/file.txt").is_err());
    assert!(reject_existing_symlink_or_directory(PathKind::Missing, "/d/file.txt").is_ok());
    assert!(reject_existing_symlink_or_directory(PathKind::Other, "/d/file.txt").is_ok());
}

#[test]
fn create_download_request() {
    let dl_req = DownloadRequest::new(
        "books/book.pdf".to_string(),
        501546,
        5144,
        *b"23lkjfsdfljkfsdlskdjsfdklfsddjsd",
    );
    let ((key, value), (_key2, _value2)) = dl_req.to_db_key_value();
    let decoded_request = DownloadRequest::from_db_key_value(key, value).unwrap();
    assert_eq!(dl_req, decoded_request);
    assert_eq!(dl_req.total_size, decoded_request.total_size);
    assert_eq!(dl_req.request_id, decoded_request.request_id);
    // This will fail if we compare durations due to the missing nanoseconds
    assert_eq!(
        dl_req.timestamp.as_secs(),
        decoded_request.timestamp.as_secs()
    );
    assert_eq!(dl_req.peer_public_key, decoded_request.peer_public_key);
}

#[test]
fn create_wishlist() {
    let request_id = 42;
    let mut requested_file = RequestedFile {
        path: "books/book.pdf".to_string(),
        size: 501546,
        request_id,
        downloaded: false,
    };
    let dl_req = DownloadRequest::new(
        "books/book.pdf".to_string(),
        501546,
        request_id,
        *b"23lkjfsdfljkfsdlskdjsfdklfsddjsd",
    );

    let ((key, value), (time_key, time_value)) = dl_req.to_db_key_value();
    assert_eq!(key, time_value);
    let (by_peer, by_request) = add_requested_file(&requested_file, Some(value.clone())).unwrap();

    let rows = vec![RequestRow {
        request_id: time_value,
        details: Some(value.clone()),
        progress: None,
    }];
    assert_eq!(requested(&rows), vec![vec![dl_req.clone().into_ui_download_request(0)]]);
    assert_eq!(time_key.len(), 8);

    assert_eq!(
        requested_files(&vec![by_request.clone()]),
        vec![vec![requested_file.clone().into_ui_requested_file()]]
    );
    assert_eq!(requests_for_peer(&vec![by_peer.clone()]), vec![requested_file.clone()]);

    requested_file.downloaded = true;
    let completed = file_completed(&requested_file, Some(value), &None).unwrap();
    assert!(completed.request_complete);
    assert_eq!(completed.by_peer_key, by_peer.0);
    assert_eq!(
        get_download_progress_for_request(&Some(completed.progress.1)),
        Ok(501546)
    );
    assert_eq!(
        requested_files(&vec![completed.by_request]),
        vec![vec![requested_file.into_ui_requested_file()]]
    );
}

fn made_at(secs: u64, request_id: u32, peer: [u8; 32]) -> DownloadRequest {
    let now = Duration { secs, nanos: 7 };
    DownloadRequest::new_at(format!("books/{request_id}"), 100, request_id, peer, now)
}

#[test]
fn all_requests_are_listed_in_time_order() {
    let peer = [3; 32];
    let mut by_id = BTreeMap::new();
    let mut by_time = BTreeMap::new();
    let mut progress = BTreeMap::new();
    // The order in which they are added and that of their ids do not matter
    for (secs, request_id) in [(300, 5), (2, 9), (70_000, 1)] {
        let ((key, value), (time_key, id)) = made_at(secs, request_id, peer).to_db_key_value();
        by_id.insert(key, value);
        by_time.insert(time_key, id);
    }
    progress.insert(9u32.to_be_bytes().to_vec(), 40u64.to_be_bytes().to_vec());
    let rows: Vec<RequestRow> = by_time
        .values()
        .map(|id| RequestRow {
            request_id: id.clone(),
            details: by_id.get(id).cloned(),
            progress: progress.get(id).cloned(),
        })
        .collect();
    let listed: Vec<(u64, u32, u64)> = requested(&rows)
        .concat()
        .iter()
        .map(|shown| (shown.timestamp.as_secs(), shown.request_id, shown.progress))
        .collect();
    assert_eq!(listed, vec![(2, 9, 40), (300, 5, 0), (70_000, 1, 0)]);
}

#[test]
fn outstanding_files_of_a_peer_in_order() {
    let (alice, bob) = ([1; 32], [2; 32]);
    let early = made_at(2, 9, alice);
    let late = made_at(300, 5, alice);
    let other = made_at(1, 6, bob);
    let mut by_peer = BTreeMap::new();
    for (request, path) in
        [(&late, "a"), (&early, "z"), (&early, "b"), (&other, "c"), (&late, "done")]
    {
        let wanted = RequestedFile {
            path: path.to_string(),
            size: 10,
            request_id: request.request_id,
            downloaded: false,
        };
        let ((_, record), _) = request.to_db_key_value();
        let ((key, value), _) = add_requested_file(&wanted, Some(record)).unwrap();
        by_peer.insert(key, value);
    }
    let done = RequestedFile {
        path: "done".to_string(),
        size: 10,
        request_id: 5,
        downloaded: true,
    };
    let ((_, record), _) = late.to_db_key_value();
    let changes = file_completed(&done, Some(record), &None).unwrap();
    assert!(by_peer.remove(&changes.by_peer_key).is_some());

    let of_peer = |peer: &[u8; 32]| {
        let rows = by_peer
            .iter()
            .filter(|(key, _)| key.starts_with(peer))
            .map(|(key, value)| (key.clone(), value.clone()))
            .collect();
        let files = requests_for_peer(&rows);
        assert!(files.iter().all(|file| !file.downloaded));
        files.into_iter().map(|file| (file.request_id, file.path)).collect::<Vec<_>>()
    };
    assert_eq!(
        of_peer(&alice),
        vec![(9, "b".to_string()), (9, "z".to_string()), (5, "a".to_string())]
    );
    assert_eq!(of_peer(&bob), vec![(6, "c".to_string())]);
}

#[test]
fn wishlist_errors() {
    assert_eq!(
        DownloadRequest::from_db_key_value(vec![1, 2, 3], vec![]),
        Err(WishListError::KeyLength)
    );
    assert_eq!(
        DownloadRequest::from_db_key_value(vec![1, 2, 3, 4], vec![0; 10]),
        Err(WishListError::ValueLength)
    );
    let mut value = vec![0; 48];
    value.push(0xff);
    match DownloadRequest::from_db_key_value(vec![1, 2, 3, 4], value) {
        Err(WishListError::Utf8(_)) => {}
        other => panic!("unexpected {other:?}"),
    }
    assert_eq!(
        file_completed(&file("a", 1), None, &None).err(),
        Some(WishListError::NotDownloaded)
    );
    assert_eq!(get_request(7, None), Err(WishListError::UnknownRequestId));
    assert_eq!(
        get_download_progress_for_request(&Some(vec![1])),
        Err(WishListError::BadProgress)
    );
    assert_eq!(get_download_progress_for_request(&None), Ok(0));
}

#[test]
fn clock_readings() {
    assert_eq!(timestamp_of(Some((7, 8))), Duration { secs: 7, nanos: 8 });
    assert_eq!(timestamp_of(None), Duration { secs: 0, nanos: 0 });
}

#[test]
fn current_time_is_used() {
    let before = get_timestamp();
    let request = DownloadRequest::new("a".to_string(), 1, 2, [3; 32]);
    let after = get_timestamp();
    assert!(before.as_secs() <= request.timestamp.as_secs());
    assert!(request.timestamp.as_secs() <= after.as_secs());
    // 2024 has begun.
    assert!(before.as_secs() > 1_704_067_200);
}

#[test]
fn entries_come_in_chunks() {
    let chunker = Chunker { inner: (0..150).collect::<Vec<u32>>(), chunk_size: MAX_ENTRIES_PER_MESSAGE };
    let chunks = chunker.all();
    assert_eq!(chunks.iter().map(|chunk| chunk.len()).collect::<Vec<_>>(), vec![64, 64, 22]);
    assert_eq!(chunks.concat(), (0..150).collect::<Vec<u32>>());
}

#[test]
fn downloads_resume_where_they_stopped() {
    assert_eq!(start_offset(0, 10), None);
    assert_eq!(start_offset(4, 10), Some(4));
    match make_read_request(&file("share/a", 10), Some(4)) {
        Request::Read(query) => {
            assert_eq!(query.path, "share/a");
            assert_eq!(query.start, Some(4));
            assert_eq!(query.end, None);
        }
        other => panic!("unexpected {other:?}"),
    }
    assert!(Download::is_already_downloaded(10, Some(10)));
    assert!(!Download::is_already_downloaded(10, Some(9)));
    assert!(!Download::is_already_downloaded(10, None));
}

#[test]
fn download_counts_blocks() {
    let wanted = file("share/a", 10);
    let (mut download, finished) = FileDownload::start(&wanted, Some(4), 100, "share", &alice(), 0);
    assert!(finished.is_none());
    match download.step(DownloadInput::Block { len: 6, written: true }, 1, &wanted, "share", &alice()) {
        DownloadOutput::Continue(_) => {}
        other => panic!("unexpected {other:?}"),
    }
    match download.step(DownloadInput::End, 2, &wanted, "share", &alice()) {
        DownloadOutput::Finished { event, outcome } => {
            assert_eq!(outcome, Ok(()));
            assert_eq!(event.request_id, 42);
            match event.download_info {
                DownloadInfo::Downloading { bytes_read, total_bytes_read, .. } => {
                    assert_eq!(bytes_read, 10);
                    assert_eq!(total_bytes_read, 106);
                }
                other => panic!("unexpected {other:?}"),
            }
        }
        other => panic!("unexpected {other:?}"),
    }
}

#[test]
fn incomplete_download_fails() {
    let wanted = file("share/a", 10);
    let (mut download, _) = FileDownload::start(&wanted, None, 0, "share", &alice(), 0);
    match download.step(DownloadInput::End, 2, &wanted, "share", &alice()) {
        DownloadOutput::Finished { outcome, .. } => assert!(outcome.is_err()),
        other => panic!("unexpected {other:?}"),
    }
}

#[test]
fn what_follows_a_download() {
    match after_download(file("a", 1), true, false) {
        AfterDownload::Completed(done) => assert!(done.downloaded),
        other => panic!("unexpected {other:?}"),
    }
    assert!(matches!(after_download(file("a", 1), false, false), AfterDownload::Next));
    assert!(matches!(after_download(file("a", 1), false, true), AfterDownload::Stop));
    let now = Duration { secs: 5, nanos: 0 };
    assert_eq!(completed_event(false, 42, "share", &alice(), now), None);
    assert_eq!(
        completed_event(true, 42, "share", &alice(), now),
        Some(DownloadEvent {
            request_id: 42,
            path: "share".to_string(),
            peer: alice(),
            download_info: DownloadInfo::Completed(now),
        })
    );
}

#[test]
fn peer_cannot_add_files_outside_the_request() {
    let (requested_path, request) = match details_request("share/sub") {
        Ok(details) => details,
        Err(error) => panic!("unexpected {error:?}"),
    };
    match request {
        Request::Ls(query) => {
            assert_eq!(query.path, Some("share/sub".to_string()));
            assert!(query.recursive);
        }
        other => panic!("unexpected {other:?}"),
    }
    assert!(details_request("../share").is_err());

    let entry = |name: &str, is_dir: bool| Entry { name: name.to_string(), size: 3, is_dir };
    let entries = vec![
        entry("share/sub", true),
        entry("share/sub/a", false),
        entry("share/sub/../../b", false),
        entry("share/other", false),
        entry("share/subway", false),
    ];
    let now = Duration { secs: 5, nanos: 0 };
    let wanted = wanted_entries(&requested_path, "share/sub", &entries, 42, [1; 32], now);
    let files: Vec<String> = wanted
        .iter()
        .filter_map(|w| match w {
            Wanted::File(file) => Some(file.path.clone()),
            Wanted::Request(_) => None,
        })
        .collect();
    assert_eq!(files, vec!["share/sub/a"]);
    let requests: Vec<String> = wanted
        .iter()
        .filter_map(|w| match w {
            Wanted::File(_) => None,
            Wanted::Request(request) => Some(request.path.clone()),
        })
        .collect();
    assert_eq!(requests, vec!["share/sub"]);
}
