use std::collections::BTreeMap;

use harddrive_party::errors::UiServerErrorWrapper;
use harddrive_party::index_cache::IndexCache;
use harddrive_party::paths::{safe_remote_relative_path, RelativePath};
use harddrive_party::peer_id::PeerId;
use harddrive_party::rpc::{get_file_portion, query_error, request, ReadRequest, RpcError, RpcStep, Upload};
use harddrive_party::shares::{
    addition_merge, clear_share, is_in_share, kv_filter_map, query, read_size, remove_share_dir,
    resolve_path, scan, share_name_for, share_name_of, walk, EntryParseError, Removal,
    ResolvePathError, ScanDirError,
};
use harddrive_party::ui_messages::{UiEvent, UiServerError};
use harddrive_party::wire_messages::{Entry, IndexQuery, LsResponse, ReadQuery, Request};

/// An index held in memory.
struct Index {
    files: BTreeMap<String, Vec<u8>>,
    dirs: BTreeMap<String, Vec<u8>>,
    share_names: BTreeMap<String, Vec<u8>>,
}

impl Index {
    fn new() -> Index {
        Index {
            files: BTreeMap::new(),
            dirs: BTreeMap::new(),
            share_names: BTreeMap::new(),
        }
    }

    fn scan(&mut self, root: &str, files: &[(&str, u64)]) -> u32 {
        let existing: Vec<(String, String)> = self
            .share_names
            .iter()
            .map(|(name, path)| (name.clone(), String::from_utf8(path.clone()).unwrap()))
            .collect();
        let share_name = match share_name_for(root, &existing) {
            Some(name) => name,
            None => panic!("no share name for {root}"),
        };
        let removal = clear_share(
            &share_name,
            &self.dirs.get(&share_name).cloned(),
            &self.dirs.get("").cloned(),
            &rows(&self.dirs),
            &rows(&self.files),
        );
        self.apply(removal);
        self.share_names.insert(share_name.clone(), root.as_bytes().to_vec());
        let entries: Vec<(RelativePath, u64)> = files
            .iter()
            .map(|(path, size)| (safe_remote_relative_path(path).unwrap(), *size))
            .collect();
        let scanned = scan(&share_name, &entries);
        for file in scanned.files {
            let size = file.size.to_le_bytes();
            self.files.insert(file.keys.file, size.to_vec());
            for dir in file.keys.directories {
                let old = self.dirs.get(&dir).cloned();
                let merged = addition_merge(dir.as_bytes(), old.as_deref(), &size).unwrap();
                self.dirs.insert(dir, merged);
            }
        }
        scanned.added_entries
    }

    fn apply(&mut self, removal: Removal) {
        if let Some(root) = removal.root {
            self.dirs.insert(String::new(), root);
        }
        for key in removal.dirs {
            self.dirs.remove(&String::from_utf8(key).unwrap());
        }
        for key in removal.files {
            self.files.remove(&String::from_utf8(key).unwrap());
        }
    }

    fn remove(&mut self, share_name: &str) -> Result<(), ScanDirError> {
        let removal = remove_share_dir(
            share_name,
            self.share_names.contains_key(share_name),
            &self.dirs.get(share_name).cloned(),
            &self.dirs.get("").cloned(),
            &rows(&self.dirs),
            &rows(&self.files),
        )?;
        self.apply(removal);
        self.share_names.remove(share_name);
        Ok(())
    }

    fn query(
        &self,
        path: Option<&str>,
        searchterm: Option<&str>,
        recursive: bool,
    ) -> Result<Vec<Entry>, EntryParseError> {
        let path = path.unwrap_or("");
        let below = |map: &BTreeMap<String, Vec<u8>>| {
            map.iter()
                .filter(|(key, _)| key.starts_with(path))
                .map(|(key, value)| (key.as_bytes().to_vec(), value.clone()))
                .collect::<Vec<_>>()
        };
        let exists = path.is_empty() || self.dirs.contains_key(path) || self.files.contains_key(path);
        let responses = query(
            path,
            &searchterm.map(|term| term.to_string()),
            recursive,
            exists,
            &below(&self.dirs),
            &below(&self.files),
        )?;
        let mut found = Vec::new();
        for response in responses {
            match response {
                LsResponse::Success(entries) => found.extend(entries),
                LsResponse::Error(error) => panic!("Got error response {:?}", error),
            }
        }
        Ok(found)
    }
}

fn rows(map: &BTreeMap<String, Vec<u8>>) -> Vec<(Vec<u8>, Vec<u8>)> {
    map.iter().map(|(key, value)| (key.as_bytes().to_vec(), value.clone())).collect()
}

fn test_data() -> Vec<(&'static str, u64)> {
    vec![
        ("somefile", 5),
        ("subdir/anotherfile", 6),
        ("subdir/subsubdir/yetanotherfile", 6),
    ]
}

fn entry(name: &str, size: u64, is_dir: bool) -> Entry {
    Entry { name: name.to_string(), size, is_dir }
}

fn create_test_entries() -> Vec<Entry> {
    vec![
        entry("", 17, true),
        entry("test-data", 17, true),
        entry("test-data/subdir", 12, true),
        entry("test-data/subdir/subsubdir", 6, true),
        entry("test-data/somefile", 5, false),
        entry("test-data/subdir/anotherfile", 6, false),
        entry("test-data/subdir/subsubdir/yetanotherfile", 6, false),
    ]
}

fn sorted(mut entries: Vec<Entry>) -> Vec<(String, u64, bool)> {
    entries.sort_by(|a, b| (&a.name, a.is_dir).cmp(&(&b.name, b.is_dir)));
    entries.into_iter().map(|e| (e.name, e.size, e.is_dir)).collect()
}

#[test]
fn share_query() {
    let mut shares = Index::new();
    let added = shares.scan("tests/test-data", &test_data());
    assert_eq!(added, 3);
    assert_eq!(
        sorted(shares.query(None, None, true).unwrap()),
        sorted(create_test_entries())
    );

    // Try resolving a path name
    let path = "test-data/subdir/anotherfile";
    let name = share_name_of(path).unwrap();
    let (resolved, _size) = resolve_path(
        path,
        &shares.files.get(path).cloned(),
        &shares.share_names.get(&name).cloned(),
    )
    .unwrap();
    assert_eq!(resolved, "tests/test-data/subdir/anotherfile");

    // Scanning again replaces what was there
    let added = shares.scan("tests/test-data", &test_data());
    assert_eq!(added, 3);
    assert_eq!(
        sorted(shares.query(None, None, true).unwrap()),
        sorted(create_test_entries())
    );
}

#[test]
fn files_query_searchterm() {
    let mut shares = Index::new();
    shares.scan("tests/test-data", &test_data());
    assert_eq!(
        shares.query(None, Some("somefile"), true).unwrap(),
        vec![entry("test-data/somefile", 5, false)]
    );
    assert_eq!(
        shares.query(None, Some("SOMEFILE"), true).unwrap(),
        vec![entry("test-data/somefile", 5, false)]
    );
}

#[test]
fn lib_add_share_dir() {
    let mut shares = Index::new();
    assert_eq!(shares.scan("tests/test-data", &test_data()), 3);
    assert_eq!(
        sorted(shares.query(None, None, true).unwrap()),
        sorted(create_test_entries())
    );
    assert_eq!(shares.remove("test-data"), Ok(()));
    assert_eq!(shares.query(None, None, true).unwrap(), vec![entry("", 0, true)]);

    let error = shares.remove("test-data").unwrap_err();
    assert_eq!(error, ScanDirError::ShareDirNotFound);
    assert_eq!(
        UiServerErrorWrapper::from_scan_dir(&error),
        UiServerErrorWrapper(UiServerError::AddShare("Share dir does not exist in DB".to_string()))
    );
}

#[test]
fn basic_rpc() {
    let mut shares = Index::new();
    shares.scan("tests/test-data", &test_data());
    let query = IndexQuery { path: None, searchterm: None, recursive: true };
    match request(Some(Request::Ls(query)), PeerId::new([1; 32])) {
        RpcStep::Ls(query) => assert_eq!(
            sorted(shares.query(query.path.as_deref(), None, query.recursive).unwrap()),
            sorted(create_test_entries())
        ),
        other => panic!("unexpected {other:?}"),
    }

    // Bad pathname should give an error response
    let error = shares.query(Some("badpath"), None, true).unwrap_err();
    assert_eq!(error, EntryParseError::PathNotFound);
    assert_eq!(query_error(&error), RpcError::PathNotFound);
}

#[test]
fn listing_one_level() {
    let mut shares = Index::new();
    shares.scan("tests/test-data", &test_data());
    let listed = sorted(shares.query(Some("test-data"), None, false).unwrap());
    assert_eq!(
        listed,
        sorted(vec![
            entry("test-data", 17, true),
            entry("test-data/subdir", 12, true),
            entry("test-data/somefile", 5, false),
        ])
    );
}

/// Two shares of which one name begins the other
fn similar_shares() -> Index {
    let mut shares = Index::new();
    shares.scan("/home/a/foo", &[("one", 5), ("deep/two", 6)]);
    shares.scan("/home/a/foobar", &[("three", 7), ("deep/four", 8)]);
    shares
}

#[test]
fn queries_go_by_components() {
    let shares = similar_shares();
    assert_eq!(
        sorted(shares.query(Some("foo"), None, true).unwrap()),
        sorted(vec![
            entry("foo", 11, true),
            entry("foo/deep", 6, true),
            entry("foo/deep/two", 6, false),
            entry("foo/one", 5, false),
        ])
    );
    assert_eq!(
        sorted(shares.query(Some("foo"), None, false).unwrap()),
        sorted(vec![
            entry("foo", 11, true),
            entry("foo/deep", 6, true),
            entry("foo/one", 5, false),
        ])
    );
    assert_eq!(shares.query(Some("foo"), Some("four"), true).unwrap(), vec![]);
    assert_eq!(shares.query(Some("fo"), None, true), Err(EntryParseError::PathNotFound));
    assert_eq!(
        shares.query(Some("foo/one"), None, true).unwrap(),
        vec![entry("foo/one", 5, false)]
    );
}

#[test]
fn removing_a_share_leaves_others() {
    let mut shares = similar_shares();
    let others = sorted(shares.query(Some("foobar"), None, true).unwrap());
    assert_eq!(others.len(), 4);
    assert_eq!(shares.remove("foo"), Ok(()));
    assert_eq!(shares.query(Some("foo"), None, true), Err(EntryParseError::PathNotFound));
    assert_eq!(sorted(shares.query(Some("foobar"), None, true).unwrap()), others);
    let all = shares.query(None, None, true).unwrap();
    assert_eq!(all.len(), 5);
    assert!(all.contains(&entry("", 15, true)));

    assert!(is_in_share("foo", b"foo"));
    assert!(is_in_share("foo", b"foo/one"));
    assert!(!is_in_share("foo", b"foobar/three"));
    assert!(!is_in_share("foo", b""));
    assert!(!is_in_share("foo", &[0xff]));
}

#[test]
fn scanning_again_changes_nothing() {
    let mut shares = similar_shares();
    let before = (shares.files.clone(), shares.dirs.clone());
    assert_eq!(shares.scan("/home/a/foo", &[("deep/two", 6), ("one", 5)]), 2);
    assert_eq!((shares.files.clone(), shares.dirs.clone()), before);
    // A file that is gone is no longer there
    assert_eq!(shares.scan("/home/a/foo", &[("one", 5)]), 1);
    assert!(!shares.files.contains_key("foo/deep/two"));
    assert_eq!(shares.dirs.get(""), Some(&20u64.to_le_bytes().to_vec()));
}

#[test]
fn share_names_do_not_clash() {
    let shares = vec![("music".to_string(), "/home/a/music".to_string())];
    assert_eq!(share_name_for("/home/a/music", &shares), Some("music".to_string()));
    let other = share_name_for("/home/b/music", &shares).unwrap();
    assert_ne!(other, "music");
    assert_eq!(share_name_for("/home/b/books", &shares), Some("books".to_string()));
}

#[test]
fn resolving_fails() {
    let size = Some(5u64.to_le_bytes().to_vec());
    let share = Some(b"/srv/music".to_vec());
    assert_eq!(
        resolve_path("music/a", &size, &share),
        Ok(("/srv/music/a".to_string(), 5))
    );
    assert_eq!(resolve_path("music/a", &None, &share), Err(ResolvePathError::FileNotFound));
    assert_eq!(resolve_path("music/a", &size, &None), Err(ResolvePathError::BadShareName));
    assert_eq!(
        resolve_path("music/a", &size, &Some(vec![0xff])),
        Err(ResolvePathError::Utf8Error)
    );
    assert_eq!(resolve_path("", &size, &share), Err(ResolvePathError::MissingFirstComponent));
    assert_eq!(
        resolve_path("", &Some(vec![5]), &Some(vec![0xff])),
        Err(ResolvePathError::BadShareName)
    );
    assert_eq!(share_name_of("music/a/b"), Some("music".to_string()));
    assert_eq!(share_name_of(""), None);
}

#[test]
fn sizes_add_up() {
    let key = b"music";
    let two = 2u64.to_le_bytes();
    let three = 3u64.to_le_bytes();
    assert_eq!(addition_merge(key, None, &two), Some(two.to_vec()));
    assert_eq!(addition_merge(key, Some(&three), &two), Some(5u64.to_le_bytes().to_vec()));
    assert_eq!(read_size(&three), Some(3));
    assert_eq!(read_size(&[1, 2]), None);
    let root = Some(5u64.to_le_bytes().to_vec());
    let removal = clear_share("music", &Some(two.to_vec()), &root, &vec![], &vec![]);
    assert_eq!(removal.root, Some(three.to_vec()));
    let removal = clear_share("music", &None, &root, &vec![], &vec![]);
    assert_eq!(removal.root, None);
}

#[test]
fn paths_are_walked() {
    assert_eq!(walk("a/b/c"), vec!["a", "b", "c"]);
}

#[test]
fn bad_records_are_left_out() {
    assert_eq!(kv_filter_map(&[0xff], &1u64.to_le_bytes(), false, true, "", &None), None);
    assert_eq!(kv_filter_map(b"a/b", &[1], false, true, "", &None), None);
    assert_eq!(
        kv_filter_map(b"a/b", &1u64.to_le_bytes(), false, true, "", &None),
        Some(entry("a/b", 1, false))
    );
}

#[test]
fn ranged_read_returns_exact_requested_slice() {
    let full = b"bleep\n";
    let start = 1_u64;
    let end = 3_u64;
    let portion = get_file_portion(Some(start), Some(end)).unwrap();
    let received: Vec<u8> = full
        .iter()
        .skip(portion.offset as usize)
        .take(portion.len.unwrap() as usize)
        .copied()
        .collect();
    assert_eq!(received, &full[start as usize..end as usize]);
}

#[test]
fn file_portions() {
    let whole = get_file_portion(None, None).unwrap();
    assert_eq!((whole.offset, whole.len), (0, None));
    let rest = get_file_portion(Some(2), None).unwrap();
    assert_eq!((rest.offset, rest.len), (2, None));
    assert_eq!(get_file_portion(Some(3), Some(2)), Err(RpcError::BadOffset));
}

#[test]
fn uploaded_event_emitted_on_read() {
    let bob = PeerId::new([2; 32]);
    let read = ReadQuery { path: "test-data/somefile".to_string(), start: None, end: None };
    let step = request(Some(Request::Read(read)), bob);
    let read: ReadRequest = match step {
        RpcStep::Read(read) => read,
        other => panic!("unexpected {other:?}"),
    };
    let mut upload = Upload::start(read, 5);
    match upload.add_block(5) {
        UiEvent::Uploaded(info) => {
            assert_eq!(info.path, "test-data/somefile");
            assert_eq!(info.peer.id, bob);
            assert_eq!(info.bytes_read, 5);
            assert_eq!(info.total_size, 5);
        }
        other => panic!("unexpected {other:?}"),
    }
    assert!(matches!(request(None, bob), RpcStep::Nothing));
}

fn index_query(path: &str) -> IndexQuery {
    IndexQuery { path: Some(path.to_string()), searchterm: None, recursive: false }
}

#[test]
fn answers_are_cached() {
    let mut cache = IndexCache::new(2);
    let answer = vec![vec![entry("a/b", 1, false)], vec![entry("a/c", 2, false)]];
    assert_eq!(cache.get(&index_query("a")), None);
    cache.put(&index_query("a"), answer.clone());
    assert_eq!(cache.get(&index_query("a")), Some(answer.clone()));
    assert_eq!(cache.get(&index_query("b")), None);

    // The answer that was used least recently goes.
    cache.put(&index_query("b"), vec![]);
    assert_eq!(cache.get(&index_query("a")), Some(answer.clone()));
    cache.put(&index_query("c"), vec![]);
    assert_eq!(cache.get(&index_query("b")), None);
    assert_eq!(cache.get(&index_query("a")), Some(answer));
    assert_eq!(cache.get(&index_query("c")), Some(vec![]));
}
