//! Index shared directories
use crate::bytes;
use crate::bytes::{copy_range, from_le_bytes, to_le_bytes};
use crate::chunker;
use crate::chunker::{Chunker, MAX_ENTRIES_PER_MESSAGE};
use crate::paths;
use crate::paths::{RelativePath, join_components, join_path, named_parts, split_path};
use crate::text;
use crate::text::{chars_of, is_contained, is_prefix, lowercase_text, same_text, string_from_utf8, text_of};
use crate::wire_messages::{Entry, LsResponse};
use vstd::prelude::*;
use vstd::utf8::*;

verus! {

/// Error when indexing a dir
#[derive(Debug, PartialEq, Clone)]
pub enum ScanDirError {
    IOError(String),
    OsStringError,
    DbMergeError,
    GetParentError,
    PrefixError,
    U64ConversionError,
    ShareDirNotFound,
}

impl ScanDirError {
    /// What the error prints.
    pub open spec fn message(self) -> Seq<char> {
        match self {
            ScanDirError::IOError(error) => error@,
            ScanDirError::OsStringError => "Cannot parse OsString"@,
            ScanDirError::DbMergeError => "Unable to merge db record"@,
            ScanDirError::GetParentError => "Cannot get parent of given dir"@,
            ScanDirError::PrefixError =>
                "Got entry which does not appear to be a child of the given directory"@,
            ScanDirError::U64ConversionError => "Error converting database value to u64"@,
            ScanDirError::ShareDirNotFound => "Share dir does not exist in DB"@,
        }
    }

    /// The error as text.
    pub fn to_string(&self) -> (r: String)
        ensures
            r@ == self.message(),
    {
        match self {
            ScanDirError::IOError(error) => error.clone(),
            ScanDirError::OsStringError => "Cannot parse OsString".to_owned(),
            ScanDirError::DbMergeError => "Unable to merge db record".to_owned(),
            ScanDirError::GetParentError => "Cannot get parent of given dir".to_owned(),
            ScanDirError::PrefixError => "Got entry which does not appear to be a child of the given directory".to_owned(),
            ScanDirError::U64ConversionError => "Error converting database value to u64".to_owned(),
            ScanDirError::ShareDirNotFound => "Share dir does not exist in DB".to_owned(),
        }
    }
}

/// Error when parsing a Db entry
#[derive(Debug, PartialEq, Clone)]
pub enum EntryParseError {
    DbError,
    Utf8Error,
    U64ConversionError,
    PathNotFound,
}

impl EntryParseError {
    /// What the error prints.
    pub open spec fn message(self) -> Seq<char> {
        match self {
            EntryParseError::DbError => "Db error"@,
            EntryParseError::Utf8Error => "Error parsing UTF8"@,
            EntryParseError::U64ConversionError => "Error converting database value to u64"@,
            EntryParseError::PathNotFound => "Path not found"@,
        }
    }

    /// The error as text.
    pub fn to_string(&self) -> (r: String)
        ensures
            r@ == self.message(),
    {
        match self {
            EntryParseError::DbError => "Db error".to_owned(),
            EntryParseError::Utf8Error => "Error parsing UTF8".to_owned(),
            EntryParseError::U64ConversionError => "Error converting database value to u64".to_owned(),
            EntryParseError::PathNotFound => "Path not found".to_owned(),
        }
    }
}

/// Error when resolving a path from a request
#[derive(Debug, PartialEq, Clone)]
pub enum ResolvePathError {
    DbError,
    MissingFirstComponent,
    BadShareName,
    Utf8Error,
    FileNotFound,
}

impl ResolvePathError {
    /// What the error prints.
    pub open spec fn message(self) -> Seq<char> {
        match self {
            ResolvePathError::DbError => "Db error"@,
            ResolvePathError::MissingFirstComponent => "Cannot get share name"@,
            ResolvePathError::BadShareName => "Cannot find share name in db"@,
            ResolvePathError::Utf8Error => "Error parsing UTF8"@,
            ResolvePathError::FileNotFound => "File does not exist in db"@,
        }
    }

    /// The error as text.
    pub fn to_string(&self) -> (r: String)
        ensures
            r@ == self.message(),
    {
        match self {
            ResolvePathError::DbError => "Db error".to_owned(),
            ResolvePathError::MissingFirstComponent => "Cannot get share name".to_owned(),
            ResolvePathError::BadShareName => "Cannot find share name in db".to_owned(),
            ResolvePathError::Utf8Error => "Error parsing UTF8".to_owned(),
            ResolvePathError::FileNotFound => "File does not exist in db".to_owned(),
        }
    }
}

/// The size that a record stands for: eight bytes, least significant first.
pub open spec fn size_of_record(record: Seq<u8>) -> Option<nat> {
    if record.len() == 8 {
        Some(bytes::le_value(record))
    } else {
        None
    }
}

/// The size that a record stands for, and zero where it is not readable.
pub open spec fn size_or_zero(record: Seq<u8>) -> nat {
    match size_of_record(record) {
        Some(size) => size,
        None => 0,
    }
}

/// Reads a size record.
pub fn read_size(record: &[u8]) -> (r: Option<u64>)
    ensures
        match r {
            Some(size) => size_of_record(record@) == Some(size as nat),
            None => size_of_record(record@) is None,
        },
{
    if record.len() != 8 {
        return None;
    }
    proof {
        bytes::lemma_byte_ranges();
        bytes::lemma_be_bytes_of_value(record@.reverse());
    }
    Some(from_le_bytes(record) as u64)
}

/// To make cumulative directory sizes by adding the size of their containing files
pub fn addition_merge(_key: &[u8], old_value: Option<&[u8]>, merged_bytes: &[u8]) -> (r: Option<
    Vec<u8>,
>)
    requires
        (match old_value {
            Some(old) => size_or_zero(old@),
            None => 0,
        }) + size_or_zero(merged_bytes@) <= u64::MAX,
    ensures
        r is Some,
        r->Some_0@ == bytes::le_bytes(
            (match old_value {
                Some(old) => size_or_zero(old@),
                None => 0,
            }) + size_or_zero(merged_bytes@),
            8,
        ),
{
    let old_size: u64 = match old_value {
        Some(old) => match read_size(old) {
            Some(size) => size,
            None => 0,
        },
        None => 0,
    };
    let to_add: u64 = match read_size(merged_bytes) {
        Some(size) => size,
        None => 0,
    };
    let new_size: u64 = old_size + to_add;
    Some(to_le_bytes(new_size as u128, 8))
}

/// The components of a shared file: the name of the share and those of the path below it.
pub open spec fn shared_path(share_name: Seq<char>, entry: Seq<Seq<char>>) -> Seq<Seq<char>> {
    seq![share_name] + entry
}

/// The directories that a file is in, from the one that holds it up to the one that holds all
/// shares, whose name is empty.
pub open spec fn directories(path: Seq<Seq<char>>) -> Seq<Seq<char>> {
    Seq::new(path.len(), |i: int| paths::join(path.take(path.len() - 1 - i)))
}

/// The keys of a file in the index: its own and those of the directories it is in.
pub struct IndexKeys {
    pub file: String,
    pub directories: Vec<String>,
}

/// The keys of a file that is found below a shared directory. Its size goes under the first, and
/// is added to the size of each of the others.
pub fn index_entry(share_name: &str, entry: &RelativePath) -> (r: IndexKeys)
    ensures
        r.file@ == paths::join(shared_path(share_name@, entry@)),
        paths::texts(r.directories@) == directories(shared_path(share_name@, entry@)),
{
    let mut parts: Vec<String> = Vec::new();
    parts.push(share_name.to_owned());
    let mut i: usize = 0;
    let ghost path = shared_path(share_name@, entry@);
    assert(paths::texts(parts@) =~= path.take(1));
    while i < entry.components.len()
        invariant
            i <= entry.components@.len(),
            path == shared_path(share_name@, entry@),
            paths::texts(parts@) == path.take(i + 1),
        decreases entry.components@.len() - i,
    {
        let ghost before = paths::texts(parts@);
        parts.push(entry.components[i].clone());
        assert(paths::texts(parts@) =~= before.push(entry@[i as int]));
        assert(paths::texts(parts@) =~= path.take(i + 2));
        i += 1;
    }
    assert(path.take(path.len() as int) =~= path);
    let file = join_components(&parts);
    let mut directories: Vec<String> = Vec::new();
    let ghost expected = crate::shares::directories(path);
    while parts.len() > 0
        invariant
            path == shared_path(share_name@, entry@),
            expected == crate::shares::directories(path),
            parts@.len() + directories@.len() == path.len(),
            paths::texts(parts@) == path.take(parts@.len() as int),
            paths::texts(directories@) == expected.take(directories@.len() as int),
        decreases parts@.len(),
    {
        let ghost n = parts@.len() as int;
        let ghost k = directories@.len() as int;
        let ghost before = paths::texts(parts@);
        let ghost done = paths::texts(directories@);
        let _ = parts.pop();
        assert(paths::texts(parts@) =~= before.drop_last());
        assert(paths::texts(parts@) =~= path.take(n - 1));
        directories.push(join_components(&parts));
        assert(paths::texts(directories@) =~= done.push(paths::join(path.take(n - 1))));
        assert(expected[k] == paths::join(path.take(n - 1)));
        assert(paths::texts(directories@) =~= expected.take(k + 1));
    }
    assert(expected.take(expected.len() as int) =~= expected);
    IndexKeys { file, directories }
}

/// The size of a directory in an index of sizes, where one without an entry is empty.
pub open spec fn dir_size(dirs: Map<Seq<char>, nat>, dir: Seq<char>) -> nat {
    if dirs.dom().contains(dir) {
        dirs[dir]
    } else {
        0
    }
}

/// The index of sizes after a size was added to some directories.
pub open spec fn added(dirs: Map<Seq<char>, nat>, keys: Seq<Seq<char>>, size: nat) -> Map<
    Seq<char>,
    nat,
>
    decreases keys.len(),
{
    if keys.len() == 0 {
        dirs
    } else {
        let before = added(dirs, keys.drop_last(), size);
        before.insert(keys.last(), dir_size(before, keys.last()) + size)
    }
}

/// The index: the sizes of the files and of the directories, by their names.
#[verifier::ext_equal]
pub struct ShareIndex {
    pub files: Map<Seq<char>, nat>,
    pub dirs: Map<Seq<char>, nat>,
}

/// The index after some files were put in, given by their components and sizes.
pub open spec fn with_files(index: ShareIndex, files: Seq<(Seq<Seq<char>>, nat)>) -> ShareIndex
    decreases files.len(),
{
    if files.len() == 0 {
        index
    } else {
        let before = with_files(index, files.drop_last());
        let (path, size) = files.last();
        ShareIndex {
            files: before.files.insert(paths::join(path), size),
            dirs: added(before.dirs, directories(path), size),
        }
    }
}

/// The index after a share was taken out: what is at or below its name is gone, and its size is
/// subtracted from the size of all shares.
pub open spec fn without_share(index: ShareIndex, share: Seq<char>) -> ShareIndex {
    let root = Seq::<char>::empty();
    ShareIndex {
        files: index.files.restrict(
            index.files.dom().filter(|name: Seq<char>| !is_at_or_below(name, share)),
        ),
        dirs: {
            let others = index.dirs.restrict(
                index.dirs.dom().filter(|name: Seq<char>| !is_at_or_below(name, share)),
            );
            if index.dirs.dom().contains(share) {
                others.insert(root, less(dir_size(index.dirs, root), index.dirs[share]))
            } else {
                others
            }
        },
    }
}

/// One size less another.
pub open spec fn less(size: nat, by: nat) -> nat {
    if by <= size {
        (size - by) as nat
    } else {
        0
    }
}

/// The files of a share, given by what was found in its directory.
pub open spec fn shared_files(share: Seq<char>, entries: Seq<(Seq<Seq<char>>, nat)>) -> Seq<
    (Seq<Seq<char>>, nat),
> {
    entries.map_values(
        |entry: (Seq<Seq<char>>, nat)| (shared_path(share, entry.0), entry.1),
    )
}

/// The index after the directory of a share was scanned, where these files were found.
pub open spec fn scanned(
    index: ShareIndex,
    share: Seq<char>,
    entries: Seq<(Seq<Seq<char>>, nat)>,
) -> ShareIndex {
    with_files(without_share(index, share), shared_files(share, entries))
}

/// What a scan of a directory finds: files below it, each once.
pub open spec fn is_listing(entries: Seq<(Seq<Seq<char>>, nat)>) -> bool {
    &&& forall|i: int|
        0 <= i < entries.len() ==> (#[trigger] entries[i]).0.len() > 0 && all_plain(entries[i].0)
    &&& forall|i: int, j: int|
        0 <= i < j < entries.len() ==> (#[trigger] entries[i]).0 != (#[trigger] entries[j]).0
}

/// A file for the index.
pub struct IndexedFile {
    pub keys: IndexKeys,
    pub size: u64,
}

/// What a scan puts into the index, and how many files it has found.
pub struct Scanned {
    pub files: Vec<IndexedFile>,
    pub added_entries: u32,
}

/// Index the files that were found in a given directory, which stand under the name of the share.
/// Says how many entries are added.
pub fn scan(share_name: &str, entries: &Vec<(RelativePath, u64)>) -> (r: Scanned)
    requires
        entries@.len() <= u32::MAX,
    ensures
        r.added_entries == entries@.len(),
        r.files@.len() == entries@.len(),
        forall|i: int|
            0 <= i < entries@.len() ==> {
                let path = shared_path(share_name@, entries@[i].0@);
                &&& (#[trigger] r.files@[i]).keys.file@ == paths::join(path)
                &&& paths::texts(r.files@[i].keys.directories@) == directories(path)
                &&& r.files@[i].size == entries@[i].1
            },
{
    let mut files: Vec<IndexedFile> = Vec::new();
    let n: usize = entries.len();
    let mut i: usize = 0;
    while i < n
        invariant
            i <= n,
            n == entries@.len(),
            files@.len() == i,
            forall|k: int|
                0 <= k < i ==> {
                    let path = shared_path(share_name@, entries@[k].0@);
                    &&& (#[trigger] files@[k]).keys.file@ == paths::join(path)
                    &&& paths::texts(files@[k].keys.directories@) == directories(path)
                    &&& files@[k].size == entries@[k].1
                },
        decreases n - i,
    {
        let keys = index_entry(share_name, &entries[i].0);
        files.push(IndexedFile { keys, size: entries[i].1 });
        i += 1;
    }
    Scanned { files, added_entries: n as u32 }
}

/// Whether a directory holds a file, at any depth.
pub open spec fn holds(dir: Seq<Seq<char>>, file: Seq<Seq<char>>) -> bool {
    dir.len() < file.len() && file.take(dir.len() as int) == dir
}

/// The sum of the sizes of the files that a directory holds, at any depth.
pub open spec fn size_below(files: Seq<(Seq<Seq<char>>, nat)>, dir: Seq<Seq<char>>) -> nat
    decreases files.len(),
{
    if files.len() == 0 {
        0
    } else {
        size_below(files.drop_last(), dir) + if holds(dir, files.last().0) {
            files.last().1
        } else {
            0
        }
    }
}

/// Whether all components are plain.
pub open spec fn all_plain(path: Seq<Seq<char>>) -> bool {
    forall|i: int| 0 <= i < path.len() ==> paths::is_plain(#[trigger] path[i])
}

proof fn lemma_join_injective(a: Seq<Seq<char>>, b: Seq<Seq<char>>)
    requires
        all_plain(a),
        all_plain(b),
        paths::join(a) == paths::join(b),
    ensures
        a == b,
{
    crate::paths::law_plain_components_round_trip(a);
    crate::paths::law_plain_components_round_trip(b);
}

proof fn lemma_added(dirs: Map<Seq<char>, nat>, keys: Seq<Seq<char>>, size: nat, dir: Seq<char>)
    requires
        keys.no_duplicates(),
    ensures
        dir_size(added(dirs, keys, size), dir) == dir_size(dirs, dir) + if keys.contains(dir) {
            size
        } else {
            0
        },
    decreases keys.len(),
{
    if keys.len() > 0 {
        let rest = keys.drop_last();
        assert(rest.no_duplicates());
        lemma_added(dirs, rest, size, dir);
        assert(keys =~= rest.push(keys.last()));
        if dir == keys.last() {
            assert(keys[keys.len() - 1] == dir);
            assert(!rest.contains(dir));
        } else {
            assert(keys.contains(dir) == rest.contains(dir)) by {
                if keys.contains(dir) {
                    let i = choose|i: int| 0 <= i < keys.len() && keys[i] == dir;
                    assert(rest[i] == dir);
                }
                if rest.contains(dir) {
                    let i = choose|i: int| 0 <= i < rest.len() && rest[i] == dir;
                    assert(keys[i] == dir);
                }
            }
        }
    }
}

proof fn lemma_directories(file: Seq<Seq<char>>, dir: Seq<Seq<char>>)
    requires
        all_plain(file),
        all_plain(dir),
    ensures
        directories(file).no_duplicates(),
        directories(file).contains(paths::join(dir)) == holds(dir, file),
{
    let keys = directories(file);
    assert forall|i: int, j: int| 0 <= i < keys.len() && 0 <= j < keys.len() && i != j implies keys[i]
        != keys[j] by {
        let a = file.take(file.len() - 1 - i);
        let b = file.take(file.len() - 1 - j);
        assert(all_plain(a)) by {
            assert forall|k: int| 0 <= k < a.len() implies paths::is_plain(#[trigger] a[k]) by {
                assert(a[k] == file[k]);
            }
        }
        assert(all_plain(b)) by {
            assert forall|k: int| 0 <= k < b.len() implies paths::is_plain(#[trigger] b[k]) by {
                assert(b[k] == file[k]);
            }
        }
        if keys[i] == keys[j] {
            lemma_join_injective(a, b);
            assert(a.len() != b.len());
        }
    }
    if holds(dir, file) {
        let i = file.len() - 1 - dir.len();
        assert(keys[i] == paths::join(dir));
    }
    if keys.contains(paths::join(dir)) {
        let i = choose|i: int| 0 <= i < keys.len() && keys[i] == paths::join(dir);
        let a = file.take(file.len() - 1 - i);
        assert(all_plain(a)) by {
            assert forall|k: int| 0 <= k < a.len() implies paths::is_plain(#[trigger] a[k]) by {
                assert(a[k] == file[k]);
            }
        }
        lemma_join_injective(a, dir);
    }
}

/// Whether a name below the queried path is listed: all are in a recursive query, and else those
/// in the queried directory itself.
pub open spec fn is_listed(name: Seq<char>, path: Seq<char>, recursive: bool) -> bool {
    let suffix = name.skip(path.len() as int);
    let inner = if suffix.len() > 0 && suffix[0] == '/' {
        suffix.drop_first()
    } else {
        suffix
    };
    recursive || !inner.contains('/')
}

/// Whether a name is that of a directory or of something in it, at any depth.
pub open spec fn is_at_or_below(name: Seq<char>, dir: Seq<char>) -> bool {
    name == dir || text::begins_with(name, dir.push('/'))
}

/// Whether a name is in the scope of a query of a path. All names are in that of the empty path.
pub open spec fn is_in_scope(name: Seq<char>, path: Seq<char>) -> bool {
    path.len() == 0 || is_at_or_below(name, path)
}

fn is_name_at_or_below(name: &str, dir: &str) -> (r: bool)
    ensures
        r == is_at_or_below(name@, dir@),
{
    if same_text(name, dir) {
        return true;
    }
    let mut start = dir.to_owned();
    start.push('/');
    is_prefix(name, start.as_str())
}

/// Whether a name has a search term in it, whatever the case of their letters.
pub open spec fn is_match(name: Seq<char>, searchterm: Option<String>) -> bool {
    match searchterm {
        Some(term) => text::contains_text(text::lowercase(name), text::lowercase(term@)),
        None => true,
    }
}

/// Whether a record of the index is selected by a query.
pub open spec fn is_selected(
    key: Seq<u8>,
    value: Seq<u8>,
    path: Seq<char>,
    recursive: bool,
    searchterm: Option<String>,
) -> bool {
    &&& valid_utf8(key)
    &&& is_in_scope(decode_utf8(key), path)
    &&& is_listed(decode_utf8(key), path, recursive)
    &&& is_match(decode_utf8(key), searchterm)
    &&& size_of_record(value) is Some
}

/// Whether an entry is what a record stands for.
pub open spec fn is_entry(entry: Entry, key: Seq<u8>, value: Seq<u8>, is_dir: bool) -> bool {
    &&& entry.name@ == decode_utf8(key)
    &&& size_of_record(value) == Some(entry.size as nat)
    &&& entry.is_dir == is_dir
}

fn is_listed_name(name: &str, path_len: usize, recursive: bool) -> (r: bool)
    requires
        path_len <= name@.len(),
    ensures
        forall|path: Seq<char>|
            path.len() == path_len ==> #[trigger] is_listed(name@, path, recursive) == r,
{
    if recursive {
        return true;
    }
    let chars = chars_of(name);
    let start: usize = if path_len < chars.len() && chars[path_len] == '/' {
        path_len + 1
    } else {
        path_len
    };
    let ghost inner = name@.skip(start as int);
    assert forall|path: Seq<char>| path.len() == path_len implies #[trigger] is_listed(
        name@,
        path,
        false,
    ) == !inner.contains('/') by {
        let suffix = name@.skip(path.len() as int);
        assert(suffix.len() > 0 ==> suffix[0] == name@[path_len as int]);
        if start == path_len + 1 {
            assert(suffix.drop_first() =~= inner);
        }
    }
    let mut i: usize = start;
    while i < chars.len()
        invariant
            start <= i <= chars@.len(),
            chars@ == name@,
            inner == name@.skip(start as int),
            !recursive,
            forall|path: Seq<char>|
                path.len() == path_len ==> #[trigger] is_listed(name@, path, false)
                    == !inner.contains('/'),
            forall|k: int| start <= k < i ==> chars@[k] != '/',
        decreases chars@.len() - i,
    {
        if chars[i] == '/' {
            assert(inner[i - start] == '/');
            assert(inner.contains('/'));
            return false;
        }
        i += 1;
    }
    assert(!inner.contains('/'));
    true
}

proof fn lemma_join_splits(a: Seq<Seq<char>>, b: Seq<Seq<char>>)
    requires
        a.len() > 0,
        b.len() > 0,
    ensures
        paths::join(a + b) == paths::join(a).push('/') + paths::join(b),
    decreases b.len(),
{
    let whole = a + b;
    if b.len() == 1 {
        assert(whole.drop_last() =~= a);
        assert(whole.last() == b[0]);
    } else {
        assert(whole.drop_last() =~= a + b.drop_last());
        assert(whole.last() == b.last());
        lemma_join_splits(a, b.drop_last());
        assert(paths::join(whole) =~= paths::join(a).push('/') + paths::join(b));
    }
}

proof fn lemma_join_separators(parts: Seq<Seq<char>>)
    requires
        all_plain(parts),
    ensures
        paths::join(parts).contains('/') == (parts.len() > 1),
        paths::join(parts).len() > 0 ==> paths::join(parts)[0] != '/',
{
    paths::law_plain_components_round_trip(parts);
    if parts.len() == 1 {
        assert(paths::is_plain(parts[0]));
    }
    if parts.len() > 1 {
        let before = paths::join(parts.drop_last());
        assert(paths::join(parts)[before.len() as int] == '/');
    }
}

/// The text of a path starts with that of a directory and a separator exactly where the directory
/// holds it.
proof fn lemma_at_or_below(path: Seq<Seq<char>>, dir: Seq<Seq<char>>)
    requires
        all_plain(path),
        all_plain(dir),
        dir.len() > 0,
    ensures
        is_at_or_below(paths::join(path), paths::join(dir)) == paths::is_within(dir, path),
{
    let name = paths::join(path);
    let prefix = paths::join(dir);
    lemma_nonempty(dir);
    if paths::is_within(dir, path) {
        let rest = path.skip(dir.len() as int);
        assert(path =~= dir + rest);
        if rest.len() == 0 {
            assert(path =~= dir);
        } else {
            lemma_join_splits(dir, rest);
            assert(name.subrange(0, prefix.len() as int + 1) =~= prefix.push('/'));
        }
    }
    if name == prefix {
        lemma_join_injective(path, dir);
        assert(path.take(dir.len() as int) =~= dir);
    } else if text::begins_with(name, prefix.push('/')) {
        let rest = name.skip(prefix.len() as int + 1);
        assert(name =~= name.subrange(0, prefix.len() as int + 1) + rest);
        lemma_nonempty(path);
        paths::lemma_split_prefix(prefix, rest);
        lemma_without_separators(path);
        lemma_without_separators(dir);
        paths::lemma_split_join(path);
        paths::lemma_split_join(dir);
    }
}

proof fn lemma_without_separators(parts: Seq<Seq<char>>)
    requires
        all_plain(parts),
    ensures
        forall|i: int| 0 <= i < parts.len() ==> !(#[trigger] parts[i]).contains('/'),
{
    assert forall|i: int| 0 <= i < parts.len() implies !(#[trigger] parts[i]).contains('/') by {
        assert(paths::is_plain(parts[i]));
    }
}

proof fn lemma_nonempty(parts: Seq<Seq<char>>)
    requires
        all_plain(parts),
    ensures
        (paths::join(parts).len() == 0) == (parts.len() == 0),
{
    if parts.len() > 0 {
        assert(paths::is_plain(parts[0]));
    }
}

/// A query of a directory finds exactly what is indexed in it, under its own name and size, and
/// nothing of another directory, whatever its name starts with. A recursive query lists all of it,
/// and else only the directory itself and what is directly in it is listed.
pub proof fn law_indexed_paths_are_listed(
    path: Seq<Seq<char>>,
    size: nat,
    dir: Seq<Seq<char>>,
    recursive: bool,
)
    requires
        all_plain(path),
        all_plain(dir),
        size <= u64::MAX,
    ensures
        decode_utf8(encode_utf8(paths::join(path))) == paths::join(path),
        size_of_record(bytes::le_bytes(size, 8)) == Some(size),
        is_selected(
            encode_utf8(paths::join(path)),
            bytes::le_bytes(size, 8),
            paths::join(dir),
            recursive,
            None,
        ) == (paths::is_within(dir, path) && (recursive || path.len() <= dir.len() + 1)),
{
    broadcast use vstd::utf8::group_utf8_lib;

    let name = paths::join(path);
    let prefix = paths::join(dir);
    bytes::lemma_byte_ranges();
    bytes::lemma_le_value_of_bytes(size, 8);
    lemma_nonempty(dir);
    if dir.len() > 0 {
        lemma_at_or_below(path, dir);
    } else {
        assert(path.take(0) =~= dir);
    }
    if paths::is_within(dir, path) {
        let rest = path.skip(dir.len() as int);
        assert(path =~= dir + rest);
        assert forall|i: int| 0 <= i < rest.len() implies paths::is_plain(#[trigger] rest[i]) by {
            assert(rest[i] == path[i + dir.len()]);
        }
        lemma_join_separators(rest);
        let suffix = name.skip(prefix.len() as int);
        if rest.len() == 0 {
            assert(path =~= dir);
            assert(suffix =~= Seq::<char>::empty());
        } else if dir.len() == 0 {
            assert(rest =~= path);
            assert(prefix =~= Seq::<char>::empty());
            assert(suffix =~= name);
        } else {
            lemma_join_splits(dir, rest);
            assert(suffix =~= seq!['/'] + paths::join(rest));
            assert(suffix.drop_first() =~= paths::join(rest));
        }
    }
}

/// The sum of the sizes of the files for which a directory is given.
pub open spec fn amount(files: Seq<(Seq<Seq<char>>, nat)>, dir: Seq<char>) -> nat
    decreases files.len(),
{
    if files.len() == 0 {
        0
    } else {
        amount(files.drop_last(), dir) + share_of(files.last(), dir)
    }
}

/// What a file adds to the size of a directory.
pub open spec fn share_of(file: (Seq<Seq<char>>, nat), dir: Seq<char>) -> nat {
    if directories(file.0).contains(dir) {
        file.1
    } else {
        0
    }
}

/// Whether a directory is one that some file is in.
pub open spec fn has_files(files: Seq<(Seq<Seq<char>>, nat)>, dir: Seq<char>) -> bool {
    exists|i: int| 0 <= i < files.len() && directories((#[trigger] files[i]).0).contains(dir)
}

/// Whether a name is that of one of some files.
pub open spec fn is_file(files: Seq<(Seq<Seq<char>>, nat)>, name: Seq<char>) -> bool {
    exists|i: int| 0 <= i < files.len() && paths::join((#[trigger] files[i]).0) == name
}

proof fn lemma_added_names(
    dirs: Map<Seq<char>, nat>,
    keys: Seq<Seq<char>>,
    size: nat,
    dir: Seq<char>,
)
    ensures
        added(dirs, keys, size).dom().contains(dir) == (dirs.dom().contains(dir) || keys.contains(
            dir,
        )),
    decreases keys.len(),
{
    if keys.len() > 0 {
        let rest = keys.drop_last();
        lemma_added_names(dirs, rest, size, dir);
        if keys.contains(dir) && dir != keys.last() {
            let i = choose|i: int| 0 <= i < keys.len() && keys[i] == dir;
            assert(rest[i] == dir);
        }
        if rest.contains(dir) {
            let i = choose|i: int| 0 <= i < rest.len() && rest[i] == dir;
            assert(keys[i] == dir);
        }
        assert(keys[keys.len() - 1] == keys.last());
    }
}

proof fn lemma_with_files(index: ShareIndex, files: Seq<(Seq<Seq<char>>, nat)>, name: Seq<char>)
    requires
        forall|i: int| 0 <= i < files.len() ==> all_plain((#[trigger] files[i]).0),
    ensures
        ({
            let after = with_files(index, files);
            &&& after.dirs.dom().contains(name) == (index.dirs.dom().contains(name) || has_files(
                files,
                name,
            ))
            &&& dir_size(after.dirs, name) == dir_size(index.dirs, name) + amount(files, name)
            &&& after.files.dom().contains(name) == (index.files.dom().contains(name) || is_file(
                files,
                name,
            ))
            &&& !is_file(files, name) && index.files.dom().contains(name) ==> after.files[name]
                == index.files[name]
        }),
    decreases files.len(),
{
    if files.len() > 0 {
        let rest = files.drop_last();
        let last = files.last();
        assert forall|i: int| 0 <= i < rest.len() implies all_plain((#[trigger] rest[i]).0) by {
            assert(rest[i] == files[i]);
        }
        assert(all_plain(files[files.len() - 1].0));
        lemma_with_files(index, rest, name);
        let before = with_files(index, rest);
        lemma_directories(last.0, Seq::empty());
        lemma_added(before.dirs, directories(last.0), last.1, name);
        lemma_added_names(before.dirs, directories(last.0), last.1, name);
        assert(has_files(files, name) == (has_files(rest, name) || directories(last.0).contains(
            name,
        ))) by {
            if has_files(rest, name) {
                let i = choose|i: int|
                    0 <= i < rest.len() && directories((#[trigger] rest[i]).0).contains(name);
                assert(directories(files[i].0).contains(name));
            }
            if has_files(files, name) {
                let i = choose|i: int|
                    0 <= i < files.len() && directories((#[trigger] files[i]).0).contains(name);
                assert(i < rest.len() ==> rest[i] == files[i]);
            }
            assert(files[files.len() - 1] == last);
        }
        assert(is_file(files, name) == (is_file(rest, name) || paths::join(last.0) == name)) by {
            if is_file(rest, name) {
                let i = choose|i: int| 0 <= i < rest.len() && paths::join((#[trigger] rest[i]).0) == name;
                assert(paths::join(files[i].0) == name);
            }
            if is_file(files, name) {
                let i = choose|i: int| 0 <= i < files.len() && paths::join((#[trigger] files[i]).0) == name;
                assert(i < rest.len() ==> rest[i] == files[i]);
            }
            assert(files[files.len() - 1] == last);
        }
    }
}

proof fn lemma_file_size(index: ShareIndex, files: Seq<(Seq<Seq<char>>, nat)>, i: int)
    requires
        is_listing(files),
        0 <= i < files.len(),
    ensures
        with_files(index, files).files[paths::join(files[i].0)] == files[i].1,
    decreases files.len(),
{
    if i < files.len() - 1 {
        let rest = files.drop_last();
        assert forall|k: int| 0 <= k < rest.len() implies (#[trigger] rest[k]).0.len() > 0 && all_plain(
            rest[k].0,
        ) by {
            assert(rest[k] == files[k]);
        }
        assert forall|k: int, l: int| 0 <= k < l < rest.len() implies (#[trigger] rest[k]).0 != (
        #[trigger] rest[l]).0 by {
            assert(rest[k] == files[k] && rest[l] == files[l]);
        }
        lemma_file_size(index, rest, i);
        assert(files[files.len() - 1].0 != files[i].0);
        if paths::join(files.last().0) == paths::join(files[i].0) {
            lemma_join_injective(files.last().0, files[i].0);
        }
        lemma_with_files(index, rest, paths::join(files[i].0));
        assert(rest[i] == files[i]);
    }
}

proof fn lemma_amount_without(files: Seq<(Seq<Seq<char>>, nat)>, j: int, dir: Seq<char>)
    requires
        0 <= j < files.len(),
    ensures
        amount(files, dir) == amount(files.remove(j), dir) + share_of(files[j], dir),
    decreases files.len(),
{
    let less_one = files.remove(j);
    if j == files.len() - 1 {
        assert(less_one =~= files.drop_last());
    } else {
        lemma_amount_without(files.drop_last(), j, dir);
        assert(less_one.drop_last() =~= files.drop_last().remove(j));
        assert(less_one.last() == files.last());
    }
}

proof fn lemma_amount_same(
    a: Seq<(Seq<Seq<char>>, nat)>,
    b: Seq<(Seq<Seq<char>>, nat)>,
    dir: Seq<char>,
)
    requires
        a.no_duplicates(),
        b.no_duplicates(),
        forall|file: (Seq<Seq<char>>, nat)| a.contains(file) == b.contains(file),
    ensures
        amount(a, dir) == amount(b, dir),
        a.len() == b.len(),
    decreases a.len(),
{
    if a.len() == 0 {
        if b.len() > 0 {
            assert(b.contains(b[0]));
            assert(a.contains(b[0]));
        }
    } else {
        let last = a.last();
        assert(a[a.len() - 1] == last);
        assert(b.contains(last));
        let j = choose|j: int| 0 <= j < b.len() && b[j] == last;
        let rest = a.drop_last();
        let less_one = b.remove(j);
        assert forall|file: (Seq<Seq<char>>, nat)| rest.contains(file) == less_one.contains(file) by {
            if rest.contains(file) {
                let k = choose|k: int| 0 <= k < rest.len() && rest[k] == file;
                assert(a[k] == file && a[k] != a[a.len() - 1]);
                assert(b.contains(file));
                let l = choose|l: int| 0 <= l < b.len() && b[l] == file;
                assert(less_one[if l < j {
                    l
                } else {
                    l - 1
                }] == file);
            }
            if less_one.contains(file) {
                let l = choose|l: int| 0 <= l < less_one.len() && less_one[l] == file;
                let m = if l < j {
                    l
                } else {
                    l + 1
                };
                assert(b[m] == file && b[m] != b[j]);
                assert(a.contains(file));
                let k = choose|k: int| 0 <= k < a.len() && a[k] == file;
                assert(rest[k] == file);
            }
        }
        lemma_amount_same(rest, less_one, dir);
        lemma_amount_without(b, j, dir);
    }
}

/// The files of a share are at or below its name, and so are the directories they are in but for
/// the one that holds all shares.
proof fn lemma_in_share(share: Seq<char>, entry: Seq<Seq<char>>, name: Seq<char>)
    requires
        paths::is_plain(share),
        entry.len() > 0,
        all_plain(entry),
    ensures
        all_plain(shared_path(share, entry)),
        is_at_or_below(paths::join(shared_path(share, entry)), share),
        directories(shared_path(share, entry)).contains(name) ==> name.len() == 0
            || is_at_or_below(name, share),
        directories(shared_path(share, entry)).contains(share),
        directories(shared_path(share, entry)).contains(Seq::empty()),
        !is_at_or_below(Seq::empty(), share),
{
    let path = shared_path(share, entry);
    let top = seq![share];
    assert(all_plain(path)) by {
        assert forall|i: int| 0 <= i < path.len() implies paths::is_plain(#[trigger] path[i]) by {
            assert(i > 0 ==> path[i] == entry[i - 1]);
        }
    }
    assert(all_plain(top));
    assert(paths::join(top) == share);
    assert(path.take(1) =~= top);
    lemma_at_or_below(path, top);
    lemma_directories(path, top);
    lemma_directories(path, Seq::empty());
    assert(path.take(0) =~= Seq::<Seq<char>>::empty());
    let keys = directories(path);
    if keys.contains(name) && name.len() > 0 {
        let i = choose|i: int| 0 <= i < keys.len() && keys[i] == name;
        let dir = path.take(path.len() - 1 - i);
        assert(all_plain(dir)) by {
            assert forall|k: int| 0 <= k < dir.len() implies paths::is_plain(#[trigger] dir[k]) by {
                assert(dir[k] == path[k]);
            }
        }
        lemma_nonempty(dir);
        assert(dir.take(1) =~= top);
        lemma_at_or_below(dir, top);
    }
}

proof fn lemma_shared_files(share: Seq<char>, entries: Seq<(Seq<Seq<char>>, nat)>, name: Seq<char>)
    requires
        paths::is_plain(share),
        is_listing(entries),
    ensures
        is_listing(shared_files(share, entries)),
        forall|i: int|
            0 <= i < entries.len() ==> all_plain((#[trigger] shared_files(share, entries)[i]).0),
        is_file(shared_files(share, entries), name) ==> is_at_or_below(name, share),
        has_files(shared_files(share, entries), name) ==> name.len() == 0 || is_at_or_below(
            name,
            share,
        ),
        entries.len() > 0 ==> has_files(shared_files(share, entries), share) && has_files(
            shared_files(share, entries),
            Seq::empty(),
        ),
        amount(shared_files(share, entries), share) == amount(
            shared_files(share, entries),
            Seq::empty(),
        ),
        !is_at_or_below(Seq::empty(), share),
        !has_files(shared_files(share, entries), name) ==> amount(
            shared_files(share, entries),
            name,
        ) == 0,
    decreases entries.len(),
{
    let files = shared_files(share, entries);
    assert forall|i: int| 0 <= i < entries.len() implies all_plain((#[trigger] files[i]).0) && is_at_or_below(
        paths::join(files[i].0),
        share,
    ) && (directories(files[i].0).contains(name) ==> name.len() == 0 || is_at_or_below(name, share))
        && directories(files[i].0).contains(share) && directories(files[i].0).contains(
        Seq::empty(),
    ) by {
        assert(all_plain(entries[i].0));
        lemma_in_share(share, entries[i].0, name);
    }
    assert forall|i: int, j: int| 0 <= i < j < files.len() implies (#[trigger] files[i]).0 != (
    #[trigger] files[j]).0 by {
        assert(entries[i].0 != entries[j].0);
        assert(shared_path(share, entries[i].0).drop_first() =~= entries[i].0);
        assert(shared_path(share, entries[j].0).drop_first() =~= entries[j].0);
    }
    if entries.len() > 0 {
        assert(directories(files[0].0).contains(share));
        let rest = entries.drop_last();
        assert forall|k: int| 0 <= k < rest.len() implies (#[trigger] rest[k]).0.len() > 0 && all_plain(
            rest[k].0,
        ) by {
            assert(rest[k] == entries[k]);
        }
        assert forall|k: int, l: int| 0 <= k < l < rest.len() implies (#[trigger] rest[k]).0 != (
        #[trigger] rest[l]).0 by {
            assert(rest[k] == entries[k] && rest[l] == entries[l]);
        }
        lemma_shared_files(share, rest, name);
        assert(files.drop_last() =~= shared_files(share, rest));
        let last = files.len() - 1;
        assert(directories(files[last].0).contains(share));
        if !has_files(files, name) {
            assert forall|i: int| 0 <= i < rest.len() implies !directories(
                (#[trigger] shared_files(share, rest)[i]).0,
            ).contains(name) by {
                assert(shared_files(share, rest)[i] == files[i]);
            }
            assert(!directories(files[last].0).contains(name));
        }
    } else {
        let top = seq![share];
        assert(all_plain(top));
        lemma_at_or_below(Seq::empty(), top);
        assert(paths::join(Seq::<Seq<char>>::empty()) =~= Seq::<char>::empty());
    }
}

/// Directory sizes are cumulative: after a scan, the size under a directory of the share is the sum
/// of the sizes of all files that it holds, at any depth.
pub proof fn law_directory_sizes_are_cumulative(
    index: ShareIndex,
    share: Seq<char>,
    entries: Seq<(Seq<Seq<char>>, nat)>,
    dir: Seq<Seq<char>>,
)
    requires
        paths::is_plain(share),
        is_listing(entries),
        all_plain(dir),
        dir.len() > 0,
        dir[0] == share,
    ensures
        dir_size(scanned(index, share, entries).dirs, paths::join(dir)) == size_below(
            shared_files(share, entries),
            dir,
        ),
{
    let name = paths::join(dir);
    let files = shared_files(share, entries);
    let before = without_share(index, share);
    lemma_shared_files(share, entries, name);
    lemma_with_files(before, files, name);
    let top = seq![share];
    assert(all_plain(top));
    assert(dir.take(1) =~= top);
    lemma_at_or_below(dir, top);
    lemma_nonempty(dir);
    assert(!before.dirs.dom().contains(name));
    lemma_amount_below(files, dir);
}

proof fn lemma_amount_below(files: Seq<(Seq<Seq<char>>, nat)>, dir: Seq<Seq<char>>)
    requires
        all_plain(dir),
        forall|i: int| 0 <= i < files.len() ==> all_plain((#[trigger] files[i]).0),
    ensures
        amount(files, paths::join(dir)) == size_below(files, dir),
    decreases files.len(),
{
    if files.len() > 0 {
        let rest = files.drop_last();
        assert forall|i: int| 0 <= i < rest.len() implies all_plain((#[trigger] rest[i]).0) by {
            assert(rest[i] == files[i]);
        }
        assert(all_plain(files[files.len() - 1].0));
        lemma_amount_below(rest, dir);
        lemma_directories(files.last().0, dir);
    }
}

/// A scan leaves what belongs to other shares as it is, and so does taking a share out. Of the share
/// itself exactly the files that were found are in the index afterwards, with their sizes.
pub proof fn law_scan_concerns_one_share(
    index: ShareIndex,
    share: Seq<char>,
    entries: Seq<(Seq<Seq<char>>, nat)>,
    name: Seq<char>,
)
    requires
        paths::is_plain(share),
        is_listing(entries),
    ensures
        ({
            let after = scanned(index, share, entries);
            if is_at_or_below(name, share) {
                &&& after.files.dom().contains(name) == is_file(shared_files(share, entries), name)
                &&& !without_share(index, share).files.dom().contains(name)
                &&& !without_share(index, share).dirs.dom().contains(name)
            } else {
                &&& after.files.dom().contains(name) == index.files.dom().contains(name)
                &&& index.files.dom().contains(name) ==> after.files[name] == index.files[name]
                &&& name.len() > 0 ==> after.dirs.dom().contains(name) == index.dirs.dom().contains(
                    name,
                ) && dir_size(after.dirs, name) == dir_size(index.dirs, name)
            }
        }),
        forall|i: int|
            0 <= i < entries.len() ==> #[trigger] scanned(index, share, entries).files[paths::join(
                shared_path(share, entries[i].0),
            )] == entries[i].1,
{
    let files = shared_files(share, entries);
    let before = without_share(index, share);
    lemma_shared_files(share, entries, name);
    lemma_with_files(before, files, name);
    assert forall|i: int| 0 <= i < entries.len() implies #[trigger] scanned(
        index,
        share,
        entries,
    ).files[paths::join(shared_path(share, entries[i].0))] == entries[i].1 by {
        lemma_file_size(before, files, i);
    }
}

/// Scanning a directory again in which nothing has changed leaves the index as it is, in whatever
/// order the files are found, and finds as many files.
pub proof fn law_scanning_again_changes_nothing(
    index: ShareIndex,
    share: Seq<char>,
    entries: Seq<(Seq<Seq<char>>, nat)>,
    again: Seq<(Seq<Seq<char>>, nat)>,
)
    requires
        paths::is_plain(share),
        is_listing(entries),
        is_listing(again),
        forall|entry: (Seq<Seq<char>>, nat)| entries.contains(entry) == again.contains(entry),
    ensures
        scanned(scanned(index, share, entries), share, again) == scanned(index, share, entries),
        again.len() == entries.len(),
{
    let root = Seq::<char>::empty();
    let first = scanned(index, share, entries);
    let second = scanned(first, share, again);
    let a = shared_files(share, entries);
    let b = shared_files(share, again);
    lemma_shared_files(share, entries, root);
    lemma_shared_files(share, again, root);
    assert forall|file: (Seq<Seq<char>>, nat)| a.contains(file) == b.contains(file) by {
        if a.contains(file) {
            let i = choose|i: int| 0 <= i < a.len() && a[i] == file;
            assert(entries.contains(entries[i]));
            let j = choose|j: int| 0 <= j < again.len() && again[j] == entries[i];
            assert(b[j] == file);
        }
        if b.contains(file) {
            let j = choose|j: int| 0 <= j < b.len() && b[j] == file;
            assert(again.contains(again[j]));
            let i = choose|i: int| 0 <= i < entries.len() && entries[i] == again[j];
            assert(a[i] == file);
        }
    }
    lemma_amount_same(a, b, root);
    lemma_with_files(without_share(index, share), a, share);
    assert forall|name: Seq<char>|
        #![trigger first.dirs.dom().contains(name)]
        #![trigger second.dirs.dom().contains(name)]
        first.dirs.dom().contains(name) == second.dirs.dom().contains(name) && dir_size(first.dirs, name) == dir_size(second.dirs, name) by {
        lemma_shared_files(share, entries, name);
        lemma_shared_files(share, again, name);
        lemma_with_files(without_share(index, share), a, name);
        lemma_with_files(without_share(first, share), b, name);
        lemma_amount_same(a, b, name);
        lemma_same_files(a, b, name);
    }
    assert forall|name: Seq<char>|
        #![trigger first.files.dom().contains(name)]
        #![trigger second.files.dom().contains(name)]
        first.files.dom().contains(name) == second.files.dom().contains(name) && (first.files.dom().contains(name) ==> first.files[name] == second.files[name]) by {
        lemma_shared_files(share, entries, name);
        lemma_shared_files(share, again, name);
        lemma_with_files(without_share(index, share), a, name);
        lemma_with_files(without_share(first, share), b, name);
        lemma_same_files(a, b, name);
        if is_file(a, name) {
            let i = choose|i: int| 0 <= i < a.len() && paths::join((#[trigger] a[i]).0) == name;
            assert(a.contains(a[i]));
            let j = choose|j: int| 0 <= j < b.len() && b[j] == a[i];
            lemma_file_size(without_share(index, share), a, i);
            lemma_file_size(without_share(first, share), b, j);
        }
    }
    assert forall|name: Seq<char>| #[trigger] first.dirs.dom().contains(name) implies first.dirs[name]
        == second.dirs[name] by {
        assert(dir_size(first.dirs, name) == dir_size(second.dirs, name));
    }
    assert(first.dirs.dom() =~= second.dirs.dom());
    assert(first.files.dom() =~= second.files.dom());
    assert(first.dirs =~= second.dirs);
    assert(first.files =~= second.files);
}

proof fn lemma_same_files(
    a: Seq<(Seq<Seq<char>>, nat)>,
    b: Seq<(Seq<Seq<char>>, nat)>,
    name: Seq<char>,
)
    requires
        forall|file: (Seq<Seq<char>>, nat)| a.contains(file) == b.contains(file),
    ensures
        has_files(a, name) == has_files(b, name),
        is_file(a, name) == is_file(b, name),
{
    assert forall|i: int| 0 <= i < a.len() implies b.contains(#[trigger] a[i]) by {
        assert(a.contains(a[i]));
    }
    assert forall|i: int| 0 <= i < b.len() implies a.contains(#[trigger] b[i]) by {
        assert(b.contains(b[i]));
    }
}

/// The sum of the sizes of some shares.
pub open spec fn size_of_shares(dirs: Map<Seq<char>, nat>, shares: Seq<Seq<char>>) -> nat
    decreases shares.len(),
{
    if shares.len() == 0 {
        0
    } else {
        size_of_shares(dirs, shares.drop_last()) + dir_size(dirs, shares.last())
    }
}

proof fn lemma_size_of_shares(
    before: Map<Seq<char>, nat>,
    after: Map<Seq<char>, nat>,
    shares: Seq<Seq<char>>,
    share: Seq<char>,
)
    requires
        shares.no_duplicates(),
        forall|i: int|
            0 <= i < shares.len() && #[trigger] shares[i] != share ==> dir_size(after, shares[i])
                == dir_size(before, shares[i]),
    ensures
        size_of_shares(after, shares) + (if shares.contains(share) {
            dir_size(before, share)
        } else {
            0
        }) == size_of_shares(before, shares) + (if shares.contains(share) {
            dir_size(after, share)
        } else {
            0
        }),
    decreases shares.len(),
{
    if shares.len() > 0 {
        let rest = shares.drop_last();
        assert forall|i: int| 0 <= i < rest.len() && #[trigger] rest[i] != share implies dir_size(
            after,
            rest[i],
        ) == dir_size(before, rest[i]) by {
            assert(rest[i] == shares[i]);
        }
        lemma_size_of_shares(before, after, rest, share);
        let last = shares.len() - 1;
        assert(shares[last] == shares.last());
        if rest.contains(share) {
            let i = choose|i: int| 0 <= i < rest.len() && rest[i] == share;
            assert(shares[i] == share && shares[i] != shares[last]);
        }
        if shares.contains(share) && shares.last() != share {
            let i = choose|i: int| 0 <= i < shares.len() && shares[i] == share;
            assert(rest[i] == share);
        }
    }
}

/// The size under the empty name is the sum over all shares, and stays so when one of them is
/// scanned, for the first time or again, or taken out.
pub proof fn law_total_is_the_sum_of_shares(
    index: ShareIndex,
    shares: Seq<Seq<char>>,
    share: Seq<char>,
    entries: Seq<(Seq<Seq<char>>, nat)>,
)
    requires
        shares.no_duplicates(),
        shares.contains(share),
        forall|i: int| 0 <= i < shares.len() ==> paths::is_plain(#[trigger] shares[i]),
        is_listing(entries),
        dir_size(index.dirs, Seq::empty()) == size_of_shares(index.dirs, shares),
    ensures
        ({
            let after = scanned(index, share, entries);
            let without = without_share(index, share);
            &&& dir_size(after.dirs, Seq::empty()) == size_of_shares(after.dirs, shares)
            &&& dir_size(without.dirs, Seq::empty()) == size_of_shares(without.dirs, shares)
            &&& dir_size(without.dirs, Seq::empty()) == dir_size(index.dirs, Seq::empty()) - dir_size(
                index.dirs,
                share,
            )
        }),
{
    let root = Seq::<char>::empty();
    let files = shared_files(share, entries);
    let without = without_share(index, share);
    let after = scanned(index, share, entries);
    let k = choose|k: int| 0 <= k < shares.len() && shares[k] == share;
    assert(paths::is_plain(shares[k]));
    let top = seq![share];
    assert(all_plain(top));
    assert forall|i: int| 0 <= i < shares.len() && #[trigger] shares[i] != share implies dir_size(
        without.dirs,
        shares[i],
    ) == dir_size(index.dirs, shares[i]) && dir_size(after.dirs, shares[i]) == dir_size(
        index.dirs,
        shares[i],
    ) by {
        let other = seq![shares[i]];
        assert(paths::is_plain(shares[i]));
        assert(all_plain(other));
        assert(paths::join(other) == shares[i] && paths::join(top) == share);
        lemma_at_or_below(other, top);
        assert(other.take(1) =~= other);
        assert(other[0] != top[0]);
        lemma_shared_files(share, entries, shares[i]);
        lemma_with_files(without, files, shares[i]);
    }
    lemma_shared_files(share, entries, root);
    lemma_shared_files(share, entries, share);
    lemma_with_files(without, files, root);
    lemma_with_files(without, files, share);
    lemma_size_of_shares(index.dirs, without.dirs, shares, share);
    lemma_size_of_shares(index.dirs, after.dirs, shares, share);
    assert(!without.dirs.dom().contains(share));
}

/// A search finds exactly the names that have the search term in them, whatever stands before and
/// behind it and whatever the case of the letters, among those that the same query lists without a
/// search term.
pub proof fn law_search_finds_the_term_anywhere(
    key: Seq<u8>,
    value: Seq<u8>,
    path: Seq<char>,
    recursive: bool,
    term: String,
    before: Seq<char>,
    behind: Seq<char>,
)
    ensures
        is_selected(key, value, path, recursive, None) && text::lowercase(decode_utf8(key))
            == before + text::lowercase(term@) + behind ==> is_selected(
            key,
            value,
            path,
            recursive,
            Some(term),
        ),
        is_selected(key, value, path, recursive, Some(term)) ==> {
            &&& is_selected(key, value, path, recursive, None)
            &&& exists|a: Seq<char>, b: Seq<char>|
                #![trigger a + text::lowercase(term@) + b]
                text::lowercase(decode_utf8(key)) == a + text::lowercase(term@) + b
        },
{
    let name = text::lowercase(decode_utf8(key));
    let needle = text::lowercase(term@);
    if name == before + needle + behind {
        let at = before.len() as int;
        assert(name.subrange(at, at + needle.len()) =~= needle);
        assert(text::found_at(name, needle, at));
    }
    if text::contains_text(name, needle) {
        let at = choose|at: int| text::found_at(name, needle, at);
        let a = name.take(at);
        let b = name.skip(at + needle.len());
        assert(name =~= a + needle + b);
    }
}

/// Filter a key/value database entry based on query and if selected convert to a struct
pub fn kv_filter_map(
    key: &[u8],
    value: &[u8],
    is_dir: bool,
    recursive: bool,
    path: &str,
    searchterm: &Option<String>,
) -> (r: Option<Entry>)
    ensures
        match r {
            Some(entry) => is_selected(key@, value@, path@, recursive, *searchterm) && is_entry(
                entry,
                key@,
                value@,
                is_dir,
            ),
            None => !is_selected(key@, value@, path@, recursive, *searchterm),
        },
{
    let key_bytes = copy_range(key, 0, key.len());
    assert(key_bytes@ =~= key@);
    let name = match string_from_utf8(key_bytes) {
        Ok(name) => name,
        Err(_) => {
            return None;
        },
    };
    if path.unicode_len() > 0 && !is_name_at_or_below(name.as_str(), path) {
        return None;
    }
    if !is_listed_name(name.as_str(), path.unicode_len(), recursive) {
        assert(!is_listed(name@, path@, recursive));
        return None;
    }
    assert(is_listed(name@, path@, recursive));
    match searchterm {
        Some(term) => {
            let lower = lowercase_text(name.as_str());
            let lower_term = lowercase_text(term.as_str());
            if !is_contained(lower.as_str(), lower_term.as_str()) {
                return None;
            }
        },
        None => {},
    }
    match read_size(value) {
        Some(size) => Some(Entry { name, size, is_dir }),
        None => None,
    }
}

/// A key of the index and its value.
pub type Record = (Vec<u8>, Vec<u8>);

/// Whether a list holds the entries of the records that a query selects, in their order.
pub open spec fn entries_of(
    rows: Seq<Record>,
    is_dir: bool,
    path: Seq<char>,
    recursive: bool,
    searchterm: Option<String>,
    entries: Seq<Entry>,
) -> bool
    decreases rows.len(),
{
    if rows.len() == 0 {
        entries.len() == 0
    } else if is_selected(rows.last().0@, rows.last().1@, path, recursive, searchterm) {
        &&& entries.len() > 0
        &&& is_entry(entries.last(), rows.last().0@, rows.last().1@, is_dir)
        &&& entries_of(rows.drop_last(), is_dir, path, recursive, searchterm, entries.drop_last())
    } else {
        entries_of(rows.drop_last(), is_dir, path, recursive, searchterm, entries)
    }
}

fn select(
    rows: &Vec<Record>,
    is_dir: bool,
    path: &str,
    recursive: bool,
    searchterm: &Option<String>,
) -> (r: Vec<Entry>)
    ensures
        entries_of(rows@, is_dir, path@, recursive, *searchterm, r@),
{
    let mut r: Vec<Entry> = Vec::new();
    let mut i: usize = 0;
    while i < rows.len()
        invariant
            i <= rows@.len(),
            entries_of(rows@.take(i as int), is_dir, path@, recursive, *searchterm, r@),
        decreases rows@.len() - i,
    {
        assert(rows@.take(i + 1).drop_last() =~= rows@.take(i as int));
        match kv_filter_map(
            rows[i].0.as_slice(),
            rows[i].1.as_slice(),
            is_dir,
            recursive,
            path,
            searchterm,
        ) {
            Some(entry) => {
                let ghost before = r@;
                r.push(entry);
                assert(r@.drop_last() =~= before);
            },
            None => {},
        }
        i += 1;
    }
    assert(rows@.take(i as int) =~= rows@);
    r
}

/// The entries of each response.
pub open spec fn response_entries(responses: Seq<LsResponse>) -> Seq<Seq<Entry>> {
    responses.map_values(|response: LsResponse| response->Success_0@)
}

/// ls or search query. Takes whether the path is among the directories or the files of the index,
/// and the records of the index, of which those whose keys do not begin with the path may be left out.
pub fn query(
    path: &str,
    searchterm: &Option<String>,
    recursive: bool,
    path_exists: bool,
    dirs: &Vec<Record>,
    files: &Vec<Record>,
) -> (r: Result<Vec<LsResponse>, EntryParseError>)
    ensures
        match r {
            Ok(responses) => {
                &&& path_exists
                &&& forall|i: int| 0 <= i < responses@.len() ==> (#[trigger] responses@[i]) is Success
                &&& exists|dir_entries: Seq<Entry>, file_entries: Seq<Entry>|
                    #![trigger dir_entries + file_entries]
                    entries_of(dirs@, true, path@, recursive, *searchterm, dir_entries)
                        && entries_of(files@, false, path@, recursive, *searchterm, file_entries)
                        && response_entries(responses@) == chunker::chunks(
                        dir_entries + file_entries,
                        MAX_ENTRIES_PER_MESSAGE as nat,
                    )
            },
            Err(error) => !path_exists && error == EntryParseError::PathNotFound,
        },
{
    // Check that the given subdir / file exists
    if !path_exists {
        return Err(EntryParseError::PathNotFound);
    }
    let mut entries = select(dirs, true, path, recursive, searchterm);
    let mut file_entries = select(files, false, path, recursive, searchterm);
    let ghost all = entries@ + file_entries@;
    entries.append(&mut file_entries);
    assert(entries@ =~= all);
    let ghost size = MAX_ENTRIES_PER_MESSAGE as nat;
    let mut rest = Chunker { inner: entries, chunk_size: MAX_ENTRIES_PER_MESSAGE };
    let mut responses: Vec<LsResponse> = Vec::new();
    assert(response_entries(responses@) + chunker::chunks(rest.inner@, size) =~= chunker::chunks(all, size));
    while rest.inner.len() > 0
        invariant
            rest.chunk_size == size,
            size == MAX_ENTRIES_PER_MESSAGE,
            response_entries(responses@) + chunker::chunks(rest.inner@, size) == chunker::chunks(all, size),
            forall|i: int| 0 <= i < responses@.len() ==> (#[trigger] responses@[i]) is Success,
        decreases rest.inner@.len(),
    {
        let ghost before = rest.inner@;
        let ghost handed = response_entries(responses@);
        match rest.next() {
            Some(chunk) => {
                responses.push(LsResponse::Success(chunk));
                assert(response_entries(responses@) =~= handed.push(chunk@));
                assert(response_entries(responses@) + chunker::chunks(rest.inner@, size) =~= handed + chunker::chunks(
                    before,
                    size,
                ));
            },
            None => {},
        }
    }
    assert(chunker::chunks(rest.inner@, size) =~= Seq::<Seq<Entry>>::empty());
    assert(response_entries(responses@) =~= chunker::chunks(all, size));
    Ok(responses)
}

/// The parts that a path is walked in: the root and the directory itself count where the path
/// starts with them.
pub open spec fn walked(path: Seq<char>) -> Seq<Seq<char>> {
    if path.len() > 0 && path[0] == '/' {
        seq![seq!['/']] + paths::components(path)
    } else if paths::split(path)[0] == seq!['.'] {
        seq![seq!['.']] + paths::components(path)
    } else {
        paths::components(path)
    }
}

/// A file is found again under the name it is indexed by: the first part of that name is the share,
/// and with the directory of the share in its place it is the path the file was found at.
pub proof fn law_indexed_files_resolve(
    share_name: Seq<char>,
    entry: Seq<Seq<char>>,
    share_dir: Seq<char>,
)
    requires
        all_plain(shared_path(share_name, entry)),
    ensures
        ({
            let parts = walked(paths::join(shared_path(share_name, entry)));
            &&& parts.len() > 0
            &&& parts[0] == share_name
            &&& paths::below(share_dir, paths::join(parts.drop_first())) == paths::below(
                share_dir,
                paths::join(entry),
            )
        }),
{
    let path = shared_path(share_name, entry);
    paths::law_plain_components_round_trip(path);
    assert(path.drop_first() =~= entry);
}

/// The parts that a path is walked in.
pub fn walk(path: &str) -> (r: Vec<String>)
    ensures
        paths::texts(r@) == walked(path@),
{
    let parts = split_path(path);
    let chars = chars_of(path);
    let mut r: Vec<String> = Vec::new();
    let mut rest = named_parts(&parts);
    let ghost named_texts = paths::texts(rest@);
    assert(paths::split(path@)[0] == parts@[0]@);
    if chars.len() > 0 && chars[0] == '/' {
        let mut root = String::new();
        root.push('/');
        assert(root@ =~= seq!['/']);
        r.push(root);
        assert(paths::texts(r@) =~= seq![seq!['/']]);
    } else if parts[0].len() == 1 && parts[0][0] == '.' {
        assert(parts@[0]@ =~= seq!['.']);
        r.push(text_of(parts[0].as_slice()));
        assert(paths::texts(r@) =~= seq![seq!['.']]);
    } else {
        assert(parts@[0]@ != seq!['.']);
        assert(paths::texts(r@) =~= Seq::<Seq<char>>::empty());
    }
    let ghost first = paths::texts(r@);
    r.append(&mut rest);
    assert(paths::texts(r@) =~= first + named_texts);
    assert(paths::texts(r@) =~= walked(path@));
    r
}

/// The name of the share that a requested path is in.
pub fn share_name_of(input_path: &str) -> (r: Option<String>)
    ensures
        match r {
            Some(name) => walked(input_path@).len() > 0 && name@ == walked(input_path@)[0],
            None => walked(input_path@).len() == 0,
        },
{
    let parts = walk(input_path);
    if parts.len() == 0 {
        None
    } else {
        assert(paths::texts(parts@)[0] == parts@[0]@);
        Some(parts[0].clone())
    }
}

/// Resolve a path from a request by looking up the absolute path associated with its share name
/// component. Takes the size record of the path, and the record of the share name.
pub fn resolve_path(
    input_path: &str,
    size_record: &Option<Vec<u8>>,
    share_record: &Option<Vec<u8>>,
) -> (r: Result<(String, u64), ResolvePathError>)
    ensures
        match r {
            Ok((path, size)) => {
                &&& size_record is Some
                &&& size_of_record(size_record->Some_0@) == Some(size as nat)
                &&& walked(input_path@).len() > 0
                &&& share_record is Some
                &&& valid_utf8(share_record->Some_0@)
                &&& path@ == paths::below(
                    decode_utf8(share_record->Some_0@),
                    paths::join(walked(input_path@).drop_first()),
                )
            },
            Err(ResolvePathError::FileNotFound) => size_record is None,
            Err(ResolvePathError::BadShareName) => {
                &&& size_record is Some
                &&& size_of_record(size_record->Some_0@) is None || walked(input_path@).len() > 0
                    && share_record is None
            },
            Err(ResolvePathError::MissingFirstComponent) => {
                &&& size_record is Some
                &&& size_of_record(size_record->Some_0@) is Some
                &&& walked(input_path@).len() == 0
            },
            Err(ResolvePathError::Utf8Error) => {
                &&& size_record is Some
                &&& size_of_record(size_record->Some_0@) is Some
                &&& walked(input_path@).len() > 0
                &&& share_record is Some
                &&& !valid_utf8(share_record->Some_0@)
            },
            Err(ResolvePathError::DbError) => false,
        },
{
    let size = match size_record {
        Some(record) => match read_size(record.as_slice()) {
            Some(size) => size,
            None => {
                return Err(ResolvePathError::BadShareName);
            },
        },
        None => {
            return Err(ResolvePathError::FileNotFound);
        },
    };
    let parts = walk(input_path);
    if parts.len() == 0 {
        return Err(ResolvePathError::MissingFirstComponent);
    }
    let ghost all = paths::texts(parts@);
    let mut sub_path: Vec<String> = Vec::new();
    let mut i: usize = 1;
    assert(paths::texts(sub_path@) =~= all.subrange(1, 1));
    while i < parts.len()
        invariant
            1 <= i <= parts@.len(),
            all == paths::texts(parts@),
            paths::texts(sub_path@) == all.subrange(1, i as int),
        decreases parts@.len() - i,
    {
        let ghost before = paths::texts(sub_path@);
        sub_path.push(parts[i].clone());
        assert(paths::texts(sub_path@) =~= before.push(parts@[i as int]@));
        assert(paths::texts(sub_path@) =~= all.subrange(1, i + 1));
        i += 1;
    }
    assert(paths::texts(sub_path@) =~= all.drop_first());
    match share_record {
        Some(record) => {
            let bytes = copy_range(record.as_slice(), 0, record.len());
            assert(bytes@ =~= record@);
            match string_from_utf8(bytes) {
                Ok(actual_path) => {
                    let relative = join_components(&sub_path);
                    Ok((join_path(actual_path.as_str(), relative.as_str()), size))
                },
                Err(_) => Err(ResolvePathError::Utf8Error),
            }
        },
        None => Err(ResolvePathError::BadShareName),
    }
}

/// The size of all shares after one was taken out: its size is subtracted, and an unreadable size
/// counts as none.
pub open spec fn root_size_without(root: Option<Vec<u8>>, share_size: nat) -> nat {
    match root {
        Some(record) => match size_of_record(record@) {
            Some(size) => (size - share_size) as nat,
            None => 0,
        },
        None => 0,
    }
}

/// Whether a record of the index belongs to a share.
pub fn is_in_share(share_name: &str, key: &[u8]) -> (r: bool)
    ensures
        r == (valid_utf8(key@) && is_at_or_below(decode_utf8(key@), share_name@)),
{
    let key_bytes = copy_range(key, 0, key.len());
    assert(key_bytes@ =~= key@);
    match string_from_utf8(key_bytes) {
        Ok(name) => is_name_at_or_below(name.as_str(), share_name),
        Err(_) => false,
    }
}

/// The keys of the records that belong to a share, in their order.
pub open spec fn keys_in_share(rows: Seq<Record>, share: Seq<char>) -> Seq<Seq<u8>>
    decreases rows.len(),
{
    if rows.len() == 0 {
        Seq::empty()
    } else {
        let key = rows.last().0@;
        let before = keys_in_share(rows.drop_last(), share);
        if valid_utf8(key) && is_at_or_below(decode_utf8(key), share) {
            before.push(key)
        } else {
            before
        }
    }
}

/// The byte strings in a list.
pub open spec fn byte_strings(list: Seq<Vec<u8>>) -> Seq<Seq<u8>> {
    list.map_values(|item: Vec<u8>| item@)
}

fn select_in_share(rows: &Vec<Record>, share_name: &str) -> (r: Vec<Vec<u8>>)
    ensures
        byte_strings(r@) == keys_in_share(rows@, share_name@),
{
    let mut r: Vec<Vec<u8>> = Vec::new();
    let mut i: usize = 0;
    assert(byte_strings(r@) =~= keys_in_share(rows@.take(0), share_name@));
    while i < rows.len()
        invariant
            i <= rows@.len(),
            byte_strings(r@) == keys_in_share(rows@.take(i as int), share_name@),
        decreases rows@.len() - i,
    {
        assert(rows@.take(i + 1).drop_last() =~= rows@.take(i as int));
        let ghost before = byte_strings(r@);
        if is_in_share(share_name, rows[i].0.as_slice()) {
            let key = copy_range(rows[i].0.as_slice(), 0, rows[i].0.len());
            assert(key@ =~= rows@[i as int].0@);
            r.push(key);
            assert(byte_strings(r@) =~= before.push(rows@[i as int].0@));
        }
        i += 1;
    }
    assert(rows@.take(i as int) =~= rows@);
    r
}

/// What has to be done to take a share out of the index.
#[derive(Debug)]
pub struct Removal {
    /// The new record for the size of all shares, or none where it stays.
    pub root: Option<Vec<u8>>,
    /// The keys of the directories to delete.
    pub dirs: Vec<Vec<u8>>,
    /// The keys of the files to delete.
    pub files: Vec<Vec<u8>>,
}

/// Whether a share that is taken out is not bigger than all shares, by their size records.
pub open spec fn sizes_agree(share_record: Option<Vec<u8>>, root_record: Option<Vec<u8>>) -> bool {
    match (share_record, root_record) {
        (Some(share), Some(root)) => match (size_of_record(share@), size_of_record(root@)) {
            (Some(share_size), Some(root_size)) => share_size <= root_size,
            _ => true,
        },
        _ => true,
    }
}

/// Whether this takes a share out of an index with these records: exactly the records that belong
/// to it are deleted, and its size is subtracted from the size of all shares.
pub open spec fn takes_out(
    removal: Removal,
    share: Seq<char>,
    share_record: Option<Vec<u8>>,
    root_record: Option<Vec<u8>>,
    dirs: Seq<Record>,
    files: Seq<Record>,
) -> bool {
    &&& byte_strings(removal.dirs@) == keys_in_share(dirs, share)
    &&& byte_strings(removal.files@) == keys_in_share(files, share)
    &&& match removal.root {
        Some(new_root) => {
            &&& share_record is Some
            &&& size_of_record(share_record->Some_0@) is Some
            &&& new_root@ == bytes::le_bytes(
                root_size_without(root_record, size_of_record(share_record->Some_0@)->Some_0),
                8,
            )
        },
        None => share_record is None || size_of_record(share_record->Some_0@) is None,
    }
}

/// What takes a share out of the index, so that it can be scanned or is no longer shared. Takes the
/// size records of the share and of all shares, and the records of the index, of which those whose
/// keys do not begin with the name of the share may be left out.
pub fn clear_share(
    share_name: &str,
    share_record: &Option<Vec<u8>>,
    root_record: &Option<Vec<u8>>,
    dirs: &Vec<Record>,
    files: &Vec<Record>,
) -> (r: Removal)
    requires
        sizes_agree(*share_record, *root_record),
    ensures
        takes_out(r, share_name@, *share_record, *root_record, dirs@, files@),
{
    let share_size: Option<u64> = match share_record {
        Some(record) => read_size(record.as_slice()),
        None => None,
    };
    let root: Option<Vec<u8>> = match share_size {
        Some(share_size) => {
            let new_size: u64 = match root_record {
                Some(record) => match read_size(record.as_slice()) {
                    Some(root_size) => root_size - share_size,
                    None => 0,
                },
                None => 0,
            };
            Some(to_le_bytes(new_size as u128, 8))
        },
        None => None,
    };
    Removal {
        root,
        dirs: select_in_share(dirs, share_name),
        files: select_in_share(files, share_name),
    }
}

/// Stop sharing a directory by removing related entries from the database. It is an error where
/// there is no share of that name.
pub fn remove_share_dir(
    share_name: &str,
    share_exists: bool,
    share_record: &Option<Vec<u8>>,
    root_record: &Option<Vec<u8>>,
    dirs: &Vec<Record>,
    files: &Vec<Record>,
) -> (r: Result<Removal, ScanDirError>)
    requires
        sizes_agree(*share_record, *root_record),
    ensures
        match r {
            Ok(removal) => share_exists && takes_out(
                removal,
                share_name@,
                *share_record,
                *root_record,
                dirs@,
                files@,
            ),
            Err(error) => !share_exists && error == ScanDirError::ShareDirNotFound,
        },
{
    if !share_exists {
        return Err(ScanDirError::ShareDirNotFound);
    }
    Ok(clear_share(share_name, share_record, root_record, dirs, files))
}

proof fn lemma_keys_in_share(rows: Seq<Record>, share: Seq<char>, key: Seq<u8>)
    ensures
        keys_in_share(rows, share).contains(key) == (valid_utf8(key) && is_at_or_below(
            decode_utf8(key),
            share,
        ) && exists|i: int| 0 <= i < rows.len() && (#[trigger] rows[i]).0@ == key),
    decreases rows.len(),
{
    if rows.len() > 0 {
        let rest = rows.drop_last();
        lemma_keys_in_share(rest, share, key);
        let before = keys_in_share(rest, share);
        let all = keys_in_share(rows, share);
        if before.contains(key) {
            let i = choose|i: int| 0 <= i < before.len() && before[i] == key;
            assert(all[i] == key);
            let k = choose|k: int| 0 <= k < rest.len() && (#[trigger] rest[k]).0@ == key;
            assert(rows[k].0@ == key);
        }
        let last = rows.len() - 1;
        assert(rows[last] == rows.last());
        if all.contains(key) && !before.contains(key) {
            let i = choose|i: int| 0 <= i < all.len() && all[i] == key;
            assert(i < before.len() ==> before[i] == key);
            assert(rows[last].0@ == key);
        }
        if valid_utf8(key) && is_at_or_below(decode_utf8(key), share) && exists|i: int|
            0 <= i < rows.len() && (#[trigger] rows[i]).0@ == key {
            let i = choose|i: int| 0 <= i < rows.len() && (#[trigger] rows[i]).0@ == key;
            if i < last {
                assert(rest[i].0@ == key);
            } else {
                assert(all[all.len() - 1] == key);
            }
        }
    }
}

/// Taking a share out deletes all that is indexed in it and nothing that is indexed in another
/// share, whatever the names of the two start with. What is kept under the empty name is not deleted.
pub proof fn law_removal_concerns_one_share(
    rows: Seq<Record>,
    share: Seq<char>,
    other: Seq<char>,
    entry: Seq<Seq<char>>,
)
    requires
        paths::is_plain(share),
        paths::is_plain(other),
        all_plain(entry),
    ensures
        ({
            let key = encode_utf8(paths::join(shared_path(other, entry)));
            keys_in_share(rows, share).contains(key) == (other == share && exists|i: int|
                0 <= i < rows.len() && (#[trigger] rows[i]).0@ == key)
        }),
        !keys_in_share(rows, share).contains(encode_utf8(Seq::empty())),
{
    broadcast use vstd::utf8::group_utf8_lib;

    let path = shared_path(other, entry);
    let top = seq![share];
    assert(all_plain(path)) by {
        assert forall|i: int| 0 <= i < path.len() implies paths::is_plain(#[trigger] path[i]) by {
            assert(i > 0 ==> path[i] == entry[i - 1]);
        }
    }
    assert(all_plain(top));
    assert(paths::join(top) == share);
    lemma_at_or_below(path, top);
    assert(path.take(1) =~= seq![other]);
    assert((seq![other] == top) == (other == share)) by {
        assert(seq![other][0] == other && top[0] == share);
    }
    lemma_keys_in_share(rows, share, encode_utf8(paths::join(path)));
    lemma_at_or_below(Seq::empty(), top);
    lemma_keys_in_share(rows, share, encode_utf8(Seq::empty()));
}

/// The index as it is stored: sizes as records, by names as keys.
pub struct StoredIndex {
    pub files: Map<Seq<u8>, Seq<u8>>,
    pub dirs: Map<Seq<u8>, Seq<u8>>,
}

/// Whether a table of records holds some sizes.
pub open spec fn holds_sizes(table: Map<Seq<u8>, Seq<u8>>, sizes: Map<Seq<char>, nat>) -> bool {
    &&& forall|key: Seq<u8>| #[trigger]
        table.dom().contains(key) ==> valid_utf8(key) && sizes.dom().contains(decode_utf8(key))
    &&& forall|name: Seq<char>| #[trigger]
        sizes.dom().contains(name) ==> sizes[name] <= u64::MAX && table.dom().contains(
            encode_utf8(name),
        ) && table[encode_utf8(name)] == bytes::le_bytes(sizes[name], 8)
}

/// Whether an index is stored like this.
pub open spec fn is_stored(stored: StoredIndex, index: ShareIndex) -> bool {
    holds_sizes(stored.files, index.files) && holds_sizes(stored.dirs, index.dirs)
}

/// Whether a record that was looked up is the one under a name.
pub open spec fn is_looked_up(
    record: Option<Vec<u8>>,
    table: Map<Seq<u8>, Seq<u8>>,
    name: Seq<char>,
) -> bool {
    match record {
        Some(value) => table.dom().contains(encode_utf8(name)) && table[encode_utf8(name)]
            == value@,
        None => !table.dom().contains(encode_utf8(name)),
    }
}

/// Whether some rows are of a table, and none is missing whose key is at or below a name.
pub open spec fn are_rows_of(
    rows: Seq<Record>,
    table: Map<Seq<u8>, Seq<u8>>,
    share: Seq<char>,
) -> bool {
    &&& forall|i: int| 0 <= i < rows.len() ==> table.dom().contains((#[trigger] rows[i]).0@)
    &&& forall|key: Seq<u8>| #[trigger]
        table.dom().contains(key) && is_at_or_below(decode_utf8(key), share) ==> exists|i: int|
            0 <= i < rows.len() && (#[trigger] rows[i]).0@ == key
}

/// The stored index after what takes a share out was done.
pub open spec fn after_removal(stored: StoredIndex, removal: Removal) -> StoredIndex {
    let dirs = match removal.root {
        Some(root) => stored.dirs.insert(encode_utf8(Seq::empty()), root@),
        None => stored.dirs,
    };
    StoredIndex {
        files: stored.files.remove_keys(byte_strings(removal.files@).to_set()),
        dirs: dirs.remove_keys(byte_strings(removal.dirs@).to_set()),
    }
}

/// What takes a share out of the index does so: what is stored afterwards is the index without the
/// share.
pub proof fn law_removal_takes_the_share_out(
    stored: StoredIndex,
    index: ShareIndex,
    share: Seq<char>,
    share_record: Option<Vec<u8>>,
    root_record: Option<Vec<u8>>,
    dirs: Seq<Record>,
    files: Seq<Record>,
    removal: Removal,
)
    requires
        paths::is_plain(share),
        is_stored(stored, index),
        dir_size(index.dirs, share) <= dir_size(index.dirs, Seq::empty()),
        is_looked_up(share_record, stored.dirs, share),
        is_looked_up(root_record, stored.dirs, Seq::empty()),
        are_rows_of(dirs, stored.dirs, share),
        are_rows_of(files, stored.files, share),
        takes_out(removal, share, share_record, root_record, dirs, files),
    ensures
        is_stored(after_removal(stored, removal), without_share(index, share)),
{
    broadcast use vstd::utf8::group_utf8_lib;

    let root = Seq::<char>::empty();
    let after = after_removal(stored, removal);
    let without = without_share(index, share);
    let top = seq![share];
    assert(all_plain(top));
    assert(paths::join(top) == share);
    lemma_at_or_below(Seq::empty(), top);
    assert(!is_at_or_below(root, share));
    lemma_remaining(stored.files, files, share);
    lemma_remaining(stored.dirs, dirs, share);
    if index.dirs.dom().contains(share) {
        lemma_record_of_size(index.dirs[share]);
    }
    if index.dirs.dom().contains(root) {
        lemma_record_of_size(index.dirs[root]);
    }
    assert(share_record is Some == index.dirs.dom().contains(share));
    assert(root_record is Some == index.dirs.dom().contains(root)) by {
        assert(decode_utf8(encode_utf8(root)) == root);
    }
    let kept = stored.dirs.remove_keys(keys_in_share(dirs, share).to_set());
    let root_key = encode_utf8(root);
    lemma_keys_in_share(dirs, share, root_key);
    assert(after.dirs =~= match removal.root {
        Some(record) => kept.insert(root_key, record@),
        None => kept,
    });
    let others = index.dirs.restrict(
        index.dirs.dom().filter(|name: Seq<char>| !is_at_or_below(name, share)),
    );
    assert(holds_sizes(kept, others)) by {
        lemma_kept(stored.dirs, index.dirs, dirs, share);
    }
    assert(holds_sizes(after.files, without.files)) by {
        lemma_kept(stored.files, index.files, files, share);
    }
    if removal.root is Some {
        let size = less(dir_size(index.dirs, root), index.dirs[share]);
        assert(removal.root->Some_0@ == bytes::le_bytes(size, 8));
        lemma_size_put(kept, others, root, size);
    }
}

proof fn lemma_record_of_size(size: nat)
    requires
        size <= u64::MAX,
    ensures
        size_of_record(bytes::le_bytes(size, 8)) == Some(size),
{
    bytes::lemma_byte_ranges();
    bytes::lemma_le_value_of_bytes(size, 8);
}

/// Which keys of a table are left once those of a share are removed.
proof fn lemma_remaining(table: Map<Seq<u8>, Seq<u8>>, rows: Seq<Record>, share: Seq<char>)
    requires
        are_rows_of(rows, table, share),
        forall|key: Seq<u8>| #[trigger] table.dom().contains(key) ==> valid_utf8(key),
    ensures
        forall|key: Seq<u8>| #[trigger]
            table.remove_keys(keys_in_share(rows, share).to_set()).dom().contains(key) == (
            table.dom().contains(key) && !is_at_or_below(decode_utf8(key), share)),
{
    assert forall|key: Seq<u8>| #[trigger]
        table.remove_keys(keys_in_share(rows, share).to_set()).dom().contains(key) == (
        table.dom().contains(key) && !is_at_or_below(decode_utf8(key), share)) by {
        lemma_keys_in_share(rows, share, key);
    }
}

proof fn lemma_kept(
    table: Map<Seq<u8>, Seq<u8>>,
    sizes: Map<Seq<char>, nat>,
    rows: Seq<Record>,
    share: Seq<char>,
)
    requires
        holds_sizes(table, sizes),
        are_rows_of(rows, table, share),
    ensures
        holds_sizes(
            table.remove_keys(keys_in_share(rows, share).to_set()),
            sizes.restrict(sizes.dom().filter(|name: Seq<char>| !is_at_or_below(name, share))),
        ),
{
    broadcast use vstd::utf8::group_utf8_lib;

    lemma_remaining(table, rows, share);
    let kept = table.remove_keys(keys_in_share(rows, share).to_set());
    let others = sizes.restrict(
        sizes.dom().filter(|name: Seq<char>| !is_at_or_below(name, share)),
    );
    assert forall|name: Seq<char>| #[trigger] others.dom().contains(name) implies others[name]
        <= u64::MAX && kept.dom().contains(encode_utf8(name)) && kept[encode_utf8(name)]
        == bytes::le_bytes(others[name], 8) by {
        let key = encode_utf8(name);
        assert(sizes.dom().contains(name));
        assert(!is_at_or_below(name, share));
        assert(decode_utf8(key) == name);
        assert(table.dom().contains(key));
        assert(kept.dom().contains(key));
        assert(kept[key] == table[key]);
    }
    assert forall|key: Seq<u8>| #[trigger] kept.dom().contains(key) implies valid_utf8(key)
        && others.dom().contains(decode_utf8(key)) by {
        assert(table.dom().contains(key));
        assert(sizes.dom().contains(decode_utf8(key)));
    }
}

proof fn lemma_size_put(
    table: Map<Seq<u8>, Seq<u8>>,
    sizes: Map<Seq<char>, nat>,
    name: Seq<char>,
    size: nat,
)
    requires
        holds_sizes(table, sizes),
        size <= u64::MAX,
    ensures
        holds_sizes(
            table.insert(encode_utf8(name), bytes::le_bytes(size, 8)),
            sizes.insert(name, size),
        ),
{
    broadcast use vstd::utf8::group_utf8_lib;

    let after = table.insert(encode_utf8(name), bytes::le_bytes(size, 8));
    let sizes_after = sizes.insert(name, size);
    assert forall|other: Seq<char>| #[trigger]
        sizes_after.dom().contains(other) implies sizes_after[other] <= u64::MAX && after.dom().contains(
        encode_utf8(other),
    ) && after[encode_utf8(other)] == bytes::le_bytes(sizes_after[other], 8) by {
        assert(decode_utf8(encode_utf8(other)) == other);
        assert(decode_utf8(encode_utf8(name)) == name);
        if other != name {
            assert(sizes.dom().contains(other));
        }
    }
    assert forall|key: Seq<u8>| #[trigger] after.dom().contains(key) implies valid_utf8(key)
        && sizes_after.dom().contains(decode_utf8(key)) by {
        assert(decode_utf8(encode_utf8(name)) == name);
    }
}

/// The size that a table has under a name, and zero where it has none that is readable.
pub open spec fn stored_size(table: Map<Seq<u8>, Seq<u8>>, name: Seq<char>) -> nat {
    if table.dom().contains(encode_utf8(name)) {
        size_or_zero(table[encode_utf8(name)])
    } else {
        0
    }
}

/// A table after a size was merged in under each of some names.
pub open spec fn merged(
    table: Map<Seq<u8>, Seq<u8>>,
    names: Seq<Seq<char>>,
    size: nat,
) -> Map<Seq<u8>, Seq<u8>>
    decreases names.len(),
{
    if names.len() == 0 {
        table
    } else {
        let before = merged(table, names.drop_last(), size);
        let name = names.last();
        before.insert(encode_utf8(name), bytes::le_bytes(stored_size(before, name) + size, 8))
    }
}

/// The stored index after some files were put in.
pub open spec fn stored_with_files(
    stored: StoredIndex,
    files: Seq<(Seq<Seq<char>>, nat)>,
) -> StoredIndex
    decreases files.len(),
{
    if files.len() == 0 {
        stored
    } else {
        let before = stored_with_files(stored, files.drop_last());
        let (path, size) = files.last();
        StoredIndex {
            files: before.files.insert(
                encode_utf8(paths::join(path)),
                bytes::le_bytes(size, 8),
            ),
            dirs: merged(before.dirs, directories(path), size),
        }
    }
}

/// Whether all sizes fit into their records.
pub open spec fn sizes_fit(sizes: Map<Seq<char>, nat>) -> bool {
    forall|name: Seq<char>| #[trigger] sizes.dom().contains(name) ==> sizes[name] <= u64::MAX
}

proof fn lemma_added_grows(dirs: Map<Seq<char>, nat>, keys: Seq<Seq<char>>, size: nat)
    ensures
        forall|name: Seq<char>| #[trigger]
            dirs.dom().contains(name) ==> added(dirs, keys, size).dom().contains(name)
                && dirs[name] <= added(dirs, keys, size)[name],
    decreases keys.len(),
{
    if keys.len() > 0 {
        lemma_added_grows(dirs, keys.drop_last(), size);
    }
}

proof fn lemma_merged(
    table: Map<Seq<u8>, Seq<u8>>,
    sizes: Map<Seq<char>, nat>,
    names: Seq<Seq<char>>,
    size: nat,
)
    requires
        holds_sizes(table, sizes),
        sizes_fit(added(sizes, names, size)),
    ensures
        holds_sizes(merged(table, names, size), added(sizes, names, size)),
    decreases names.len(),
{
    broadcast use vstd::utf8::group_utf8_lib;

    if names.len() > 0 {
        let rest = names.drop_last();
        let name = names.last();
        let before = added(sizes, rest, size);
        let after = added(sizes, names, size);
        assert(sizes_fit(before)) by {
            assert forall|other: Seq<char>| #[trigger] before.dom().contains(other) implies before[other]
                <= u64::MAX by {
                assert(after.dom().contains(other) && before[other] <= after[other]);
            }
        }
        lemma_merged(table, sizes, rest, size);
        let stored = merged(table, rest, size);
        assert(stored_size(stored, name) == dir_size(before, name)) by {
            assert(decode_utf8(encode_utf8(name)) == name);
            if before.dom().contains(name) {
                lemma_record_of_size(before[name]);
            }
        }
        assert(after.dom().contains(name));
        lemma_size_put(stored, before, name, dir_size(before, name) + size);
    }
}

/// Putting the files of a scan into the stored index puts them into the index.
pub proof fn law_scan_is_stored(
    stored: StoredIndex,
    index: ShareIndex,
    files: Seq<(Seq<Seq<char>>, nat)>,
)
    requires
        is_stored(stored, index),
        sizes_fit(with_files(index, files).dirs),
        forall|i: int| 0 <= i < files.len() ==> (#[trigger] files[i]).1 <= u64::MAX,
    ensures
        is_stored(stored_with_files(stored, files), with_files(index, files)),
    decreases files.len(),
{
    if files.len() > 0 {
        let rest = files.drop_last();
        let (path, size) = files.last();
        let before = with_files(index, rest);
        let after = with_files(index, files);
        lemma_added_grows(before.dirs, directories(path), size);
        assert(sizes_fit(before.dirs)) by {
            assert forall|name: Seq<char>| #[trigger] before.dirs.dom().contains(name) implies before.dirs[name]
                <= u64::MAX by {
                assert(after.dirs.dom().contains(name));
            }
        }
        assert forall|i: int| 0 <= i < rest.len() implies (#[trigger] rest[i]).1 <= u64::MAX by {
            assert(rest[i] == files[i]);
        }
        assert(files[files.len() - 1].1 <= u64::MAX);
        law_scan_is_stored(stored, index, rest);
        let kept = stored_with_files(stored, rest);
        lemma_merged(kept.dirs, before.dirs, directories(path), size);
        lemma_size_put(kept.files, before.files, paths::join(path), size);
    }
}

/// Removing a share undoes adding it: the size of all shares is what it was before.
pub proof fn law_removing_undoes_adding(
    others: nat,
    share_size: nat,
    share_record: Vec<u8>,
    root_record: Vec<u8>,
)
    requires
        others + share_size <= u64::MAX,
        share_record@ == bytes::le_bytes(share_size, 8),
        root_record@ == bytes::le_bytes(others + share_size, 8),
    ensures
        size_of_record(share_record@) == Some(share_size),
        root_size_without(Some(root_record), share_size) == others,
{
    bytes::lemma_byte_ranges();
    bytes::lemma_le_value_of_bytes(share_size, 8);
    bytes::lemma_le_value_of_bytes(others + share_size, 8);
}

/// The candidates for the name of a share, from the last component of its path on: each has one
/// component more of the end of the path.
pub open spec fn name_candidate(path: Seq<Seq<char>>, count: int) -> Seq<char>
    decreases count,
{
    if count <= 1 {
        path.last()
    } else {
        path[path.len() - count] + "-"@ + name_candidate(path, count - 1)
    }
}

/// Whether a name stands for another directory than this.
pub open spec fn is_taken(shares: Seq<(String, String)>, name: Seq<char>, dir: Seq<char>) -> bool {
    exists|i: int|
        0 <= i < shares.len() && (#[trigger] shares[i]).0@ == name && shares[i].1@ != dir
}

fn name_is_taken(shares: &Vec<(String, String)>, name: &str, dir: &str) -> (r: bool)
    ensures
        r == is_taken(shares@, name@, dir@),
{
    let mut i: usize = 0;
    while i < shares.len()
        invariant
            i <= shares@.len(),
            forall|k: int|
                0 <= k < i ==> !((#[trigger] shares@[k]).0@ == name@ && shares@[k].1@ != dir@),
        decreases shares@.len() - i,
    {
        if same_text(shares[i].0.as_str(), name) && !same_text(shares[i].1.as_str(), dir) {
            return true;
        }
        i += 1;
    }
    false
}

/// The display name for a share is the final path component of the directory. If that name is
/// already in use for another directory, it is made of the shortest end of the path that gives a
/// name which is not. Takes the names in use with their directories.
pub fn share_name_for(dir: &str, shares: &Vec<(String, String)>) -> (r: Option<String>)
    ensures
        match r {
            Some(name) => exists|count: int|
                1 <= count <= paths::components(dir@).len() && name@ == name_candidate(
                    paths::components(dir@),
                    count,
                ) && !is_taken(shares@, name@, dir@) && forall|k: int|
                    1 <= k < count ==> is_taken(
                        shares@,
                        #[trigger] name_candidate(paths::components(dir@), k),
                        dir@,
                    ),
            None => forall|k: int|
                1 <= k <= paths::components(dir@).len() ==> is_taken(
                    shares@,
                    #[trigger] name_candidate(paths::components(dir@), k),
                    dir@,
                ),
        },
{
    let parts = split_path(dir);
    let named_dir = named_parts(&parts);
    let ghost path = paths::components(dir@);
    let n: usize = named_dir.len();
    if n == 0 {
        return None;
    }
    assert(path.last() == named_dir@[n - 1]@);
    let mut name = named_dir[n - 1].clone();
    let mut count: usize = 1;
    loop
        invariant
            1 <= count <= n,
            n == named_dir@.len(),
            path == paths::components(dir@),
            paths::texts(named_dir@) == path,
            name@ == name_candidate(path, count as int),
            forall|k: int|
                1 <= k < count ==> is_taken(shares@, #[trigger] name_candidate(path, k), dir@),
        decreases n - count,
    {
        if !name_is_taken(shares, name.as_str(), dir) {
            return Some(name);
        }
        if count == n {
            return None;
        }
        assert(path[n - count - 1] == named_dir@[n - count - 1]@);
        let longer = crate::text::joined(named_dir[n - count - 1].as_str(), "-");
        name = crate::text::joined(longer.as_str(), name.as_str());
        count += 1;
    }
}

/// A query lists the records that it selects, each of them once and in their order, and no others.
pub proof fn law_selected_records_are_listed(
    rows: Seq<Record>,
    is_dir: bool,
    path: Seq<char>,
    recursive: bool,
    searchterm: Option<String>,
    entries: Seq<Entry>,
)
    ensures
        ({
            let selected = rows.filter(
                |row: Record| is_selected(row.0@, row.1@, path, recursive, searchterm),
            );
            entries_of(rows, is_dir, path, recursive, searchterm, entries) <==> {
                &&& entries.len() == selected.len()
                &&& forall|i: int|
                    0 <= i < entries.len() ==> is_entry(
                        #[trigger] entries[i],
                        selected[i].0@,
                        selected[i].1@,
                        is_dir,
                    )
            }
        }),
    decreases rows.len(),
{
    let wanted = |row: Record| is_selected(row.0@, row.1@, path, recursive, searchterm);
    let selected = rows.filter(wanted);
    reveal(Seq::filter);
    if rows.len() > 0 {
        let before = rows.drop_last();
        let last = rows.last();
        if wanted(last) {
            assert(selected == before.filter(wanted).push(last));
            if entries.len() > 0 {
                let rest = entries.drop_last();
                law_selected_records_are_listed(
                    before,
                    is_dir,
                    path,
                    recursive,
                    searchterm,
                    rest,
                );
                if entries.len() == selected.len() && forall|i: int|
                    0 <= i < entries.len() ==> is_entry(
                        #[trigger] entries[i],
                        selected[i].0@,
                        selected[i].1@,
                        is_dir,
                    ) {
                    assert(is_entry(entries[entries.len() - 1], last.0@, last.1@, is_dir));
                    assert forall|i: int| 0 <= i < rest.len() implies is_entry(
                        #[trigger] rest[i],
                        before.filter(wanted)[i].0@,
                        before.filter(wanted)[i].1@,
                        is_dir,
                    ) by {
                        assert(is_entry(entries[i], selected[i].0@, selected[i].1@, is_dir));
                    }
                }
                if entries_of(rows, is_dir, path, recursive, searchterm, entries) {
                    assert forall|i: int| 0 <= i < entries.len() implies is_entry(
                        #[trigger] entries[i],
                        selected[i].0@,
                        selected[i].1@,
                        is_dir,
                    ) by {
                        if i < rest.len() {
                            assert(is_entry(
                                rest[i],
                                before.filter(wanted)[i].0@,
                                before.filter(wanted)[i].1@,
                                is_dir,
                            ));
                        }
                    }
                }
            }
        } else {
            law_selected_records_are_listed(
                before,
                is_dir,
                path,
                recursive,
                searchterm,
                entries,
            );
        }
    }
}

/// What is listed of a record is the name and the size that it was stored with.
pub proof fn law_records_are_read_as_stored(
    entry: Entry,
    name: Seq<char>,
    size: nat,
    is_dir: bool,
)
    requires
        size <= u64::MAX,
        is_entry(entry, encode_utf8(name), bytes::le_bytes(size, 8), is_dir),
    ensures
        entry.name@ == name,
        entry.size == size,
        entry.is_dir == is_dir,
{
    broadcast use vstd::utf8::group_utf8_lib;

    bytes::lemma_byte_ranges();
    bytes::lemma_le_value_of_bytes(size, 8);
}

/// A name that is made of more of the path has all of the shorter ones at its end, and goes on with
/// the component before them.
pub proof fn law_longer_names_continue_shorter_ones(path: Seq<Seq<char>>, count: int)
    requires
        1 <= count <= path.len(),
    ensures
        count == 1 ==> name_candidate(path, count) == path.last(),
        count > 1 ==> name_candidate(path, count) == path[path.len() - count] + "-"@ + name_candidate(
            path,
            count - 1,
        ),
{
}

/// A name is in use for another directory if it is listed with one, and only then. That it is listed
/// with the same directory does not count.
pub proof fn law_names_belong_to_one_directory(
    shares: Seq<(String, String)>,
    name: Seq<char>,
    dir: Seq<char>,
)
    ensures
        (forall|i: int| 0 <= i < shares.len() && (#[trigger] shares[i]).0@ == name ==> shares[i].1@ == dir)
            ==> !is_taken(shares, name, dir),
        forall|i: int|
            0 <= i < shares.len() && (#[trigger] shares[i]).0@ == name && shares[i].1@ != dir
                ==> is_taken(shares, name, dir),
{
}

/// A path of plain components is walked component by component, after the root or the directory
/// itself if it starts there.
pub proof fn law_paths_are_walked_from_their_start(path: Seq<Seq<char>>)
    requires
        path.len() > 0,
        all_plain(path),
    ensures
        walked(paths::join(path)) == path,
        walked(seq!['/'] + paths::join(path)) == seq![seq!['/']] + path,
        walked(seq!['.', '/'] + paths::join(path)) == seq![seq!['.']] + path,
{
    let text = paths::join(path);
    paths::law_plain_components_round_trip(path);
    assert forall|i: int| 0 <= i < path.len() implies !(#[trigger] path[i]).contains('/') by {
        assert(paths::is_plain(path[i]));
    }
    paths::lemma_split_join(path);
    assert(paths::is_plain(path[0]));
    assert(text.len() > 0) by {
        if text.len() == 0 {
            assert(paths::split(text) =~= seq![Seq::<char>::empty()]);
        }
    }
    let root = seq!['/'];
    assert(seq!['/'] + text =~= paths::below(root, text));
    paths::law_components_of_a_path_below(root, text);
    paths::law_components_of_a_path_below(Seq::empty(), root);
    let nothing = Seq::<Seq<char>>::empty();
    assert(paths::components(root) =~= nothing) by {
        reveal_with_fuel(paths::split, 3);
        reveal_with_fuel(paths::named, 3);
        assert(root.drop_last() =~= Seq::<char>::empty());
        let parts = paths::split(root);
        assert(parts =~= seq![Seq::<char>::empty(), Seq::<char>::empty()]);
        assert(parts.drop_last() =~= seq![Seq::<char>::empty()]);
        assert(parts.drop_last().drop_last() =~= nothing);
    }
    assert(nothing + path =~= path);
    let here = seq!['.'];
    assert(seq!['.', '/'] + text =~= paths::below(here, text));
    paths::law_components_of_a_path_below(here, text);
    assert(paths::components(here) =~= nothing) by {
        reveal_with_fuel(paths::split, 3);
        reveal_with_fuel(paths::named, 3);
        assert(here.drop_last() =~= Seq::<char>::empty());
        let parts = paths::split(here);
        assert(parts =~= seq![seq!['.']]);
        assert(parts.drop_last() =~= nothing);
    }
    paths::lemma_split_prefix(here, text);
    assert(here.push('/') + text =~= seq!['.', '/'] + text);
    assert(paths::split(here)[0] == seq!['.']) by {
        reveal_with_fuel(paths::split, 3);
        assert(here.drop_last() =~= Seq::<char>::empty());
        assert(paths::split(here) =~= seq![seq!['.']]);
    }
    let whole = paths::split(seq!['.', '/'] + text);
    assert(whole.take(paths::split(here).len() as int)[0] == whole[0]);
}

/// A record is that of a size if it has eight bytes, and only then.
pub proof fn law_size_records_have_eight_bytes(record: Seq<u8>)
    ensures
        size_of_record(record) is Some <==> record.len() == 8,
{
}

} // verus!
