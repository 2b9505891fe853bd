//! Representation of remote peer, and download handling
use crate::connections::speedometer;
use crate::connections::speedometer::Speedometer;
use crate::paths;
use crate::paths::{RelativePath, join_components, join_path};
use crate::text;
use crate::text::{append_text, decimal_text, joined};
use crate::time::Duration;
use crate::ui_messages::{DownloadEvent, DownloadInfo, PeerInfo};
use crate::wire_messages::{ReadQuery, Request};
use crate::wishlist::RequestedFile;
use vstd::prelude::*;

verus! {

/// The maximum bytes transfered at a time when downloading
pub const DOWNLOAD_BLOCK_SIZE: usize = 64 * 1024;

/// Minimum data delta before sending a progress update to the UI.
pub const MIN_UI_UPDATE_BYTES: u64 = 256 * 1024;

/// Minimum time between progress updates when transferring quickly, in milliseconds.
pub const MIN_UI_UPDATE_INTERVAL: u64 = 300;

/// Maximum time between progress updates on slow links, in milliseconds.
pub const MAX_UI_UPDATE_INTERVAL: u64 = 2000;

/// Where to go on with a file of which a part is already on disk: at its end. A file that is
/// larger than the remote one counts as complete, and an empty one as not there.
pub open spec fn resume_offset(existing: u64, size: u64) -> Option<u64> {
    if existing > size {
        Some(size)
    } else if existing == 0 {
        None
    } else {
        Some(existing)
    }
}

/// The offset to go on from if the file is already partially downloaded
pub fn start_offset(existing_file_size: u64, size: u64) -> (r: Option<u64>)
    ensures
        r == resume_offset(existing_file_size, size),
{
    if existing_file_size > size {
        // Treat as already downloaded (don't clobber existing file)
        Some(size)
    } else if existing_file_size == 0 {
        None
    } else {
        Some(existing_file_size)
    }
}

/// Downloads continue from where they left off: what is on disk and what is asked for make up the
/// file, without a gap or an overlap.
pub proof fn law_download_resumes_without_gap(existing: u64, size: u64)
    requires
        existing <= size,
    ensures
        (match resume_offset(existing, size) {
            Some(offset) => offset,
            None => 0,
        }) == existing,
{
}

/// The request for the rest of a file
pub fn make_read_request(requested_file: &RequestedFile, start: Option<u64>) -> (r: Request)
    ensures
        r matches Request::Read(query) && query.path@ == requested_file.path@ && query.start
            == start && query.end is None,
{
    Request::Read(ReadQuery { path: requested_file.path.clone(), start, end: None })
}

/// How far the download of a file has come.
#[derive(Debug, Clone, Copy)]
pub struct Download {
    /// The size of the file.
    pub size: u64,
    /// Bytes of the file that are accounted for.
    pub bytes_read: u64,
    /// A running total of all files downloaded in this request.
    pub total_bytes_read: u64,
    /// Bytes that came in since the last update of the user interface.
    pub unreported: u64,
    /// When the user interface was last updated, in milliseconds.
    pub last_ui_update: u64,
}

impl Download {
    /// Bytes of the file that are on disk or have come in.
    pub open spec fn received(self) -> nat {
        self.bytes_read as nat + self.unreported as nat
    }

    /// Whether some more bytes can be counted.
    pub open spec fn has_room_for(self, more: nat) -> bool {
        self.received() + more <= u64::MAX && self.total_bytes_read + self.unreported + more
            <= u64::MAX
    }

    /// Starts a download, or goes on with one.
    pub fn start(size: u64, start_offset: Option<u64>, progress_request: u64, now: u64) -> (r:
        Download)
        ensures
            r == (Download {
                size,
                bytes_read: match start_offset {
                    Some(offset) => offset,
                    None => 0,
                },
                total_bytes_read: progress_request,
                unreported: 0,
                last_ui_update: now,
            }),
    {
        Download {
            size,
            bytes_read: match start_offset {
                Some(offset) => offset,
                None => 0,
            },
            total_bytes_read: progress_request,
            unreported: 0,
            last_ui_update: now,
        }
    }

    /// Whether there is nothing to ask for: the whole file is on disk.
    pub fn is_already_downloaded(size: u64, start_offset: Option<u64>) -> (r: bool)
        ensures
            r == (start_offset matches Some(offset) && offset >= size),
    {
        match start_offset {
            Some(offset) => offset >= size,
            None => false,
        }
    }

    /// Whether the user interface is due for an update.
    pub open spec fn is_update_due(unreported: nat, elapsed: int) -> bool {
        ||| unreported >= MIN_UI_UPDATE_BYTES && elapsed >= MIN_UI_UPDATE_INTERVAL
        ||| elapsed >= MAX_UI_UPDATE_INTERVAL
    }

    /// The state once a block has come in and was written.
    pub open spec fn with_block(self, n: u64, now: u64) -> Download {
        let unreported = self.unreported + n;
        if Download::is_update_due(unreported as nat, now - self.last_ui_update) {
            Download {
                size: self.size,
                bytes_read: (self.bytes_read + unreported) as u64,
                total_bytes_read: (self.total_bytes_read + unreported) as u64,
                unreported: 0,
                last_ui_update: now,
            }
        } else {
            Download { unreported: unreported as u64, ..self }
        }
    }

    /// Counts a block that came in and was written. Says whether to update the user interface.
    pub fn add_block(&mut self, n: u64, now: u64) -> (r: bool)
        requires
            old(self).has_room_for(n as nat),
            old(self).last_ui_update <= now,
        ensures
            r == Download::is_update_due(
                old(self).unreported as nat + n as nat,
                now - old(self).last_ui_update,
            ),
            *final(self) == old(self).with_block(n, now),
    {
        self.unreported = self.unreported + n;
        let elapsed: u64 = now - self.last_ui_update;
        let due = (self.unreported >= MIN_UI_UPDATE_BYTES && elapsed >= MIN_UI_UPDATE_INTERVAL)
            || elapsed >= MAX_UI_UPDATE_INTERVAL;
        if due {
            self.bytes_read = self.bytes_read + self.unreported;
            self.total_bytes_read = self.total_bytes_read + self.unreported;
            self.unreported = 0;
            self.last_ui_update = now;
        }
        due
    }

    /// The state once the stream of blocks has ended: all that was received counts.
    pub open spec fn ended(self) -> Download {
        Download {
            bytes_read: self.received() as u64,
            total_bytes_read: (self.total_bytes_read + self.unreported) as u64,
            unreported: 0,
            ..self
        }
    }

    /// The stream of blocks has ended, or broken off.
    pub fn end(&mut self)
        requires
            old(self).has_room_for(0),
        ensures
            *final(self) == old(self).ended(),
    {
        self.bytes_read = self.bytes_read + self.unreported;
        self.total_bytes_read = self.total_bytes_read + self.unreported;
        self.unreported = 0;
    }

    /// Whether the file is complete, once the stream of blocks has ended.
    pub fn finish(&self) -> (r: Result<(), String>)
        ensures
            match r {
                Ok(()) => self.bytes_read >= self.size,
                Err(error) => {
                    &&& self.bytes_read < self.size
                    &&& error@ == "Download incomplete - "@ + text::decimal(self.bytes_read as nat)
                        + " of "@ + text::decimal(self.size as nat) + " bytes downloaded"@
                },
            },
    {
        if self.bytes_read < self.size {
            let mut error = joined(
                "Download incomplete - ",
                decimal_text(self.bytes_read).as_str(),
            );
            append_text(&mut error, " of ");
            append_text(&mut error, decimal_text(self.size).as_str());
            append_text(&mut error, " bytes downloaded");
            return Err(error);
        }
        Ok(())
    }

    /// An update for the user interface. Speeds that do not fit are left out.
    pub fn event(
        &self,
        requested_file: &RequestedFile,
        request_path: &str,
        peer: &PeerInfo,
        speed: usize,
    ) -> (r: DownloadEvent)
        ensures
            r.request_id == requested_file.request_id,
            r.path@ == request_path@,
            r.peer == *peer,
            r.download_info matches DownloadInfo::Downloading {
                path,
                bytes_read,
                total_bytes_read,
                speed: shown,
            } && path@ == requested_file.path@ && bytes_read == self.bytes_read && total_bytes_read
                == self.total_bytes_read && shown == if speed <= u32::MAX {
                speed as u32
            } else {
                0
            },
    {
        let shown: u32 = if speed as u64 <= 0xffff_ffff {
            speed as u32
        } else {
            0
        };
        DownloadEvent {
            request_id: requested_file.request_id,
            path: request_path.to_owned(),
            peer: peer.duplicate(),
            download_info: DownloadInfo::Downloading {
                path: requested_file.path.clone(),
                bytes_read: self.bytes_read,
                total_bytes_read: self.total_bytes_read,
                speed: shown,
            },
        }
    }
}

/// What comes from the stream that a file is downloaded from.
#[derive(Debug, Clone, Copy)]
pub enum DownloadInput {
    /// A block of this length, and whether it could be written.
    Block { len: usize, written: bool },
    /// The stream has ended, or broken off.
    End,
}

/// What comes of it.
#[derive(Debug)]
pub enum DownloadOutput {
    /// The download goes on, with an update for the user interface where one is due.
    Continue(Option<DownloadEvent>),
    /// The download is over. The last update tells the user interface how far it has come.
    Finished { event: DownloadEvent, outcome: Result<(), String> },
}

/// The download of a file, with what is shown of it.
pub struct FileDownload {
    pub progress: Download,
    pub speedometer: Speedometer,
}

/// Whether an event shows how far a file has come.
pub open spec fn shows_progress(
    event: DownloadEvent,
    progress: Download,
    requested_file: RequestedFile,
    request_path: Seq<char>,
    peer: PeerInfo,
    speed: nat,
) -> bool {
    &&& event.request_id == requested_file.request_id
    &&& event.path@ == request_path
    &&& event.peer == peer
    &&& event.download_info matches DownloadInfo::Downloading {
        path,
        bytes_read,
        total_bytes_read,
        speed: shown,
    }
    &&& path@ == requested_file.path@
    &&& bytes_read == progress.bytes_read
    &&& total_bytes_read == progress.total_bytes_read
    &&& shown == if speed <= u32::MAX {
        speed
    } else {
        0
    }
}

/// How the download of a file has ended.
pub open spec fn is_outcome(outcome: Result<(), String>, progress: Download) -> bool {
    match outcome {
        Ok(()) => progress.bytes_read >= progress.size,
        Err(error) => {
            &&& progress.bytes_read < progress.size
            &&& error@ == "Download incomplete - "@ + text::decimal(progress.bytes_read as nat) + " of "@
                + text::decimal(progress.size as nat) + " bytes downloaded"@
        },
    }
}

impl FileDownload {
    /// Starts the download of a file, or says that the file is already there. Times are in
    /// nanoseconds.
    pub fn start(
        requested_file: &RequestedFile,
        start_offset: Option<u64>,
        progress_request: u64,
        request_path: &str,
        peer: &PeerInfo,
        now: u64,
    ) -> (r: (FileDownload, Option<DownloadOutput>))
        ensures
            r.0.progress == (Download {
                size: requested_file.size,
                bytes_read: match start_offset {
                    Some(offset) => offset,
                    None => 0,
                },
                total_bytes_read: progress_request,
                unreported: 0,
                last_ui_update: now / 1_000_000,
            }),
            r.0.speedometer.wf(),
            r.0.speedometer.points().len() == 0,
            r.0.speedometer.window() == (Duration { secs: 5, nanos: 0 }),
            match r.1 {
                Some(DownloadOutput::Finished { event, outcome }) => {
                    &&& start_offset matches Some(offset) && offset >= requested_file.size
                    &&& shows_progress(event, r.0.progress, *requested_file, request_path@, *peer, 0)
                    &&& outcome is Ok
                },
                Some(_) => false,
                None => start_offset matches Some(offset) ==> offset < requested_file.size,
            },
    {
        let progress = Download::start(
            requested_file.size,
            start_offset,
            progress_request,
            now / 1_000_000,
        );
        let output = if Download::is_already_downloaded(requested_file.size, start_offset) {
            Some(
                DownloadOutput::Finished {
                    event: progress.event(requested_file, request_path, peer, 0),
                    outcome: progress.finish(),
                },
            )
        } else {
            None
        };
        (
            FileDownload {
                progress,
                speedometer: Speedometer::new(Duration { secs: 5, nanos: 0 }),
            },
            output,
        )
    }

    /// Handles what came from the stream, at a time in nanoseconds.
    pub fn step(
        &mut self,
        input: DownloadInput,
        now: u64,
        requested_file: &RequestedFile,
        request_path: &str,
        peer: &PeerInfo,
    ) -> (r: DownloadOutput)
        requires
            old(self).speedometer.wf(),
            old(self).progress.last_ui_update <= now / 1_000_000,
            input matches DownloadInput::Block { len, written } ==> old(
                self,
            ).progress.has_room_for(len as nat) && speedometer::total(old(self).speedometer.points()) + len
                <= usize::MAX,
            input is End ==> old(self).progress.has_room_for(0),
        ensures
            final(self).speedometer.wf(),
            final(self).speedometer.window() == old(self).speedometer.window(),
            match input {
                DownloadInput::Block { len, written: true } => {
                    let before = old(self).progress;
                    let after = before.with_block(len as u64, (now / 1_000_000) as u64);
                    let points = old(self).speedometer.points().push((now as nat, len as nat));
                    let kept = speedometer::recent(points, now as nat, old(self).speedometer.window_nanos());
                    &&& final(self).progress == after
                    &&& if Download::is_update_due(
                        (before.unreported + len) as nat,
                        now / 1_000_000 - before.last_ui_update,
                    ) {
                        &&& final(self).speedometer.points() == kept
                        &&& r matches DownloadOutput::Continue(Some(event)) && shows_progress(
                            event,
                            after,
                            *requested_file,
                            request_path@,
                            *peer,
                            speedometer::average(kept),
                        )
                    } else {
                        &&& final(self).speedometer.points() == points
                        &&& r matches DownloadOutput::Continue(None)
                    }
                },
                DownloadInput::Block { len, written: false } => {
                    // What was not reported yet does not count
                    &&& final(self).progress == old(self).progress
                    &&& final(self).speedometer.points() == old(self).speedometer.points().push(
                        (now as nat, len as nat),
                    )
                    &&& r matches DownloadOutput::Finished { event, outcome }
                    &&& shows_progress(
                        event,
                        final(self).progress,
                        *requested_file,
                        request_path@,
                        *peer,
                        0,
                    )
                    &&& is_outcome(outcome, final(self).progress)
                },
                DownloadInput::End => {
                    let kept = speedometer::recent(
                        old(self).speedometer.points(),
                        now as nat,
                        old(self).speedometer.window_nanos(),
                    );
                    &&& final(self).progress == old(self).progress.ended()
                    &&& final(self).speedometer.points() == kept
                    &&& r matches DownloadOutput::Finished { event, outcome }
                    &&& shows_progress(
                        event,
                        final(self).progress,
                        *requested_file,
                        request_path@,
                        *peer,
                        speedometer::average(kept),
                    )
                    &&& is_outcome(outcome, final(self).progress)
                },
            },
    {
        match input {
            DownloadInput::Block { len, written } => {
                self.speedometer.entry_at(len, now as u128);
                if !written {
                    return DownloadOutput::Finished {
                        event: self.progress.event(requested_file, request_path, peer, 0),
                        outcome: self.progress.finish(),
                    };
                }
                if self.progress.add_block(len as u64, now / 1_000_000) {
                    let speed: usize = self.speedometer.measure_at(now as u128);
                    return DownloadOutput::Continue(
                        Some(self.progress.event(requested_file, request_path, peer, speed)),
                    );
                }
                DownloadOutput::Continue(None)
            },
            DownloadInput::End => {
                self.progress.end();
                let speed: usize = self.speedometer.measure_at(now as u128);
                DownloadOutput::Finished {
                    event: self.progress.event(requested_file, request_path, peer, speed),
                    outcome: self.progress.finish(),
                }
            },
        }
    }
}

/// What comes after the attempt to download a requested file.
#[derive(Debug)]
pub enum AfterDownload {
    /// Mark this file, which is now downloaded, as completed.
    Completed(RequestedFile),
    /// Go on with the next file.
    Next,
    /// The connection is closed.
    Stop,
}

/// Whether to go on with a file that is requested from a peer, and how after the attempt.
pub fn after_download(requested_file: RequestedFile, succeeded: bool, closed: bool) -> (r:
    AfterDownload)
    ensures
        match r {
            AfterDownload::Completed(file) => {
                &&& succeeded
                &&& file == (RequestedFile { downloaded: true, ..requested_file })
            },
            AfterDownload::Next => !succeeded && !closed,
            AfterDownload::Stop => !succeeded && closed,
        },
{
    if succeeded {
        AfterDownload::Completed(
            RequestedFile {
                path: requested_file.path,
                size: requested_file.size,
                request_id: requested_file.request_id,
                downloaded: true,
            },
        )
    } else if closed {
        AfterDownload::Stop
    } else {
        AfterDownload::Next
    }
}

/// Tells the user interface that all files of a request have been downloaded.
pub fn completed_event(
    request_complete: bool,
    request_id: u32,
    request_path: &str,
    peer: &PeerInfo,
    now: Duration,
) -> (r: Option<DownloadEvent>)
    ensures
        match r {
            Some(event) => {
                &&& request_complete
                &&& event.request_id == request_id
                &&& event.path@ == request_path@
                &&& event.peer == *peer
                &&& event.download_info == DownloadInfo::Completed(now)
            },
            None => !request_complete,
        },
{
    if request_complete {
        Some(
            DownloadEvent {
                request_id,
                path: request_path.to_owned(),
                peer: peer.duplicate(),
                download_info: DownloadInfo::Completed(now),
            },
        )
    } else {
        None
    }
}

/// The bytes in some blocks, each given with the time it came in.
pub open spec fn total_len(blocks: Seq<(u64, u64)>) -> nat
    decreases blocks.len(),
{
    if blocks.len() == 0 {
        0
    } else {
        total_len(blocks.drop_last()) + blocks.last().0 as nat
    }
}

/// The state once some blocks have come in.
pub open spec fn after_blocks(before: Download, blocks: Seq<(u64, u64)>) -> Download
    decreases blocks.len(),
{
    if blocks.len() == 0 {
        before
    } else {
        after_blocks(before, blocks.drop_last()).with_block(blocks.last().0, blocks.last().1)
    }
}

/// Every byte that comes in is counted once, for the file and for the request, whenever the
/// updates of the user interface fall due.
pub proof fn law_every_block_counts_once(before: Download, blocks: Seq<(u64, u64)>)
    requires
        before.has_room_for(total_len(blocks)),
    ensures
        after_blocks(before, blocks).received() == before.received() + total_len(blocks),
        after_blocks(before, blocks).total_bytes_read + after_blocks(before, blocks).unreported
            == before.total_bytes_read + before.unreported + total_len(blocks),
        after_blocks(before, blocks).size == before.size,
    decreases blocks.len(),
{
    if blocks.len() > 0 {
        law_every_block_counts_once(before, blocks.drop_last());
    }
}

/// What is found at a place on disk, without following a symbolic link.
#[derive(Clone, Copy, Debug, PartialEq, Eq, Structural)]
pub enum PathKind {
    Missing,
    Symlink,
    Directory,
    Other,
}

/// Ensure an existing path is a real directory and not a symlink. A place where nothing is yet has
/// to be made a directory first.
pub fn ensure_existing_directory(kind: PathKind, path: &str) -> (r: Result<bool, String>)
    ensures
        match r {
            Ok(exists) => exists == (kind == PathKind::Directory) && (kind == PathKind::Directory
                || kind == PathKind::Missing),
            Err(error) => match kind {
                PathKind::Symlink => error@ == "Download path directory is a symlink: "@ + path@,
                PathKind::Other => error@ == "Download path directory is not a directory: "@
                    + path@,
                _ => false,
            },
        },
{
    match kind {
        PathKind::Directory => Ok(true),
        PathKind::Missing => Ok(false),
        PathKind::Symlink => Err(joined("Download path directory is a symlink: ", path)),
        PathKind::Other => Err(joined("Download path directory is not a directory: ", path)),
    }
}

/// Reject an existing final download target if it is a symlink or directory
pub fn reject_existing_symlink_or_directory(kind: PathKind, path: &str) -> (r: Result<(), String>)
    ensures
        match r {
            Ok(()) => kind == PathKind::Missing || kind == PathKind::Other,
            Err(error) => match kind {
                PathKind::Symlink => error@ == "Download target is a symlink: "@ + path@,
                PathKind::Directory => error@ == "Download target is a directory: "@ + path@,
                _ => false,
            },
        },
{
    match kind {
        PathKind::Missing => Ok(()),
        PathKind::Other => Ok(()),
        PathKind::Symlink => Err(joined("Download target is a symlink: ", path)),
        PathKind::Directory => Err(joined("Download target is a directory: ", path)),
    }
}

/// The directories to check or make for a download target, from the outermost on.
pub fn parent_directories(download_dir: &str, relative_path: &RelativePath) -> (r: Vec<String>)
    requires
        relative_path@.len() > 0,
    ensures
        r@.len() == relative_path@.len() - 1,
        forall|i: int|
            0 <= i < r@.len() ==> (#[trigger] r@[i])@ == paths::below(
                download_dir@,
                paths::join(relative_path@.take(i + 1)),
            ),
{
    let mut r: Vec<String> = Vec::new();
    let mut parts: Vec<String> = Vec::new();
    let n: usize = relative_path.components.len();
    let mut i: usize = 0;
    assert(crate::paths::texts(parts@) =~= relative_path@.take(0));
    while i < n - 1
        invariant
            i <= n - 1,
            n == relative_path.components@.len(),
            r@.len() == i,
            crate::paths::texts(parts@) == relative_path@.take(i as int),
            forall|k: int|
                0 <= k < i ==> (#[trigger] r@[k])@ == paths::below(
                    download_dir@,
                    paths::join(relative_path@.take(k + 1)),
                ),
        decreases n - i,
    {
        let ghost before = crate::paths::texts(parts@);
        parts.push(relative_path.components[i].clone());
        assert(crate::paths::texts(parts@) =~= before.push(relative_path@[i as int]));
        assert(crate::paths::texts(parts@) =~= relative_path@.take(i + 1));
        let text = join_components(&parts);
        r.push(join_path(download_dir, text.as_str()));
        i += 1;
    }
    r
}

/// The download of a file succeeds if at least the bytes that were announced are there, however
/// they have come in and been reported. Otherwise it fails.
pub proof fn law_complete_downloads_succeed(progress: Download)
    requires
        progress.has_room_for(0),
    ensures
        progress.received() >= progress.size ==> is_outcome(Ok(()), progress.ended()),
        progress.received() < progress.size ==> !is_outcome(Ok(()), progress.ended()),
        progress.ended().received() == progress.received(),
        progress.ended().size == progress.size,
        progress.ended().unreported == 0,
{
}

/// The user interface hears of progress neither too often nor too seldom: never twice within
/// three tenths of a second, always after two seconds, and between these once a quarter of a
/// mebibyte has come in.
pub proof fn law_updates_are_spaced(unreported: nat, elapsed: int)
    ensures
        elapsed < 300 ==> !Download::is_update_due(unreported, elapsed),
        elapsed >= 2000 ==> Download::is_update_due(unreported, elapsed),
        300 <= elapsed < 2000 ==> (Download::is_update_due(unreported, elapsed) <==> unreported >= 256
            * 1024),
{
}

/// What was reported is what has come in, and it is only put off, never lost: after each block, all
/// of it is either reported or still to be reported, and an update leaves nothing over.
pub proof fn law_updates_report_everything(progress: Download, n: u64, now: u64)
    requires
        progress.has_room_for(n as nat),
    ensures
        ({
            let after = progress.with_block(n, now);
            let reports = Download::is_update_due(
                (progress.unreported + n) as nat,
                now - progress.last_ui_update,
            );
            &&& after.size == progress.size
            &&& after.received() == progress.received() + n
            &&& after.total_bytes_read + after.unreported == progress.total_bytes_read
                + progress.unreported + n
            &&& reports ==> after.unreported == 0 && after.last_ui_update == now
            &&& !reports ==> after.bytes_read == progress.bytes_read && after.total_bytes_read
                == progress.total_bytes_read && after.last_ui_update == progress.last_ui_update
        }),
{
}

/// A download goes on where the part on disk ends, and never beyond the end of the file. It starts
/// anew only if nothing is on disk.
pub proof fn law_resuming_stays_within_the_file(existing: u64, size: u64)
    ensures
        existing == 0 <==> resume_offset(existing, size) is None,
        0 < existing <= size ==> resume_offset(existing, size) == Some(existing),
        existing > size ==> resume_offset(existing, size) == Some(size),
{
}

/// What the user interface hears of a download is how much of it was reported so far, of the file
/// and of the whole request. A speed that is too large to be shown is left out.
pub proof fn law_events_show_what_was_reported(
    event: DownloadEvent,
    progress: Download,
    requested_file: RequestedFile,
    request_path: Seq<char>,
    peer: PeerInfo,
    speed: nat,
)
    requires
        shows_progress(event, progress, requested_file, request_path, peer, speed),
    ensures
        event.request_id == requested_file.request_id,
        event.path@ == request_path,
        event.peer == peer,
        event.download_info is Downloading,
        event.download_info->Downloading_path@ == requested_file.path@,
        event.download_info->bytes_read == progress.bytes_read,
        event.download_info->total_bytes_read == progress.total_bytes_read,
        speed <= u32::MAX ==> event.download_info->speed == speed,
        speed > u32::MAX ==> event.download_info->speed == 0,
{
}

} // verus!
