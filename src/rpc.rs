//! The engine's RPC protocol: torrent records built from what the engine reports, the
//! session-id handshake, and the checks a reply must pass.
use vstd::prelude::*;

use crate::text::{decimal, push_decimal, same_text};

verus! {

/// The engine has no place for metadata of ours, so a torrent's download limit set to this
/// value marks it as processed.
pub const PROCESSED_MARKER: u64 = 42;

/// The state of a torrent as the engine reports it.
#[derive(Debug, Clone, Copy, PartialEq, Eq, Structural)]
pub enum TorrentStatus {
    Paused,
    CheckWait,
    Checking,
    DownloadWait,
    Downloading,
    SeedWait,
    Seeding,
}

/// The status that the engine's numeric code stands for.
pub open spec fn status_of(code: u64) -> Option<TorrentStatus> {
    if code == 0 {
        Some(TorrentStatus::Paused)
    } else if code == 1 {
        Some(TorrentStatus::CheckWait)
    } else if code == 2 {
        Some(TorrentStatus::Checking)
    } else if code == 3 {
        Some(TorrentStatus::DownloadWait)
    } else if code == 4 {
        Some(TorrentStatus::Downloading)
    } else if code == 5 {
        Some(TorrentStatus::SeedWait)
    } else if code == 6 {
        Some(TorrentStatus::Seeding)
    } else {
        None
    }
}

impl TorrentStatus {
    /// The status of a numeric code of the engine, if it is one.
    pub fn from_code(code: u64) -> (r: Option<TorrentStatus>)
        ensures
            r == status_of(code),
    {
        match code {
            0 => Some(TorrentStatus::Paused),
            1 => Some(TorrentStatus::CheckWait),
            2 => Some(TorrentStatus::Checking),
            3 => Some(TorrentStatus::DownloadWait),
            4 => Some(TorrentStatus::Downloading),
            5 => Some(TorrentStatus::SeedWait),
            6 => Some(TorrentStatus::Seeding),
            _ => None,
        }
    }
}

/// A file of a torrent and whether it is selected for download.
#[derive(Debug, PartialEq, Eq)]
pub struct TorrentFile {
    pub name: String,
    pub selected: bool,
}

/// A torrent as the policy sees it.
#[derive(Debug)]
pub struct Torrent {
    pub hash: String,
    pub name: String,
    pub status: TorrentStatus,
    pub files: Option<Vec<TorrentFile>>,
    pub download_dir: String,
    pub done: bool,
    pub done_time: Option<i64>,
    /// Uploaded over downloaded, in thousandths; `None` when nothing was uploaded.
    pub upload_ratio: Option<u64>,
    pub processed: bool,
}

/// A torrent's fields as the engine's `torrent-get` reports them.
#[derive(Debug)]
pub struct RawTorrent {
    pub hash_string: String,
    pub name: String,
    pub download_dir: String,
    pub status: u64,
    pub added_date: i64,
    pub wanted: Vec<u8>,
    pub left_until_done: u64,
    pub done_date: i64,
    pub download_limit: u64,
    /// Names from `files`, when the engine sent them.
    pub files: Option<Vec<String>>,
    /// `wanted` flags from `fileStats`, when the engine sent them.
    pub file_stats: Option<Vec<bool>>,
    /// Upload ratio in thousandths; zero or less when nothing was uploaded.
    pub upload_ratio: i64,
}

/// Errors of the engine itself.
#[derive(Debug, PartialEq, Eq)]
pub enum TransmissionRpcError {
    GeneralError(String),
    TorrentNotFoundError(String),
}

/// Errors of a call to the engine.
#[derive(Debug, PartialEq, Eq)]
pub enum TransmissionClientError {
    Connection(String),
    Internal(String),
    Protocol(String),
    Rpc(TransmissionRpcError),
}

/// A torrent is done when nothing is left to download and at least one file is wanted;
/// the second part rules out the moment when a user has unselected every file to pick
/// some again.
pub open spec fn is_done(left_until_done: u64, wanted: Seq<u8>) -> bool {
    left_until_done == 0 && exists|i: int| 0 <= i < wanted.len() && wanted[i] == 1
}

/// When a done torrent finished: its done date, or the date it was added when the engine
/// never saw it finish (it was added complete).
pub open spec fn done_time_of(raw: RawTorrent) -> Option<i64> {
    if is_done(raw.left_until_done, raw.wanted@) {
        Some(
            if raw.done_date != 0 {
                raw.done_date
            } else {
                raw.added_date
            },
        )
    } else {
        None
    }
}

/// The files of a torrent: names and `wanted` flags joined pairwise.
pub open spec fn joined_files(names: Seq<String>, wanted: Seq<bool>, files: Seq<TorrentFile>) -> bool {
    &&& files.len() == names.len()
    &&& names.len() == wanted.len()
    &&& forall|i: int|
        0 <= i < files.len() ==> (#[trigger] files[i]).name@ == names[i]@ && files[i].selected
            == wanted[i]
}

/// Whether `build_torrent` refuses `raw` for missing or mismatched file lists.
pub open spec fn files_malformed(raw: RawTorrent, with_files: bool) -> bool {
    with_files && (raw.files is None || raw.file_stats is None || raw.files->0@.len()
        != raw.file_stats->0@.len())
}

fn wanted_any(wanted: &Vec<u8>) -> (r: bool)
    ensures
        r == exists|i: int| 0 <= i < wanted@.len() && wanted@[i] == 1,
{
    let mut i: usize = 0;
    while i < wanted.len()
        invariant
            i <= wanted@.len(),
            forall|j: int| 0 <= j < i ==> wanted@[j] != 1,
        decreases wanted.len() - i,
    {
        if wanted[i] == 1 {
            return true;
        }
        i = i + 1;
    }
    false
}

fn join_files(names: &Vec<String>, wanted: &Vec<bool>) -> (r: Vec<TorrentFile>)
    requires
        names@.len() == wanted@.len(),
    ensures
        joined_files(names@, wanted@, r@),
{
    let mut files: Vec<TorrentFile> = Vec::new();
    let mut i: usize = 0;
    while i < names.len()
        invariant
            i <= names@.len(),
            names@.len() == wanted@.len(),
            files@.len() == i,
            forall|j: int|
                0 <= j < i ==> (#[trigger] files@[j]).name@ == names@[j]@ && files@[j].selected
                    == wanted@[j],
        decreases names.len() - i,
    {
        files.push(TorrentFile { name: names[i].clone(), selected: wanted[i] });
        i = i + 1;
    }
    files
}

/// `t` is the torrent that the engine's fields `raw` describe.
pub open spec fn built_from(t: Torrent, raw: RawTorrent, with_files: bool) -> bool {
    &&& t.hash@ == raw.hash_string@
    &&& t.name@ == raw.name@
    &&& t.download_dir@ == raw.download_dir@
    &&& status_of(raw.status) == Some(t.status)
    &&& t.done == is_done(raw.left_until_done, raw.wanted@)
    &&& t.done_time == done_time_of(raw)
    &&& t.processed == (raw.download_limit == PROCESSED_MARKER)
    &&& t.upload_ratio == if raw.upload_ratio > 0 {
        Some(raw.upload_ratio as u64)
    } else {
        None
    }
    &&& (with_files ==> (t.files matches Some(fs) && joined_files(
        raw.files->0@,
        raw.file_stats->0@,
        fs@,
    )))
    &&& (!with_files ==> t.files is None)
}

/// Builds a torrent from the engine's fields. With `with_files` the engine must have sent
/// both file lists, of one length; a status code the engine does not define is refused too.
pub fn build_torrent(raw: RawTorrent, with_files: bool) -> (r: Result<Torrent, TransmissionClientError>)
    ensures
        r is Err <==> files_malformed(raw, with_files) || status_of(raw.status) is None,
        r is Err ==> r->Err_0 is Protocol,
        r matches Ok(t) ==> built_from(t, raw, with_files),
{
    let mut files: Option<Vec<TorrentFile>> = None;
    if with_files {
        match (&raw.files, &raw.file_stats) {
            (Some(names), Some(wanted)) => {
                if names.len() != wanted.len() {
                    return Err(
                        TransmissionClientError::Protocol(
                            String::from_str("Torrent's `files` and `fileStats` don't match"),
                        ),
                    );
                }
                files = Some(join_files(names, wanted));
            },
            (None, _) => {
                return Err(
                    TransmissionClientError::Protocol(
                        String::from_str("Got a torrent with missing `files`"),
                    ),
                );
            },
            (_, None) => {
                return Err(
                    TransmissionClientError::Protocol(
                        String::from_str("Got a torrent with missing `fileStats`"),
                    ),
                );
            },
        }
    }
    let status = match TorrentStatus::from_code(raw.status) {
        Some(s) => s,
        None => {
            return Err(
                TransmissionClientError::Protocol(String::from_str("Got an invalid torrent status")),
            );
        },
    };
    let done = raw.left_until_done == 0 && wanted_any(&raw.wanted);
    let done_time = if done {
        Some(
            if raw.done_date != 0 {
                raw.done_date
            } else {
                raw.added_date
            },
        )
    } else {
        None
    };
    let upload_ratio = if raw.upload_ratio > 0 {
        Some(raw.upload_ratio as u64)
    } else {
        None
    };
    Ok(
        Torrent {
            hash: raw.hash_string,
            name: raw.name,
            status,
            files,
            download_dir: raw.download_dir,
            done,
            done_time,
            upload_ratio,
            processed: raw.download_limit == PROCESSED_MARKER,
        },
    )
}

/// Builds every torrent of a `torrent-get` reply, in order; the first one refused fails all.
pub fn build_torrents(raws: Vec<RawTorrent>, with_files: bool) -> (r: Result<
    Vec<Torrent>,
    TransmissionClientError,
>)
    ensures
        r is Err <==> exists|i: int|
            0 <= i < raws@.len() && (files_malformed(#[trigger] raws@[i], with_files) || status_of(
                raws@[i].status,
            ) is None),
        r matches Ok(ts) ==> ts@.len() == raws@.len() && forall|i: int|
            0 <= i < ts@.len() ==> built_from(#[trigger] ts@[i], raws@[i], with_files),
{
    let ghost orig = raws@;
    let mut rest = raws;
    let mut out: Vec<Torrent> = Vec::new();
    while rest.len() > 0
        invariant
            orig == raws@,
            rest@ == orig.subrange(out@.len() as int, orig.len() as int),
            out@.len() + rest@.len() == orig.len(),
            forall|j: int|
                0 <= j < out@.len() ==> !files_malformed(#[trigger] orig[j], with_files) && status_of(
                    orig[j].status,
                ) is Some,
            forall|j: int| 0 <= j < out@.len() ==> built_from(#[trigger] out@[j], orig[j], with_files),
        decreases rest@.len(),
    {
        let raw = rest.remove(0);
        assert(raw == orig[out@.len() as int]);
        match build_torrent(raw, with_files) {
            Ok(t) => out.push(t),
            Err(e) => {
                assert(files_malformed(orig[out@.len() as int], with_files) || status_of(
                    orig[out@.len() as int].status,
                ) is None);
                return Err(e);
            },
        }
        assert(rest@ =~= orig.subrange(out@.len() as int, orig.len() as int));
    }
    Ok(out)
}

/// The one torrent of a reply to a request for `hash`: none is `TorrentNotFoundError`,
/// several are a protocol error.
pub fn single_torrent(torrents: Vec<Torrent>, hash: &str) -> (r: Result<Torrent, TransmissionClientError>)
    ensures
        torrents@.len() == 0 <==> (r matches Err(TransmissionClientError::Rpc(
            TransmissionRpcError::TorrentNotFoundError(h),
        )) && h@ == hash@),
        torrents@.len() > 1 <==> r matches Err(TransmissionClientError::Protocol(_)),
        torrents@.len() == 1 <==> r is Ok,
        r is Ok ==> r->Ok_0 == torrents@[0],
{
    let mut torrents = torrents;
    if torrents.len() == 0 {
        Err(
            TransmissionClientError::Rpc(
                TransmissionRpcError::TorrentNotFoundError(String::from_str(hash)),
            ),
        )
    } else if torrents.len() == 1 {
        let t = torrents.pop().unwrap();
        Ok(t)
    } else {
        Err(
            TransmissionClientError::Protocol(
                String::from_str("Got a few torrents when requested only one"),
            ),
        )
    }
}

// ----- the handshake and the checks on a reply -----
/// The status code the engine answers with when the request lacks its current session id.
pub const CONFLICT: u16 = 409;

pub const OK: u16 = 200;

/// How a header of a reply arrived.
#[derive(Debug, Clone, Copy, PartialEq, Eq, Structural)]
pub enum HeaderKind {
    Absent,
    Unreadable,
    Present,
}

/// Which sending of a request a reply answers.
#[derive(Debug, Clone, Copy, PartialEq, Eq, Structural)]
pub enum Attempt {
    First,
    Retry,
}

/// What to do with a reply once its status is known.
#[derive(Debug, Clone, Copy, PartialEq, Eq, Structural)]
pub enum Step {
    /// Store the session id the reply carries and send the request again.
    Resend,
    /// Go on to the reply's content.
    Accept,
    /// The call fails with a protocol error: a conflict without a usable session id.
    FailProtocol,
    /// The call fails with an internal error: a status other than success.
    FailInternal,
}

/// The step for a reply: a conflict on the first sending is answered by resending with the
/// session id the reply names, once; after that only success goes on.
pub open spec fn next_step(attempt: Attempt, status: u16, session_id: HeaderKind) -> Step {
    if status == CONFLICT && attempt == Attempt::First {
        if session_id == HeaderKind::Present {
            Step::Resend
        } else {
            Step::FailProtocol
        }
    } else if status == OK {
        Step::Accept
    } else {
        Step::FailInternal
    }
}

/// Decides what a reply's status calls for.
pub fn on_status(attempt: Attempt, status: u16, session_id: HeaderKind) -> (r: Step)
    ensures
        r == next_step(attempt, status, session_id),
{
    if status == CONFLICT && attempt == Attempt::First {
        if session_id == HeaderKind::Present {
            Step::Resend
        } else {
            Step::FailProtocol
        }
    } else if status == OK {
        Step::Accept
    } else {
        Step::FailInternal
    }
}

/// After a conflict has been answered by a resend, the reply to the resent request ends the
/// call: it succeeds on success and fails on any other status, a conflict included; it is
/// never resent again.
pub proof fn lemma_resend_once(first_status: u16, first_header: HeaderKind, status: u16, header: HeaderKind)
    requires
        next_step(Attempt::First, first_status, first_header) == Step::Resend,
    ensures
        first_status == CONFLICT,
        next_step(Attempt::Retry, status, header) != Step::Resend,
        next_step(Attempt::Retry, status, header) == Step::Accept <==> status == OK,
        status != OK ==> next_step(Attempt::Retry, status, header) == Step::FailInternal,
{
}

/// The error a failing step stands for.
pub fn step_error(step: Step, status: u16) -> (r: TransmissionClientError)
    requires
        step == Step::FailProtocol || step == Step::FailInternal,
    ensures
        step == Step::FailProtocol ==> r is Protocol,
        step == Step::FailInternal ==> (r matches TransmissionClientError::Internal(m) && m@
            == "Got "@ + decimal(status as nat) + " HTTP status code"@),
{
    if step == Step::FailProtocol {
        TransmissionClientError::Protocol(
            String::from_str("Got a conflict reply without a usable X-Transmission-Session-Id header"),
        )
    } else {
        let mut m = String::from_str("Got ");
        push_decimal(&mut m, status as u64);
        m.append(" HTTP status code");
        TransmissionClientError::Internal(m)
    }
}

/// The type and subtype that a `Content-Type` value parses to.
pub uninterp spec fn media_type_of(s: Seq<char>) -> Option<(Seq<char>, Seq<char>)>;

/// Relies on `mime::Mime`'s `FromStr`: it parses a media type, lower-casing its type and
/// subtype, as a function of the text alone.
#[verifier::external_body]
fn parse_media_type(s: &str) -> (r: Option<(String, String)>)
    ensures
        match r {
            Some((t, st)) => media_type_of(s@) == Some((t@, st@)),
            None => media_type_of(s@) is None,
        },
{
    s.parse::<mime::Mime>().ok().map(
        |m| (m.type_().as_str().to_string(), m.subtype().as_str().to_string()),
    )
}

/// Whether a parsed media type is JSON.
pub fn is_json_media_type(media_type: &str, subtype: &str) -> (r: bool)
    ensures
        r == (media_type@ == "application"@ && subtype@ == "json"@),
{
    same_text(media_type, "application") && same_text(subtype, "json")
}

/// Checks that a reply declares JSON content.
pub fn check_content_type(kind: HeaderKind, value: &str) -> (r: Result<(), TransmissionClientError>)
    ensures
        r is Ok <==> kind == HeaderKind::Present && media_type_of(value@) == Some(
            ("application"@, "json"@),
        ),
        r is Err ==> r->Err_0 is Protocol,
{
    if kind != HeaderKind::Present {
        return Err(
            TransmissionClientError::Protocol(
                String::from_str("Server returned a response without a readable Content-Type"),
            ),
        );
    }
    match parse_media_type(value) {
        Some((t, st)) => {
            if is_json_media_type(t.as_str(), st.as_str()) {
                Ok(())
            } else {
                Err(
                    TransmissionClientError::Protocol(
                        String::from_str("Server returned a response with an invalid content type"),
                    ),
                )
            }
        },
        None => Err(
            TransmissionClientError::Protocol(
                String::from_str("Server returned a response with an invalid content type"),
            ),
        ),
    }
}

/// Checks the envelope of a decoded reply: its `result` must be `success`, and a
/// successful reply must carry `arguments`.
pub fn check_reply(result: &str, has_arguments: bool) -> (r: Result<(), TransmissionClientError>)
    ensures
        result@ != "success"@ ==> (r matches Err(TransmissionClientError::Rpc(
            TransmissionRpcError::GeneralError(m),
        )) && m@ == result@),
        result@ == "success"@ && !has_arguments ==> r matches Err(
            TransmissionClientError::Protocol(_),
        ),
        result@ == "success"@ && has_arguments ==> r is Ok,
{
    if !same_text(result, "success") {
        return Err(
            TransmissionClientError::Rpc(TransmissionRpcError::GeneralError(String::from_str(result))),
        );
    }
    if !has_arguments {
        return Err(
            TransmissionClientError::Protocol(
                String::from_str("Got a successful reply without arguments"),
            ),
        );
    }
    Ok(())
}

} // verus!
