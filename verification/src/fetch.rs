//! The stream fetcher's verified half: deciding what to fetch next,
//! building the range request, accounting fetched chunks against the
//! checkpoint, throttling progress emission, and the byte-exactness of
//! resumption.
//!
//! The caller performs the actual HTTP transfer and file writes; every
//! result it observes is fed back through these step functions, which are
//! verified for every possible outcome.

use vstd::prelude::*;

use crate::errors::DownloadError;
use crate::record::Download;
use crate::text::dec_digits;
use crate::text::u64_to_string;

verus! {

/// Milliseconds between two progress emissions for one task.
pub const PROGRESS_INTERVAL_MS: u64 = 1000;

/// Which of the two streams a request fetches.
#[derive(Clone, Copy, Debug, PartialEq, Eq, Structural)]
pub enum StreamKind {
    Video,
    Audio,
}

/// One planned range fetch: where to ask, from which offset within the
/// stream, and into which file.
pub struct StreamRequest {
    pub kind: StreamKind,
    /// Source URL of the stream.
    pub url: String,
    /// Referer header value to send.
    pub referer: String,
    /// First byte offset within the stream still to fetch.
    pub start: i64,
    /// The stream's size: the upper bound written into the range header.
    pub end: i64,
    /// The file the stream is written into.
    pub target_path: String,
}

/// `s` ends with `suffix`.
pub open spec fn ends_with(s: Seq<char>, suffix: Seq<char>) -> bool {
    s.len() >= suffix.len() && s.subrange(s.len() - suffix.len(), s.len() as int) == suffix
}

/// The per-stream file name: `tag` spliced in front of a final `.mp4`
/// extension; a path without that extension is left as it is.
pub open spec fn with_stream_tag(path: Seq<char>, tag: Seq<char>) -> Seq<char> {
    if ends_with(path, ".mp4"@) {
        path.subrange(0, path.len() - 4) + tag + ".mp4"@
    } else {
        path
    }
}

/// Where the video stream is written: a `*_video` intermediate when both
/// streams exist and must be merged later, the target path itself
/// otherwise.
pub open spec fn video_target(d: Download) -> Seq<char> {
    if d.video_size != 0 && d.audio_size != 0 {
        with_stream_tag(d.file_path@, "_video"@)
    } else {
        d.file_path@
    }
}

/// Where the audio stream is written; the counterpart of `video_target`.
pub open spec fn audio_target(d: Download) -> Seq<char> {
    if d.video_size != 0 && d.audio_size != 0 {
        with_stream_tag(d.file_path@, "_audio"@)
    } else {
        d.file_path@
    }
}

/// The video stream exists and the checkpoint has not covered it yet.
/// Video is always fetched first.
pub open spec fn video_pending(d: Download) -> bool {
    d.video_size != 0 && d.downloaded_size < d.video_size
}

/// The audio stream exists and bytes beyond the video stream remain;
/// consulted once the video stream is done.
pub open spec fn audio_pending(d: Download) -> bool {
    d.audio_size != 0 && d.downloaded_size < d.total_size
}

/// Splices `tag` in front of a final `.mp4` extension of `path`.
pub fn stream_target(path: &str, tag: &str) -> (r: String)
    ensures
        r@ == with_stream_tag(path@, tag@),
{
    let len = path.unicode_len();
    proof {
        reveal_strlit(".mp4");
    }
    let tagged = len >= 4 && path.get_char(len - 4) == '.' && path.get_char(len - 3) == 'm'
        && path.get_char(len - 2) == 'p' && path.get_char(len - 1) == '4';
    if tagged {
        proof {
            assert(path@.subrange(len - 4, len as int) =~= ".mp4"@);
        }
        let mut out = String::from_str(path.substring_char(0, len - 4));
        out.append(tag);
        out.append(".mp4");
        out
    } else {
        proof {
            if len >= 4 && path@.subrange(len - 4, len as int) == ".mp4"@ {
                assert(path@.subrange(len - 4, len as int)[0] == path@[len - 4]);
                assert(path@.subrange(len - 4, len as int)[1] == path@[len - 3]);
                assert(path@.subrange(len - 4, len as int)[2] == path@[len - 2]);
                assert(path@.subrange(len - 4, len as int)[3] == path@[len - 1]);
            }
        }
        String::from_str(path)
    }
}

/// Decides the next stream fetch for `d`: the unfinished video stream
/// first, then the unfinished audio stream, `None` when nothing remains.
/// The request's offsets are relative to the stream: the audio stream's
/// offset discounts the whole video stream, so a recovered checkpoint
/// resumes exactly where it stopped.
pub fn plan_next(d: &Download) -> (r: Option<StreamRequest>)
    requires
        d.sizes_valid(),
    ensures
        match r {
            Some(req) => if video_pending(*d) {
                &&& req.kind == StreamKind::Video
                &&& req.url@ == d.video_url@
                &&& req.referer@ == d.referer@
                &&& req.start == d.downloaded_size
                &&& req.end == d.video_size
                &&& req.target_path@ == video_target(*d)
            } else {
                &&& audio_pending(*d)
                &&& req.kind == StreamKind::Audio
                &&& req.url@ == d.audio_url@
                &&& req.referer@ == d.referer@
                &&& req.start == d.downloaded_size - d.video_size
                &&& req.end == d.audio_size
                &&& req.target_path@ == audio_target(*d)
            },
            None => !video_pending(*d) && !audio_pending(*d),
        },
{
    let both = d.video_size != 0 && d.audio_size != 0;
    if d.video_size != 0 && d.downloaded_size < d.video_size {
        let target_path = if both {
            stream_target(d.file_path.as_str(), "_video")
        } else {
            d.file_path.clone()
        };
        Some(
            StreamRequest {
                kind: StreamKind::Video,
                url: d.video_url.clone(),
                referer: d.referer.clone(),
                start: d.downloaded_size,
                end: d.video_size,
                target_path,
            },
        )
    } else if d.audio_size != 0 && d.downloaded_size < d.total_size {
        let target_path = if both {
            stream_target(d.file_path.as_str(), "_audio")
        } else {
            d.file_path.clone()
        };
        Some(
            StreamRequest {
                kind: StreamKind::Audio,
                url: d.audio_url.clone(),
                referer: d.referer.clone(),
                start: d.downloaded_size - d.video_size,
                end: d.audio_size,
                target_path,
            },
        )
    } else {
        None
    }
}

/// The range header line for a resumed fetch, exactly
/// `bytes=<start>-<end>`.
pub open spec fn range_header_spec(start: int, end: int) -> Seq<char> {
    "bytes="@ + dec_digits(start as nat) + "-"@ + dec_digits(end as nat)
}

/// Builds the range header value for a request.
pub fn range_header(start: i64, end: i64) -> (r: String)
    requires
        0 <= start,
        0 <= end,
    ensures
        r@ == range_header_spec(start as int, end as int),
{
    let mut out = String::from_str("bytes=");
    let start_digits = u64_to_string(start as u64);
    out.append(start_digits.as_str());
    out.append("-");
    let end_digits = u64_to_string(end as u64);
    out.append(end_digits.as_str());
    out
}

/// Accounts one received chunk against the checkpoint: the checkpoint
/// advances by the chunk's length and never beyond the total.  A chunk
/// that would overrun the total is refused as a network error and changes
/// nothing — the remote sent more than was asked for.
pub fn apply_chunk(d: &mut Download, chunk_len: usize) -> (r: Result<(), DownloadError>)
    requires
        old(d).sizes_valid(),
    ensures
        final(d).sizes_valid(),
        final(d).downloaded_size >= old(d).downloaded_size,
        match r {
            Ok(()) => chunk_len <= old(d).total_size - old(d).downloaded_size && *final(d)
                == (Download {
                downloaded_size: (old(d).downloaded_size + chunk_len) as i64,
                ..*old(d)
            }),
            Err(e) => e == DownloadError::Network && chunk_len > old(d).total_size
                - old(d).downloaded_size && *final(d) == *old(d),
        },
{
    let remaining = d.total_size - d.downloaded_size;
    if chunk_len as u64 > remaining as u64 {
        return Err(DownloadError::Network);
    }
    d.downloaded_size = d.downloaded_size + chunk_len as i64;
    Ok(())
}

/// Rate limiter for progress events: at most one emission per rolling
/// interval.
pub struct ProgressThrottle {
    last_emit_ms: u64,
}

impl ProgressThrottle {
    /// When the last emission happened.
    pub closed spec fn last_emit_spec(self) -> u64 {
        self.last_emit_ms
    }

    /// A throttle that counts from `now_ms`.
    pub fn new(now_ms: u64) -> (t: ProgressThrottle)
        ensures
            t.last_emit_spec() == now_ms,
    {
        ProgressThrottle { last_emit_ms: now_ms }
    }

    /// Decides whether to emit at `now_ms`: yes exactly when a full
    /// interval has passed since the last emission, and then the clock
    /// restarts at `now_ms`.
    pub fn should_emit(&mut self, now_ms: u64) -> (r: bool)
        ensures
            r == (old(self).last_emit_spec() + PROGRESS_INTERVAL_MS <= now_ms),
            r ==> final(self).last_emit_spec() == now_ms,
            !r ==> final(self).last_emit_spec() == old(self).last_emit_spec(),
    {
        if now_ms >= PROGRESS_INTERVAL_MS && now_ms - PROGRESS_INTERVAL_MS >= self.last_emit_ms {
            self.last_emit_ms = now_ms;
            true
        } else {
            false
        }
    }
}

/// The bytes carried by a sequence of received chunks, in arrival order.
pub open spec fn chunks_bytes(chunks: Seq<Vec<u8>>) -> Seq<u8> {
    chunks.map_values(|c: Vec<u8>| c@).flatten()
}

/// Appends one received chunk to the target file's contents, in order,
/// nothing lost and nothing reordered.
pub fn append_fetched_chunk(file: &mut Vec<u8>, chunk: &[u8])
    ensures
        final(file)@ == old(file)@ + chunk@,
{
    file.extend_from_slice(chunk);
}

/// Writes a whole received stream into the file: chunks are appended in
/// arrival order, so the file grows by exactly the received bytes.
pub fn write_stream(file: &mut Vec<u8>, chunks: &Vec<Vec<u8>>)
    ensures
        final(file)@ == old(file)@ + chunks_bytes(chunks@),
{
    let n = chunks.len();
    let mut i: usize = 0;
    while i < n
        invariant
            n == chunks@.len(),
            0 <= i <= n,
            file@ == old(file)@ + chunks_bytes(chunks@.take(i as int)),
        decreases n - i,
    {
        proof {
            broadcast use Seq::lemma_flatten_push;

            let f = |c: Vec<u8>| c@;
            assert(chunks@.take(i + 1).map_values(f) =~= chunks@.take(i as int).map_values(
                f,
            ).push(chunks@[i as int]@));
        }
        append_fetched_chunk(file, chunks[i].as_slice());
        i = i + 1;
    }
    proof {
        assert(chunks@.take(n as int) =~= chunks@);
    }
}

/// The two intermediate files a finished two-stream download merges:
/// the `*_video` and `*_audio` companions of the target path.
pub fn merge_targets(d: &Download) -> (r: (String, String))
    ensures
        r.0@ == with_stream_tag(d.file_path@, "_video"@),
        r.1@ == with_stream_tag(d.file_path@, "_audio"@),
{
    (
        stream_target(d.file_path.as_str(), "_video"),
        stream_target(d.file_path.as_str(), "_audio"),
    )
}

/// Folds the external muxer's verdict into the fetch outcome: the merge
/// step succeeds exactly when the muxer reported success, and a refusal
/// is a merge error.
pub fn merge_result(muxer_ok: bool) -> (r: Result<(), DownloadError>)
    ensures
        r is Ok <==> muxer_ok,
        !muxer_ok ==> r == Err::<(), DownloadError>(DownloadError::Merge),
{
    if muxer_ok {
        Ok(())
    } else {
        Err(DownloadError::Merge)
    }
}

/// Resume correctness: pausing after byte `k` and resuming yields a file
/// byte-identical to one uninterrupted fetch.  The first session fetches
/// `[0, k)` of the remote bytes, the resumed session appends `[k, n)`;
/// together they are exactly the single fetch `[0, n)`.
pub proof fn lemma_resume_byte_identical(remote: Seq<u8>, k: int, n: int)
    requires
        0 <= k <= n <= remote.len(),
    ensures
        remote.subrange(0, k) + remote.subrange(k, n) == remote.subrange(0, n),
{
    assert(remote.subrange(0, k) + remote.subrange(k, n) =~= remote.subrange(0, n));
}

} // verus!
