//! The stream fetcher's step functions: planning, range headers, chunk
//! accounting, throttling, probe parsing, and byte-exact resumption.

use bilidown::fetch;
use bilidown::probe;
use bilidown::record::Download;
use bilidown::record::DownloadProgress;
use bilidown::status::DownloadStatus;
use bilidown::DownloadError;

fn record(video_size: i64, audio_size: i64, downloaded: i64) -> Download {
    Download {
        id: 7,
        video_url: "http://example.com/v".to_string(),
        audio_url: "http://example.com/a".to_string(),
        file_name: "movie".to_string(),
        file_path: "/save/movie.mp4".to_string(),
        referer: "http://example.com".to_string(),
        total_size: video_size + audio_size,
        video_size,
        audio_size,
        downloaded_size: downloaded,
        status: DownloadStatus::Downloading,
        added_date: "2024-01-01".to_string(),
        last_updated_date: String::new(),
    }
}

#[test]
fn plan_fetches_video_first() {
    let d = record(300, 200, 100);
    let req = fetch::plan_next(&d).unwrap();
    assert_eq!(req.kind, fetch::StreamKind::Video);
    assert_eq!(req.url, "http://example.com/v");
    assert_eq!(req.start, 100);
    assert_eq!(req.end, 300);
    assert_eq!(req.target_path, "/save/movie_video.mp4");
}

#[test]
fn plan_moves_to_audio_at_the_boundary() {
    let d = record(300, 200, 300);
    let req = fetch::plan_next(&d).unwrap();
    assert_eq!(req.kind, fetch::StreamKind::Audio);
    assert_eq!(req.url, "http://example.com/a");
    // The audio offset discounts the whole video stream.
    assert_eq!(req.start, 0);
    assert_eq!(req.end, 200);
    assert_eq!(req.target_path, "/save/movie_audio.mp4");

    let d = record(300, 200, 450);
    let req = fetch::plan_next(&d).unwrap();
    assert_eq!(req.start, 150);
}

#[test]
fn plan_single_stream_uses_target_path_itself() {
    let d = record(300, 0, 0);
    let req = fetch::plan_next(&d).unwrap();
    assert_eq!(req.kind, fetch::StreamKind::Video);
    assert_eq!(req.target_path, "/save/movie.mp4");

    let mut d = record(0, 200, 0);
    d.video_url = String::new();
    let req = fetch::plan_next(&d).unwrap();
    assert_eq!(req.kind, fetch::StreamKind::Audio);
    assert_eq!(req.target_path, "/save/movie.mp4");
}

#[test]
fn plan_finished_download_is_none() {
    assert!(fetch::plan_next(&record(300, 200, 500)).is_none());
    assert!(fetch::plan_next(&record(0, 0, 0)).is_none());
}

#[test]
fn range_header_formats_offsets() {
    assert_eq!(fetch::range_header(0, 100), "bytes=0-100");
    assert_eq!(fetch::range_header(100000, 500000), "bytes=100000-500000");
    assert_eq!(fetch::range_header(0, 0), "bytes=0-0");
    assert_eq!(
        fetch::range_header(i64::MAX, i64::MAX),
        "bytes=9223372036854775807-9223372036854775807"
    );
}

#[test]
fn chunks_advance_the_checkpoint() {
    let mut d = record(300, 200, 0);
    assert_eq!(fetch::apply_chunk(&mut d, 120), Ok(()));
    assert_eq!(d.downloaded_size, 120);
    assert_eq!(fetch::apply_chunk(&mut d, 380), Ok(()));
    assert_eq!(d.downloaded_size, 500);
    // The remote may not hand out more bytes than were asked for.
    assert_eq!(fetch::apply_chunk(&mut d, 1), Err(DownloadError::Network));
    assert_eq!(d.downloaded_size, 500);
}

#[test]
fn throttle_allows_one_emission_per_interval() {
    let mut t = fetch::ProgressThrottle::new(0);
    assert!(!t.should_emit(999));
    assert!(t.should_emit(1000));
    assert!(!t.should_emit(1500));
    assert!(!t.should_emit(1999));
    assert!(t.should_emit(2100));
    assert!(!t.should_emit(2100));
}

#[test]
fn content_range_parses_the_total() {
    assert_eq!(probe::parse_content_range("bytes 0-100/500000"), Ok(500000));
    assert_eq!(probe::parse_content_range("bytes 0-0/1"), Ok(1));
    assert_eq!(probe::parse_content_range("/0"), Ok(0));
}

#[test]
fn content_range_rejects_malformed_headers() {
    let bad = Err(DownloadError::SizeProbe);
    assert_eq!(probe::parse_content_range("bytes 0-100"), bad);
    assert_eq!(probe::parse_content_range(""), bad);
    assert_eq!(probe::parse_content_range("bytes 0-100/"), bad);
    assert_eq!(probe::parse_content_range("bytes 0-100/12a3"), bad);
    assert_eq!(probe::parse_content_range("bytes 0-100/-42"), bad);
    assert_eq!(
        probe::parse_content_range("bytes 0-100/9999999999999999999"),
        bad
    );
}

#[test]
fn stream_target_tags_only_the_container_extension() {
    assert_eq!(
        fetch::stream_target("/save/movie.mp4", "_video"),
        "/save/movie_video.mp4"
    );
    assert_eq!(fetch::stream_target("/save/movie.mkv", "_video"), "/save/movie.mkv");
    assert_eq!(fetch::stream_target("a.mp4", "_audio"), "a_audio.mp4");
}

#[test]
fn merge_result_mirrors_the_muxer() {
    assert_eq!(fetch::merge_result(true), Ok(()));
    assert_eq!(fetch::merge_result(false), Err(DownloadError::Merge));
}

#[test]
fn resumed_fetch_is_byte_identical() {
    let remote: Vec<u8> = (0u8..200u8).collect();
    // One uninterrupted fetch, chunked arbitrarily.
    let mut whole: Vec<u8> = Vec::new();
    let chunks = vec![remote[0..37].to_vec(), remote[37..122].to_vec(), remote[122..200].to_vec()];
    fetch::write_stream(&mut whole, &chunks);

    // Fetch [0, 80), pause, resume [80, 200).
    let mut resumed: Vec<u8> = Vec::new();
    let first = vec![remote[0..50].to_vec(), remote[50..80].to_vec()];
    fetch::write_stream(&mut resumed, &first);
    assert_eq!(resumed.len(), 80);
    let second = vec![remote[80..199].to_vec(), remote[199..200].to_vec()];
    fetch::write_stream(&mut resumed, &second);

    assert_eq!(whole, remote);
    assert_eq!(resumed, whole);
}

#[test]
fn progress_events_carry_checkpoint_total_or_sentinel() {
    let d = record(300, 200, 130);
    let running = DownloadProgress::running(&d);
    assert_eq!(running.id, 7);
    assert_eq!(running.chunk_length, 130);
    let done = DownloadProgress::completed(&d);
    assert_eq!(done.chunk_length, 500);
    let failed = DownloadProgress::failed(9);
    assert_eq!(failed.id, 9);
    assert_eq!(failed.chunk_length, -1);
}

#[test]
fn status_strings_round_trip() {
    for st in [
        DownloadStatus::Downloading,
        DownloadStatus::Paused,
        DownloadStatus::Completed,
        DownloadStatus::Failed,
    ] {
        assert_eq!(DownloadStatus::parse(st.as_str()), Some(st));
    }
    assert_eq!(DownloadStatus::Downloading.as_str(), "downloading");
    assert_eq!(DownloadStatus::Paused.as_str(), "paused");
    assert_eq!(DownloadStatus::Completed.as_str(), "completed");
    assert_eq!(DownloadStatus::Failed.as_str(), "failed");
    assert_eq!(DownloadStatus::parse("queued"), None);
    assert_eq!(DownloadStatus::parse(""), None);
}

#[test]
fn to_params_flattens_in_column_order() {
    let d = record(300, 200, 100);
    let p = d.to_params();
    assert_eq!(p.0, "http://example.com/v");
    assert_eq!(p.1, "http://example.com/a");
    assert_eq!(p.2, "movie");
    assert_eq!(p.3, "/save/movie.mp4");
    assert_eq!(p.4, "http://example.com");
    assert_eq!(p.5, 300);
    assert_eq!(p.6, 200);
    assert_eq!(p.7, 500);
    assert_eq!(p.8, 100);
    assert_eq!(p.9, "downloading");
    assert_eq!(p.10, "2024-01-01");
}
