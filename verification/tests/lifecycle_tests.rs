//! Lifecycle scenarios against the download manager: add, start, stop,
//! delete, recovery, completion and failure.

use bilidown::manager::DownloadManager;
use bilidown::record::Download;
use bilidown::status::DownloadStatus;
use bilidown::DownloadError;

fn spec_record(video_size: i64, audio_size: i64, downloaded: i64, name: &str) -> Download {
    Download {
        id: 0,
        video_url: "http://example.com/v".to_string(),
        audio_url: "http://example.com/a".to_string(),
        file_name: name.to_string(),
        file_path: String::new(),
        referer: "http://example.com".to_string(),
        total_size: 0,
        video_size,
        audio_size,
        downloaded_size: downloaded,
        status: DownloadStatus::Downloading,
        added_date: "2024-01-01".to_string(),
        last_updated_date: String::new(),
    }
}

#[test]
fn add_assigns_ids_and_resolves_path() {
    let mut m = DownloadManager::new();
    let occupied: Vec<String> = Vec::new();
    let id = m
        .add_download_file(spec_record(300, 200, 0, "movie"), "/save", &occupied)
        .unwrap();
    assert_eq!(id, 1);
    let rec = m.get_download_file(id).unwrap();
    assert_eq!(rec.file_path, "/save/movie.mp4");
    assert_eq!(rec.total_size, 500);
    assert_eq!(rec.status, DownloadStatus::Downloading);

    let id2 = m
        .add_download_file(spec_record(10, 0, 0, "other"), "/save", &occupied)
        .unwrap();
    assert_eq!(id2, 2);
}

#[test]
fn add_avoids_occupied_paths() {
    let mut m = DownloadManager::new();
    let occupied = vec!["/save/movie.mp4".to_string(), "/save/movie(1).mp4".to_string()];
    let id = m
        .add_download_file(spec_record(100, 0, 0, "movie"), "/save", &occupied)
        .unwrap();
    let rec = m.get_download_file(id).unwrap();
    assert_eq!(rec.file_path, "/save/movie(2).mp4");
}

#[test]
fn add_rejects_inconsistent_sizes() {
    let mut m = DownloadManager::new();
    let occupied: Vec<String> = Vec::new();
    let r = m.add_download_file(spec_record(-5, 0, 0, "bad"), "/save", &occupied);
    assert_eq!(r, Err(DownloadError::InvalidRecord));
    let r = m.add_download_file(spec_record(100, 0, 101, "bad"), "/save", &occupied);
    assert_eq!(r, Err(DownloadError::InvalidRecord));
    assert!(m.get_all_downloading_files().is_empty());
}

#[test]
fn start_twice_reports_already_running() {
    let mut m = DownloadManager::new();
    let occupied: Vec<String> = Vec::new();
    let id = m
        .add_download_file(spec_record(100, 0, 0, "movie"), "/save", &occupied)
        .unwrap();
    assert_eq!(m.start_downloading(id), Ok(()));
    assert!(m.registry.is_running(id));
    // The second launch is refused and no second fetch task appears.
    assert_eq!(m.start_downloading(id), Err(DownloadError::AlreadyRunning));
    assert!(m.registry.is_running(id));
    assert_eq!(
        m.get_download_file(id).unwrap().status,
        DownloadStatus::Downloading
    );
}

#[test]
fn start_unknown_id_reports_not_found() {
    let mut m = DownloadManager::new();
    assert_eq!(m.start_downloading(42), Err(DownloadError::NotFound));
}

#[test]
fn stop_unregistered_leaves_status_alone() {
    let mut m = DownloadManager::new();
    let occupied: Vec<String> = Vec::new();
    let id = m
        .add_download_file(spec_record(100, 0, 0, "movie"), "/save", &occupied)
        .unwrap();
    // Not started: stopping is NotFound and the persisted status stays.
    assert_eq!(m.stop_downloading(id), Err(DownloadError::NotFound));
    assert_eq!(
        m.get_download_file(id).unwrap().status,
        DownloadStatus::Downloading
    );
    assert_eq!(m.stop_downloading(777), Err(DownloadError::NotFound));
}

#[test]
fn stop_running_persists_paused() {
    let mut m = DownloadManager::new();
    let occupied: Vec<String> = Vec::new();
    let id = m
        .add_download_file(spec_record(100, 0, 0, "movie"), "/save", &occupied)
        .unwrap();
    m.start_downloading(id).unwrap();
    assert_eq!(m.stop_downloading(id), Ok(()));
    assert!(!m.registry.is_running(id));
    assert_eq!(m.get_download_file(id).unwrap().status, DownloadStatus::Paused);
}

#[test]
fn start_resumes_paused_record() {
    let mut m = DownloadManager::new();
    let occupied: Vec<String> = Vec::new();
    let id = m
        .add_download_file(spec_record(100, 0, 0, "movie"), "/save", &occupied)
        .unwrap();
    m.start_downloading(id).unwrap();
    m.stop_downloading(id).unwrap();
    m.start_downloading(id).unwrap();
    assert_eq!(
        m.get_download_file(id).unwrap().status,
        DownloadStatus::Downloading
    );
}

#[test]
fn delete_running_task_removes_record() {
    let mut m = DownloadManager::new();
    let occupied: Vec<String> = Vec::new();
    let id = m
        .add_download_file(spec_record(100, 0, 0, "movie"), "/save", &occupied)
        .unwrap();
    m.start_downloading(id).unwrap();
    assert_eq!(m.delete_download_file(id), Ok(()));
    assert!(!m.registry.is_running(id));
    assert!(matches!(m.get_download_file(id), Err(DownloadError::NotFound)));
}

#[test]
fn delete_unknown_id_reports_not_found() {
    let mut m = DownloadManager::new();
    assert_eq!(m.delete_download_file(5), Err(DownloadError::NotFound));
}

#[test]
fn complete_sets_full_checkpoint_and_emits_total() {
    let mut m = DownloadManager::new();
    let occupied: Vec<String> = Vec::new();
    let id = m
        .add_download_file(spec_record(300, 200, 0, "movie"), "/save", &occupied)
        .unwrap();
    m.start_downloading(id).unwrap();
    let ev = m.complete_download(id).unwrap();
    assert_eq!(ev.id, id);
    assert_eq!(ev.chunk_length, 500);
    let rec = m.get_download_file(id).unwrap();
    assert_eq!(rec.status, DownloadStatus::Completed);
    assert_eq!(rec.downloaded_size, rec.total_size);
    assert!(!m.registry.is_running(id));
}

#[test]
fn fail_emits_sentinel_and_keeps_checkpoint() {
    let mut m = DownloadManager::new();
    let occupied: Vec<String> = Vec::new();
    let id = m
        .add_download_file(spec_record(300, 0, 120, "movie"), "/save", &occupied)
        .unwrap();
    m.start_downloading(id).unwrap();
    let ev = m.fail_download(id).unwrap();
    assert_eq!(ev.id, id);
    assert_eq!(ev.chunk_length, -1);
    let rec = m.get_download_file(id).unwrap();
    assert_eq!(rec.status, DownloadStatus::Failed);
    assert_eq!(rec.downloaded_size, 120);
}

#[test]
fn recovery_restarts_active_records() {
    let mut m = DownloadManager::new();
    let occupied: Vec<String> = Vec::new();
    let id1 = m
        .add_download_file(spec_record(500000, 0, 100000, "interrupted"), "/save", &occupied)
        .unwrap();
    let id2 = m
        .add_download_file(spec_record(100, 0, 0, "done"), "/save", &occupied)
        .unwrap();
    let id3 = m
        .add_download_file(spec_record(100, 0, 40, "paused"), "/save", &occupied)
        .unwrap();
    m.start_downloading(id2).unwrap();
    m.complete_download(id2).unwrap();
    m.start_downloading(id3).unwrap();
    m.stop_downloading(id3).unwrap();

    // Simulate a restart: nothing is registered, the table survives.
    let started = m.check_download_init();
    assert_eq!(started, vec![id1, id3]);
    assert!(m.registry.is_running(id1));
    assert!(!m.registry.is_running(id2));
    assert!(m.registry.is_running(id3));
    assert_eq!(
        m.get_download_file(id3).unwrap().status,
        DownloadStatus::Downloading
    );

    // The recovered task resumes from its persisted checkpoint.
    let rec = m.get_download_file(id1).unwrap();
    let req = bilidown::fetch::plan_next(&rec).unwrap();
    assert_eq!(req.start, 100000);
    assert_eq!(req.end, 500000);
    assert_eq!(
        bilidown::fetch::range_header(req.start, req.end),
        "bytes=100000-500000"
    );

    // Drive it to completion.
    let mut rec = m.get_download_file(id1).unwrap();
    bilidown::fetch::apply_chunk(&mut rec, 400000).unwrap();
    m.update_download_file(&rec).unwrap();
    let ev = m.complete_download(id1).unwrap();
    assert_eq!(ev.chunk_length, 500000);
    assert_eq!(
        m.get_download_file(id1).unwrap().status,
        DownloadStatus::Completed
    );
}

#[test]
fn end_to_end_probe_add_complete_merge() {
    // A two-stream item whose sizes are unknown until probed.
    let mut d = spec_record(0, 0, 0, "movie");
    let (probe_video, probe_audio) = d.probe_plan();
    assert!(probe_video);
    assert!(probe_audio);
    d.video_size = bilidown::probe::parse_content_range("bytes 0-100/500000").unwrap();
    d.audio_size = bilidown::probe::parse_content_range("bytes 0-100/100000").unwrap();
    assert_eq!(d.video_size, 500000);

    let mut m = DownloadManager::new();
    let occupied: Vec<String> = Vec::new();
    let id = m.add_download_file(d, "/save", &occupied).unwrap();
    let rec = m.get_download_file(id).unwrap();
    assert_eq!(rec.video_size, 500000);
    assert_eq!(rec.total_size, 600000);

    m.start_downloading(id).unwrap();
    assert!(rec.needs_merge());
    let (video_file, audio_file) = bilidown::fetch::merge_targets(&rec);
    assert_eq!(video_file, "/save/movie_video.mp4");
    assert_eq!(audio_file, "/save/movie_audio.mp4");
    assert_eq!(bilidown::fetch::merge_result(true), Ok(()));

    let ev = m.complete_download(id).unwrap();
    assert_eq!(ev.chunk_length, 600000);
    let rec = m.get_download_file(id).unwrap();
    assert_eq!(rec.downloaded_size, rec.total_size);
}

#[test]
fn listing_splits_by_status() {
    let mut m = DownloadManager::new();
    let occupied: Vec<String> = Vec::new();
    let id1 = m
        .add_download_file(spec_record(10, 0, 0, "one"), "/save", &occupied)
        .unwrap();
    let id2 = m
        .add_download_file(spec_record(10, 0, 0, "two"), "/save", &occupied)
        .unwrap();
    let id3 = m
        .add_download_file(spec_record(10, 0, 0, "three"), "/save", &occupied)
        .unwrap();
    m.start_downloading(id2).unwrap();
    m.complete_download(id2).unwrap();
    m.start_downloading(id3).unwrap();
    m.stop_downloading(id3).unwrap();

    let active: Vec<i32> = m.get_all_downloading_files().iter().map(|d| d.id).collect();
    assert_eq!(active, vec![id1, id3]);
    let done: Vec<i32> = m.get_all_downloaded_files().iter().map(|d| d.id).collect();
    assert_eq!(done, vec![id2]);
}

#[test]
fn search_matches_name_substrings() {
    let mut m = DownloadManager::new();
    let occupied: Vec<String> = Vec::new();
    m.add_download_file(spec_record(10, 0, 0, "naruto episode 1"), "/save", &occupied)
        .unwrap();
    m.add_download_file(spec_record(10, 0, 0, "bleach episode 2"), "/save", &occupied)
        .unwrap();
    let hits: Vec<String> = m
        .search_downloads("ruto")
        .iter()
        .map(|d| d.file_name.clone())
        .collect();
    assert_eq!(hits, vec!["naruto episode 1".to_string()]);
    assert_eq!(m.search_downloads("episode").len(), 2);
    assert_eq!(m.search_downloads("nothing").len(), 0);
}

#[test]
fn update_download_file_checks_record() {
    let mut m = DownloadManager::new();
    let occupied: Vec<String> = Vec::new();
    let id = m
        .add_download_file(spec_record(100, 0, 0, "movie"), "/save", &occupied)
        .unwrap();
    let mut rec = m.get_download_file(id).unwrap();
    rec.downloaded_size = 60;
    assert_eq!(m.update_download_file(&rec), Ok(()));
    assert_eq!(m.get_download_file(id).unwrap().downloaded_size, 60);

    // A checkpoint beyond the total cannot be persisted.
    rec.downloaded_size = 101;
    assert_eq!(m.update_download_file(&rec), Err(DownloadError::InvalidRecord));

    // A well-formed record for an unknown id is NotFound.
    let mut stray = spec_record(10, 0, 0, "stray");
    stray.id = 999;
    stray.total_size = 10;
    assert_eq!(m.update_download_file(&stray), Err(DownloadError::NotFound));
}

#[test]
fn gate_bounds_simultaneous_transfers() {
    let mut m = DownloadManager::new();
    assert_eq!(m.gate.capacity(), 3);
    // Ten queued tasks ask for permits; only three are out at any instant.
    let mut granted = 0;
    for _ in 0..10 {
        if m.gate.try_acquire() {
            granted += 1;
        }
        assert!(m.gate.active_transfers() <= 3);
    }
    assert_eq!(granted, 3);
    assert_eq!(m.gate.active_transfers(), 3);
    // A finished transfer hands its permit to the next task.
    m.gate.release();
    assert_eq!(m.gate.active_transfers(), 2);
    assert!(m.gate.try_acquire());
    assert!(!m.gate.try_acquire());
}

#[test]
fn restore_keeps_id_status_and_checkpoint() {
    let mut m = DownloadManager::new();
    let mut d = spec_record(500000, 0, 100000, "interrupted");
    d.id = 10;
    d.total_size = 500000;
    d.status = DownloadStatus::Paused;
    d.file_path = "/save/interrupted.mp4".to_string();
    m.restore_record(d).unwrap();
    let rec = m.get_download_file(10).unwrap();
    assert_eq!(rec.downloaded_size, 100000);
    assert_eq!(rec.status, DownloadStatus::Paused);

    // Duplicate ids are refused.
    let mut dup = spec_record(10, 0, 0, "dup");
    dup.id = 10;
    dup.total_size = 10;
    assert_eq!(m.restore_record(dup), Err(DownloadError::InvalidRecord));

    // Later records get ids above the restored one.
    let occupied: Vec<String> = Vec::new();
    let id = m
        .add_download_file(spec_record(5, 0, 0, "next"), "/save", &occupied)
        .unwrap();
    assert_eq!(id, 11);
}
