//! Path resolution, text helpers, the response envelope, and the
//! configuration defaults.

use bilidown::config;
use bilidown::gate::Gate;
use bilidown::path;
use bilidown::record::Download;
use bilidown::registry::Registry;
use bilidown::status::DownloadStatus;
use bilidown::store::Store;
use bilidown::text;
use bilidown::utils;
use bilidown::DownloadError;

#[test]
fn path_join_inserts_one_separator() {
    assert_eq!(path::get_path_str("/save", "movie.mp4"), "/save/movie.mp4");
    assert_eq!(path::get_path_str("/save/", "movie.mp4"), "/save/movie.mp4");
    assert_eq!(path::get_path_str("", "movie.mp4"), "movie.mp4");
}

#[test]
fn path_join_walks_all_components() {
    let args = vec!["sub".to_string(), "movie.mp4".to_string()];
    assert_eq!(path::get_path_absolute("/save", &args), "/save/sub/movie.mp4");
    let none: Vec<String> = Vec::new();
    assert_eq!(path::get_path_absolute("/save", &none), "/save");
}

#[test]
fn unique_path_returns_free_original() {
    let occupied: Vec<String> = Vec::new();
    assert_eq!(
        path::get_unique_file_path("/save/movie.mp4", &occupied),
        "/save/movie.mp4"
    );
}

#[test]
fn unique_path_numbers_collisions_before_the_extension() {
    let occupied = vec!["/save/movie.mp4".to_string()];
    assert_eq!(
        path::get_unique_file_path("/save/movie.mp4", &occupied),
        "/save/movie(1).mp4"
    );
    let occupied = vec![
        "/save/movie.mp4".to_string(),
        "/save/movie(1).mp4".to_string(),
        "/save/movie(2).mp4".to_string(),
    ];
    assert_eq!(
        path::get_unique_file_path("/save/movie.mp4", &occupied),
        "/save/movie(3).mp4"
    );
}

#[test]
fn unique_path_without_extension_appends_the_number() {
    let occupied = vec!["/save/movie".to_string()];
    assert_eq!(
        path::get_unique_file_path("/save/movie", &occupied),
        "/save/movie(1)"
    );
}

#[test]
fn str_eq_compares_characters() {
    assert!(text::str_eq("paused", "paused"));
    assert!(!text::str_eq("paused", "pause"));
    assert!(!text::str_eq("paused", "failed"));
    assert!(text::str_eq("", ""));
}

#[test]
fn contains_str_finds_substrings() {
    assert!(text::contains_str("naruto episode 1", "ruto"));
    assert!(text::contains_str("abc", ""));
    assert!(text::contains_str("abc", "abc"));
    assert!(!text::contains_str("abc", "abcd"));
    assert!(!text::contains_str("abc", "x"));
}

#[test]
fn decimal_rendering_is_exact() {
    assert_eq!(text::u64_to_string(0), "0");
    assert_eq!(text::u64_to_string(7), "7");
    assert_eq!(text::u64_to_string(100000), "100000");
    assert_eq!(text::u64_to_string(u64::MAX), "18446744073709551615");
}

#[test]
fn response_marks_ok_exactly_on_empty_error() {
    let ok = utils::create_res(5i64, String::new());
    assert_eq!(ok.status().as_str(), "ok");
    assert_eq!(*ok.data(), 5);
    assert_eq!(ok.err().as_str(), "");

    let err = utils::create_res(5i64, "boom".to_string());
    assert_eq!(err.status().as_str(), "err");
    assert_eq!(err.err().as_str(), "boom");

    let ok = utils::create_res_ok("payload".to_string());
    assert_eq!(ok.status().as_str(), "ok");
    assert_eq!(ok.data().as_str(), "payload");
    assert_eq!(ok.err().as_str(), "");

    let err = utils::create_res_err("load config failed".to_string());
    assert_eq!(err.status().as_str(), "err");
    assert_eq!(err.data().as_str(), "");
    assert_eq!(err.err().as_str(), "load config failed");
}

#[test]
fn default_config_values() {
    let c = config::create_default_config();
    assert_eq!(c.cookie, "");
    assert_eq!(c.save_path, "D:\\download");
    assert!(c.agent.starts_with("Mozilla/5.0"));
    assert_eq!(c.agent, config::DEFAULT_USER_AGENT);
}

#[test]
fn store_operations_keep_the_table_consistent() {

    let mut s = Store::new();
    let d = Download {
        id: 0,
        video_url: String::new(),
        audio_url: String::new(),
        file_name: "clip".to_string(),
        file_path: "/save/clip.mp4".to_string(),
        referer: String::new(),
        total_size: 10,
        video_size: 10,
        audio_size: 0,
        downloaded_size: 0,
        status: DownloadStatus::Downloading,
        added_date: String::new(),
        last_updated_date: String::new(),
    };
    let id = s.insert(d);
    assert_eq!(id, 1);
    assert_eq!(s.len(), 1);

    let mut row = s.get(id).unwrap();
    assert_eq!(row.file_name, "clip");
    row.downloaded_size = 4;
    row.last_updated_date = "later".to_string();
    assert_eq!(s.update(&row), Ok(()));
    let row = s.get(id).unwrap();
    assert_eq!(row.downloaded_size, 4);
    assert_eq!(row.last_updated_date, "later");

    assert_eq!(s.delete(id), Ok(()));
    assert_eq!(s.delete(id), Err(DownloadError::NotFound));
    assert!(matches!(s.get(id), Err(DownloadError::NotFound)));
}

#[test]
fn registry_holds_each_id_once() {

    let mut r = Registry::new();
    assert!(!r.is_running(1));
    assert_eq!(r.register(1), Ok(()));
    assert!(r.is_running(1));
    assert_eq!(r.register(1), Err(DownloadError::AlreadyRunning));
    assert_eq!(r.register(2), Ok(()));
    assert_eq!(r.remove(1), Ok(()));
    assert!(!r.is_running(1));
    assert!(r.is_running(2));
    assert_eq!(r.remove(1), Err(DownloadError::NotFound));
}

#[test]
fn zero_capacity_gate_grants_nothing() {

    let mut g = Gate::new(0);
    assert!(!g.try_acquire());
    assert_eq!(g.active_transfers(), 0);
}

#[test]
fn multibyte_names_survive_paths_and_search() {

    assert!(text::contains_str("火影忍者 第1集", "忍者"));
    assert!(!text::contains_str("火影忍者", "海贼"));
    let occupied = vec!["/save/火影忍者.mp4".to_string()];
    assert_eq!(
        path::get_unique_file_path("/save/火影忍者.mp4", &occupied),
        "/save/火影忍者(1).mp4"
    );
}
