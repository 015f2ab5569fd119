use vmux::event_log::{
    default_event_log_path, event_log_path_from_env, is_rotated_segment, join_path,
    prune_old_segments, replay_sources, rotated_event_log_name, rotated_segments, rotation_name,
    split_file_name, LogEntry, ReplaySource,
};

fn entry(name: &str, index: usize) -> LogEntry {
    LogEntry {
        name: name.to_string(),
        is_active: false,
        index,
    }
}

#[test]
fn log_is_in_the_cache_of_the_home_directory() {
    assert_eq!(
        default_event_log_path(Some("/home/me")),
        "/home/me/.cache/vmux/recent-activity.jsonl"
    );
    assert_eq!(
        default_event_log_path(Some("/")),
        "/.cache/vmux/recent-activity.jsonl"
    );
    assert_eq!(default_event_log_path(Some("")), ".cache/vmux/recent-activity.jsonl");
    assert_eq!(default_event_log_path(None), "./.cache/vmux/recent-activity.jsonl");
    assert_eq!(event_log_path_from_env(Some("/tmp/log"), Some("/home/me")), "/tmp/log");
    assert_eq!(event_log_path_from_env(Some(""), None), "");
    assert_eq!(
        event_log_path_from_env(None, Some("/home/me")),
        "/home/me/.cache/vmux/recent-activity.jsonl"
    );
}

#[test]
fn paths_are_joined_as_the_standard_library_joins_them() {
    for base in ["", ".", "/", "/a", "/a/", "a//", "."] {
        for relative in ["b", "b/c", ".b"] {
            let expected = std::path::Path::new(base).join(relative);
            assert_eq!(join_path(base, relative), expected.to_str().unwrap());
        }
    }
}

#[test]
fn file_names_are_split_as_the_standard_library_splits_them() {
    for name in [
        "log", "log.jsonl", "a.b.c", ".hidden", ".hidden.x", "dot.", "..x", "...", "a..b", "x.y.",
    ] {
        let path = std::path::Path::new(name);
        let (stem, extension) = split_file_name(name);
        assert_eq!(stem, path.file_stem().unwrap().to_str().unwrap(), "{name}");
        let expected = path.extension().map(|e| e.to_str().unwrap()).unwrap_or("");
        assert_eq!(extension, expected, "{name}");
    }
}

#[test]
fn rotated_logs_are_named_after_time_and_process() {
    assert_eq!(
        rotated_event_log_name(Some("recent-activity.jsonl"), 1, 1),
        "recent-activity.00000000000000000001-1.jsonl"
    );
    assert_eq!(
        rotated_event_log_name(Some("log"), 1712600000000, 42),
        "log.00000001712600000000-42"
    );
    assert_eq!(
        rotated_event_log_name(Some("dot."), 0, 7),
        "dot.00000000000000000000-7"
    );
    assert_eq!(
        rotated_event_log_name(None, 12, 3),
        "recent-activity.00000000000000000012-3"
    );
    for millis in [0u128, 9, 10, 99_999, 99_999_999_999_999_999_999, u128::MAX] {
        assert_eq!(
            rotated_event_log_name(Some("a.b"), millis, u32::MAX),
            format!("a.{millis:020}-{}.b", u32::MAX)
        );
    }
}

#[test]
fn large_logs_are_rotated() {
    assert_eq!(rotation_name(0, Some("l.j"), 1, 1), None);
    assert_eq!(rotation_name(64 * 1024, Some("l.j"), 1, 1), None);
    assert_eq!(
        rotation_name(64 * 1024 + 1, Some("l.j"), 1, 1),
        Some("l.00000000000000000001-1.j".to_string())
    );
}

#[test]
fn segments_are_told_by_their_names() {
    let file = Some("recent-activity.jsonl");
    assert!(is_rotated_segment("recent-activity.00000000000000000001-1.jsonl", file));
    assert!(is_rotated_segment("recent-activity.x.jsonl", file));
    assert!(is_rotated_segment("recent-activity.jsonl", file));
    assert!(!is_rotated_segment("recent-activity.00000000000000000001-1.json", file));
    assert!(!is_rotated_segment("other.00000000000000000001-1.jsonl", file));
    assert!(!is_rotated_segment("recent-activity-1.jsonl", file));
    assert!(is_rotated_segment("log.1", Some("log")));
    assert!(!is_rotated_segment("log", Some("log")));
    assert!(is_rotated_segment("dot.1", Some("dot.")));
    assert!(is_rotated_segment(".x", None));
    assert!(!is_rotated_segment("x", None));
}

#[test]
fn rotated_logs_are_found_again_in_the_order_of_their_times() {
    for file in ["recent-activity.jsonl", "log", "a.b.c", ".hidden", "dot."] {
        let times = [0u128, 1, 9, 10, 99, 100, 1712600000000, 1712600000001];
        let mut entries: Vec<LogEntry> = times
            .iter()
            .enumerate()
            .map(|(index, time)| {
                entry(&rotated_event_log_name(Some(file), *time, 9 - index as u32), index)
            })
            .collect();
        entries.reverse();
        entries.push(LogEntry {
            name: file.to_string(),
            is_active: true,
            index: 99,
        });
        entries.push(entry("stranger", 98));
        let segments = rotated_segments(entries, Some(file));
        let order: Vec<usize> = segments.iter().map(|segment| segment.index).collect();
        assert_eq!(order, (0..times.len()).collect::<Vec<usize>>());
        assert!(segments.iter().all(|segment| segment.name != file));
    }
}

#[test]
fn active_log_is_replayed_after_the_segments() {
    let segments = vec![entry("a", 3), entry("b", 1)];
    assert_eq!(
        replay_sources(&segments, true),
        vec![ReplaySource::Segment(3), ReplaySource::Segment(1), ReplaySource::Active]
    );
    assert_eq!(
        replay_sources(&segments, false),
        vec![ReplaySource::Segment(3), ReplaySource::Segment(1)]
    );
    assert_eq!(replay_sources(&Vec::new(), true), vec![ReplaySource::Active]);
}

#[test]
fn latest_four_segments_are_kept() {
    let segments: Vec<LogEntry> = (0..7).map(|index| entry("s", 10 + index)).collect();
    assert_eq!(prune_old_segments(&segments), vec![10, 11, 12]);
    assert_eq!(prune_old_segments(&segments[..5].to_vec()), vec![10]);
    assert_eq!(prune_old_segments(&segments[..4].to_vec()), Vec::<usize>::new());
    assert_eq!(prune_old_segments(&Vec::new()), Vec::<usize>::new());
}
