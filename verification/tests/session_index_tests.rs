use codexresume::session_index::ThreadNameScan;
use std::collections::HashMap;

fn names_from(content: &str, ids: &[&str], chunk: usize) -> HashMap<String, String> {
    let ids: Vec<String> = ids.iter().map(|s| s.to_string()).collect();
    let mut scan = ThreadNameScan::new(&ids);
    let bytes = content.as_bytes();
    let mut end = bytes.len();
    let mut lines: Vec<String> = Vec::new();
    while end > 0 && !scan.is_done() {
        let start = end.saturating_sub(chunk);
        lines.extend(scan.feed_chunk(&bytes[start..end]));
        end = start;
        for line in lines.drain(..) {
            let entry: serde_json::Value = match serde_json::from_str(&line) {
                Ok(v) => v,
                Err(_) => continue,
            };
            let id = entry["id"].as_str().unwrap_or_default().to_string();
            let name = entry["thread_name"].as_str().unwrap_or_default().to_string();
            scan.offer(&id, &name);
        }
    }
    if let Some(line) = scan.finish() {
        if let Ok(entry) = serde_json::from_str::<serde_json::Value>(&line) {
            let id = entry["id"].as_str().unwrap_or_default().to_string();
            let name = entry["thread_name"].as_str().unwrap_or_default().to_string();
            scan.offer(&id, &name);
        }
    }
    scan.into_names().into_iter().collect()
}

#[test]
fn find_thread_names_prefers_latest_non_empty_entry() {
    let content = [
        "{\"id\":\"thread-1\",\"thread_name\":\"first\",\"updated_at\":\"1\"}\n",
        "{\"id\":\"thread-2\",\"thread_name\":\"other\",\"updated_at\":\"2\"}\n",
        "{\"id\":\"thread-1\",\"thread_name\":\"latest\",\"updated_at\":\"3\"}\n",
    ]
    .concat();
    let content = content.as_str();
    for chunk in [1, 7, 8192] {
        let names = names_from(content, &["thread-1"], chunk);
        assert_eq!(names, HashMap::from([("thread-1".to_string(), "latest".to_string())]));
    }
}

#[test]
fn find_thread_names_skips_empty_latest_entries() {
    let content = [
        "{\"id\":\"thread-1\",\"thread_name\":\"older\",\"updated_at\":\"1\"}\n",
        "{\"id\":\"thread-1\",\"thread_name\":\"\",\"updated_at\":\"2\"}\n",
    ]
    .concat();
    let content = content.as_str();
    for chunk in [1, 5, 8192] {
        let names = names_from(content, &["thread-1"], chunk);
        assert_eq!(names, HashMap::from([("thread-1".to_string(), "older".to_string())]));
    }
}

#[test]
fn scan_handles_crlf_blank_lines_and_last_line_without_newline() {
    let content = "{\"id\":\"a\",\"thread_name\":\"  Alpha  \"}\r\n\n   \n{\"id\":\"b\",\"thread_name\":\"Beta\"}";
    let names = names_from(content, &["a", "b", "c", "a"], 4);
    assert_eq!(names.get("a").map(String::as_str), Some("Alpha"));
    assert_eq!(names.get("b").map(String::as_str), Some("Beta"));
    assert_eq!(names.get("c"), None);
}

#[test]
fn feed_chunk_frames_lines_latest_first() {
    let mut scan = ThreadNameScan::new(&vec!["x".to_string()]);
    assert_eq!(scan.feed_chunk(b"one\ntwo\r\nthree"), vec!["three".to_string(), "two".to_string()]);
    assert_eq!(scan.feed_chunk(b"zero\nfirst-"), vec!["first-one".to_string()]);
    assert_eq!(scan.feed_chunk(&[0xff, 0xfe, b'\n']), vec!["zero".to_string()]);
    assert_eq!(scan.finish(), None);
    assert!(!scan.offer("x", "   "));
    assert!(!scan.offer("y", "name"));
    assert!(scan.offer("x", " name "));
    assert!(scan.is_done());
    assert!(!scan.offer("x", "again"));
    assert_eq!(scan.into_names(), vec![("x".to_string(), "name".to_string())]);
}
