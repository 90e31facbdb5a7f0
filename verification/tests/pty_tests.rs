use mdterm::pty::{recording_file_names, record_dir, resize_event_line, shell_env, Batcher};

fn drain(b: &mut Batcher, out: &mut Vec<Vec<u8>>) {
    for c in b.take_full() {
        out.push(c);
    }
}

#[test]
fn test_shell_env() {
    let env = shell_env(false, "/usr/bin:/bin", Some("/home/user"), Some("/work/mdterm"));
    let map: std::collections::HashMap<_, _> = env.into_iter().collect();
    assert_eq!(map.get("TERM").map(|s| s.as_str()), Some("xterm-256color"));
    assert_eq!(map.get("COLORTERM").map(|s| s.as_str()), Some("truecolor"));
    assert_eq!(map.get("MDTERM").map(|s| s.as_str()), Some("1"));
    assert_eq!(map.get("TERM_PROGRAM").map(|s| s.as_str()), Some("mdterm"));
    assert!(map.contains_key("PATH"));
    let path = map.get("PATH").unwrap();
    assert!(path.contains(".local/bin"));
}

#[test]
fn shell_env_path_and_locale() {
    let env = shell_env(false, "/usr/bin", Some("/home/u/"), None);
    assert_eq!(env[4], ("LANG".to_string(), "en_US.UTF-8".to_string()));
    assert_eq!(env[5], ("PATH".to_string(), ":/home/u/.local/bin:/usr/bin".to_string()));
    let env = shell_env(true, "", None, Some("/w"));
    assert_eq!(env.len(), 5);
    assert_eq!(env[4].1, "/w/bin::");
}

#[test]
fn test_utf8_split_at_every_offset_and_one_byte() {
    let test_str = "─│┌┐└┘ 漢字 🎉👍🏽";
    let orig_bytes = test_str.as_bytes();
    for split_idx in 0..=orig_bytes.len() {
        let mut b = Batcher::new(65536);
        let mut out = Vec::new();
        b.push(&orig_bytes[..split_idx]);
        drain(&mut b, &mut out);
        b.push(&orig_bytes[split_idx..]);
        drain(&mut b, &mut out);
        if let Some(rest) = b.flush() {
            out.push(rest);
        }
        assert_eq!(out.concat(), orig_bytes, "Mismatch when split at byte offset {}", split_idx);
    }
    let mut b = Batcher::new(65536);
    let mut out = Vec::new();
    for byte in orig_bytes {
        b.push(&[*byte]);
        drain(&mut b, &mut out);
    }
    if let Some(rest) = b.flush() {
        out.push(rest);
    }
    assert_eq!(out.concat(), orig_bytes, "Failed on 1-byte-per-read variant");
}

#[test]
fn test_batching_coalescing_1000_one_byte_reads() {
    let data = vec![b'q'; 1000];
    for (max_batch, limit) in [(64 * 1024, 50), (120, 20)] {
        let mut b = Batcher::new(max_batch);
        let mut out = Vec::new();
        for byte in &data {
            b.push(&[*byte]);
            drain(&mut b, &mut out);
        }
        if let Some(rest) = b.flush() {
            out.push(rest);
        }
        for c in &out {
            assert!(c.len() <= max_batch, "chunk size {} exceeded max_batch {}", c.len(), max_batch);
        }
        assert_eq!(out.concat(), data);
        assert!(out.len() <= limit, "1000 bytes with max_batch={} produced {} calls", max_batch, out.len());
    }
}

#[test]
fn zero_batch_limit_means_64k() {
    let mut b = Batcher::new(0);
    b.push(&vec![1u8; 65536 + 3]);
    assert!(b.is_full());
    let full = b.take_full();
    assert_eq!(full.len(), 1);
    assert_eq!(full[0].len(), 65536);
    assert_eq!(b.len(), 3);
    assert_eq!(b.flush(), Some(vec![1u8; 3]));
    assert_eq!(b.flush(), None);
}

#[test]
fn test_optional_recording() {
    let (bin, events) = recording_file_names("test-session", 1700000000);
    assert_eq!(bin, "test-session-1700000000.bin");
    assert_eq!(events, "test-session-1700000000.events.jsonl");
    let line = resize_event_line(5, 21, 80, 24);
    assert!(line.contains("\"type\":\"resize\""));
    assert!(line.contains("\"cols\":80"));
    assert!(line.contains("\"rows\":24"));
    assert!(line.contains("\"offset\":21"));
    assert_eq!(line, "{\"t\":5,\"type\":\"resize\",\"offset\":21,\"cols\":80,\"rows\":24}\n");
}

#[test]
fn record_dir_needs_a_value() {
    assert_eq!(record_dir(Some("/tmp/rec".to_string())), Some("/tmp/rec".to_string()));
    assert_eq!(record_dir(Some(String::new())), None);
    assert_eq!(record_dir(None), None);
}

#[test]
fn pump_batches_concatenate_to_the_input() {
    let reads: Vec<Vec<u8>> = vec![b"hello ".to_vec(), vec![0xe2, 0x94], vec![0x80, b'x'], b"0123456789".to_vec()];
    let mut b = Batcher::new(4);
    let mut out: Vec<Vec<u8>> = Vec::new();
    for (i, r) in reads.iter().enumerate() {
        b.push(r);
        out.extend(b.drain(i == reads.len() - 1));
    }
    assert_eq!(b.len(), 0);
    assert!(out.iter().all(|o| !o.is_empty() && o.len() <= 4));
    assert_eq!(out.concat(), reads.concat());
}
