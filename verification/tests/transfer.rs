use weekfetch::download::{
    chunk_action, content_total, progress_percent, run_transfer, sha256_hex, stream_setup,
    to_hex_lower, ChunkAction, RunOutcome,
};
use weekfetch::queue::SignalState;

fn chunks_of(content: &[u8], from: usize, size: usize) -> Vec<Vec<u8>> {
    content[from..]
        .chunks(size)
        .map(|c| c.to_vec())
        .collect()
}

#[test]
fn test_sha256_known_vector() {
    // SHA-256("abc"), a published test vector.
    assert_eq!(
        sha256_hex(b"abc"),
        "ba7816bf8f01cfea414140de5dae2223b00361a396177a9cb410ff61f20015ad"
    );
}

#[test]
fn test_hex_rendering() {
    assert_eq!(to_hex_lower(&[0xbe, 0xef, 0x00, 0x0a]), "beef000a");
    assert_eq!(to_hex_lower(&[]), "");
}

#[test]
fn test_stream_setup_honored_range() {
    let setup = stream_setup(500, 206);
    assert_eq!(setup.offset, 500);
    assert!(setup.append);
}

#[test]
fn test_stream_setup_ignored_range() {
    // A full-content response discards the resume offset and truncates.
    let setup = stream_setup(500, 200);
    assert_eq!(setup.offset, 0);
    assert!(!setup.append);
}

#[test]
fn test_stream_setup_fresh_download() {
    let setup = stream_setup(0, 200);
    assert_eq!(setup.offset, 0);
    assert!(!setup.append);
}

#[test]
fn test_content_total() {
    assert_eq!(content_total(Some(100), 50), Some(150));
    assert_eq!(content_total(None, 50), None);
    assert_eq!(content_total(Some(u64::MAX), 1), None);
}

#[test]
fn test_chunk_action_by_signal() {
    assert_eq!(chunk_action(None), ChunkAction::Proceed);
    assert_eq!(chunk_action(Some(SignalState::Running)), ChunkAction::Proceed);
    assert_eq!(chunk_action(Some(SignalState::Paused)), ChunkAction::StopPaused);
    assert_eq!(chunk_action(Some(SignalState::Cancelled)), ChunkAction::StopCancelled);
}

#[test]
fn test_progress_percent_values() {
    assert_eq!(progress_percent(0, 200), 0);
    assert_eq!(progress_percent(50, 200), 25);
    assert_eq!(progress_percent(200, 200), 100);
    assert_eq!(progress_percent(700, 300), 100); // capped
    assert_eq!(progress_percent(1, 3), 33);
}

#[test]
fn test_resume_never_retransfers() {
    // A resumed transfer appends only the remainder, reconstructs the full
    // content, and its hash equals that of a fresh full download.
    let content: Vec<u8> = (0u16..1000).map(|x| (x % 251) as u8).collect();
    let offset = 400;
    let partial: Vec<u8> = content[..offset].to_vec();

    let setup = stream_setup(offset as u64, 206);
    assert!(setup.append);
    let chunks = chunks_of(&content, offset, 33);
    let transferred: usize = chunks.iter().map(|c| c.len()).sum();
    assert_eq!(transferred, content.len() - offset); // no byte re-transferred

    let sigs = vec![None; chunks.len()];
    let resumed = run_transfer(partial, setup.append, &chunks, &sigs);
    let fresh = run_transfer(Vec::new(), false, &chunks_of(&content, 0, 64), &vec![None; chunks_of(&content, 0, 64).len()]);
    match (resumed, fresh) {
        (
            RunOutcome::Completed { content: rc, hash: rh },
            RunOutcome::Completed { content: fc, hash: fh },
        ) => {
            assert_eq!(rc, content);
            assert_eq!(fc, content);
            assert_eq!(rh, fh);
        }
        _ => panic!("both transfers must complete"),
    }
}

#[test]
fn test_restart_when_range_ignored() {
    // The server answered 200 to a range request: the stale partial artifact
    // is truncated and the full body still yields a correct file.
    let content: Vec<u8> = (0u16..500).map(|x| (x % 83) as u8).collect();
    let stale: Vec<u8> = vec![9; 123]; // bytes of some earlier, different attempt

    let setup = stream_setup(stale.len() as u64, 200);
    assert_eq!(setup.offset, 0);
    let chunks = chunks_of(&content, 0, 50);
    let sigs = vec![None; chunks.len()];
    match run_transfer(stale, setup.append, &chunks, &sigs) {
        RunOutcome::Completed { content: rc, hash } => {
            assert_eq!(rc, content);
            assert_eq!(hash, sha256_hex(&content));
        }
        _ => panic!("transfer must complete"),
    }
}

#[test]
fn test_cancel_deletes_partial_artifact() {
    let content: Vec<u8> = (0u16..300).map(|x| (x % 97) as u8).collect();
    let chunks = chunks_of(&content, 0, 50);
    let mut sigs: Vec<Option<SignalState>> = vec![Some(SignalState::Running); chunks.len()];
    sigs[2] = Some(SignalState::Cancelled);
    match run_transfer(Vec::new(), false, &chunks, &sigs) {
        RunOutcome::Cancelled => {}
        _ => panic!("a cancelled transfer ends in the cancelled outcome"),
    }
}

#[test]
fn test_pause_then_resume_completes_file() {
    // A paused transfer keeps its partial artifact; resuming with the
    // remainder (a honored range request) completes the file with the same
    // hash as a fresh download, without re-transferring the prefix.
    let content: Vec<u8> = (0u16..400).map(|x| (x % 89) as u8).collect();
    let chunks = chunks_of(&content, 0, 40);
    let mut sigs: Vec<Option<SignalState>> = vec![None; chunks.len()];
    sigs[5] = Some(SignalState::Paused);

    let partial = match run_transfer(Vec::new(), false, &chunks, &sigs) {
        RunOutcome::Paused { partial } => partial,
        _ => panic!("the transfer pauses at the sixth chunk"),
    };
    assert_eq!(partial.len(), 200);

    let setup = stream_setup(partial.len() as u64, 206);
    assert!(setup.append);
    let rest = chunks_of(&content, partial.len(), 40);
    let rest_sigs = vec![None; rest.len()];
    match run_transfer(partial, setup.append, &rest, &rest_sigs) {
        RunOutcome::Completed { content: rc, hash } => {
            assert_eq!(rc, content);
            assert_eq!(hash, sha256_hex(&content));
        }
        _ => panic!("the resumed transfer completes"),
    }
}

#[test]
fn test_pause_preserves_partial_artifact() {
    let content: Vec<u8> = (0u16..300).map(|x| (x % 97) as u8).collect();
    let chunks = chunks_of(&content, 0, 50);
    let mut sigs: Vec<Option<SignalState>> = vec![None; chunks.len()];
    sigs[2] = Some(SignalState::Paused);
    match run_transfer(Vec::new(), false, &chunks, &sigs) {
        RunOutcome::Paused { partial } => {
            // The first two chunks were flushed and stay on disk for resume.
            assert_eq!(partial, content[..100].to_vec());
        }
        _ => panic!("a paused transfer keeps its partial artifact"),
    }
}
