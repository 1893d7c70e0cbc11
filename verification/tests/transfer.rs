use filesend::transfer::{ProgressReport, ReadDecision, ReceiveState, SendState, TRANSMITTING_BUF_SIZE};

fn run_receive(file_size: u64) -> (Vec<u64>, Vec<ProgressReport>) {
    let mut st = ReceiveState::new(file_size);
    let mut chunks = Vec::new();
    let mut reports = Vec::new();
    while let Some(n) = st.next_chunk() {
        chunks.push(n);
        reports.push(st.chunk_received(0));
    }
    assert_eq!(st.received, file_size);
    (chunks, reports)
}

#[test]
fn receive_empty_file() {
    let (chunks, reports) = run_receive(0);
    assert_eq!(chunks, vec![0]);
    assert_eq!(reports, vec![ProgressReport::Complete]);
}

#[test]
fn receive_small_file() {
    let (chunks, reports) = run_receive(100);
    assert_eq!(chunks, vec![100]);
    assert_eq!(reports, vec![ProgressReport::Complete]);
    assert!(!ReceiveState::new(100).reports_completion_at_end());
}

#[test]
fn receive_one_buffer() {
    let (chunks, reports) = run_receive(1024);
    assert_eq!(chunks, vec![1024]);
    assert_eq!(reports, vec![ProgressReport::Nothing]);
    assert!(ReceiveState::new(1024).reports_completion_at_end());
}

#[test]
fn receive_with_tail() {
    let (chunks, reports) = run_receive(2500);
    assert_eq!(chunks, vec![1024, 1024, 452]);
    assert_eq!(reports, vec![ProgressReport::Nothing, ProgressReport::Nothing, ProgressReport::Complete]);
}

#[test]
fn receive_reads_exactly_the_size() {
    for size in [1u64, 1023, 1024, 1025, 2048, 4097, 100_000] {
        let (chunks, _) = run_receive(size);
        assert_eq!(chunks.iter().sum::<u64>(), size);
        assert!(chunks.iter().all(|&c| c <= TRANSMITTING_BUF_SIZE));
    }
}

#[test]
fn receive_reports_fraction_every_hundred_chunks() {
    let mut st = ReceiveState::new(1024 * 250);
    let mut fractions = Vec::new();
    let mut i = 0;
    while st.next_chunk().is_some() {
        i += 1;
        if st.chunk_received(60) == ProgressReport::Fraction {
            fractions.push(i);
        }
    }
    assert_eq!(fractions, vec![100, 200]);
}

#[test]
fn receive_no_fraction_when_clock_is_recent() {
    let mut st = ReceiveState::new(1024 * 150);
    while st.next_chunk().is_some() {
        assert_eq!(st.chunk_received(50), ProgressReport::Nothing);
    }
    assert_eq!(st.counter, 150);
}

#[test]
fn send_stops_when_disabled_at_check() {
    let mut st = SendState::new(10_000);
    let d = st.on_read(1024, false, 0);
    assert_eq!(d, ReadDecision { report_progress: false, proceed: false });
}

#[test]
fn send_ignores_flag_between_checks() {
    let mut st = SendState::new(10_000);
    st.on_read(1024, true, 0);
    st.on_written(1024, 0);
    let d = st.on_read(1024, false, 0);
    assert_eq!(d, ReadDecision { report_progress: false, proceed: true });
}

#[test]
fn send_empty_read_ends() {
    let mut st = SendState::new(0);
    assert_eq!(st.on_read(0, true, 0), ReadDecision { report_progress: false, proceed: false });
    assert_eq!(st.on_read(0, true, 100), ReadDecision { report_progress: true, proceed: false });
}

#[test]
fn send_progress_resets_counter() {
    let mut st = SendState::new(10_000);
    assert_eq!(st.on_read(1024, true, 51), ReadDecision { report_progress: true, proceed: true });
    assert_eq!(st.iter_counter, 0);
}

#[test]
fn send_rate_reports() {
    let mut st = SendState::new(10_000);
    assert_eq!(st.on_written(1000, 10), None);
    assert_eq!(st.on_written(500, 999), None);
    assert_eq!(st.on_written(24, 1000), Some(1524));
    assert_eq!(st.sent_bytes_per_second, 0);
    assert_eq!(st.total_sent, 1524);
    assert_eq!(st.iter_counter, 3);
    assert_eq!(st.on_written(7, 2000), Some(7));
}

#[test]
fn send_full_file_loop() {
    let file_size = 2500u64;
    let mut st = SendState::new(file_size);
    let mut left = file_size as usize;
    loop {
        let n = left.min(1024);
        let d = st.on_read(n, true, 0);
        if !d.proceed {
            break;
        }
        st.on_written(n, 0);
        left -= n;
    }
    assert_eq!(st.total_sent, file_size);
}

fn chunks_written_after_turning_off(chunks_before: u32) -> u32 {
    let mut st = SendState::new(u64::MAX);
    for _ in 0..chunks_before {
        assert!(st.on_read(1024, true, 0).proceed);
        st.on_written(1024, 0);
    }
    let mut written = 0;
    while st.on_read(1024, false, 0).proceed {
        st.on_written(1024, 0);
        written += 1;
        assert!(written < 100);
    }
    written
}

#[test]
fn send_stops_within_a_hundred_chunks_of_turning_off() {
    assert_eq!(chunks_written_after_turning_off(0), 0);
    assert_eq!(chunks_written_after_turning_off(1), 99);
    assert_eq!(chunks_written_after_turning_off(37), 63);
    assert_eq!(chunks_written_after_turning_off(99), 1);
    assert_eq!(chunks_written_after_turning_off(100), 0);
    assert_eq!(chunks_written_after_turning_off(250), 50);
}
