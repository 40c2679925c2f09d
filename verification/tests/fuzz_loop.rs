use atfuzz::codec::{escape, unescape};
use atfuzz::crash_log::CrashLog;
use atfuzz::fuzz::run_fuzz;
use atfuzz::transport::Outcome;

fn dummy_commands(n: usize) -> Vec<Vec<u8>> {
    (0..n).map(|i| format!("AT+CMD{}", i).into_bytes()).collect()
}

#[test]
fn stable_run_writes_nothing() {
    // Transport always responds: N iterations never write to the crash log.
    let n = 20;
    let commands = dummy_commands(n);
    let outcomes = vec![Outcome::Responded([0u8; 64]); n];
    let mut log = CrashLog::new();
    let report = run_fuzz(&commands, &outcomes, &mut log);
    assert_eq!(report.iterations, n);
    assert_eq!(report.crashed, None);
    assert_eq!(log.len(), 0);
}

#[test]
fn crash_on_fifth_send() {
    // Silent on exactly the 5th call: exactly 5 cycles, one log line, stop.
    let commands = dummy_commands(9);
    let mut outcomes = vec![Outcome::Responded([0u8; 64]); 9];
    outcomes[4] = Outcome::Silent;
    let mut log = CrashLog::new();
    let report = run_fuzz(&commands, &outcomes, &mut log);
    assert_eq!(report.iterations, 5);
    assert_eq!(report.crashed, Some(4));
    assert_eq!(log.len(), 1);
    assert_eq!(log.line_at(0), &escape(&commands[4]));
}

#[test]
fn recorded_line_decodes_to_command() {
    let mut log = CrashLog::new();
    let command: Vec<u8> = (0u8..=255u8).cycle().take(1000).collect();
    let line = log.record(&command);
    assert_eq!(log.len(), 1);
    assert_eq!(log.line_at(0), &line);
    assert_eq!(unescape(&line), Ok(command));
}

#[test]
fn log_appends_in_order() {
    let mut log = CrashLog::new();
    let first = b"AT+ONE".to_vec();
    let second = b"AT+TWO".to_vec();
    log.record(&first);
    log.record(&second);
    assert_eq!(log.len(), 2);
    assert_eq!(log.line_at(0), &escape(&first));
    assert_eq!(log.line_at(1), &escape(&second));
}

#[test]
fn log_rebuilt_from_lines() {
    let lines = vec![b"AT+ONE".to_vec(), b"\\x00".to_vec()];
    let log = CrashLog::from_lines(lines.clone());
    assert_eq!(log.len(), 2);
    assert_eq!(log.line_at(0), &lines[0]);
    assert_eq!(log.line_at(1), &lines[1]);
}
