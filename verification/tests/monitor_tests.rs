use minio_drive::monitor::{MonitorAction, MonitorEvent, MonitorPhase, MountMonitor};

fn emit(e: &str, p: &str) -> MonitorAction {
    MonitorAction::Emit { event: e.to_string(), payload: p.to_string() }
}

fn status(s: &str) -> MonitorAction {
    MonitorAction::SetStatus(s.to_string())
}

fn out(line: &str) -> MonitorEvent {
    MonitorEvent::Stdout(line.as_bytes().to_vec())
}

fn err(line: &str) -> MonitorEvent {
    MonitorEvent::Stderr(line.as_bytes().to_vec())
}

fn reports(all: &[MonitorAction]) -> Vec<bool> {
    all.iter().filter_map(|a| if let MonitorAction::Report(b) = a { Some(*b) } else { None }).collect()
}

#[test]
fn success_line_reports_once() {
    let mut m = MountMonitor::new("photos".to_string());
    let a = m.step(out("The service rclone has started."));
    assert_eq!(
        a,
        vec![
            MonitorAction::Log("rclone stdout: The service rclone has started.".to_string()),
            emit("rclone:mounted", "photos"),
            status("connected"),
            emit("rclone:status_changed", "photos"),
            MonitorAction::Report(true),
        ]
    );
    let b = m.step(out("Serving remote control"));
    assert_eq!(b, vec![MonitorAction::Log("rclone stdout: Serving remote control".to_string())]);
    let c = m.step(err("Fatal error: boom"));
    assert_eq!(
        c,
        vec![MonitorAction::Log("rclone stderr: Fatal error: boom".to_string()), emit("rclone:error", "Fatal error: boom")]
    );
}

#[test]
fn mounting_on_line_counts_as_success() {
    let mut m = MountMonitor::new("b".to_string());
    let a = m.step(out("Mounting bucket on E:"));
    assert_eq!(reports(&a), vec![true]);
    let mut m2 = MountMonitor::new("b".to_string());
    let a2 = m2.step(out("Mounting"));
    assert_eq!(a2.len(), 1);
}

#[test]
fn error_before_success_reports_failure() {
    let mut m = MountMonitor::new("b".to_string());
    let a = m.step(err("Failed to mount FUSE fs"));
    assert_eq!(reports(&a), vec![false]);
    let b = m.step(out("Serving remote"));
    assert_eq!(reports(&b), Vec::<bool>::new());
    assert!(b.contains(&status("connected")));
}

#[test]
fn end_before_mount_finishes_with_failure() {
    let mut m = MountMonitor::new("b".to_string());
    let a = m.step(MonitorEvent::Terminated { how: "exit status: 1".to_string(), still_mounted: true });
    assert_eq!(
        a,
        vec![
            MonitorAction::Log("rclone terminated: exit status: 1".to_string()),
            emit("rclone:terminated", "b"),
            MonitorAction::Report(false),
        ]
    );
    assert!(m.is_finished());
    assert!(m.step(out("Serving remote")).is_empty());
}

#[test]
fn dropped_mount_retries_three_times_then_errors() {
    let mut m = MountMonitor::new("b".to_string());
    m.step(out("Serving remote"));
    let a = m.step(MonitorEvent::Terminated { how: "killed".to_string(), still_mounted: true });
    assert_eq!(
        a,
        vec![
            MonitorAction::Log("rclone terminated: killed".to_string()),
            status("disconnected"),
            emit("rclone:status_changed", "b"),
            emit("rclone:terminated", "b"),
            status("reconnecting"),
            emit("rclone:status_changed", "b"),
            MonitorAction::Wait(3),
            MonitorAction::Remount,
        ]
    );
    assert_eq!(m.phase(), MonitorPhase::Reconnecting);
    let b = m.step(MonitorEvent::RemountFailed { still_mounted: true });
    assert_eq!(b.iter().filter(|x| **x == MonitorAction::Remount).count(), 1);
    let c = m.step(MonitorEvent::RemountFailed { still_mounted: true });
    assert_eq!(c.iter().filter(|x| **x == MonitorAction::Remount).count(), 1);
    assert_eq!(m.retries(), 3);
    let d = m.step(MonitorEvent::RemountFailed { still_mounted: true });
    assert_eq!(d, vec![status("error"), emit("rclone:status_changed", "b"), emit("rclone:reconnect_failed", "b")]);
    assert!(m.is_finished());
}

#[test]
fn remount_started_keeps_new_process() {
    let mut m = MountMonitor::new("b".to_string());
    m.step(out("Serving remote"));
    m.step(MonitorEvent::Terminated { how: "x".to_string(), still_mounted: true });
    let a = m.step(MonitorEvent::RemountStarted);
    assert_eq!(a, vec![status("connecting"), emit("rclone:status_changed", "b"), MonitorAction::KeepProcess]);
    assert!(!m.is_finished());
    assert_eq!(m.phase(), MonitorPhase::Watching);
    assert!(!m.mounted());
    assert_eq!(m.retries(), 1);
}

#[test]
fn restarted_rclone_is_watched_like_the_first() {
    let mut m = MountMonitor::new("b".to_string());
    m.step(out("Serving remote"));
    m.step(MonitorEvent::Terminated { how: "x".to_string(), still_mounted: true });
    m.step(MonitorEvent::RemountStarted);
    let up = m.step(out("Serving remote"));
    assert_eq!(
        up,
        vec![
            MonitorAction::Log("rclone stdout: Serving remote".to_string()),
            emit("rclone:mounted", "b"),
            status("connected"),
            emit("rclone:status_changed", "b"),
        ]
    );
    assert!(m.mounted());
    assert_eq!(m.retries(), 0);
    let down = m.step(MonitorEvent::Terminated { how: "y".to_string(), still_mounted: true });
    assert!(down.contains(&status("disconnected")));
    assert!(down.contains(&MonitorAction::Remount));
    assert_eq!(m.retries(), 1);
    assert_eq!(m.phase(), MonitorPhase::Reconnecting);
}

#[test]
fn restarted_rclone_ending_early_counts_as_an_attempt() {
    let mut m = MountMonitor::new("b".to_string());
    m.step(out("Serving remote"));
    m.step(MonitorEvent::Terminated { how: "x".to_string(), still_mounted: true });
    m.step(MonitorEvent::RemountStarted);
    let a = m.step(MonitorEvent::Terminated { how: "exit status: 1".to_string(), still_mounted: true });
    assert_eq!(
        a,
        vec![
            MonitorAction::Log("rclone terminated: exit status: 1".to_string()),
            status("reconnecting"),
            emit("rclone:status_changed", "b"),
            MonitorAction::Wait(3),
            MonitorAction::Remount,
        ]
    );
    assert_eq!(m.retries(), 2);
    m.step(MonitorEvent::RemountStarted);
    m.step(MonitorEvent::Terminated { how: "exit status: 1".to_string(), still_mounted: true });
    assert_eq!(m.retries(), 3);
    m.step(MonitorEvent::RemountStarted);
    let last = m.step(MonitorEvent::Terminated { how: "exit status: 1".to_string(), still_mounted: true });
    assert!(!last.contains(&MonitorAction::Remount));
    assert!(last.contains(&emit("rclone:reconnect_failed", "b")));
    assert!(m.is_finished());
    assert!(reports(&last).is_empty());
}

#[test]
fn restarted_rclone_of_an_unmounted_bucket_is_let_go() {
    let mut m = MountMonitor::new("b".to_string());
    m.step(out("Serving remote"));
    m.step(MonitorEvent::Terminated { how: "x".to_string(), still_mounted: true });
    m.step(MonitorEvent::RemountStarted);
    let a = m.step(MonitorEvent::Terminated { how: "killed".to_string(), still_mounted: false });
    assert_eq!(a, vec![MonitorAction::Log("rclone terminated: killed".to_string()), emit("rclone:terminated", "b")]);
    assert!(m.is_finished());
}

#[test]
fn closed_output_finishes_silently() {
    let mut m = MountMonitor::new("b".to_string());
    assert!(m.step(MonitorEvent::Closed).is_empty());
    assert!(m.is_finished());
    assert!(m.report_pending());
}

#[test]
fn lossy_lines_are_logged() {
    let mut m = MountMonitor::new("b".to_string());
    let a = m.step(MonitorEvent::Stdout(vec![0x66, 0xff]));
    assert_eq!(a, vec![MonitorAction::Log("rclone stdout: f\u{FFFD}".to_string())]);
}

#[test]
fn unmounted_bucket_is_not_started_again() {
    let mut m = MountMonitor::new("b".to_string());
    m.step(out("Serving remote"));
    let a = m.step(MonitorEvent::Terminated { how: "killed".to_string(), still_mounted: false });
    assert_eq!(a, vec![MonitorAction::Log("rclone terminated: killed".to_string()), emit("rclone:terminated", "b")]);
    assert!(m.is_finished());
}

#[test]
fn retries_stop_once_bucket_is_unmounted() {
    let mut m = MountMonitor::new("b".to_string());
    m.step(out("Serving remote"));
    m.step(MonitorEvent::Terminated { how: "x".to_string(), still_mounted: true });
    let a = m.step(MonitorEvent::RemountFailed { still_mounted: false });
    assert!(a.is_empty());
    assert!(m.is_finished());
}
