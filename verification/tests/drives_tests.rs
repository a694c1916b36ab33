use minio_drive::drives::{drives_exhausted_message, plan_quick_mount, QuickMountPlan};

fn s(v: &[&str]) -> Vec<String> {
    v.iter().map(|x| x.to_string()).collect()
}

fn pairs(v: &[(&str, &str)]) -> Vec<(String, String)> {
    v.iter().map(|(a, b)| (a.to_string(), b.to_string())).collect()
}

#[test]
fn quick_mount_skips_mounted_and_starts_at_d() {
    let plan = plan_quick_mount(&s(&["a", "b", "c"]), &s(&["b"]), &s(&[])).unwrap();
    assert_eq!(plan, QuickMountPlan { assignments: pairs(&[("a", "D"), ("c", "E")]), exhausted: None });
}

#[test]
fn quick_mount_starts_after_used_letters() {
    let plan = plan_quick_mount(&s(&["x", "y"]), &s(&["m", "n"]), &s(&["D", "E:"])).unwrap();
    assert_eq!(plan.assignments, pairs(&[("x", "F"), ("y", "G")]));
}

#[test]
fn quick_mount_skips_every_used_letter() {
    let plan = plan_quick_mount(&s(&["a", "b", "c"]), &s(&["a", "z"]), &s(&["D", "F"])).unwrap();
    assert_eq!(plan, QuickMountPlan { assignments: pairs(&[("b", "E"), ("c", "G")]), exhausted: None });
}

#[test]
fn quick_mount_runs_out_of_scattered_letters() {
    let used: Vec<String> = (b'D'..=b'Z').filter(|c| *c != b'M' && *c != b'Q').map(|c| (c as char).to_string()).collect();
    let plan = plan_quick_mount(&s(&["p", "q", "r"]), &s(&[]), &used).unwrap();
    assert_eq!(plan.assignments, pairs(&[("p", "M"), ("q", "Q")]));
    assert_eq!(plan.exhausted, Some("r".to_string()));
}

#[test]
fn quick_mount_runs_out_of_letters() {
    let plan = plan_quick_mount(&s(&["p", "q", "r"]), &s(&[]), &s(&["D", "E", "F", "G", "H", "I", "J", "K", "L", "M", "N", "O", "P", "Q", "R", "S", "T", "U", "V", "W", "X"])).unwrap();
    assert_eq!(plan.assignments, pairs(&[("p", "Y"), ("q", "Z")]));
    assert_eq!(plan.exhausted, Some("r".to_string()));
}

#[test]
fn quick_mount_with_every_letter_used() {
    let all: Vec<String> = (b'D'..=b'Z').map(|c| (c as char).to_string()).collect();
    let plan = plan_quick_mount(&s(&["p"]), &s(&[]), &all).unwrap();
    assert!(plan.assignments.is_empty());
    assert_eq!(plan.exhausted, Some("p".to_string()));
}

#[test]
fn quick_mount_with_nothing_to_mount() {
    assert_eq!(plan_quick_mount(&s(&["a"]), &s(&["a"]), &s(&["D"])).unwrap_err(), "没有可挂载的 Bucket（全部已挂载）");
    assert_eq!(plan_quick_mount(&s(&[]), &s(&[]), &s(&[])).unwrap_err(), "没有可挂载的 Bucket（全部已挂载）");
}

#[test]
fn exhausted_message() {
    assert_eq!(drives_exhausted_message(&"r".to_string()), "盘符已用尽，无法挂载 r");
}
