use minio_drive::model::{Bucket, Connection, MountInfo};
use minio_drive::state::AppState;

fn conn(id: &str, name: &str) -> Connection {
    Connection {
        id: id.to_string(),
        name: name.to_string(),
        endpoint: format!("http://{}:9000", name),
        access_key: "minioadmin".to_string(),
        secret_key: "minioadmin".to_string(),
    }
}

fn mount(bucket: &str, drive: &str, status: &str) -> MountInfo {
    MountInfo { bucket: bucket.to_string(), drive: drive.to_string(), status: status.to_string() }
}

#[test]
fn save_appends_new_and_replaces_existing_id() {
    let mut st: AppState<u32> = AppState::new();
    st.save_connection(conn("1", "a"));
    st.save_connection(conn("2", "b"));
    assert_eq!(st.connections().len(), 2);
    st.save_connection(conn("1", "c"));
    assert_eq!(st.connections().len(), 2);
    assert_eq!(st.connections()[0], conn("1", "c"));
    assert_eq!(st.connections()[1], conn("2", "b"));
}

#[test]
fn saved_connection_is_selected_by_its_id() {
    let mut st: AppState<u32> = AppState::new();
    st.save_connection(conn("1", "a"));
    st.save_connection(conn("2", "b"));
    st.save_connection(conn("2", "z"));
    st.set_current_connection(&"2".to_string());
    assert_eq!(
        st.current_credentials(),
        Ok(("http://z:9000".to_string(), "minioadmin".to_string(), "minioadmin".to_string()))
    );
}

#[test]
fn selecting_unknown_id_clears_selection() {
    let mut st: AppState<u32> = AppState::new();
    st.save_connection(conn("1", "a"));
    st.set_current_connection(&"1".to_string());
    assert!(st.current_credentials().is_ok());
    st.set_current_connection(&"9".to_string());
    assert_eq!(st.current_credentials(), Err("未选择连接".to_string()));
    assert_eq!(st.quick_mount_credentials(), Err("未配置连接，请先在应用中添加连接".to_string()));
}

#[test]
fn selection_takes_first_of_duplicate_ids() {
    let mut st: AppState<u32> = AppState::new();
    st.load_connections(vec![conn("1", "first"), conn("1", "second")]);
    st.set_current_connection(&"1".to_string());
    assert_eq!(st.current_credentials().unwrap().0, "http://first:9000");
    st.save_connection(conn("1", "third"));
    assert_eq!(st.connections()[0].name, "third");
    assert_eq!(st.connections()[1].name, "second");
}

#[test]
fn delete_removes_every_connection_with_the_id() {
    let mut st: AppState<u32> = AppState::new();
    st.load_connections(vec![conn("1", "a"), conn("2", "b"), conn("1", "c"), conn("3", "d")]);
    st.delete_connection(&"1".to_string());
    let names: Vec<&str> = st.connections().iter().map(|c| c.name.as_str()).collect();
    assert_eq!(names, vec!["b", "d"]);
    st.set_current_connection(&"1".to_string());
    assert!(st.current_credentials().is_err());
}

#[test]
fn prepare_mount_needs_a_selected_connection() {
    let st: AppState<u32> = AppState::new();
    let r = st.prepare_mount(&"photos".to_string(), &"E".to_string());
    assert_eq!(r.unwrap_err(), "未选择连接");
}

#[test]
fn prepare_mount_refuses_mounted_bucket_then_used_drive() {
    let mut st: AppState<u32> = AppState::new();
    st.save_connection(conn("1", "a"));
    st.set_current_connection(&"1".to_string());
    st.mount_bucket("photos".to_string(), "E".to_string(), false, 7).unwrap();
    assert_eq!(st.prepare_mount(&"photos".to_string(), &"F".to_string()).unwrap_err(), "该 Bucket 已挂载");
    assert_eq!(st.prepare_mount(&"photos".to_string(), &"E".to_string()).unwrap_err(), "该 Bucket 已挂载");
    assert_eq!(st.prepare_mount(&"docs".to_string(), &"E".to_string()).unwrap_err(), "该盘符已被使用");
    let cfg = st.prepare_mount(&"docs".to_string(), &"F".to_string()).unwrap();
    assert_eq!(cfg.endpoint, "http://a:9000");
    assert_eq!(cfg.bucket, "docs");
    assert_eq!(cfg.drive, "F");
}

#[test]
fn mount_bucket_records_mounting_and_answers() {
    let mut st: AppState<u32> = AppState::new();
    let msg = st.mount_bucket("photos".to_string(), "E".to_string(), false, 7);
    assert_eq!(msg, Ok("正在挂载 photos 到 E:".to_string()));
    assert_eq!(st.get_mount_status(), vec![mount("photos", "E", "mounting")]);
}

#[test]
fn mount_bucket_refuses_a_second_mount_of_a_bucket_or_drive() {
    let mut st: AppState<u32> = AppState::new();
    st.mount_bucket("photos".to_string(), "X".to_string(), false, 1).unwrap();
    assert_eq!(st.mount_bucket("photos".to_string(), "Y".to_string(), false, 2), Err(("该 Bucket 已挂载".to_string(), 2)));
    assert_eq!(st.mount_bucket("docs".to_string(), "X".to_string(), false, 3), Err(("该盘符已被使用".to_string(), 3)));
    assert_eq!(st.get_mount_status(), vec![mount("photos", "X", "mounting")]);
    assert_eq!(
        st.add_mount("photos".to_string(), "Z".to_string(), "mounted".to_string(), 4),
        Err(("该 Bucket 已挂载".to_string(), 4))
    );
    assert!(st.is_consistent());
}

#[test]
fn unmount_after_mount_restores_state() {
    let mut st: AppState<u32> = AppState::new();
    st.mount_bucket("a".to_string(), "D".to_string(), false, 1).unwrap();
    st.mount_bucket("b".to_string(), "E".to_string(), false, 2).unwrap();
    let mut stopped: Vec<u32> = Vec::new();
    assert_eq!(
        st.unmount_bucket(&"b".to_string(), |p: u32| {
            stopped.push(p);
            Ok::<(), String>(())
        }),
        Ok(())
    );
    assert_eq!(st.get_mount_status(), vec![mount("a", "D", "mounting")]);
    assert!(!st.has_mount(&"b".to_string()));
    assert_eq!(
        st.unmount_bucket(&"b".to_string(), |p: u32| {
            stopped.push(p);
            Ok::<(), String>(())
        }),
        Ok(())
    );
    assert_eq!(
        st.unmount_bucket(&"a".to_string(), |p: u32| {
            stopped.push(p);
            Ok::<(), String>(())
        }),
        Ok(())
    );
    assert_eq!(stopped, vec![2, 1]);
    assert!(st.get_mount_status().is_empty());
}

#[test]
fn failed_stop_keeps_the_mount() {
    let mut st: AppState<u32> = AppState::new();
    st.mount_bucket("a".to_string(), "D".to_string(), false, 1).unwrap();
    st.mount_bucket("b".to_string(), "E".to_string(), false, 2).unwrap();
    assert_eq!(st.unmount_bucket(&"a".to_string(), |_p: u32| Err::<(), String>("denied".to_string())), Err("denied".to_string()));
    assert_eq!(st.get_mount_status(), vec![mount("a", "D", "mounting"), mount("b", "E", "mounting")]);
    assert!(st.has_mount(&"a".to_string()));
    assert!(st.is_consistent());
    // The process was handed to the stop, so none is held for the bucket any more.
    assert_eq!(st.replace_process("a".to_string(), 9), Err(9));
    // Unmounting again, with no process left to stop, forgets the mount.
    assert_eq!(st.unmount_bucket(&"a".to_string(), |_p: u32| Err::<(), String>("unused".to_string())), Ok(()));
    assert_eq!(st.get_mount_status(), vec![mount("b", "E", "mounting")]);
}

#[test]
fn unmount_all_stops_every_process_and_clears_mounts() {
    let mut st: AppState<u32> = AppState::new();
    st.mount_bucket("a".to_string(), "D".to_string(), false, 1).unwrap();
    st.mount_bucket("b".to_string(), "E".to_string(), false, 2).unwrap();
    let stopped = std::cell::RefCell::new(Vec::new());
    assert_eq!(
        st.unmount_all(|p: u32| {
            stopped.borrow_mut().push(p);
            Ok::<(), String>(())
        }),
        Ok(())
    );
    let mut got = stopped.into_inner();
    got.sort();
    assert_eq!(got, vec![1, 2]);
    assert!(st.get_mount_status().is_empty());
    assert_eq!(st.unmount_all(|_p: u32| Err::<(), String>("unused".to_string())), Ok(()));
}

#[test]
fn unmount_all_failure_keeps_mounts() {
    let mut st: AppState<u32> = AppState::new();
    st.mount_bucket("a".to_string(), "D".to_string(), false, 1).unwrap();
    st.mount_bucket("b".to_string(), "E".to_string(), false, 2).unwrap();
    assert_eq!(st.unmount_all(|p: u32| Err::<(), String>(format!("cannot stop {}", p))).is_err(), true);
    assert_eq!(st.get_mount_status(), vec![mount("a", "D", "mounting"), mount("b", "E", "mounting")]);
    // Every process was taken out, so the next attempt has nothing to stop and succeeds.
    assert_eq!(st.unmount_all(|_p: u32| Err::<(), String>("unused".to_string())), Ok(()));
    assert!(st.get_mount_status().is_empty());
    assert!(st.is_consistent());
}

#[test]
fn mount_bucket_that_reported_up_is_connected() {
    let mut st: AppState<u32> = AppState::new();
    st.mount_bucket("a".to_string(), "D".to_string(), true, 1).unwrap();
    assert_eq!(st.get_mount_status(), vec![mount("a", "D", "connected")]);
}

#[test]
fn restarted_process_replaces_only_a_mounted_bucket() {
    let mut st: AppState<u32> = AppState::new();
    st.add_mount("a".to_string(), "D".to_string(), "mounted".to_string(), 1).unwrap();
    assert_eq!(st.replace_process("a".to_string(), 5), Ok(1));
    let mut stopped: Vec<u32> = Vec::new();
    assert_eq!(
        st.unmount_bucket(&"a".to_string(), |p: u32| {
            stopped.push(p);
            Ok::<(), String>(())
        }),
        Ok(())
    );
    assert_eq!(stopped, vec![5]);
    assert_eq!(st.replace_process("a".to_string(), 6), Err(6));
    assert!(!st.has_mount(&"a".to_string()));
}

#[test]
fn cleanup_hands_back_every_process() {
    let mut st: AppState<u32> = AppState::new();
    st.mount_bucket("a".to_string(), "D".to_string(), false, 1).unwrap();
    st.mount_bucket("b".to_string(), "E".to_string(), false, 2).unwrap();
    st.mount_bucket("c".to_string(), "F".to_string(), false, 3).unwrap();
    let mut ps = st.cleanup_mounts();
    ps.sort();
    assert_eq!(ps, vec![("a".to_string(), 1), ("b".to_string(), 2), ("c".to_string(), 3)]);
    assert!(st.get_mount_status().is_empty());
    assert!(st.cleanup_mounts().is_empty());
}

#[test]
fn status_changes_only_its_bucket() {
    let mut st: AppState<u32> = AppState::new();
    st.add_mount("a".to_string(), "D".to_string(), "mounting".to_string(), 1).unwrap();
    st.add_mount("b".to_string(), "E".to_string(), "mounting".to_string(), 2).unwrap();
    st.set_mount_status(&"a".to_string(), "connected".to_string());
    st.set_mount_status(&"zz".to_string(), "error".to_string());
    assert_eq!(st.get_mount_status(), vec![mount("a", "D", "connected"), mount("b", "E", "mounting")]);
}

#[test]
fn list_buckets_marks_mounted_ones() {
    let mut st: AppState<u32> = AppState::new();
    st.mount_bucket("b".to_string(), "F".to_string(), false, 1).unwrap();
    let got = st.list_buckets(vec!["a".to_string(), "b".to_string()]);
    assert_eq!(
        got,
        vec![
            Bucket { name: "a".to_string(), drive: None, mounted: false },
            Bucket { name: "b".to_string(), drive: Some("F".to_string()), mounted: true },
        ]
    );
}

#[test]
fn mounted_buckets_and_drives_in_order() {
    let mut st: AppState<u32> = AppState::new();
    st.mount_bucket("b".to_string(), "F".to_string(), false, 1).unwrap();
    st.mount_bucket("a".to_string(), "D".to_string(), false, 2).unwrap();
    assert_eq!(st.mounted_buckets(), vec!["b".to_string(), "a".to_string()]);
    assert_eq!(st.mounted_drives(), vec!["F".to_string(), "D".to_string()]);
}
