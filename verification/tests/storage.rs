use std::collections::HashMap;

use placement_center::errors::RobustMQError;
use placement_center::log_config::{load_log_config, placement_center_log_config};
use placement_center::storage::codec::encode_record;
use placement_center::storage::engine::{
    check_column_family, engine_delete_by_cluster, engine_exists_by_cluster,
    engine_get_by_cluster, engine_prefix_list_by_cluster, engine_save_record, engine_save_reply,
};
use placement_center::storage::prefix::{read_prefix_step, ScanStep};
use placement_center::storage::raft::{ConfState, HardState, RaftMachineStorage};
use placement_center::storage::rocksdb::{
    column_family_list, db_path, delete_reply, missing_column_families, open_db_opts, read_bytes,
    read_parsed, read_text, utf8_text, write_reply, CompactionStyle, DB_COLUMN_FAMILY_CLUSTER,
};
use placement_center::storage::StorageDataWrap;
use placement_center::tools::file_missing_error;

#[test]
fn record_is_written_as_compact_json() {
    assert_eq!(encode_record(&[1, 2, 255]), b"{\"data\":[1,2,255]}".to_vec());
    assert_eq!(encode_record(&[]), b"{\"data\":[]}".to_vec());
    assert_eq!(encode_record(&[0, 9, 10, 99, 100]), b"{\"data\":[0,9,10,99,100]}".to_vec());
}

#[test]
fn record_matches_serde_json_output() {
    let data: Vec<u8> = (0..=255).collect();
    let mut expected = b"{\"data\":".to_vec();
    expected.extend(serde_json::to_vec(&data).unwrap());
    expected.push(b'}');
    assert_eq!(encode_record(&data), expected);
}

#[test]
fn byte_array_json_is_parsed() {
    assert_eq!(read_bytes(Ok(Some(b"[10,20,30]".to_vec()))), Ok(Some(vec![10, 20, 30])));
    assert_eq!(read_bytes(Ok(Some(b" [ 1 , 2 ] ".to_vec()))), Ok(Some(vec![1, 2])));
    assert!(read_bytes(Ok(Some(b"[256]".to_vec()))).is_err());
    assert!(read_bytes(Ok(Some(b"{}".to_vec()))).is_err());
}

fn utf8_error(bytes: &[u8]) -> String {
    format!("{:?}", String::from_utf8(bytes.to_vec()).unwrap_err())
}

fn json_error(text: &[u8]) -> String {
    format!("{:?}", serde_json::from_slice::<Vec<u8>>(text).unwrap_err())
}

#[test]
fn read_text_replies() {
    assert_eq!(
        read_text(Err("boom".to_string())),
        Err("Failed to get from ColumnFamily: boom".to_string())
    );
    assert_eq!(read_text(Ok(None)), Ok(None));
    assert_eq!(
        read_text(Ok(Some(vec![0xff, 0xfe]))),
        Err(format!("Failed to deserialize: {}", utf8_error(&[0xff, 0xfe])))
    );
    assert_eq!(read_text(Ok(Some("héllo".as_bytes().to_vec()))), Ok(Some("héllo".to_string())));
}

#[test]
fn read_parsed_replies() {
    assert_eq!(read_parsed::<u8>(Ok(4)), Ok(Some(4)));
    assert_eq!(
        read_parsed::<u8>(Err("bad".to_string())),
        Err("Failed to deserialize value to T. err: bad".to_string())
    );
}

#[test]
fn read_bytes_replies() {
    assert_eq!(
        read_bytes(Err("gone".to_string())),
        Err("Failed to get from ColumnFamily: gone".to_string())
    );
    assert_eq!(read_bytes(Ok(None)), Ok(None));
    assert_eq!(read_bytes(Ok(Some(b"[1,2,3]".to_vec()))), Ok(Some(vec![1, 2, 3])));
    assert_eq!(
        read_bytes(Ok(Some(b"[1,".to_vec()))),
        Err(format!("Failed to deserialize value to T. err: {}", json_error(b"[1,")))
    );
    assert_eq!(
        read_bytes(Ok(Some(vec![0xc3]))),
        Err(format!("Failed to deserialize: {}", utf8_error(&[0xc3])))
    );
}

#[test]
fn write_and_delete_replies() {
    assert_eq!(write_reply(Ok(())), Ok(()));
    assert_eq!(
        write_reply(Err("disk".to_string())),
        Err("Failed to put to ColumnFamily:disk".to_string())
    );
    assert_eq!(delete_reply(Ok(())), Ok(()));
    assert_eq!(
        delete_reply(Err("locked".to_string())),
        Err(RobustMQError::RocksdbError("locked".to_string()))
    );
}

#[test]
fn column_families_of_the_engine() {
    assert_eq!(DB_COLUMN_FAMILY_CLUSTER, "cluster");
    assert_eq!(column_family_list(), vec!["cluster".to_string()]);
    assert_eq!(missing_column_families(&vec![]), vec!["cluster".to_string()]);
    assert_eq!(
        missing_column_families(&vec!["default".to_string()]),
        vec!["cluster".to_string()]
    );
    assert_eq!(
        missing_column_families(&vec!["default".to_string(), "cluster".to_string()]),
        Vec::<String>::new()
    );
    assert_eq!(db_path("/data/pc"), "/data/pc/_storage_rocksdb");
}

#[test]
fn db_options_of_the_engine() {
    let o = open_db_opts();
    assert!(o.create_if_missing);
    assert!(o.create_missing_column_families);
    assert_eq!(o.max_open_files, 1000);
    assert!(!o.use_fsync);
    assert_eq!(o.bytes_per_sync, 8388608);
    assert_eq!(o.point_lookup_block_cache_mb, 1024);
    assert_eq!(o.table_cache_num_shard_bits, 6);
    assert_eq!(o.max_write_buffer_number, 32);
    assert_eq!(o.write_buffer_size, 536870912);
    assert_eq!(o.target_file_size_base, 1073741824);
    assert_eq!(o.min_write_buffer_number_to_merge, 4);
    assert_eq!(o.level_zero_stop_writes_trigger, 2000);
    assert_eq!(o.level_zero_slowdown_writes_trigger, 0);
    assert_eq!(o.compaction_style, CompactionStyle::Universal);
    assert!(o.disable_auto_compactions);
    assert_eq!(o.fixed_prefix_len, 10);
}

#[test]
fn utf8_text_of_bytes() {
    assert_eq!(utf8_text("héllo".as_bytes()), Some("héllo".to_string()));
    assert_eq!(utf8_text(&[0x80]), None);
}

fn keep(step: ScanStep) -> Option<(String, Vec<u8>)> {
    match step {
        ScanStep::Keep(k, v) => Some((k, v)),
        _ => None,
    }
}

#[test]
fn prefix_step_decisions() {
    assert_eq!(
        keep(read_prefix_step("/cluster/", Some(b"/cluster/a"), Some(b"v"))),
        Some(("/cluster/a".to_string(), b"v".to_vec()))
    );
    assert!(matches!(
        read_prefix_step("/cluster/", Some(b"/clustes"), Some(b"v")),
        ScanStep::Stop
    ));
    assert!(matches!(
        read_prefix_step("/cluster/", Some(b"/cluster/\xff"), Some(b"v")),
        ScanStep::Skip
    ));
    assert!(matches!(
        read_prefix_step("/cluster/", Some(&[0xff, 0x00]), Some(b"v")),
        ScanStep::Stop
    ));
    assert!(matches!(read_prefix_step("/c", None, Some(b"v")), ScanStep::Skip));
    assert!(matches!(read_prefix_step("/c", Some(b"/c"), None), ScanStep::Skip));
    assert_eq!(
        keep(read_prefix_step("", Some(b"anything"), Some(b""))),
        Some(("anything".to_string(), Vec::new()))
    );
}

#[test]
fn prefix_scan_over_sorted_keys_keeps_the_prefix_block() {
    let mut keys: Vec<&[u8]> = vec![b"/a/1", b"/a/2", b"/a/\xfe", b"/a/3", b"/b/1", b"/a0"];
    keys.sort();
    let start = keys.iter().position(|k| *k >= &b"/a/"[..]).unwrap();
    let mut found = Vec::new();
    for k in &keys[start..] {
        match read_prefix_step("/a/", Some(k), Some(b"x")) {
            ScanStep::Keep(key, _) => found.push(key),
            ScanStep::Stop => break,
            ScanStep::Skip => {}
        }
    }
    assert_eq!(found, vec!["/a/1", "/a/2", "/a/3"]);
}

#[test]
fn engine_save_then_get() {
    let content = serde_json::to_vec(&vec!["node-1", "node-2"]).unwrap();
    let record = engine_save_record(content.clone());
    assert_eq!(engine_save_reply(Ok(())), Ok(()));
    let text = read_text(Ok(Some(record))).unwrap().unwrap();
    let parsed: serde_json::Value = serde_json::from_str(&text).unwrap();
    let data: Vec<u8> = serde_json::from_value(parsed["data"].clone()).unwrap();
    assert_eq!(data, content);
    let found = read_parsed(Ok(StorageDataWrap::new(data)));
    assert_eq!(engine_get_by_cluster(found), Ok(Some(StorageDataWrap::new(content))));
}

#[test]
fn engine_replies() {
    assert_eq!(
        engine_save_reply(Err("full".to_string())),
        Err(RobustMQError::CommmonError("Failed to put to ColumnFamily:full".to_string()))
    );
    assert_eq!(engine_get_by_cluster(Ok(None)), Ok(None));
    assert_eq!(
        engine_get_by_cluster(read_text(Err("io".to_string())).map(|_| None)),
        Err(RobustMQError::CommmonError("Failed to get from ColumnFamily: io".to_string()))
    );
    assert_eq!(
        engine_get_by_cluster(read_parsed(Err("Error(\"EOF\")".to_string()))),
        Err(RobustMQError::CommmonError(
            "Failed to deserialize value to T. err: Error(\"EOF\")".to_string()
        ))
    );
    assert_eq!(engine_exists_by_cluster(true), Ok(true));
    assert_eq!(engine_exists_by_cluster(false), Ok(false));
    assert_eq!(engine_delete_by_cluster(Ok(())), Ok(()));
    assert_eq!(
        engine_delete_by_cluster(Err("e".to_string())),
        Err(RobustMQError::RocksdbError("e".to_string()))
    );
}

#[test]
fn engine_prefix_list_keeps_records_only() {
    let parsed = vec![
        Ok(StorageDataWrap::new(vec![1])),
        Err("not a record".to_string()),
        Ok(StorageDataWrap::new(vec![3, 3])),
    ];
    assert_eq!(
        engine_prefix_list_by_cluster(parsed),
        Ok(vec![StorageDataWrap::new(vec![1]), StorageDataWrap::new(vec![3, 3])])
    );
    assert_eq!(engine_prefix_list_by_cluster(vec![]), Ok(vec![]));
}

#[test]
fn column_family_check() {
    assert_eq!(check_column_family("cluster"), Ok(()));
    assert_eq!(check_column_family("other"), Err(RobustMQError::ClusterNoAvailableNode));
    assert_eq!(check_column_family(""), Err(RobustMQError::ClusterNoAvailableNode));
}

fn stored_uncommit(map: &HashMap<u64, i8>) -> Vec<u8> {
    let bin = bincode::serialize(map).unwrap();
    serde_json::to_vec(&bin).unwrap()
}

#[test]
fn uncommit_index_is_read_from_storage() {
    let mut map = HashMap::new();
    map.insert(5u64, 1i8);
    map.insert(9u64, -1i8);
    let stored = stored_uncommit(&map);
    assert_eq!(RaftMachineStorage::uncommit_index(Ok(Some(stored))), map);
    assert!(RaftMachineStorage::uncommit_index(Ok(None)).is_empty());
    assert!(RaftMachineStorage::uncommit_index(Err("e".to_string())).is_empty());
    assert!(RaftMachineStorage::uncommit_index(Ok(Some(b"[1,2]".to_vec()))).is_empty());
    assert!(RaftMachineStorage::uncommit_index(Ok(Some(b"oops".to_vec()))).is_empty());
}

#[test]
fn uncommit_index_later_keys_win_and_trailing_bytes_are_left() {
    let mut bin: Vec<u8> = vec![2, 0, 0, 0, 0, 0, 0, 0];
    bin.extend([1, 0, 0, 0, 0, 0, 0, 0, 5]);
    bin.extend([1, 0, 0, 0, 0, 0, 0, 0, 0xf9]);
    bin.extend([0xaa, 0xbb]);
    let stored = serde_json::to_vec(&bin).unwrap();
    let mut expected = HashMap::new();
    expected.insert(1u64, -7i8);
    assert_eq!(RaftMachineStorage::uncommit_index(Ok(Some(stored))), expected);
    let short: Vec<u8> = vec![1, 0, 0, 0, 0, 0, 0, 0, 1, 0];
    let stored = serde_json::to_vec(&short).unwrap();
    assert!(RaftMachineStorage::uncommit_index(Ok(Some(stored))).is_empty());
}

#[test]
fn raft_storage_starts_from_stored_indexes() {
    let mut map = HashMap::new();
    map.insert(3u64, 0i8);
    let rc = RaftMachineStorage::new(Ok(Some(stored_uncommit(&map))));
    assert_eq!(rc.uncommit_index, map);
    assert!(!rc.trigger_snap_unavailable);
    assert_eq!(rc.snapshot_metadata.index, 0);
    assert_eq!(rc.snapshot_metadata.term, 0);
    assert_eq!(rc.snapshot_metadata.conf_state, ConfState::default());
    let meta = rc.create_snapshot_metadata();
    assert_eq!(meta.index, 0);
    assert!(meta.conf_state.voters.is_empty());
}

#[test]
fn hard_and_conf_state_defaults() {
    let h = HardState { term: 3, vote: 2, commit: 7 };
    assert_eq!(RaftMachineStorage::hard_state(Some(h)), h);
    assert_eq!(RaftMachineStorage::hard_state(None), HardState { term: 0, vote: 0, commit: 0 });
    let c = ConfState {
        voters: vec![1, 2],
        learners: vec![3],
        voters_outgoing: vec![],
        learners_next: vec![],
        auto_leave: true,
    };
    assert_eq!(RaftMachineStorage::conf_state(Some(c.clone())), c);
    let d = RaftMachineStorage::conf_state(None);
    assert!(d.voters.is_empty() && d.learners.is_empty() && !d.auto_leave);
}

#[test]
fn error_messages() {
    assert_eq!(RobustMQError::IOJsonError("x".to_string()).to_string(), "io error");
    assert_eq!(
        RobustMQError::ParameterCannotBeNull("name".to_string()).to_string(),
        "Parameter cannot be empty, parameter name: name"
    );
    assert_eq!(RobustMQError::CommmonError("oops".to_string()).to_string(), "oops");
    assert_eq!(RobustMQError::RocksdbError("rk".to_string()).to_string(), "rk");
    assert_eq!(
        RobustMQError::ClusterNoAvailableNode.to_string(),
        "No available nodes in the cluster"
    );
    assert_eq!(RobustMQError::SerdeJsonError("sj".to_string()).to_string(), "sj");
    assert_eq!(
        RobustMQError::RaftLogCommitTimeout("save".to_string()).to_string(),
        "Description The interface save submitted logs to the commit log"
    );
    assert_eq!(
        RobustMQError::NoAvailableGrpcConnection("meta".to_string(), "retry".to_string())
            .to_string(),
        "meta connection pool has no connection information available. retry"
    );
    assert_eq!(
        RobustMQError::GrpcServerStatus("unavailable".to_string()).to_string(),
        "Grpc call of the node failed,Grpc status was unavailable"
    );
}

#[test]
fn log_config_paths_are_filled_in() {
    let content = "appenders:\n  file:\n    path: {$path}/server.log\n  err: {$path}/err.log\n";
    assert_eq!(
        placement_center_log_config(content, "/var/log/pc"),
        "appenders:\n  file:\n    path: /var/log/pc/server.log\n  err: /var/log/pc/err.log\n"
    );
    assert_eq!(placement_center_log_config("no marks here", "/x"), "no marks here");
    assert_eq!(placement_center_log_config("{$path}{$path}", "é"), "éé");
    assert_eq!(placement_center_log_config("{$pat{$path}}", "p"), "{$patp}");
    assert_eq!(placement_center_log_config("", "p"), "");
}

#[test]
fn missing_file_error() {
    assert_eq!(
        file_missing_error(&"conf/log.yaml".to_string()),
        RobustMQError::CommmonError("File conf/log.yaml does not exist".to_string())
    );
}

#[test]
fn log_config_is_read_after_filling_in_paths() {
    let content = "refresh_rate: 30 seconds\nappenders:\n  file:\n    kind: file\n    path: \"{$path}/server.log\"\nroot:\n  level: info\n  appenders:\n    - file\n";
    assert!(load_log_config(content, "/var/log/pc", "conf/log4rs.yaml").is_ok());
    let bad = "bogus: 1\n";
    let detail = serde_yaml::from_str::<log4rs::config::RawConfig>(bad).unwrap_err().to_string();
    assert_eq!(
        load_log_config(bad, "/x", "conf/log4rs.yaml").unwrap_err(),
        format!(
            "Failed to parse the contents of the config file conf/log4rs.yaml with error message :{}",
            detail
        )
    );
    let broken_after = "refresh_rate: {$path}\n";
    let filled = "refresh_rate: not a duration\n";
    let detail = serde_yaml::from_str::<log4rs::config::RawConfig>(filled).unwrap_err().to_string();
    assert_eq!(
        load_log_config(broken_after, "not a duration", "c.yaml").unwrap_err(),
        format!("Failed to parse the contents of the config file c.yaml with error message :{}", detail)
    );
}

#[test]
fn log_config_with_empty_log_path() {
    assert_eq!(placement_center_log_config("a{$path}b", ""), "ab");
}
