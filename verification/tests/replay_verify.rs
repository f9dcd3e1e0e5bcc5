use hl_orderbook::clearing_house::compare::BalanceDrift;
use hl_orderbook::tools::replay_verify::{
    by_drift, expand_tilde_path, file_overlaps_range, last_block_in, parse_user_list,
    select_snapshot_pair, snapshot_order, split_on, tail_start,
};

fn stems(blocks: &[u64]) -> Vec<String> {
    blocks.iter().map(|block| block.to_string()).collect()
}

#[test]
fn defaults_to_last_two_snapshots() {
    let files = stems(&[100, 200, 300]);
    assert_eq!(select_snapshot_pair(&files, None).unwrap(), (1, 2));
}

#[test]
fn selects_requested_start_snapshot_and_next_snapshot() {
    let files = stems(&[100, 200, 300]);
    assert_eq!(select_snapshot_pair(&files, Some(100)).unwrap(), (0, 1));
    assert_eq!(select_snapshot_pair(&files, Some(200)).unwrap(), (1, 2));
}

#[test]
fn rejects_missing_or_terminal_snapshot() {
    let files = stems(&[100, 200, 300]);
    assert!(select_snapshot_pair(&files, Some(150)).is_err());
    assert!(select_snapshot_pair(&files, Some(300)).is_err());
}

#[test]
fn snapshot_errors_say_why() {
    let files = stems(&[100, 200, 300]);
    assert_eq!(
        select_snapshot_pair(&files, Some(150)).unwrap_err(),
        "Snapshot block 150 not found in periodic_abci_states"
    );
    assert_eq!(
        select_snapshot_pair(&files, Some(300)).unwrap_err(),
        "Snapshot block 300 is the last available snapshot and has no following snapshot to compare against"
    );
}

#[test]
fn expands_tilde_prefixed_paths() {
    let home = Some("/home/me".to_string());
    assert_eq!(expand_tilde_path("~", &home), "/home/me");
    assert_eq!(expand_tilde_path("~/hl-node", &home), "/home/me/hl-node");
    assert_eq!(expand_tilde_path("hl-node", &home), "hl-node");
    if let Some(dir) = dirs::home_dir() {
        let home = Some(dir.to_string_lossy().to_string());
        assert_eq!(expand_tilde_path("~", &home), dir.to_string_lossy());
        assert_eq!(expand_tilde_path("~/hl-node", &home), dir.join("hl-node").to_string_lossy());
    }
}

#[test]
fn paths_stay_as_they_are_without_a_home() {
    assert_eq!(expand_tilde_path("~", &None), "~");
    assert_eq!(expand_tilde_path("~/x", &None), "~/x");
    assert_eq!(expand_tilde_path("~//x", &Some("/home/me".to_string())), "/x");
    assert_eq!(expand_tilde_path("~/x", &Some("/".to_string())), "/x");
}

#[test]
fn splits_between_separators() {
    assert_eq!(split_on("a,,b", ','), vec!["a", "", "b"]);
    assert_eq!(split_on("", ','), vec![""]);
    assert_eq!(split_on("a,", ','), vec!["a", ""]);
}

#[test]
fn user_lists_are_trimmed_and_lowered() {
    let users = parse_user_list(" 0xAbC ,,\t0xDEF\n");
    assert_eq!(users.len(), 2);
    assert!(users.contains_key("0xabc"));
    assert!(users.contains_key("0xdef"));
    assert!(parse_user_list("").is_empty());
}

#[test]
fn the_last_whole_line_gives_the_last_block() {
    let lines = vec![
        "ck_number\":1}".to_string(),
        "{\"block_number\":41,\"events\":[]}".to_string(),
        "{\"block_number\":42,\"events\":[]}".to_string(),
        "garbage".to_string(),
    ];
    assert_eq!(last_block_in(&lines), Some(42));
    assert_eq!(last_block_in(&vec!["x".to_string()]), None);
}

#[test]
fn files_count_where_their_blocks_overlap() {
    assert!(file_overlaps_range(Some(5), Some(10), 9, 20));
    assert!(!file_overlaps_range(Some(5), Some(9), 9, 20));
    assert!(!file_overlaps_range(Some(21), Some(30), 9, 20));
    assert!(file_overlaps_range(None, None, 9, 20));
    assert_eq!(tail_start(32_768), 0);
    assert_eq!(tail_start(32_769), 1);
}

#[test]
fn the_largest_drift_comes_first() {
    let drift = |user: &str, a: i64, b: i64| BalanceDrift {
        user: user.to_string(),
        replay_balance: a,
        truth_balance: b,
    };
    let drifts = vec![drift("a", 1, 3), drift("b", 10, 0), drift("c", 0, 2), drift("d", i64::MIN, i64::MAX)];
    assert_eq!(by_drift(&drifts), vec![3, 1, 0, 2]);
}

#[test]
fn snapshots_are_ordered_by_height() {
    let names = |ns: &[&str]| ns.iter().map(|n| n.to_string()).collect::<Vec<_>>();
    assert_eq!(snapshot_order(&stems(&[1_000, 999, 5])), vec![2, 1, 0]);
    assert_eq!(snapshot_order(&names(&["7", "x", "007", "3"])), vec![1, 3, 0, 2]);
    assert!(snapshot_order(&names(&[])).is_empty());
}
