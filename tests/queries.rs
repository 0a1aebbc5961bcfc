use swh_provenance::keys::Sha1Git;
use swh_provenance::queries::{
    node_id_of, node_ids_of, same_hash, swhid_of, swhids_of, where_is_one_start, where_is_one_step,
    NodeRow, QueryError, WhereIsAction, WhereIsEvent, WhereIsOneResult,
};
use swh_provenance::row_filter::{evaluate_row_filter, TableScanMetrics};
use swh_provenance::swhid::{parse_swhid, NodeType, Swhid};

fn hash(last: u8) -> Sha1Git {
    let mut h = [0u8; 20];
    h[19] = last;
    Sha1Git(h)
}

fn text(kind: &str, last: &str) -> String {
    format!("swh:1:{kind}:{}{last}", "0".repeat(40 - last.len()))
}

/// The synthetic dataset: rev 0 -> dir 1 -> cnt 2; dir 3 -> cnt 4; dir 1 is a
/// frontier directory.
struct Tables {
    nodes: Vec<NodeRow>,
    c_in_r: Vec<(u64, u64)>,
    c_in_d: Vec<(u64, u64)>,
    d_in_r: Vec<(u64, u64)>,
}

fn dataset() -> Tables {
    let kinds = [
        NodeType::Revision,
        NodeType::Directory,
        NodeType::Content,
        NodeType::Directory,
        NodeType::Content,
    ];
    Tables {
        nodes: kinds
            .iter()
            .enumerate()
            .map(|(i, t)| NodeRow { id: i as u64, node_type: *t, sha1_git: hash(i as u8) })
            .collect(),
        c_in_r: vec![],
        c_in_d: vec![(2, 1)],
        d_in_r: vec![(1, 0)],
    }
}

fn probe(table: &[(u64, u64)], keys: &[u64]) -> Vec<(u64, u64)> {
    table.iter().filter(|(k, _)| keys.contains(k)).copied().collect()
}

/// Runs a where-is query against in-memory tables, as a server runs it
/// against the columnar tables.
fn where_is_one(tables: &Tables, input: &str) -> Result<WhereIsOneResult, QueryError> {
    let (mut state, mut action) = where_is_one_start(input);
    for _ in 0..10 {
        let event = match action {
            WhereIsAction::Reply(r) => return r,
            WhereIsAction::ScanNodesByHash(hashes) => WhereIsEvent::NodeRows(
                tables.nodes.iter().filter(|n| hashes.contains(&n.sha1_git)).copied().collect(),
            ),
            WhereIsAction::ScanNodesById(ids) => WhereIsEvent::NodeRows(
                tables.nodes.iter().filter(|n| ids.contains(&n.id)).copied().collect(),
            ),
            WhereIsAction::ProbeContentsInRevisions(keys) => {
                WhereIsEvent::Pairs(probe(&tables.c_in_r, &keys).into_iter().take(1).collect())
            }
            WhereIsAction::ProbeContentsInDirectories(keys) => WhereIsEvent::Pairs(probe(&tables.c_in_d, &keys)),
            WhereIsAction::ProbeDirectoriesInRevisions(keys) => WhereIsEvent::Pairs(probe(&tables.d_in_r, &keys)),
        };
        let (s, a) = where_is_one_step(state, event);
        state = s;
        action = a;
    }
    panic!("query did not finish");
}

#[test]
fn content_found_through_frontier_directory() {
    let r = where_is_one(&dataset(), &text("cnt", "2")).unwrap();
    assert_eq!(r.swhid, text("cnt", "2"));
    assert_eq!(r.anchor, Some(text("rev", "0")));
    assert_eq!(r.origin, None);
}

#[test]
fn dangling_content_has_no_anchor() {
    let r = where_is_one(&dataset(), &text("cnt", "4")).unwrap();
    assert_eq!(r.swhid, text("cnt", "4"));
    assert_eq!(r.anchor, None);
}

#[test]
fn frontier_directory_found_in_revision() {
    let r = where_is_one(&dataset(), &text("dir", "1")).unwrap();
    assert_eq!(r.swhid, text("dir", "1"));
    assert_eq!(r.anchor, Some(text("rev", "0")));
}

#[test]
fn unknown_swhid_is_not_found() {
    let input = format!("swh:1:cnt:{}", "f".repeat(40));
    match where_is_one(&dataset(), &input) {
        Err(QueryError::NotFound(missing)) => {
            assert_eq!(missing.len(), 1);
            assert_eq!(missing[0].to_string(), input);
        }
        other => panic!("unexpected {other:?}"),
    }
}

#[test]
fn malformed_swhid_is_invalid() {
    assert!(matches!(where_is_one(&dataset(), "not-a-swhid"), Err(QueryError::InvalidArgument)));
}

#[test]
fn streamed_queries_answer_each() {
    let tables = dataset();
    let answers: Vec<_> = [text("cnt", "2"), text("cnt", "4")]
        .iter()
        .map(|s| where_is_one(&tables, s).unwrap())
        .collect();
    assert_eq!(answers.len(), 2);
    assert_eq!(answers[0].anchor, Some(text("rev", "0")));
    assert_eq!(answers[1].anchor, None);
}

#[test]
fn content_found_directly_in_revision() {
    let mut tables = dataset();
    tables.c_in_r.push((4, 0));
    let r = where_is_one(&tables, &text("cnt", "4")).unwrap();
    assert_eq!(r.anchor, Some(text("rev", "0")));
}

#[test]
fn repeated_queries_answer_alike() {
    let tables = dataset();
    let a = where_is_one(&tables, &text("cnt", "2")).unwrap();
    let b = where_is_one(&tables, &text("cnt", "2")).unwrap();
    assert_eq!(a.swhid, b.swhid);
    assert_eq!(a.anchor, b.anchor);
}

#[test]
fn anchor_missing_from_node_table_is_reported() {
    let mut tables = dataset();
    tables.d_in_r = vec![(1, 99)];
    assert!(matches!(
        where_is_one(&tables, &text("cnt", "2")),
        Err(QueryError::UnknownNodeId(99))
    ));
}

#[test]
fn unexpected_answer_is_refused() {
    let (state, _) = where_is_one_start(&text("cnt", "2"));
    let (_, action) = where_is_one_step(state, WhereIsEvent::Pairs(vec![]));
    assert!(matches!(action, WhereIsAction::Reply(Err(QueryError::UnexpectedEvent))));
}

#[test]
fn swhid_text_round_trips() {
    let input = "swh:1:rev:00112233445566778899aabbccddeeff00112233";
    let s = parse_swhid(input).unwrap();
    assert_eq!(s.node_type, NodeType::Revision);
    assert_eq!(s.hash.0[0], 0x00);
    assert_eq!(s.hash.0[1], 0x11);
    assert_eq!(s.hash.0[10], 0xaa);
    assert_eq!(s.hash.0[19], 0x33);
    assert_eq!(s.to_string(), input);
    assert_eq!(s.to_text(), input.as_bytes().to_vec());
}

#[test]
fn swhid_text_writes_its_version() {
    let s = Swhid { namespace_version: 12, node_type: NodeType::Content, hash: hash(0xab) };
    assert_eq!(s.to_string(), format!("swh:12:cnt:{}ab", "0".repeat(38)));
    let s = Swhid { namespace_version: 200, node_type: NodeType::Origin, hash: hash(1) };
    assert!(s.to_string().starts_with("swh:200:ori:"));
}

#[test]
fn every_type_parses() {
    for (tag, t) in [
        ("cnt", NodeType::Content),
        ("dir", NodeType::Directory),
        ("rev", NodeType::Revision),
        ("rel", NodeType::Release),
        ("snp", NodeType::Snapshot),
        ("ori", NodeType::Origin),
    ] {
        let s = parse_swhid(&text(tag, "1")).unwrap();
        assert_eq!(s.node_type, t);
        assert_eq!(s.to_string(), text(tag, "1"));
    }
}

#[test]
fn type_tags_name_types() {
    assert_eq!(NodeType::from_tag(b"rel"), Some(NodeType::Release));
    assert_eq!(NodeType::from_tag(b"ori"), Some(NodeType::Origin));
    assert_eq!(NodeType::from_tag(b"cn"), None);
    assert_eq!(NodeType::from_tag(b"xyz"), None);
}

#[test]
fn malformed_swhids_are_refused() {
    for bad in [
        "",
        "swh:1:cnt:",
        "swh:2:cnt:0000000000000000000000000000000000000000",
        "swx:1:cnt:0000000000000000000000000000000000000000",
        "swh:1:foo:0000000000000000000000000000000000000000",
        "swh:1:cnt:000000000000000000000000000000000000000g",
        "swh:1:cnt:000000000000000000000000000000000000000",
        "swh:1:cnt:00000000000000000000000000000000000000000",
        "swh:1:cnt;0000000000000000000000000000000000000000",
    ] {
        assert!(parse_swhid(bad).is_none(), "{bad}");
    }
}

#[test]
fn node_ids_round_trip() {
    let nodes = dataset().nodes;
    let s = parse_swhid(&text("dir", "3")).unwrap();
    let id = node_id_of(&nodes, &s).unwrap();
    assert_eq!(id, 3);
    let back = swhid_of(&nodes, id).unwrap();
    assert_eq!(back.to_string(), text("dir", "3"));
    assert_eq!(node_id_of(&nodes, &swhid_of(&nodes, 4).unwrap()), Some(4));
    assert!(swhid_of(&nodes, 5).is_none());
}

#[test]
fn node_ids_of_resolves_in_order() {
    let nodes = dataset().nodes;
    let asked = vec![parse_swhid(&text("cnt", "4")).unwrap(), parse_swhid(&text("rev", "0")).unwrap()];
    assert_eq!(node_ids_of(&nodes, &asked).unwrap(), vec![4, 0]);
}

#[test]
fn node_ids_of_lists_unknown_swhids() {
    let nodes = dataset().nodes;
    let asked = vec![
        parse_swhid(&text("cnt", "9")).unwrap(),
        parse_swhid(&text("cnt", "2")).unwrap(),
        parse_swhid(&text("dir", "2")).unwrap(),
    ];
    match node_ids_of(&nodes, &asked) {
        Err(QueryError::NotFound(missing)) => {
            let texts: Vec<String> = missing.iter().map(Swhid::to_string).collect();
            assert_eq!(texts, vec![text("cnt", "9"), text("dir", "2")]);
        }
        other => panic!("unexpected {other:?}"),
    }
}

#[test]
fn node_ids_of_refuses_duplicates() {
    let nodes = dataset().nodes;
    let s = parse_swhid(&text("cnt", "2")).unwrap();
    assert!(matches!(node_ids_of(&nodes, &vec![s, s]), Err(QueryError::DuplicateSwhids)));
}

#[test]
fn swhids_of_resolves_and_reports_unknown_ids() {
    let nodes = dataset().nodes;
    let out = swhids_of(&nodes, &vec![2, 0]).unwrap();
    assert_eq!(out[0].to_string(), text("cnt", "2"));
    assert_eq!(out[1].to_string(), text("rev", "0"));
    assert!(matches!(swhids_of(&nodes, &vec![0, 7]), Err(QueryError::UnknownNodeId(7))));
}

#[test]
fn hashes_compare_bytewise() {
    assert!(same_hash(&hash(3), &hash(3)));
    assert!(!same_hash(&hash(3), &hash(4)));
}

#[test]
fn row_filter_keeps_rows_with_keys() {
    let mut metrics = TableScanMetrics::new();
    let mask = evaluate_row_filter(&vec![2, 5], &vec![1, 2, 3, 5, 5], &mut metrics);
    assert_eq!(mask, vec![false, true, false, true, true]);
    assert_eq!(metrics.rows_selected_by_row_filter, 3);
    assert_eq!(metrics.rows_pruned_by_row_filter, 2);
}

#[test]
fn row_filter_searches_many_keys() {
    let keys: Vec<u64> = (0..50).map(|i| i * 3).collect();
    let candidates: Vec<u64> = (0..20).collect();
    let mut metrics = TableScanMetrics::new();
    let mask = evaluate_row_filter(&keys, &candidates, &mut metrics);
    let expected: Vec<bool> = candidates.iter().map(|c| c % 3 == 0).collect();
    assert_eq!(mask, expected);
    assert_eq!(metrics.rows_selected_by_row_filter + metrics.rows_pruned_by_row_filter, 20);
}

#[test]
fn duplicate_keys_do_not_duplicate_rows() {
    let mut a = TableScanMetrics::new();
    let mut b = TableScanMetrics::new();
    let candidates = vec![4, 7, 7, 9];
    let with_dups = evaluate_row_filter(&vec![7, 7, 7, 7, 7, 9], &candidates, &mut a);
    let without = evaluate_row_filter(&vec![7, 9], &candidates, &mut b);
    assert_eq!(with_dups, without);
    assert_eq!(a, b);
    assert_eq!(a.rows_selected_by_row_filter, 3);
}

#[test]
fn empty_key_set_filters_every_row() {
    let mut metrics = TableScanMetrics::new();
    let mask = evaluate_row_filter(&vec![], &vec![1, 2, 3], &mut metrics);
    assert_eq!(mask, vec![false, false, false]);
    assert_eq!(metrics.rows_pruned_by_row_filter, 3);
}
