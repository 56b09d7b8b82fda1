use max_rss::graph::{subtree, tree, Node};
use max_rss::report::{summarize, ReportError};
use max_rss::table::{ProcInfo, ProcTable};

fn leaf(id: i32, rss: u64) -> Node {
    Node { id, rss, children: None }
}

#[test]
fn new_record_is_blank() {
    let info = ProcInfo::default();
    assert!(!info.exited);
    assert!(info.children.is_empty());
    assert_eq!(info.rss, 0);
}

#[test]
fn table_operations() {
    let mut table = ProcTable::new();
    assert_eq!(table.len(), 0);
    assert!(table.all_exited());
    assert!(table.alive_ids().is_empty());
    assert!(!table.contains(1));
    assert!(table.get(1).is_none());

    table.insert_new(1);
    table.insert_new(2);
    assert_eq!(table.len(), 2);
    assert!(table.contains(1) && table.contains(2));
    assert!(!table.all_exited());
    let mut alive = table.alive_ids();
    alive.sort();
    assert_eq!(alive, vec![1, 2]);
    let mut ids = table.ids();
    ids.sort();
    assert_eq!(ids, vec![1, 2]);

    table.append_child(1, 2);
    table.append_child(1, 3);
    table.record_rss(1, 77);
    table.mark_exited(1);
    let one = table.get(1).unwrap();
    assert!(one.exited);
    assert_eq!(one.rss, 77);
    assert_eq!(one.children, vec![2, 3]);
    assert_eq!(table.alive_ids(), vec![2]);
    assert!(!table.all_exited());

    table.mark_exited(2);
    assert!(table.all_exited());
    assert!(table.alive_ids().is_empty());
    assert_eq!(table.len(), 2);
}

#[test]
fn operations_on_strangers_change_nothing() {
    let mut table = ProcTable::new();
    table.insert_new(1);
    table.mark_exited(9);
    table.record_rss(9, 5);
    table.append_child(9, 1);
    assert_eq!(table.len(), 1);
    assert!(!table.contains(9));
    let one = table.get(1).unwrap();
    assert!(!one.exited);
    assert_eq!(one.rss, 0);
    assert!(one.children.is_empty());
}

#[test]
fn insert_new_replaces_a_record() {
    let mut table = ProcTable::new();
    table.insert_new(1);
    table.record_rss(1, 5);
    table.mark_exited(1);
    table.append_child(1, 1);
    table.insert_new(1);
    let one = table.get(1).unwrap();
    assert!(!one.exited);
    assert_eq!(one.rss, 0);
    assert!(one.children.is_empty());
    assert_eq!(table.len(), 1);
}

fn family() -> ProcTable {
    let mut table = ProcTable::new();
    for id in 1..=5 {
        table.insert_new(id);
        table.record_rss(id, 10 * id as u64);
    }
    table.append_child(1, 2);
    table.append_child(1, 3);
    table.append_child(3, 4);
    table.append_child(3, 5);
    table
}

#[test]
fn graph_is_drawn_depth_first() {
    let table = family();
    assert_eq!(
        tree(1, &table),
        Some(Node {
            id: 1,
            rss: 10,
            children: Some(vec![
                leaf(2, 20),
                Node { id: 3, rss: 30, children: Some(vec![leaf(4, 40), leaf(5, 50)]) },
            ]),
        })
    );
    assert_eq!(tree(4, &table), Some(leaf(4, 40)));
    assert_eq!(tree(6, &table), None);
}

#[test]
fn graph_is_cut_off_at_the_depth() {
    let table = family();
    assert_eq!(subtree(1, &table, 0), None);
    assert_eq!(subtree(2, &table, 1), Some(leaf(2, 20)));
    assert_eq!(subtree(3, &table, 1), None);
    assert!(subtree(3, &table, 2).is_some());
    assert_eq!(subtree(1, &table, 2), None);
    assert!(subtree(1, &table, 3).is_some());
}

#[test]
fn graph_needs_every_record() {
    let mut table = ProcTable::new();
    table.insert_new(1);
    table.append_child(1, 2);
    assert_eq!(tree(1, &table), None);
    assert_eq!(summarize(&table, 1, None), Err(ReportError::NoGraph));
}

#[test]
fn own_descendant_has_no_graph() {
    let mut table = ProcTable::new();
    table.insert_new(1);
    table.insert_new(2);
    table.append_child(1, 2);
    table.append_child(2, 1);
    assert_eq!(tree(1, &table), None);
    assert_eq!(summarize(&table, 1, Some(0)), Err(ReportError::NoGraph));
}

#[test]
fn report_sums_root_and_parents() {
    let table = family();
    let report = summarize(&table, 1, Some(2)).unwrap();
    assert_eq!(report.max_rss, 10 + 30);
    assert_eq!(report.total_pids, 5);
    assert_eq!(report.total_reads, 2);
    assert_eq!(report.exit_code, Some(2));
    assert_eq!(Some(report.graph), tree(1, &table));

    let report = summarize(&table, 4, None).unwrap();
    assert_eq!(report.max_rss, 10 + 30 + 40);
    assert_eq!(report.total_pids, 5);
    assert_eq!(report.total_reads, 3);
    assert_eq!(report.exit_code, None);
    assert_eq!(report.graph, leaf(4, 40));
}

#[test]
fn report_of_a_lone_root() {
    let mut table = ProcTable::new();
    table.insert_new(8);
    let report = summarize(&table, 8, None).unwrap();
    assert_eq!(report.max_rss, 0);
    assert_eq!(report.total_pids, 1);
    assert_eq!(report.total_reads, 1);
    assert_eq!(report.graph, leaf(8, 0));
}

#[test]
fn sum_must_fit() {
    let mut table = ProcTable::new();
    table.insert_new(1);
    table.insert_new(2);
    table.insert_new(3);
    table.append_child(1, 2);
    table.append_child(2, 3);
    table.record_rss(1, u64::MAX);
    table.record_rss(3, u64::MAX);
    assert_eq!(summarize(&table, 1, None).unwrap().max_rss, u64::MAX);
    table.record_rss(2, 1);
    assert_eq!(summarize(&table, 1, None), Err(ReportError::TooLarge));
}
