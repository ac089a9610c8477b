use vinsly::registry::TerminalManager;

#[test]
fn new_table_is_empty() {
    let m: TerminalManager<u32> = TerminalManager::new();
    assert_eq!(m.len(), 0);
    assert!(!m.contains("a"));
}

#[test]
fn add_then_lookup() {
    let mut m: TerminalManager<u32> = TerminalManager::new();
    m.add("a".to_string(), 1);
    m.add("b".to_string(), 2);
    assert_eq!(m.len(), 2);
    assert!(m.contains("a"));
    assert!(m.contains("b"));
    assert!(!m.contains("c"));
}

#[test]
fn get_mut_changes_only_that_record() {
    let mut m: TerminalManager<u32> = TerminalManager::new();
    m.add("a".to_string(), 1);
    m.add("b".to_string(), 2);
    *m.get_mut("b").unwrap() = 20;
    assert_eq!(*m.get_mut("b").unwrap(), 20);
    assert_eq!(*m.get_mut("a").unwrap(), 1);
    assert!(m.get_mut("zz").is_none());
    assert_eq!(m.len(), 2);
}

#[test]
fn remove_hands_over_record_once() {
    let mut m: TerminalManager<u32> = TerminalManager::new();
    m.add("a".to_string(), 1);
    m.add("b".to_string(), 2);
    m.add("c".to_string(), 3);
    assert_eq!(m.remove("a"), Some(1));
    assert_eq!(m.remove("a"), None);
    assert_eq!(m.len(), 2);
    assert_eq!(*m.get_mut("c").unwrap(), 3);
    assert_eq!(*m.get_mut("b").unwrap(), 2);
}

#[test]
fn drain_all_hands_over_everything() {
    let mut m: TerminalManager<u32> = TerminalManager::new();
    m.add("a".to_string(), 1);
    m.add("b".to_string(), 2);
    m.add("c".to_string(), 3);
    let mut got = m.drain_all();
    got.sort();
    assert_eq!(got, vec![("a".to_string(), 1), ("b".to_string(), 2), ("c".to_string(), 3)]);
    assert_eq!(m.len(), 0);
    assert!(m.drain_all().is_empty());
}

#[test]
fn clear_returns_the_identifiers() {
    let mut m: TerminalManager<u32> = TerminalManager::new();
    m.add("x".to_string(), 1);
    m.add("y".to_string(), 2);
    let mut ids = m.clear();
    ids.sort();
    assert_eq!(ids, vec!["x".to_string(), "y".to_string()]);
    assert_eq!(m.len(), 0);
    assert!(!m.contains("x"));
}
