use league_replay::moves::{plan_move, MoveRecord};
use league_replay::sessions::check_batch;

fn record(observation: &str, segment: &str, session: &str, account: &str, state: &str) -> MoveRecord {
    MoveRecord {
        observation: observation.to_string(),
        segment: segment.to_string(),
        session: session.to_string(),
        account: account.to_string(),
        state: state.to_string(),
    }
}

#[test]
fn moving_an_unfinished_match_is_refused() {
    let records = vec![
        record("o1", "g1", "s1", "a1", "ready"),
        record("o2", "g1", "s1", "a1", "pending"),
    ];
    assert_eq!(plan_move(&records, "target").unwrap_err(), "session.matchActive");
}

#[test]
fn matches_of_one_segment_move_into_one_new_segment() {
    let records = vec![
        record("o1", "g1", "s1", "a1", "ready"),
        record("o2", "g2", "s2", "a2", "ready"),
        record("o3", "g1", "s1", "a1", "ready"),
    ];
    let groups = plan_move(&records, "target").unwrap();
    assert_eq!(groups.len(), 2);
    assert_eq!(groups[0].segment, "g1");
    assert_eq!(groups[0].account, "a1");
    assert_eq!(groups[0].observations, vec!["o1".to_string(), "o3".to_string()]);
    assert_eq!(groups[1].segment, "g2");
    assert_eq!(groups[1].account, "a2");
    assert_eq!(groups[1].observations, vec!["o2".to_string()]);
}

#[test]
fn matches_already_in_the_destination_stay_where_they_are() {
    let records = vec![
        record("o1", "g1", "target", "a1", "ready"),
        record("o2", "g2", "s2", "a2", "ready"),
    ];
    let groups = plan_move(&records, "target").unwrap();
    assert_eq!(groups.len(), 1);
    assert_eq!(groups[0].segment, "g2");
    assert_eq!(groups[0].observations, vec!["o2".to_string()]);
}

#[test]
fn a_move_of_nothing_plans_nothing() {
    assert!(plan_move(&Vec::new(), "target").unwrap().is_empty());
}

fn names(items: &[&str]) -> Vec<String> {
    items.iter().map(|s| s.to_string()).collect()
}

#[test]
fn a_move_names_each_match_once() {
    assert!(check_batch(&names(&["o1", "o2"])).is_ok());
    assert_eq!(check_batch(&names(&[])).unwrap_err(), "session.changed");
    assert_eq!(check_batch(&names(&["o1", "o2", "o1"])).unwrap_err(), "session.changed");
    let many: Vec<String> = (0..500).map(|i| format!("o{i}")).collect();
    assert!(check_batch(&many).is_ok());
    let too_many: Vec<String> = (0..501).map(|i| format!("o{i}")).collect();
    assert_eq!(check_batch(&too_many).unwrap_err(), "session.changed");
}
