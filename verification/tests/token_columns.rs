use tpmu::default::{Columns, DefaultManager, Field};
use tpmu::error::PsError;

#[test]
fn find_by_idx_returns_the_recorded_column() {
    let cols = Columns::new(vec![(Field::Uid, 0), (Field::Pid, 1), (Field::Comm, 3)]);
    assert_eq!(cols.find_by_idx(0), Some(Field::Uid));
    assert_eq!(cols.find_by_idx(1), Some(Field::Pid));
    assert_eq!(cols.find_by_idx(3), Some(Field::Comm));
    assert_eq!(cols.find_by_idx(2), None);
}

#[test]
fn indexes_skip_unknown_tokens() {
    let manager = DefaultManager::new();
    let cols = manager.get_indexes("UID PID RSS COMM").unwrap();
    assert_eq!(cols.find_by_idx(0), Some(Field::Uid));
    assert_eq!(cols.find_by_idx(1), Some(Field::Pid));
    assert_eq!(cols.find_by_idx(2), None);
    assert_eq!(cols.find_by_idx(3), Some(Field::Comm));
}

#[test]
fn indexes_need_at_least_one_known_token() {
    let manager = DefaultManager::new();
    assert!(matches!(
        manager.get_indexes("RSS VSZ"),
        Err(PsError::NoRecognizedFields)
    ));
}

#[test]
fn token_parse_fills_the_recorded_columns() {
    let manager = DefaultManager::new();
    let cols = manager.get_indexes("UID PID PPID COMM").unwrap();
    let got = manager.parse(cols, " 1000  42   1 bash").unwrap();
    assert_eq!(got.uid, Some(1000));
    assert_eq!(got.pid, Some(42));
    assert_eq!(got.parent_pid, Some(1));
    assert_eq!(got.command, Some("bash".to_string()));
    assert_eq!(got.tty, None);
}

#[test]
fn token_parse_rejects_bad_numbers() {
    let manager = DefaultManager::new();
    let cols = manager.get_indexes("PID COMM").unwrap();
    assert_eq!(
        manager.parse(cols, "x bash"),
        Err(PsError::InvalidInteger {
            field: tpmu::field::Field::Pid,
            raw: "x".to_string()
        })
    );
}
