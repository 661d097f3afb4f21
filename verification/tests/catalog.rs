use tpmu::error::PsError;
use tpmu::field::{field_to_label, label_to_field, Command, Field};
use tpmu::manager::Manager;
use tpmu::{get_pid_by_port, ListOpts};

const ALL_FIELDS: [Field; 7] = [
    Field::Pid,
    Field::Ppid,
    Field::Uid,
    Field::Tty,
    Field::Time,
    Field::Comm(Command::FullPath),
    Field::Comm(Command::ExecutableName),
];

#[test]
fn canonical_labels() {
    assert_eq!(field_to_label(Field::Pid), "PID");
    assert_eq!(field_to_label(Field::Ppid), "PPID");
    assert_eq!(field_to_label(Field::Uid), "UID");
    assert_eq!(field_to_label(Field::Tty), "TTY");
    assert_eq!(field_to_label(Field::Time), "TIME");
    assert_eq!(field_to_label(Field::Comm(Command::FullPath)), "COMM");
    assert_eq!(field_to_label(Field::Comm(Command::ExecutableName)), "COMM -c");
}

#[test]
fn label_round_trip() {
    // encoding any catalog member and decoding the label back yields the
    // original member
    for field in ALL_FIELDS {
        let label = field_to_label(field);
        assert_eq!(label_to_field(&label), Ok(field));
    }
}

#[test]
fn label_decode_is_case_insensitive() {
    assert_eq!(label_to_field("pId"), Ok(Field::Pid));
    assert_eq!(label_to_field("time"), Ok(Field::Time));
    assert_eq!(label_to_field("comm"), Ok(Field::Comm(Command::FullPath)));
    assert_eq!(
        label_to_field("comm -C"),
        Ok(Field::Comm(Command::ExecutableName))
    );
}

#[test]
fn unknown_label_is_reported() {
    assert_eq!(
        label_to_field("RSS"),
        Err(PsError::UnrecognizedField {
            label: "RSS".to_string()
        })
    );
}

#[test]
fn single_token_fields_sort_first() {
    let manager = Manager::new();
    let sorted = manager.sort_fields(vec![
        Field::Comm(Command::ExecutableName),
        Field::Pid,
        Field::Time,
    ]);
    assert_eq!(
        sorted,
        vec![Field::Pid, Field::Time, Field::Comm(Command::ExecutableName)]
    );
}

#[test]
fn selection_arguments_keep_each_keyword_once() {
    let manager = Manager::new();
    let (selection, extra) = manager.ps_args(vec![
        Field::Comm(Command::ExecutableName),
        Field::Pid,
        Field::Ppid,
        Field::Time,
        Field::Pid,
    ]);
    assert_eq!(selection, "pid,ppid,time,comm");
    assert_eq!(extra, vec!["-c".to_string()]);
}

#[test]
fn full_path_command_needs_no_extra_argument() {
    let manager = Manager::new();
    let (selection, extra) = manager.ps_args(vec![Field::Uid, Field::Comm(Command::FullPath)]);
    assert_eq!(selection, "uid,comm");
    assert_eq!(extra, Vec::<String>::new());
}

#[test]
fn default_listing_options() {
    let opts = ListOpts::default();
    assert_eq!(
        opts.fields,
        vec![
            Field::Pid,
            Field::Ppid,
            Field::Time,
            Field::Comm(Command::ExecutableName),
        ]
    );
    assert!(!opts.with_ports);
}

#[test]
fn port_correlation_is_absent() {
    assert_eq!(get_pid_by_port(80), None);
}
