use nativum::watch::record_stamps;

#[test]
fn first_poll_reports_a_change() {
    let mut last = Vec::new();
    assert!(record_stamps(&mut last, &[Some(5), None]));
    assert_eq!(last, vec![Some(5), None]);
}

#[test]
fn unchanged_stamps_report_no_change() {
    let mut last = vec![Some(5), None];
    assert!(!record_stamps(&mut last, &[Some(5), None]));
    assert_eq!(last, vec![Some(5), None]);
}

#[test]
fn a_newer_stamp_or_a_vanished_file_is_a_change() {
    let mut last = vec![Some(5), Some(7)];
    assert!(record_stamps(&mut last, &[Some(6), Some(7)]));
    assert_eq!(last, vec![Some(6), Some(7)]);
    assert!(record_stamps(&mut last, &[Some(6), None]));
    assert_eq!(last, vec![Some(6), None]);
}

#[test]
fn a_different_number_of_files_is_a_change() {
    let mut last = vec![None];
    assert!(record_stamps(&mut last, &[None, None]));
    assert_eq!(last, vec![None, None]);
}
