use rbm::{encode_label, encode_labels, labels_from_file, max_label, parse_label, ErrorKind};

#[test]
fn one_hot_middle_label() {
    assert_eq!(parse_label(2, 3), vec![0, 1, 0]);
}

#[test]
fn one_hot_first_label() {
    assert_eq!(parse_label(1, 3), vec![1, 0, 0]);
}

#[test]
fn one_hot_last_label() {
    assert_eq!(parse_label(3, 3), vec![0, 0, 1]);
}

#[test]
fn one_hot_out_of_range_is_all_zero() {
    assert_eq!(parse_label(4, 3), vec![0, 0, 0]);
    assert_eq!(parse_label(0, 3), vec![0, 0, 0]);
}

#[test]
fn one_hot_of_no_labels_is_empty() {
    assert_eq!(parse_label(1, 0), Vec::<u8>::new());
}

#[test]
fn encode_label_in_range() {
    assert_eq!(encode_label(2, 3).unwrap(), vec![0, 1, 0]);
}

#[test]
fn encode_label_past_max_is_invalid() {
    assert_eq!(encode_label(4, 3).unwrap_err().0, ErrorKind::InvalidLabel);
}

#[test]
fn encode_label_zero_is_invalid() {
    assert_eq!(encode_label(0, 3).unwrap_err().0, ErrorKind::InvalidLabel);
}

#[test]
fn max_label_of_batch() {
    assert_eq!(max_label(&[3, 1, 7, 2]), 7);
    assert_eq!(max_label(&[]), 0);
    assert_eq!(max_label(&[4, 4]), 4);
}

#[test]
fn encode_labels_of_batch() {
    assert_eq!(
        encode_labels(&[1, 2, 2], 2),
        vec![vec![1, 0], vec![0, 1], vec![0, 1]]
    );
}

#[test]
fn label_file_lines() {
    assert_eq!(labels_from_file("1\n2\n3\n").unwrap(), vec![1, 2, 3]);
}

#[test]
fn label_file_skips_empty_lines() {
    assert_eq!(labels_from_file("\n4\n\n\n10").unwrap(), vec![4, 10]);
}

#[test]
fn label_file_empty() {
    assert_eq!(labels_from_file("").unwrap(), Vec::<usize>::new());
    assert_eq!(labels_from_file("\n\n").unwrap(), Vec::<usize>::new());
}

#[test]
fn label_file_plus_sign() {
    assert_eq!(labels_from_file("+7\n").unwrap(), vec![7]);
}

#[test]
fn label_file_malformed_line() {
    assert_eq!(
        labels_from_file("1\nx\n2\n").unwrap_err().0,
        ErrorKind::MalformedLabels
    );
}

#[test]
fn label_file_negative_and_sign_only() {
    assert_eq!(labels_from_file("-1\n").unwrap_err().0, ErrorKind::MalformedLabels);
    assert_eq!(labels_from_file("+\n").unwrap_err().0, ErrorKind::MalformedLabels);
}

#[test]
fn label_file_carriage_return_is_malformed() {
    assert_eq!(labels_from_file("1\r\n").unwrap_err().0, ErrorKind::MalformedLabels);
}

#[test]
fn label_file_overflow() {
    assert_eq!(
        labels_from_file("1000000000000000000000\n").unwrap_err().0,
        ErrorKind::MalformedLabels
    );
    let max = format!("{}\n", usize::MAX);
    assert_eq!(labels_from_file(&max).unwrap(), vec![usize::MAX]);
}
