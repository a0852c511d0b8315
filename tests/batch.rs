use rbm::{
    check_batch, check_config, clamp_labels, extended_visible, prepare_labels, sample_labels,
    visible_part, ErrorKind, RBMError,
};

#[test]
fn empty_batch_is_refused() {
    let batch: Vec<Vec<u8>> = vec![];
    let labels: Vec<Vec<u8>> = vec![];
    assert_eq!(check_batch(&batch, &labels, 4, 2), Err(RBMError(ErrorKind::EmptyBatch)));
}

#[test]
fn batch_with_wrong_input_length() {
    let batch = vec![vec![0, 1, 0, 1], vec![1, 1, 0]];
    let labels = vec![vec![1, 0], vec![0, 1]];
    assert_eq!(
        check_batch(&batch, &labels, 4, 2),
        Err(RBMError(ErrorKind::DimensionMismatch))
    );
}

#[test]
fn batch_with_wrong_label_count() {
    let batch = vec![vec![0, 1, 0, 1], vec![1, 1, 0, 0]];
    let labels = vec![vec![1, 0]];
    assert_eq!(
        check_batch(&batch, &labels, 4, 2),
        Err(RBMError(ErrorKind::DimensionMismatch))
    );
    let labels = vec![vec![1, 0, 0], vec![0, 1, 0]];
    assert_eq!(
        check_batch(&batch, &labels, 4, 2),
        Err(RBMError(ErrorKind::DimensionMismatch))
    );
}

#[test]
fn well_formed_batch() {
    let batch = vec![vec![0, 1, 0, 1], vec![1, 1, 0, 0]];
    let labels = vec![vec![1, 0], vec![0, 1]];
    assert_eq!(check_batch(&batch, &labels, 4, 2), Ok(()));
}

#[test]
fn config_must_be_positive() {
    assert_eq!(check_config(3, 32, 100), Ok(()));
    assert_eq!(check_config(0, 32, 100), Err(RBMError(ErrorKind::InvalidConfiguration)));
    assert_eq!(check_config(3, 0, 100), Err(RBMError(ErrorKind::InvalidConfiguration)));
    assert_eq!(check_config(3, 32, 0), Err(RBMError(ErrorKind::InvalidConfiguration)));
}

#[test]
fn sampling_past_max_label_is_invalid() {
    assert_eq!(sample_labels(3, 2, 32), Err(RBMError(ErrorKind::InvalidLabel)));
}

#[test]
fn sampling_with_no_steps_is_invalid() {
    assert_eq!(sample_labels(1, 2, 0), Err(RBMError(ErrorKind::InvalidConfiguration)));
}

#[test]
fn sampling_label_clamp() {
    assert_eq!(sample_labels(2, 2, 1), Ok(vec![0, 1]));
    assert_eq!(sample_labels(1, 3, 32), Ok(vec![1, 0, 0]));
}

#[test]
fn extended_visible_is_input_then_label() {
    assert_eq!(extended_visible(&[1, 0, 1, 1], &[0, 1]), vec![1, 0, 1, 1, 0, 1]);
    assert_eq!(extended_visible(&[], &[1]), vec![1]);
}

#[test]
fn clamp_replaces_reconstructed_labels() {
    let reconstruction = [0.25f32, 0.5, 0.75, 0.3, 0.6];
    let labels = [0.0f32, 1.0];
    assert_eq!(
        clamp_labels(&reconstruction, &labels, 3),
        vec![0.25f32, 0.5, 0.75, 0.0, 1.0]
    );
}

#[test]
fn sample_keeps_only_visible_units() {
    let state = [0.1f32, 0.2, 0.3, 0.4, 1.0, 0.0];
    let sample = visible_part(&state, 4);
    assert_eq!(sample.len(), 4);
    assert_eq!(sample, vec![0.1f32, 0.2, 0.3, 0.4]);
    assert!(sample.iter().all(|x| *x > 0.0 && *x < 1.0));
}

#[test]
fn prepare_labels_of_training_set() {
    let inputs = vec![vec![0, 1, 0, 1], vec![1, 1, 0, 0]];
    let (m, encoded) = prepare_labels(&inputs, &[1, 2]).unwrap();
    assert_eq!(m, 2);
    assert_eq!(encoded, vec![vec![1, 0], vec![0, 1]]);
}

#[test]
fn prepare_labels_errors() {
    let none: Vec<Vec<u8>> = vec![];
    assert_eq!(prepare_labels(&none, &[]), Err(RBMError(ErrorKind::EmptyBatch)));
    let inputs = vec![vec![0, 1], vec![1]];
    assert_eq!(
        prepare_labels(&inputs, &[1, 2]),
        Err(RBMError(ErrorKind::DimensionMismatch))
    );
    let inputs = vec![vec![0, 1], vec![1, 0]];
    assert_eq!(prepare_labels(&inputs, &[1]), Err(RBMError(ErrorKind::DimensionMismatch)));
    assert_eq!(prepare_labels(&inputs, &[1, 0]), Err(RBMError(ErrorKind::InvalidLabel)));
}

#[test]
fn error_messages() {
    assert_eq!(RBMError(ErrorKind::EmptyBatch).message(), "empty batch");
    assert_eq!(RBMError(ErrorKind::InvalidLabel).message(), "invalid label");
}
