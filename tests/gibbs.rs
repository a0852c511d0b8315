use rbm::{gibbs_sample, ErrorKind, RBMError};

fn shift(v: &Vec<i32>) -> Vec<i32> {
    assert_eq!(v[2], 5, "label units must stay clamped");
    v.iter().map(|x| x + 1).collect()
}

#[test]
fn chain_runs_every_step_and_clamps_labels() {
    assert_eq!(gibbs_sample(&[0, 0], &[5], 3, shift), Ok(vec![3, 3]));
    assert_eq!(gibbs_sample(&[10, -4], &[5], 1, shift), Ok(vec![11, -3]));
}

#[test]
fn chain_without_steps_is_refused() {
    assert_eq!(
        gibbs_sample(&[0, 0], &[5], 0, shift),
        Err(RBMError(ErrorKind::InvalidConfiguration))
    );
}

#[test]
fn chain_with_short_reconstruction_is_refused() {
    let short = |v: &Vec<i32>| vec![v[0]];
    assert_eq!(
        gibbs_sample(&[1, 2], &[0, 1], 4, short),
        Err(RBMError(ErrorKind::DimensionMismatch))
    );
}

#[test]
fn one_step_sample_has_visible_length_and_unit_range() {
    let squash = |v: &Vec<f32>| v.iter().map(|x| 1.0 / (1.0 + (-x).exp())).collect::<Vec<f32>>();
    let noise = [0.3f32, 0.9, 0.1, 0.5];
    let sample = gibbs_sample(&noise, &[0.0f32, 1.0], 1, squash).unwrap();
    assert_eq!(sample.len(), 4);
    assert!(sample.iter().all(|x| *x > 0.0 && *x < 1.0));
}

#[test]
fn same_noise_same_sample_other_noise_other_sample() {
    let mix = |v: &Vec<f32>| {
        let total: f32 = v.iter().sum();
        v.iter().map(|x| 0.5 * x + 0.1 * total).collect::<Vec<f32>>()
    };
    let a = gibbs_sample(&[0.2f32, 0.4, 0.6], &[1.0f32, 0.0], 32, mix).unwrap();
    let b = gibbs_sample(&[0.2f32, 0.4, 0.6], &[1.0f32, 0.0], 32, mix).unwrap();
    let c = gibbs_sample(&[0.7f32, 0.1, 0.3], &[1.0f32, 0.0], 32, mix).unwrap();
    assert_eq!(a, b);
    assert_ne!(a, c);
}
