//! Data preparation, input validation and the sampling chain of a Restricted
//! Boltzmann Machine trained with contrastive divergence: label encoding, the
//! label and input file formats, the rules that a batch or a sampling request
//! must meet, and the clamped Gibbs chain that generates a sample.

mod batch;
mod decimal;
mod error;
mod gibbs;
mod inputs;
mod labels;

pub use batch::{
    all_len, batch_ok, check_batch, check_config, config_ok, extended_visible,
    lemma_boundaries_refused, prepare_labels, sample_labels, training_set_ok,
};
pub use decimal::{digits_value, is_digit, parse_unsigned, parse_unsigned_spec, unsigned_digits};
pub use error::{ErrorKind, RBMError};
pub use gibbs::{
    clamp_labels, clamped, gibbs_sample, label_units_are, lemma_clamp_then_visible, visible_of,
    visible_part,
};
pub use inputs::{
    all_fields_bytes, csv_records_of, field_byte, input_values, inputs_from_file, records_view,
};
pub use labels::{
    all_lines_parse, encode_label, encode_labels, label_in_range, label_values, labels_from_file,
    line_scan, max_label, nonempty_lines, one_hot, parse_label, seq_max,
};
