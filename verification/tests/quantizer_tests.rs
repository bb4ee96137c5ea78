use terebellum::codebook::Codebook;
use terebellum::dual::Dual;
use terebellum::error::Error;
use terebellum::quantizer::{Quantizer, QuantizerConfig, Ratio};
use terebellum::tensor::{IndexTensor, Tensor};

/// Commitment beta of one quarter, the conventional value.
fn quarter() -> Ratio {
    Ratio { num: 1, den: 4 }
}

/// The codebook used by the worked scenarios: four codewords of dimension
/// two, fixed-point with one decimal digit (scale 10), so the real-valued
/// codewords [0,0], [10,10], [5,5], [1,1] become the rows below.
fn scenario_quantizer() -> Quantizer {
    let config = QuantizerConfig { codebook_size: 4, latent_dimension: 2 };
    let mut quantizer = config.init().unwrap();
    let rows: [[i64; 2]; 4] = [[0, 0], [100, 100], [50, 50], [10, 10]];
    for (k, row) in rows.iter().enumerate() {
        let values = vec![Dual::constant(row[0]), Dual::constant(row[1])];
        quantizer.codebook.set_codeword(k, values);
    }
    quantizer
}

fn constant_tensor(shape: Vec<usize>, values: Vec<i64>) -> Tensor {
    let data = values.into_iter().map(Dual::constant).collect();
    Tensor::new(shape, data).unwrap()
}

#[test]
fn init_rejects_zero_codebook_size() {
    let config = QuantizerConfig { codebook_size: 0, latent_dimension: 2 };
    assert!(config.init().is_err());
}

#[test]
fn init_rejects_zero_latent_dimension() {
    let config = QuantizerConfig { codebook_size: 4, latent_dimension: 0 };
    assert!(config.init().is_err());
}

#[test]
fn init_builds_zero_codebook() {
    let config = QuantizerConfig { codebook_size: 3, latent_dimension: 2 };
    let quantizer = config.init().unwrap();
    assert_eq!(quantizer.codebook.entries.len(), 3);
    for row in &quantizer.codebook.entries {
        assert_eq!(row, &vec![Dual::constant(0), Dual::constant(0)]);
    }
}

#[test]
fn forward_rejects_wrong_trailing_axis() {
    let quantizer = scenario_quantizer();
    let latents = constant_tensor(vec![3], vec![1, 2, 3]);
    match quantizer.forward(&latents, quarter()) {
        Err(Error::ShapeMismatch { expected, found }) => {
            assert_eq!(expected, 2);
            assert_eq!(found, 3);
        }
        _ => panic!("a trailing axis of 3 must be rejected"),
    }
}

#[test]
fn single_vector_scenario() {
    // Real-valued input [1.1, 0.9] at scale 10; the nearest codeword is
    // [1, 1] at position 3, the quantized output is [1.0, 1.0], the
    // codebook loss is 0.01 and the commitment loss 0.0025.
    let quantizer = scenario_quantizer();
    let latents = constant_tensor(vec![2], vec![11, 9]);
    let out = quantizer.forward(&latents, quarter()).unwrap();

    assert_eq!(out.indices.shape, vec![1, 1]);
    assert_eq!(out.indices.data, vec![3]);
    assert_eq!(out.latents.shape, vec![2]);
    let values: Vec<i64> = out.latents.data.iter().map(|d| d.val).collect();
    assert_eq!(values, vec![10, 10]);

    // Mean of (11-10)^2 and (9-10)^2 in scaled units: 2/2; at scale 10 the
    // squared units carry a factor 100, so the real value is 0.01.
    assert_eq!(out.codebook_loss.num, 2);
    assert_eq!(out.codebook_loss.den, 2);
    let real_codebook_loss = out.codebook_loss.num as f64 / out.codebook_loss.den as f64 / 100.0;
    assert!((real_codebook_loss - 0.01).abs() < 1e-12);

    // One quarter of the same mean: 2/8, i.e. 0.0025 in real units.
    assert_eq!(out.commitment_loss.num, 2);
    assert_eq!(out.commitment_loss.den, 8);
    let real_commitment_loss =
        out.commitment_loss.num as f64 / out.commitment_loss.den as f64 / 100.0;
    assert!((real_commitment_loss - 0.0025).abs() < 1e-12);
}

#[test]
fn batch_scenario_uses_one_flattened_mean() {
    // Two vectors [1.1, 0.9] and [9.9, 10.2] at scale 10: positions 3 and
    // 1, and both losses are means over all four components jointly.
    let quantizer = scenario_quantizer();
    let latents = constant_tensor(vec![2, 2], vec![11, 9, 99, 102]);
    let out = quantizer.forward(&latents, quarter()).unwrap();

    assert_eq!(out.indices.shape, vec![2, 1]);
    assert_eq!(out.indices.data, vec![3, 1]);
    assert_eq!(out.latents.shape, vec![2, 2]);
    let values: Vec<i64> = out.latents.data.iter().map(|d| d.val).collect();
    assert_eq!(values, vec![10, 10, 100, 100]);

    // Squared differences 1, 1, 1, 4 over four components: 7/4.
    assert_eq!(out.codebook_loss.num, 7);
    assert_eq!(out.codebook_loss.den, 4);
    assert_eq!(out.commitment_loss.num, 7);
    assert_eq!(out.commitment_loss.den, 16);
}

#[test]
fn shape_is_preserved_across_leading_axes() {
    let quantizer = scenario_quantizer();
    let latents = constant_tensor(vec![3, 1, 2], vec![11, 9, 99, 102, 49, 52]);
    let out = quantizer.forward(&latents, quarter()).unwrap();
    assert_eq!(out.latents.shape, latents.shape);
    assert_eq!(out.latents.data.len(), latents.data.len());
    assert_eq!(out.indices.shape, vec![3, 1]);
    assert_eq!(out.indices.data, vec![3, 1, 2]);
}

#[test]
fn equidistant_codewords_take_the_lowest_position() {
    let config = QuantizerConfig { codebook_size: 3, latent_dimension: 2 };
    let mut quantizer = config.init().unwrap();
    quantizer.codebook.set_codeword(0, vec![Dual::constant(2), Dual::constant(0)]);
    quantizer.codebook.set_codeword(1, vec![Dual::constant(0), Dual::constant(0)]);
    quantizer.codebook.set_codeword(2, vec![Dual::constant(2), Dual::constant(0)]);
    // [1, 0] is at squared distance 1 from all three codewords.
    let latents = constant_tensor(vec![1, 2], vec![1, 0]);
    let out = quantizer.forward(&latents, quarter()).unwrap();
    assert_eq!(out.indices.data, vec![0]);
}

#[test]
fn losses_are_non_negative_for_negative_inputs() {
    let quantizer = scenario_quantizer();
    let latents = constant_tensor(vec![2, 2], vec![-7, 3, -120, 44]);
    let out = quantizer.forward(&latents, quarter()).unwrap();
    assert!(out.codebook_loss.num >= 0);
    assert!(out.codebook_loss.den >= 1);
    assert!(out.commitment_loss.num >= 0);
    assert!(out.commitment_loss.den >= 1);
}

#[test]
fn empty_batch_gives_zero_losses() {
    let quantizer = scenario_quantizer();
    let latents = constant_tensor(vec![0, 2], vec![]);
    let out = quantizer.forward(&latents, quarter()).unwrap();
    assert_eq!(out.indices.shape, vec![0, 1]);
    assert_eq!(out.indices.data.len(), 0);
    assert_eq!(out.latents.data.len(), 0);
    assert_eq!(out.codebook_loss.num, 0);
    assert_eq!(out.codebook_loss.den, 1);
    assert_eq!(out.commitment_loss.num, 0);
    assert_eq!(out.commitment_loss.den, 4);
}

#[test]
fn straight_through_gradients_pass_through_unchanged() {
    // Seed the first input component with gradient 1: the output's
    // gradients equal the input's, even though its values are the chosen
    // codeword's, and their sum is exactly 1.
    let quantizer = scenario_quantizer();
    let data = vec![Dual::new(11, 1), Dual::new(9, 0)];
    let latents = Tensor::new(vec![2], data).unwrap();
    let out = quantizer.forward(&latents, quarter()).unwrap();
    let grads: Vec<i64> = out.latents.data.iter().map(|d| d.grad).collect();
    assert_eq!(grads, vec![1, 0]);
    assert_eq!(grads.iter().sum::<i64>(), 1);
    let values: Vec<i64> = out.latents.data.iter().map(|d| d.val).collect();
    assert_eq!(values, vec![10, 10]);
}

#[test]
fn codebook_loss_gradient_ignores_the_input() {
    // With every codeword gradient zero, seeding the input leaves the
    // codebook loss with derivative zero: its input side is behind a
    // stop-gradient.
    let quantizer = scenario_quantizer();
    let data = vec![Dual::new(11, 1), Dual::new(9, 1)];
    let latents = Tensor::new(vec![2], data).unwrap();
    let out = quantizer.forward(&latents, quarter()).unwrap();
    assert_eq!(out.codebook_loss.grad_num, 0);
    // The commitment loss does depend on the input: derivative
    // (1/4) * (2*1*1 + 2*(-1)*1) / 2 here, with numerator 0 only by
    // cancellation; use a seed on one component to see a non-zero value.
    let data = vec![Dual::new(11, 1), Dual::new(9, 0)];
    let latents = Tensor::new(vec![2], data).unwrap();
    let out = quantizer.forward(&latents, quarter()).unwrap();
    assert_eq!(out.commitment_loss.grad_num, 2);
    assert_eq!(out.commitment_loss.den, 8);
}

#[test]
fn commitment_loss_gradient_ignores_the_codebook() {
    // With every input gradient zero, seeding a codeword leaves the
    // commitment loss with derivative zero, while the codebook loss moves.
    let mut quantizer = scenario_quantizer();
    quantizer.codebook.set_codeword(3, vec![Dual::new(10, 1), Dual::new(10, 0)]);
    let latents = constant_tensor(vec![2], vec![11, 9]);
    let out = quantizer.forward(&latents, quarter()).unwrap();
    assert_eq!(out.indices.data, vec![3]);
    assert_eq!(out.commitment_loss.grad_num, 0);
    // Codebook loss derivative: -2 * (11-10) * 1 + -2 * (9-10) * 0 = -2.
    assert_eq!(out.codebook_loss.grad_num, -2);
    assert_eq!(out.codebook_loss.den, 2);
}

#[test]
fn tensor_new_rejects_mismatched_data() {
    assert!(Tensor::new(vec![], vec![]).is_err());
    assert!(Tensor::new(vec![2, 2], vec![Dual::constant(1); 3]).is_err());
    assert!(Tensor::new(vec![2, 0], vec![Dual::constant(1)]).is_err());
    assert!(Tensor::new(vec![2, 0], vec![]).is_ok());
    assert!(Tensor::new(vec![2, 2], vec![Dual::constant(1); 4]).is_ok());
    assert!(Tensor::new(vec![usize::MAX, usize::MAX, 2], vec![Dual::constant(1); 4]).is_err());
}

#[test]
fn codebook_new_validates_sizes() {
    assert!(Codebook::new(0, 2).is_err());
    assert!(Codebook::new(2, 0).is_err());
    let codebook = Codebook::new(2, 3).unwrap();
    assert_eq!(codebook.codebook_size(), 2);
    assert_eq!(codebook.latent_dimension, 3);
}

#[test]
fn lookup_replaces_indices_by_codewords() {
    let quantizer = scenario_quantizer();
    let indices = IndexTensor { shape: vec![3, 1], data: vec![1, 3, 0] };
    let table = quantizer.codebook.lookup(&indices);
    assert_eq!(table.shape, vec![3, 2]);
    let values: Vec<i64> = table.data.iter().map(|d| d.val).collect();
    assert_eq!(values, vec![100, 100, 10, 10, 0, 0]);
}

#[test]
fn table_exposes_the_codebook_as_a_matrix() {
    let quantizer = scenario_quantizer();
    let table = quantizer.codebook.table();
    assert_eq!(table.shape, vec![4, 2]);
    let values: Vec<i64> = table.data.iter().map(|d| d.val).collect();
    assert_eq!(values, vec![0, 0, 100, 100, 50, 50, 10, 10]);
}

#[test]
fn error_message_for_shape_mismatch() {
    let error = Error::ShapeMismatch { expected: 2, found: 3 };
    assert_eq!(error.message(), "shape mismatch");
}
