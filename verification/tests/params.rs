use relate::errors::PipelineError;
use relate::params::Parameters;

fn descriptor(
    num_samples: usize,
    num_alleles: usize,
    boundaries: Vec<usize>,
) -> Parameters {
    Parameters {
        num_samples,
        num_alleles,
        num_windows: boundaries.len() - 1,
        window_boundaries: boundaries,
    }
}

#[test]
fn round_trip_simple() {
    let p = descriptor(10, 100, vec![0, 50, 100]);
    let bytes = p.encode();
    let q = Parameters::decode(&bytes).unwrap();
    assert_eq!(q.num_samples, 10);
    assert_eq!(q.num_alleles, 100);
    assert_eq!(q.num_windows, 2);
    assert_eq!(q.window_boundaries, vec![0, 50, 100]);
}

#[test]
fn round_trip_irregular_boundaries() {
    let p = descriptor(3, 1000, vec![5, 7, 100, 999]);
    let bytes = p.encode();
    let q = Parameters::decode(&bytes).unwrap();
    assert_eq!(q.num_samples, 3);
    assert_eq!(q.num_alleles, 1000);
    assert_eq!(q.num_windows, 3);
    assert_eq!(q.window_boundaries, vec![5, 7, 100, 999]);
}

#[test]
fn round_trip_large_values() {
    let p = descriptor(0x7fff_ffff, 0x7fff_ffff, vec![0, 0x7fff_fffe, 0x7fff_ffff]);
    let bytes = p.encode();
    let q = Parameters::decode(&bytes).unwrap();
    assert_eq!(q.num_samples, 0x7fff_ffff);
    assert_eq!(q.window_boundaries, vec![0, 0x7fff_fffe, 0x7fff_ffff]);
}

#[test]
fn encoding_layout_is_little_endian_words() {
    let p = descriptor(2, 300, vec![0, 300]);
    let bytes = p.encode();
    // three header words, then num_windows + 1 boundary words
    assert_eq!(bytes.len(), 12 + 4 * 2);
    assert_eq!(&bytes[0..4], &[2, 0, 0, 0]);
    // 300 = 0x012c
    assert_eq!(&bytes[4..8], &[0x2c, 0x01, 0, 0]);
    assert_eq!(&bytes[8..12], &[2, 0, 0, 0]);
    assert_eq!(&bytes[12..16], &[0, 0, 0, 0]);
    assert_eq!(&bytes[16..20], &[0x2c, 0x01, 0, 0]);
}

#[test]
fn decode_ignores_trailing_bytes() {
    let p = descriptor(10, 100, vec![0, 50, 100]);
    let mut bytes = p.encode();
    bytes.push(0xab);
    bytes.push(0xcd);
    let q = Parameters::decode(&bytes).unwrap();
    assert_eq!(q.window_boundaries, vec![0, 50, 100]);
}

#[test]
fn decode_rejects_short_buffer() {
    let bytes = vec![1, 0, 0, 0, 1, 0];
    assert_eq!(
        Parameters::decode(&bytes).unwrap_err(),
        PipelineError::MalformedParameters
    );
}

#[test]
fn decode_rejects_truncated_boundaries() {
    let p = descriptor(10, 100, vec![0, 50, 100]);
    let mut bytes = p.encode();
    bytes.truncate(bytes.len() - 4);
    assert_eq!(
        Parameters::decode(&bytes).unwrap_err(),
        PipelineError::MalformedParameters
    );
}

#[test]
fn decode_rejects_non_increasing_boundaries() {
    let p = descriptor(10, 100, vec![0, 50, 100]);
    let mut bytes = p.encode();
    // overwrite the middle boundary word with 0, breaking monotonicity
    bytes[16] = 0;
    bytes[17] = 0;
    assert_eq!(
        Parameters::decode(&bytes).unwrap_err(),
        PipelineError::MalformedParameters
    );
}

#[test]
fn decode_rejects_zero_samples() {
    let good = descriptor(1, 100, vec![0, 100]).encode();
    let mut bytes = good.clone();
    bytes[0] = 0;
    assert_eq!(
        Parameters::decode(&bytes).unwrap_err(),
        PipelineError::MalformedParameters
    );
}

#[test]
fn decode_rejects_boundary_beyond_alleles() {
    let good = descriptor(5, 100, vec![0, 100]).encode();
    let mut bytes = good.clone();
    // raise the last boundary word beyond the allele count
    bytes[16] = 101;
    assert_eq!(
        Parameters::decode(&bytes).unwrap_err(),
        PipelineError::MalformedParameters
    );
}

#[test]
fn decode_rejects_boundary_count_below_two() {
    let good = descriptor(5, 100, vec![0, 100]).encode();
    let mut bytes = good.clone();
    bytes[8] = 1;
    bytes[9] = 0;
    assert_eq!(
        Parameters::decode(&bytes).unwrap_err(),
        PipelineError::MalformedParameters
    );
}
