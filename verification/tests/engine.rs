//! End-to-end tests of the analysis engine through its public functions.

use bytescope::analysis::{analyze, AnalysisResult};
use bytescope::periodicity::AutocorrPoint;

/// Shannon entropy, in bits, of a slice from its 256-bin histogram.
fn entropy_bits(counts: &[usize]) -> f64 {
    let total: usize = counts.iter().sum();
    if total == 0 {
        return 0.0;
    }
    let len = total as f64;
    let mut entropy = 0.0;
    for &count in counts {
        if count > 0 {
            let p = count as f64 / len;
            entropy -= p * p.log2();
        }
    }
    entropy
}

/// The plotted autocorrelation fraction of one point.
fn fraction(p: &AutocorrPoint) -> f64 {
    if p.comparisons == 0 {
        0.0
    } else {
        p.matches as f64 / p.comparisons as f64
    }
}

fn png_header() -> Vec<u8> {
    vec![0x89, b'P', b'N', b'G', b'\r', b'\n', 0x1a, b'\n']
}

#[test]
fn autocorrelogram_has_128_points_in_unit_range() {
    let buffers: Vec<Vec<u8>> = vec![
        vec![],
        vec![42],
        (0..200).map(|i| (i * 7 % 256) as u8).collect(),
        (0..5000).map(|i| (i % 13) as u8).collect(),
    ];
    for data in buffers {
        let r = analyze(&data);
        assert_eq!(r.autocorrelation_graph.len(), 128);
        for p in &r.autocorrelation_graph {
            assert!(p.matches <= p.comparisons);
            let f = fraction(p);
            assert!((0.0..=1.0).contains(&f));
        }
        if !data.is_empty() {
            assert_eq!(fraction(&r.autocorrelation_graph[0]), 1.0);
        }
    }
}

#[test]
fn autocorrelogram_counts_are_exact() {
    // 0,1,0,1,... over 10 bytes: lag 2 matches fully, lag 1 not at all.
    let data: Vec<u8> = (0..10).map(|i| (i % 2) as u8).collect();
    let r = analyze(&data);
    assert_eq!(r.autocorrelation_graph[0], AutocorrPoint { matches: 10, comparisons: 10 });
    assert_eq!(r.autocorrelation_graph[1], AutocorrPoint { matches: 0, comparisons: 9 });
    assert_eq!(r.autocorrelation_graph[2], AutocorrPoint { matches: 8, comparisons: 8 });
    // beyond the sample every point is empty
    assert_eq!(r.autocorrelation_graph[10], AutocorrPoint { matches: 0, comparisons: 0 });
    assert_eq!(fraction(&r.autocorrelation_graph[10]), 0.0);
}

#[test]
fn hilbert_matrix_is_always_full_size() {
    for len in [0usize, 1, 300, 262144, 10_000_000] {
        let data = vec![0xEEu8; len];
        let r = analyze(&data);
        assert_eq!(r.hilbert_matrix.len(), 262144);
    }
}

#[test]
fn hilbert_matrix_permutes_leading_bytes_along_the_curve() {
    // The first four curve indices visit (0,0), (0,1), (1,1), (1,0).
    let data: Vec<u8> = vec![1, 2, 3, 4];
    let r = analyze(&data);
    assert_eq!(r.hilbert_matrix[0], 1); // (x=0, y=0)
    assert_eq!(r.hilbert_matrix[512], 2); // (x=0, y=1)
    assert_eq!(r.hilbert_matrix[512 + 1], 3); // (x=1, y=1)
    assert_eq!(r.hilbert_matrix[1], 4); // (x=1, y=0)
    // everything else stays zero
    assert_eq!(r.hilbert_matrix[2], 0);
    assert!(r.hilbert_matrix.iter().skip(2).take(510).all(|&b| b == 0));
}

#[test]
fn hilbert_matrix_ignores_bytes_beyond_the_grid() {
    let mut data = vec![5u8; 262144];
    data.extend(vec![7u8; 1000]);
    let r = analyze(&data);
    assert_eq!(r.hilbert_matrix.len(), 262144);
    assert!(r.hilbert_matrix.iter().all(|&b| b == 5));
}

#[test]
fn repeat_flag_false_below_1024_bytes() {
    // even a blatantly periodic short buffer is never flagged
    let data = vec![0u8; 1023];
    let r = analyze(&data);
    assert!(!r.signatures.iter().any(|s| s == "periodic-structure-detected"));
}

#[test]
fn repeated_header_sets_the_periodicity_label() {
    // first 32 bytes are the values 100..132, repeated verbatim at offset 64
    let mut data = vec![0u8; 2048];
    for i in 0..32 {
        data[i] = (100 + i) as u8;
        data[64 + i] = (100 + i) as u8;
    }
    let r = analyze(&data);
    assert!(r.signatures.iter().any(|s| s == "periodic-structure-detected"));
}

#[test]
fn analyze_twice_yields_identical_results() {
    let data: Vec<u8> = (0..4096).map(|i| (i * 31 % 251) as u8).collect();
    let r1: AnalysisResult = analyze(&data);
    let r2: AnalysisResult = analyze(&data);
    assert_eq!(r1.entropy_map, r2.entropy_map);
    assert_eq!(r1.hilbert_matrix, r2.hilbert_matrix);
    assert_eq!(r1.signatures, r2.signatures);
    assert_eq!(r1.autocorrelation_graph, r2.autocorrelation_graph);
}

#[test]
fn all_zero_buffer_scenario() {
    let data = vec![0u8; 2048];
    let r = analyze(&data);
    // entropy profile: slices at byte stride 512, each 256 zero bytes
    assert_eq!(r.entropy_map.len(), 4);
    for hist in &r.entropy_map {
        assert_eq!(hist[0], 256);
        assert!(hist.iter().skip(1).all(|&c| c == 0));
        assert_eq!(entropy_bits(hist), 0.0);
    }
    // the grid is full-size and all zero
    assert_eq!(r.hilbert_matrix.len(), 262144);
    assert!(r.hilbert_matrix.iter().all(|&b| b == 0));
    // no format label fires on a zero buffer
    assert!(!r.signatures.iter().any(|s| s == "PNG" || s == "GIF" || s == "PDF"));
    // an all-zero sample matches itself perfectly at every lag
    assert_eq!(r.autocorrelation_graph.len(), 128);
    for p in &r.autocorrelation_graph {
        assert_eq!(fraction(p), 1.0);
    }
}

#[test]
fn png_signature_fires_alone() {
    let mut data = png_header();
    data.extend((0..100).map(|i| i as u8));
    let r = analyze(&data);
    assert_eq!(r.signatures, vec!["PNG".to_string()]);
}

#[test]
fn unknown_prefix_yields_no_format_label() {
    let data: Vec<u8> = vec![0x01, 0x02, 0x03, 0x04, 0x05, 0x06, 0x07, 0x08, 0x09];
    let r = analyze(&data);
    assert!(r.signatures.is_empty());
}
