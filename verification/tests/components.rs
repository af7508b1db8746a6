//! Component-level tests: the entropy profiler, the curve inversion, the
//! signature detector and the periodicity analyzer on their own.

use bytescope::entropy::entropy_window_histograms;
use bytescope::hilbert::{d2xy, generate_hilbert_matrix, HILBERT_SIZE};
use bytescope::periodicity::{calculate_autocorrelation_graph, detect_autocorrelation};
use bytescope::signatures::detect_signatures;

/// Shannon entropy, in bits, of a slice from its 256-bin histogram.
fn entropy_bits(counts: &[usize]) -> f64 {
    let total: usize = counts.iter().sum();
    if total == 0 {
        return 0.0;
    }
    let len = total as f64;
    let mut entropy = 0.0;
    for &count in counts {
        if count > 0 {
            let p = count as f64 / len;
            entropy -= p * p.log2();
        }
    }
    entropy
}

#[test]
fn entropy_of_constant_slice_is_exactly_zero() {
    let data = vec![0xABu8; 256];
    let hists = entropy_window_histograms(&data, 256);
    assert_eq!(hists.len(), 1);
    assert_eq!(hists[0][0xAB], 256);
    assert_eq!(entropy_bits(&hists[0]), 0.0);
}

#[test]
fn entropy_of_256_distinct_bytes_is_exactly_eight() {
    let data: Vec<u8> = (0..=255).collect();
    let hists = entropy_window_histograms(&data, 256);
    assert_eq!(hists.len(), 1);
    assert!(hists[0].iter().all(|&c| c == 1));
    assert_eq!(entropy_bits(&hists[0]), 8.0);
}

#[test]
fn entropy_profile_is_empty_only_for_an_empty_buffer() {
    let empty: Vec<u8> = vec![];
    assert!(entropy_window_histograms(&empty, 256).is_empty());
    let tiny = vec![9u8, 9u8];
    let hists = entropy_window_histograms(&tiny, 256);
    assert_eq!(hists.len(), 1);
    assert_eq!(hists[0][9], 2);
    assert_eq!(hists[0].iter().sum::<usize>(), 2);
}

#[test]
fn entropy_profile_stays_near_2000_points_on_large_buffers() {
    let data = vec![1u8; 3_000_000];
    let hists = entropy_window_histograms(&data, 256);
    assert!(hists.len() <= 2001, "profile holds {} points", hists.len());
    assert!(!hists.is_empty());
}

#[test]
fn curve_inversion_first_steps() {
    // the order-9 curve starts (0,0), (0,1), (1,1), (1,0), (1,0)+...
    assert_eq!(d2xy(HILBERT_SIZE, 0), (0, 0));
    assert_eq!(d2xy(HILBERT_SIZE, 1), (0, 1));
    assert_eq!(d2xy(HILBERT_SIZE, 2), (1, 1));
    assert_eq!(d2xy(HILBERT_SIZE, 3), (1, 0));
}

#[test]
fn curve_inversion_is_injective_on_a_prefix() {
    let mut seen = vec![false; 512 * 512];
    for d in 0..65536 {
        let (x, y) = d2xy(HILBERT_SIZE, d);
        assert!(x < 512 && y < 512);
        let cell = y * 512 + x;
        assert!(!seen[cell], "curve revisits cell {cell}");
        seen[cell] = true;
    }
}

#[test]
fn curve_neighbours_stay_adjacent() {
    let (mut px, mut py) = d2xy(HILBERT_SIZE, 0);
    for d in 1..4096 {
        let (x, y) = d2xy(HILBERT_SIZE, d);
        let dist = x.abs_diff(px) + y.abs_diff(py);
        assert_eq!(dist, 1, "curve jumps at index {d}");
        px = x;
        py = y;
    }
}

#[test]
fn matrix_of_short_buffer_keeps_every_byte() {
    let data: Vec<u8> = (1..=64).collect();
    let matrix = generate_hilbert_matrix(&data);
    assert_eq!(matrix.len(), 262144);
    let placed: usize = matrix.iter().filter(|&&b| b != 0).count();
    assert_eq!(placed, 64);
    let mut sum_in: u64 = 0;
    for &b in &data {
        sum_in += b as u64;
    }
    let sum_out: u64 = matrix.iter().map(|&b| b as u64).sum();
    assert_eq!(sum_in, sum_out);
}

#[test]
fn gif_and_pdf_signatures() {
    let mut gif = b"GIF89a".to_vec();
    gif.extend(vec![0u8; 50]);
    assert_eq!(detect_signatures(&gif), vec!["GIF".to_string()]);

    let mut pdf = b"%PDF-1.7".to_vec();
    pdf.extend(vec![0u8; 50]);
    assert_eq!(detect_signatures(&pdf), vec!["PDF".to_string()]);

    let short = b"GI".to_vec();
    assert!(detect_signatures(&short).is_empty());
}

#[test]
fn repeat_detection_boundaries() {
    // below the minimum length nothing is flagged
    assert!(!detect_autocorrelation(&vec![7u8; 1023]));
    // at the minimum length a constant buffer repeats its header everywhere
    assert!(detect_autocorrelation(&vec![7u8; 1024]));
    // a buffer whose header never recurs in the scanned range
    let mut data: Vec<u8> = (0..2048u32).map(|i| (i % 251) as u8).collect();
    data[0] = 255;
    assert!(!detect_autocorrelation(&data));
}

#[test]
fn autocorrelation_sample_is_capped_at_4096() {
    let data = vec![3u8; 10000];
    let graph = calculate_autocorrelation_graph(&data);
    assert_eq!(graph.len(), 128);
    assert_eq!(graph[0].comparisons, 4096);
    assert_eq!(graph[127].comparisons, 4096 - 127);
    assert_eq!(graph[127].matches, 4096 - 127);
}
