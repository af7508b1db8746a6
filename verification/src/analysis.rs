//! Orchestrator: run the four components over one immutable buffer, fold
//! the periodicity flag into the signature list, and assemble the result
//! bundle. The whole analysis is a pure function of the buffer; every field
//! of the bundle is pinned exactly by `result_matches`.

use crate::entropy::{entropy_window_histograms, hists_view, spec_entropy_histograms};
use crate::hilbert::{generate_hilbert_matrix, spec_hilbert_matrix};
use crate::periodicity::{
    calculate_autocorrelation_graph, detect_autocorrelation, spec_autocorrelation_graph,
    spec_repeat_flag, AutocorrPoint,
};
use crate::signatures::{detect_signatures, labels_view, spec_signatures};
use vstd::prelude::*;
use vstd::string::StringExecFns;

verus! {

/// Slice size of the entropy profile, in bytes.
pub const ENTROPY_WINDOW: usize = 256;

/// Label appended to the signature list when the repeat flag fires.
pub open spec fn periodic_label() -> Seq<char> {
    "periodic-structure-detected"@
}

/// The full signature list of a buffer: format labels first, in their fixed
/// order, then the periodicity label when the repeat flag fires.
pub open spec fn spec_all_signatures(data: Seq<u8>) -> Seq<Seq<char>> {
    if spec_repeat_flag(data) {
        spec_signatures(data).push(periodic_label())
    } else {
        spec_signatures(data)
    }
}

/// The immutable result bundle of one analysis call.
///
/// `entropy_map` holds the exact byte histogram of each evaluated slice of
/// the entropy profile; the Shannon entropy of a slice is a function of its
/// histogram alone. `autocorrelation_graph` holds the exact match and
/// comparison count per lag; the plotted fraction is their quotient.
#[derive(Debug)]
pub struct AnalysisResult {
    pub entropy_map: Vec<Vec<usize>>,
    pub hilbert_matrix: Vec<u8>,
    pub signatures: Vec<String>,
    pub autocorrelation_graph: Vec<AutocorrPoint>,
}

/// Does the bundle `r` hold exactly the analysis of `data`?
pub open spec fn result_matches(r: AnalysisResult, data: Seq<u8>) -> bool {
    &&& hists_view(r.entropy_map@) == spec_entropy_histograms(data, 256)
    &&& r.hilbert_matrix@ == spec_hilbert_matrix(data)
    &&& labels_view(r.signatures@) == spec_all_signatures(data)
    &&& r.autocorrelation_graph@ == spec_autocorrelation_graph(data)
}

impl AnalysisResult {
    /// Assemble a bundle from the four component outputs, unchanged.
    pub fn new(
        entropy_map: Vec<Vec<usize>>,
        hilbert_matrix: Vec<u8>,
        signatures: Vec<String>,
        autocorrelation_graph: Vec<AutocorrPoint>,
    ) -> (r: AnalysisResult)
        ensures
            r.entropy_map == entropy_map,
            r.hilbert_matrix == hilbert_matrix,
            r.signatures == signatures,
            r.autocorrelation_graph == autocorrelation_graph,
    {
        AnalysisResult { entropy_map, hilbert_matrix, signatures, autocorrelation_graph }
    }
}

/// The single entry point: run the four components on the same buffer and
/// assemble the bundle. Every field is pinned by `result_matches`; the grid
/// always has 262144 cells and the autocorrelogram always 128 points,
/// whatever the buffer's length.
pub fn analyze(data: &Vec<u8>) -> (r: AnalysisResult)
    ensures
        result_matches(r, data@),
        r.entropy_map@.len() <= 2000,
        data@.len() > 0 ==> r.entropy_map@.len() >= 1,
        r.hilbert_matrix@.len() == 262144,
        r.autocorrelation_graph@.len() == 128,
{
    let entropy_map = entropy_window_histograms(data, ENTROPY_WINDOW);
    let hilbert_matrix = generate_hilbert_matrix(data);
    let signatures = detect_signatures(data);
    let autocorrelation_graph = calculate_autocorrelation_graph(data);
    let mut final_signatures = signatures;
    if detect_autocorrelation(data) {
        final_signatures.push(String::from_str("periodic-structure-detected"));
    }
    proof {
        assert(labels_view(final_signatures@) =~= spec_all_signatures(data@));
    }
    AnalysisResult::new(entropy_map, hilbert_matrix, final_signatures, autocorrelation_graph)
}

/// Idempotence law: the analysis is a pure function of the buffer, so two
/// bundles produced from the same buffer agree in every field, view for
/// view. There is no hidden state for a second call to observe.
pub proof fn lemma_analyze_deterministic(r1: AnalysisResult, r2: AnalysisResult, data: Seq<u8>)
    requires
        result_matches(r1, data),
        result_matches(r2, data),
    ensures
        hists_view(r1.entropy_map@) == hists_view(r2.entropy_map@),
        r1.hilbert_matrix@ == r2.hilbert_matrix@,
        labels_view(r1.signatures@) == labels_view(r2.signatures@),
        r1.autocorrelation_graph@ == r2.autocorrelation_graph@,
{
}

} // verus!
