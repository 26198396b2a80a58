//! The inference engine: model-cache state machine, image preparation,
//! and output postprocessing.
//!
//! Ranking works over order-preserving `u32` score keys (see
//! [`crate::types`]); the ordering it certifies is: higher score first,
//! ties broken by lower class index first.

use crate::constants::{IMAGE_HEIGHT, IMAGE_WIDTH, MIN_CLASSIFICATION_CLASSES, TOP_K_PREDICTIONS};
use crate::errors::InferenceError;
use crate::labels::{resolved_label, LabelsManager};
use crate::types::{outcome_eq, ClassificationResult, InferenceResult};
use vstd::prelude::*;

verus! {

/// Whether class `i` ranks strictly ahead of class `j` under `scores`:
/// a higher score wins, and ties go to the lower index.
pub open spec fn prefers(scores: Seq<u32>, i: int, j: int) -> bool {
    scores[i] > scores[j] || (scores[i] == scores[j] && i < j)
}

/// Whether all elements of `s` are pairwise different.
pub open spec fn distinct_seq(s: Seq<usize>) -> bool {
    forall|p: int, q: int|
        #![trigger s[p], s[q]]
        0 <= p < s.len() && 0 <= q < s.len() && p != q ==> s[p] != s[q]
}

/// Exchanging two positions keeps every value the sequence contains.
proof fn lemma_swap_preserves_contains(s1: Seq<usize>, s2: Seq<usize>, a: int, b: int)
    requires
        0 <= a < s1.len(),
        0 <= b < s1.len(),
        s2 == s1.update(a, s1[b]).update(b, s1[a]),
    ensures
        forall|v: usize| s1.contains(v) ==> s2.contains(v),
{
    assert forall|v: usize| s1.contains(v) implies s2.contains(v) by {
        let k = choose|k: int| 0 <= k < s1.len() && s1[k] == v;
        if k == a {
            assert(s2[b] == v);
        } else if k == b {
            assert(s2[a] == v);
        } else {
            assert(s2[k] == v);
        }
    }
}

/// Exchanging two positions keeps the elements pairwise different.
proof fn lemma_swap_preserves_distinct(s1: Seq<usize>, s2: Seq<usize>, a: int, b: int)
    requires
        0 <= a < s1.len(),
        0 <= b < s1.len(),
        s2 == s1.update(a, s1[b]).update(b, s1[a]),
        distinct_seq(s1),
    ensures
        distinct_seq(s2),
{
    assert forall|p: int, q: int|
        #![trigger s2[p], s2[q]]
        0 <= p < s2.len() && 0 <= q < s2.len() && p != q implies s2[p] != s2[q] by {
        let p1 = if p == a {
            b
        } else if p == b {
            a
        } else {
            p
        };
        let q1 = if q == a {
            b
        } else if q == b {
            a
        } else {
            q
        };
        assert(s2[p] == s1[p1]);
        assert(s2[q] == s1[q1]);
    }
}

/// Runtime ranking comparison matching [`prefers`].
fn ranks_before(scores: &Vec<u32>, x: usize, y: usize) -> (r: bool)
    requires
        x < scores@.len(),
        y < scores@.len(),
    ensures
        r == prefers(scores@, x as int, y as int),
{
    scores[x] > scores[y] || (scores[x] == scores[y] && x < y)
}

/// Every class index, ordered by rank: highest score first, ties by
/// ascending index.  The result is a permutation of `0..scores.len()`.
fn rank_indices(scores: &Vec<u32>) -> (order: Vec<usize>)
    ensures
        order@.len() == scores@.len(),
        forall|t: int| 0 <= t < order@.len() ==> (#[trigger] order@[t]) < scores@.len(),
        forall|a: int, b: int|
            #![trigger order@[a], order@[b]]
            0 <= a < b < order@.len() ==> prefers(scores@, order@[a] as int, order@[b] as int),
        forall|v: usize| v < scores@.len() ==> order@.contains(v),
        distinct_seq(order@),
{
    let n = scores.len();
    let mut order: Vec<usize> = Vec::new();
    let mut v: usize = 0;
    while v < n
        invariant
            v <= n,
            order@.len() == v,
            forall|t: int| 0 <= t < v ==> #[trigger] order@[t] == t,
        decreases n - v,
    {
        order.push(v);
        v += 1;
    }
    proof {
        assert forall|w: usize| w < n implies order@.contains(w) by {
            assert(order@[w as int] == w);
        }
    }
    let mut i: usize = 1;
    while i < n
        invariant
            n == scores@.len(),
            order@.len() == n,
            1 <= i,
            forall|t: int| 0 <= t < n ==> (#[trigger] order@[t]) < n,
            forall|a: int, b: int|
                #![trigger order@[a], order@[b]]
                0 <= a < b < i && b < n ==> prefers(scores@, order@[a] as int, order@[b] as int),
            forall|v: usize| v < n ==> order@.contains(v),
            distinct_seq(order@),
        decreases n - i,
    {
        let mut j: usize = i;
        while j > 0 && ranks_before(scores, order[j], order[j - 1])
            invariant
                n == scores@.len(),
                order@.len() == n,
                j <= i < n,
                forall|t: int| 0 <= t < n ==> (#[trigger] order@[t]) < n,
                forall|a: int, b: int|
                    #![trigger order@[a], order@[b]]
                    0 <= a < b <= i && a != j && b != j ==> prefers(
                        scores@,
                        order@[a] as int,
                        order@[b] as int,
                    ),
                forall|b: int|
                    j < b <= i ==> prefers(scores@, order@[j as int] as int, (#[trigger] order@[b]) as int),
                forall|v: usize| v < n ==> order@.contains(v),
                distinct_seq(order@),
            decreases j,
        {
            let ghost s1 = order@;
            let x = order[j - 1];
            let y = order[j];
            order.set(j - 1, y);
            order.set(j, x);
            proof {
                assert(order@ == s1.update(j - 1, s1[j as int]).update(j as int, s1[j - 1]));
                lemma_swap_preserves_contains(s1, order@, j - 1, j as int);
                lemma_swap_preserves_distinct(s1, order@, j - 1, j as int);
                assert forall|v: usize| v < n implies order@.contains(v) by {
                    assert(s1.contains(v));
                }
            }
            j -= 1;
            proof {
                let s2 = order@;
                let jj = j as int;
                // the moved element still precedes everything it passed
                assert forall|b: int| jj < b <= i implies prefers(
                    scores@,
                    s2[jj] as int,
                    (#[trigger] s2[b]) as int,
                ) by {
                    assert(s2[jj] == s1[jj + 1]);
                    if b == jj + 1 {
                        assert(s2[b] == s1[jj]);
                    } else {
                        assert(s2[b] == s1[b]);
                    }
                }
                // everything else is still mutually sorted
                assert forall|a: int, b: int|
                    #![trigger s2[a], s2[b]]
                    0 <= a < b <= i && a != jj && b != jj implies prefers(
                    scores@,
                    s2[a] as int,
                    s2[b] as int,
                ) by {
                    if b == jj + 1 {
                        assert(s2[a] == s1[a]);
                        assert(s2[b] == s1[jj]);
                        assert(prefers(scores@, s1[a] as int, s1[jj] as int));
                    } else if a == jj + 1 {
                        assert(s2[a] == s1[jj]);
                        assert(s2[b] == s1[b]);
                        assert(prefers(scores@, s1[jj] as int, s1[b] as int));
                    } else {
                        assert(s2[a] == s1[a]);
                        assert(s2[b] == s1[b]);
                    }
                }
            }
        }
        proof {
            let s2 = order@;
            let jj = j as int;
            if j > 0 {
                // the scan stopped: the element before the insertion point
                // ranks ahead of the moved element
                assert(!prefers(scores@, s2[jj] as int, s2[jj - 1] as int));
                assert(s2[jj] != s2[jj - 1]);
                assert(prefers(scores@, s2[jj - 1] as int, s2[jj] as int));
            }
            assert forall|a: int, b: int|
                #![trigger s2[a], s2[b]]
                0 <= a < b <= i implies prefers(scores@, s2[a] as int, s2[b] as int) by {
                if b == jj {
                    assert(a < jj);
                    if a == jj - 1 {
                        assert(prefers(scores@, s2[a] as int, s2[b] as int));
                    } else {
                        assert(prefers(scores@, s2[a] as int, s2[jj - 1] as int));
                        assert(prefers(scores@, s2[jj - 1] as int, s2[jj] as int));
                    }
                } else if a == jj {
                    assert(prefers(scores@, s2[jj] as int, s2[b] as int));
                }
            }
        }
        i += 1;
    }
    order
}

/// What it means for `entries` to be the ranked top `k` of `scores`,
/// with names resolved against `labels`:
/// - there are exactly `min(k, scores.len())` entries;
/// - each entry carries a valid class index, that class's score, and its
///   resolved label;
/// - entries are ordered by rank (higher score first, ties by lower
///   index), which makes confidences non-increasing;
/// - every class left out ranks at or below every entry.
pub open spec fn is_ranked_prefix(
    scores: Seq<u32>,
    entries: Seq<ClassificationResult>,
    k: int,
    labels: Seq<Seq<char>>,
) -> bool {
    &&& entries.len() == (if k < scores.len() {
        k
    } else {
        scores.len() as int
    })
    &&& forall|a: int|
        0 <= a < entries.len() ==> {
            &&& (#[trigger] entries[a]).class_id < scores.len()
            &&& entries[a].confidence == scores[entries[a].class_id as int]
            &&& entries[a].class_name@ == resolved_label(labels, entries[a].class_id as int)
        }
    &&& forall|a: int, b: int|
        #![trigger entries[a], entries[b]]
        0 <= a < b < entries.len() ==> prefers(
            scores,
            entries[a].class_id as int,
            entries[b].class_id as int,
        )
    &&& forall|a: int, j: int|
        #![trigger entries[a], scores[j]]
        0 <= a < entries.len() && 0 <= j < scores.len() && (forall|b: int|
            0 <= b < entries.len() ==> (#[trigger] entries[b]).class_id != j) ==> prefers(
            scores,
            entries[a].class_id as int,
            j,
        )
}

/// A ranked prefix has exactly `min(k, scores.len())` entries and its
/// confidences never increase from one entry to the next.
pub proof fn lemma_ranked_prefix_sorted(
    scores: Seq<u32>,
    entries: Seq<ClassificationResult>,
    k: int,
    labels: Seq<Seq<char>>,
)
    requires
        is_ranked_prefix(scores, entries, k, labels),
    ensures
        entries.len() == (if k < scores.len() {
            k
        } else {
            scores.len() as int
        }),
        forall|a: int, b: int|
            #![trigger entries[a], entries[b]]
            0 <= a < b < entries.len() ==> entries[a].confidence >= entries[b].confidence,
{
    assert forall|a: int, b: int|
        #![trigger entries[a], entries[b]]
        0 <= a < b < entries.len() implies entries[a].confidence >= entries[b].confidence by {
        assert(prefers(scores, entries[a].class_id as int, entries[b].class_id as int));
    }
}

/// What a load request against the cache must do, given whether a file
/// exists at the requested path.
#[derive(Debug)]
pub enum LoadPlan {
    /// No file exists at the path: report the model as not found.
    MissingFile,
    /// The requested path is the loaded one: keep the session, a no-op.
    AlreadyLoaded,
    /// Read the model and install a fresh session, replacing any prior one.
    LoadFresh,
}

/// The engine context: the single-slot model cache plus the last outcome
/// and last error retained for boundary retrieval.
pub struct InferenceEngine {
    /// Path of the loaded model, while one is loaded.
    pub loaded_path: Option<String>,
    /// The outcome of the most recent successful inference.
    pub last_result: Option<InferenceResult>,
    /// The message of the most recently stored error.
    pub last_error: Option<String>,
}

impl InferenceEngine {
    /// A fresh engine: nothing loaded, no outcome, no error.
    pub fn new() -> (r: Self)
        ensures
            r.loaded_path is None,
            r.last_result is None,
            r.last_error is None,
    {
        InferenceEngine { loaded_path: None, last_result: None, last_error: None }
    }

    /// The plan a load request must follow in a given cache state.
    pub open spec fn load_plan_spec(self, path: Seq<char>, file_exists: bool) -> LoadPlan {
        if !file_exists {
            LoadPlan::MissingFile
        } else if self.loaded_path matches Some(p) && p@ == path {
            LoadPlan::AlreadyLoaded
        } else {
            LoadPlan::LoadFresh
        }
    }

    /// Decide what a load request must do.  The caller reports whether a
    /// file exists at `model_path`; reading and session construction are
    /// its work, committed through [`Self::commit_load`].
    pub fn plan_load(&self, model_path: &str, file_exists: bool) -> (r: LoadPlan)
        ensures
            r == self.load_plan_spec(model_path@, file_exists),
    {
        if !file_exists {
            LoadPlan::MissingFile
        } else {
            match &self.loaded_path {
                Some(p) => {
                    let requested = model_path.to_owned();
                    if p.eq(&requested) {
                        LoadPlan::AlreadyLoaded
                    } else {
                        LoadPlan::LoadFresh
                    }
                },
                None => LoadPlan::LoadFresh,
            }
        }
    }

    /// Record that a fresh session for `model_path` is installed,
    /// replacing any previously loaded model.
    pub fn commit_load(&mut self, model_path: &str) -> (nothing: ())
        ensures
            final (self).loaded_path matches Some(p) && p@ == model_path@,
            final (self).last_result == old(self).last_result,
            final (self).last_error == old(self).last_error,
    {
        self.loaded_path = Some(model_path.to_owned());
    }

    /// Whether a model is currently loaded in the cache.
    pub fn is_model_loaded(&self) -> (r: bool)
        ensures
            r == (self.loaded_path is Some),
    {
        match &self.loaded_path {
            Some(_) => true,
            None => false,
        }
    }

    /// The path of the currently loaded model, if any.
    pub fn get_loaded_model_path(&self) -> (r: Option<String>)
        ensures
            r == self.loaded_path,
    {
        match &self.loaded_path {
            Some(p) => Some(p.clone()),
            None => None,
        }
    }

    /// Check that a model is loaded before running inference.  With an
    /// empty cache this fails with a model-not-found error and changes
    /// nothing, so no outcome is produced.
    pub fn check_model_loaded(&self) -> (r: Result<(), InferenceError>)
        ensures
            r is Ok <==> self.loaded_path is Some,
            r matches Err(e) ==> e matches InferenceError::ModelNotFound(m) && m@
                == "No model loaded. Call load_model first."@,
    {
        if self.is_model_loaded() {
            Ok(())
        } else {
            Err(InferenceError::model_not_found("No model loaded. Call load_model first."))
        }
    }

    /// The outcome of the most recent successful inference, if any.
    pub fn get_last_result(&self) -> (r: Option<InferenceResult>)
        ensures
            r is Some <==> self.last_result is Some,
            r matches Some(o) ==> self.last_result matches Some(held) && outcome_eq(held, o),
    {
        match &self.last_result {
            Some(o) => Some(o.duplicate()),
            None => None,
        }
    }

    /// Store an error message for later boundary retrieval.
    pub fn store_error(&mut self, error: &str) -> (nothing: ())
        ensures
            final (self).last_error matches Some(m) && m@ == error@,
            final (self).loaded_path == old(self).loaded_path,
            final (self).last_result == old(self).last_result,
    {
        self.last_error = Some(error.to_owned());
    }

    /// The most recently stored error message, if any.
    pub fn get_last_error(&self) -> (r: Option<String>)
        ensures
            r == self.last_error,
    {
        match &self.last_error {
            Some(m) => Some(m.clone()),
            None => None,
        }
    }

    /// The ranked top `k` classes of a score vector, with display names
    /// resolved through the label store.
    pub fn get_top_predictions(scores: &Vec<u32>, k: usize, labels: &LabelsManager) -> (r: Vec<
        ClassificationResult,
    >)
        ensures
            is_ranked_prefix(scores@, r@, k as int, labels.active_labels()),
    {
        let order = rank_indices(scores);
        let m = if k < scores.len() {
            k
        } else {
            scores.len()
        };
        let mut r: Vec<ClassificationResult> = Vec::new();
        let mut a: usize = 0;
        while a < m
            invariant
                m <= order@.len() == scores@.len(),
                a <= m,
                r@.len() == a,
                forall|t: int| 0 <= t < order@.len() ==> (#[trigger] order@[t]) < scores@.len(),
                forall|a2: int, b2: int|
                    #![trigger order@[a2], order@[b2]]
                    0 <= a2 < b2 < order@.len() ==> prefers(
                        scores@,
                        order@[a2] as int,
                        order@[b2] as int,
                    ),
                forall|v: usize| v < scores@.len() ==> order@.contains(v),
                distinct_seq(order@),
                forall|t: int|
                    0 <= t < a ==> {
                        &&& (#[trigger] r@[t]).class_id == order@[t]
                        &&& r@[t].confidence == scores@[order@[t] as int]
                        &&& r@[t].class_name@ == resolved_label(
                            labels.active_labels(),
                            order@[t] as int,
                        )
                    },
            decreases m - a,
        {
            let idx = order[a];
            let name = labels.get_label(idx);
            let conf = scores[idx];
            r.push(ClassificationResult::new(idx, name, conf));
            a += 1;
        }
        proof {
            assert forall|a2: int, j: int|
                #![trigger r@[a2], scores@[j]]
                0 <= a2 < r@.len() && 0 <= j < scores@.len() && (forall|b: int|
                    0 <= b < r@.len() ==> (#[trigger] r@[b]).class_id != j) implies prefers(
                scores@,
                r@[a2].class_id as int,
                j,
            ) by {
                let jj: usize = j as usize;
                assert(order@.contains(jj));
                let p = choose|p: int| 0 <= p < order@.len() && order@[p] == jj;
                if p < m {
                    assert(r@[p].class_id == jj);
                } else {
                    assert(prefers(scores@, order@[a2] as int, order@[p] as int));
                }
            }
        }
        r
    }

    /// Treat a raw output as a classification distribution only when it
    /// holds at least the minimum class count; then rank its top classes.
    pub fn classify_if_applicable(scores: &Vec<u32>, labels: &LabelsManager) -> (r: (
        bool,
        Vec<ClassificationResult>,
    ))
        ensures
            r.0 == (scores@.len() >= MIN_CLASSIFICATION_CLASSES),
            r.0 ==> is_ranked_prefix(
                scores@,
                r.1@,
                TOP_K_PREDICTIONS as int,
                labels.active_labels(),
            ),
            !r.0 ==> r.1@.len() == 0,
    {
        if scores.len() >= MIN_CLASSIFICATION_CLASSES {
            let top = Self::get_top_predictions(scores, TOP_K_PREDICTIONS, labels);
            (true, top)
        } else {
            (false, Vec::new())
        }
    }

    /// Assemble and retain the outcome of one inference call.  `data`
    /// carries the raw output values; `probability_keys` carries the
    /// order-preserving keys of the per-class probabilities the host
    /// derived from them, one per raw element whenever the output is
    /// classification-shaped.  The outcome ranks the top classes by
    /// probability and totals the measured stage times.
    pub fn process_output(
        &mut self,
        data: Vec<u32>,
        probability_keys: Vec<u32>,
        shape: Vec<usize>,
        labels: &LabelsManager,
        inference_time_us: u64,
        preprocessing_time_us: u64,
        postprocessing_time_us: u64,
    ) -> (r: InferenceResult)
        requires
            data@.len() >= MIN_CLASSIFICATION_CLASSES ==> probability_keys@.len() == data@.len(),
            preprocessing_time_us + inference_time_us + postprocessing_time_us <= u64::MAX,
        ensures
            r.data@ == data@,
            r.shape@ == shape@,
            r.is_classification == (data@.len() >= MIN_CLASSIFICATION_CLASSES),
            r.is_classification ==> is_ranked_prefix(
                probability_keys@,
                r.top_predictions@,
                TOP_K_PREDICTIONS as int,
                labels.active_labels(),
            ),
            r.is_classification ==> r.top_predictions@.len() == TOP_K_PREDICTIONS,
            !r.is_classification ==> r.top_predictions@.len() == 0,
            r.inference_time_us == inference_time_us,
            r.preprocessing_time_us == preprocessing_time_us,
            r.postprocessing_time_us == postprocessing_time_us,
            r.total_time_us == preprocessing_time_us + inference_time_us + postprocessing_time_us,
            r.timing_consistent(),
            final (self).last_result matches Some(held) && outcome_eq(held, r),
            final (self).loaded_path == old(self).loaded_path,
            final (self).last_error == old(self).last_error,
    {
        let is_classification = data.len() >= MIN_CLASSIFICATION_CLASSES;
        let top_predictions = if is_classification {
            Self::get_top_predictions(&probability_keys, TOP_K_PREDICTIONS, labels)
        } else {
            Vec::new()
        };
        let r = InferenceResult::new_with_timing(
            data,
            shape,
            is_classification,
            top_predictions,
            inference_time_us,
            preprocessing_time_us,
            postprocessing_time_us,
        );
        self.last_result = Some(r.duplicate());
        r
    }
}

/// The source position in a row-major RGB byte buffer of position `i` in
/// the channel-first buffer, where `hw` is the pixel count per channel.
pub open spec fn chw_source_index(i: int, hw: int) -> int {
    (i % hw) * 3 + i / hw
}

/// The channel-first permutation of a row-major RGB byte buffer.
pub open spec fn chw_of(pixels: Seq<u8>, hw: int) -> Seq<u8> {
    Seq::new(pixels.len(), |i: int| pixels[chw_source_index(i, hw)])
}

/// In the channel-first buffer, channel `c` of the pixel at row `y` and
/// column `x` is that pixel's channel-`c` byte of the row-major buffer.
pub proof fn lemma_chw_layout(pixels: Seq<u8>, height: int, width: int, c: int, y: int, x: int)
    requires
        pixels.len() == 3 * height * width,
        0 <= c < 3,
        0 <= y < height,
        0 <= x < width,
    ensures
        chw_of(pixels, height * width)[c * (height * width) + y * width + x] == pixels[(y * width
            + x) * 3 + c],
{
    let hw = height * width;
    let p = y * width + x;
    assert(3 * height * width == 3 * hw) by (nonlinear_arith)
        requires
            hw == height * width,
    ;
    assert(0 <= p < hw) by (nonlinear_arith)
        requires
            0 <= y < height,
            0 <= x < width,
            hw == height * width,
            p == y * width + x,
    ;
    let i = c * hw + p;
    assert(0 <= i < 3 * hw) by (nonlinear_arith)
        requires
            0 <= c < 3,
            0 <= p < hw,
            i == c * hw + p,
    ;
    vstd::arithmetic::div_mod::lemma_fundamental_div_mod_converse(i, hw, c, p);
    assert(chw_source_index(i, hw) == p * 3 + c);
}

/// A decoded image at the network's input resolution, as RGB bytes in
/// channel-first (channel, row, column) layout.  Scaling these bytes to
/// the engine's per-channel normalised floating-point values is the host
/// adapter's final, element-wise step.
#[derive(Debug)]
pub struct ChwImage {
    /// The channel-first pixel bytes.
    pub data: Vec<u8>,
}

impl ChwImage {
    /// The buffer holds exactly channels x height x width bytes.
    pub open spec fn wf(self) -> bool {
        self.data@.len() == 3 * IMAGE_HEIGHT * IMAGE_WIDTH
    }
}

/// Whether `bytes` decode as a supported image: a function of the bytes
/// alone, since the format is read off a fixed signature table and the
/// decoder for it is fixed at compile time.
pub uninterp spec fn decode_ok(bytes: Seq<u8>) -> bool;

/// The decoder's error text for bytes that do not decode: a function of
/// the bytes alone, for the same reason.
pub uninterp spec fn decode_err_text(bytes: Seq<u8>) -> Seq<char>;

/// The row-major RGB bytes that decoding `bytes` and resizing to
/// `width x height` yields: a function of the arguments alone.
pub uninterp spec fn decoded_rgb_pixels(bytes: Seq<u8>, width: nat, height: nat) -> Seq<u8>;

/// Relies on `image::guess_format`, `image::load_from_memory_with_format`,
/// `DynamicImage::resize_exact` with the Lanczos3 filter, and
/// `DynamicImage::to_rgb8`.  The format is guessed from the crate's
/// built-in signature table alone and then fixed, so the crate's
/// process-global decoder hooks are never consulted (they apply only to
/// guessed-at-read formats and extension-keyed dispatch): given the
/// crate's compiled feature set, success or failure is a function of the
/// bytes alone, named `decode_ok`, and the error's display text is named
/// `decode_err_text`.  Resizing and the RGB conversion never fail;
/// `resize_exact` yields exactly `width x height` pixels without
/// preserving aspect ratio, and `to_rgb8` yields the row-major RGB
/// buffer of 3 bytes per pixel, so the Ok buffer holds
/// `3 * width * height` bytes.  The precondition keeps the resized
/// buffer's byte length within `usize` even for the crate's widest
/// colour type of 16 bytes per pixel, the one case in which its buffer
/// constructor panics.  The pipeline is deterministic in its arguments
/// within a process (the resampling kernel's rounding follows the
/// platform's math library); its result is named `decoded_rgb_pixels`.
#[verifier::external_body]
fn decode_to_rgb(image_bytes: &[u8], width: u32, height: u32) -> (r: Result<Vec<u8>, String>)
    requires
        16 * (width as int) * (height as int) <= usize::MAX,
    ensures
        r is Ok == decode_ok(image_bytes@),
        r matches Ok(p) ==> p@ == decoded_rgb_pixels(image_bytes@, width as nat, height as nat)
            && p@.len() == 3 * width * height,
        r matches Err(m) ==> m@ == decode_err_text(image_bytes@),
{
    let decoded = image::guess_format(image_bytes)
        .and_then(|format| image::load_from_memory_with_format(image_bytes, format));
    match decoded {
        Ok(img) => {
            let resized = img.resize_exact(width, height, image::imageops::FilterType::Lanczos3);
            Ok(resized.to_rgb8().into_raw())
        },
        Err(e) => Err(format!("{}", e)),
    }
}

/// Permute a row-major RGB byte buffer into channel-first layout.
pub fn chw_from_rgb(pixels: &Vec<u8>, height: usize, width: usize) -> (r: Vec<u8>)
    requires
        pixels@.len() == 3 * (height as int) * (width as int),
    ensures
        r@ == chw_of(pixels@, (height as int) * (width as int)),
{
    let n = pixels.len();
    proof {
        assert((height as int) * (width as int) <= n && 0 <= (height as int) * (width as int))
            by (nonlinear_arith)
            requires
                n == 3 * (height as int) * (width as int),
        ;
    }
    let hw: usize = height * width;
    proof {
        assert(n == 3 * (hw as int)) by (nonlinear_arith)
            requires
                n == 3 * (height as int) * (width as int),
                (hw as int) == (height as int) * (width as int),
        ;
    }
    let mut r: Vec<u8> = Vec::new();
    if hw == 0 {
        proof {
            assert(r@ =~= chw_of(pixels@, 0));
        }
        return r;
    }
    let mut i: usize = 0;
    while i < n
        invariant
            n == pixels@.len(),
            n == 3 * (hw as int),
            hw > 0,
            i <= n,
            r@.len() == i,
            forall|j: int| 0 <= j < i ==> r@[j] == pixels@[chw_source_index(j, hw as int)],
        decreases n - i,
    {
        proof {
            vstd::arithmetic::div_mod::lemma_fundamental_div_mod(i as int, hw as int);
            vstd::arithmetic::div_mod::lemma_mod_pos_bound(i as int, hw as int);
            let q = (i as int) / (hw as int);
            if q >= 3 {
                assert((hw as int) * q >= (hw as int) * 3) by (nonlinear_arith)
                    requires
                        q >= 3,
                        (hw as int) > 0,
                ;
            }
        }
        let src = (i % hw) * 3 + i / hw;
        r.push(pixels[src]);
        i += 1;
    }
    proof {
        assert(r@ =~= chw_of(pixels@, hw as int));
    }
    r
}

impl InferenceEngine {
    /// Decode arbitrary image bytes, resize them to the fixed input
    /// resolution, and lay the RGB bytes out channel-first.  Succeeds
    /// exactly on bytes that decode as a supported image; all other
    /// bytes are reported as invalid image data.
    pub fn preprocess_image(image_bytes: &[u8]) -> (r: Result<ChwImage, InferenceError>)
        ensures
            r is Ok <==> decode_ok(image_bytes@),
            r matches Ok(t) ==> t.wf() && t.data@ == chw_of(
                decoded_rgb_pixels(image_bytes@, IMAGE_WIDTH as nat, IMAGE_HEIGHT as nat),
                (IMAGE_HEIGHT as int) * (IMAGE_WIDTH as int),
            ),
            r matches Err(e) ==> e matches InferenceError::InvalidImageData(m) && m@
                == "Failed to load image from bytes: "@ + decode_err_text(image_bytes@),
    {
        match decode_to_rgb(image_bytes, IMAGE_WIDTH as u32, IMAGE_HEIGHT as u32) {
            Ok(pixels) => {
                let data = chw_from_rgb(&pixels, IMAGE_HEIGHT, IMAGE_WIDTH);
                Ok(ChwImage { data })
            },
            Err(msg) => {
                let full = String::from_str("Failed to load image from bytes: ").concat(
                    msg.as_str(),
                );
                Err(InferenceError::invalid_image(full.as_str()))
            },
        }
    }
}

/// Requesting the path that is already loaded is planned as a no-op:
/// the cache keeps its session and re-reads nothing.
pub proof fn lemma_reload_same_path_is_noop(e: InferenceEngine, path: Seq<char>)
    requires
        e.loaded_path matches Some(p) && p@ == path,
    ensures
        e.load_plan_spec(path, true) is AlreadyLoaded,
{
}

/// Requesting a different path (or a first load) is planned as a fresh
/// load, which replaces the prior session on commit.
pub proof fn lemma_load_other_path_replaces(e: InferenceEngine, path: Seq<char>)
    requires
        e.loaded_path is None || (e.loaded_path matches Some(p) && p@ != path),
    ensures
        e.load_plan_spec(path, true) is LoadFresh,
{
}

} // verus!
