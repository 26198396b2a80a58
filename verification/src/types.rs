//! Result records of one inference call.
//!
//! Confidences are carried as order-preserving 32-bit keys: the IEEE-754
//! bit pattern of the non-negative probability, whose unsigned order is
//! the probability order.  The host adapter converts between these keys
//! and its floating-point values at the boundary.  Stage timings are
//! carried in whole microseconds.

use vstd::prelude::*;

verus! {

/// One ranked class: its index, resolved display name, and confidence key.
pub struct ClassificationResult {
    /// The class index the entry ranks.
    pub class_id: usize,
    /// The display name resolved for the class.
    pub class_name: String,
    /// Order-preserving key of the class's probability.
    pub confidence: u32,
}

impl ClassificationResult {
    /// Create a new classification entry.
    pub fn new(class_id: usize, class_name: String, confidence: u32) -> (r: Self)
        ensures
            r.class_id == class_id,
            r.class_name == class_name,
            r.confidence == confidence,
    {
        ClassificationResult { class_id, class_name, confidence }
    }

    /// An owned copy of this entry.
    pub fn duplicate(&self) -> (r: Self)
        ensures
            r == *self,
    {
        ClassificationResult {
            class_id: self.class_id,
            class_name: self.class_name.clone(),
            confidence: self.confidence,
        }
    }
}

/// Whether two outcome records carry the same values.
pub open spec fn outcome_eq(a: InferenceResult, b: InferenceResult) -> bool {
    &&& a.data@ == b.data@
    &&& a.shape@ == b.shape@
    &&& a.is_classification == b.is_classification
    &&& a.top_predictions@ == b.top_predictions@
    &&& a.inference_time_us == b.inference_time_us
    &&& a.preprocessing_time_us == b.preprocessing_time_us
    &&& a.postprocessing_time_us == b.postprocessing_time_us
    &&& a.total_time_us == b.total_time_us
}

/// The full result of one inference call.
pub struct InferenceResult {
    /// Raw output values, as order-preserving keys of the engine's outputs.
    pub data: Vec<u32>,
    /// Shape of the raw output tensor.
    pub shape: Vec<usize>,
    /// Whether the output was treated as a classification distribution.
    pub is_classification: bool,
    /// The ranked top classes; empty when not classification-shaped.
    pub top_predictions: Vec<ClassificationResult>,
    /// Engine execution time, in microseconds.
    pub inference_time_us: u64,
    /// Image preprocessing time, in microseconds.
    pub preprocessing_time_us: u64,
    /// Output postprocessing time, in microseconds.
    pub postprocessing_time_us: u64,
    /// Sum of the three stage times, in microseconds.
    pub total_time_us: u64,
}

impl InferenceResult {
    /// The timing fields are consistent: the total is the sum of the
    /// three stages.
    pub open spec fn timing_consistent(self) -> bool {
        self.total_time_us == self.preprocessing_time_us + self.inference_time_us
            + self.postprocessing_time_us
    }

    /// Create a result record from all of its fields.
    pub fn new(
        data: Vec<u32>,
        shape: Vec<usize>,
        is_classification: bool,
        top_predictions: Vec<ClassificationResult>,
        inference_time_us: u64,
        preprocessing_time_us: u64,
        postprocessing_time_us: u64,
        total_time_us: u64,
    ) -> (r: Self)
        ensures
            r == (InferenceResult {
                data,
                shape,
                is_classification,
                top_predictions,
                inference_time_us,
                preprocessing_time_us,
                postprocessing_time_us,
                total_time_us,
            }),
    {
        InferenceResult {
            data,
            shape,
            is_classification,
            top_predictions,
            inference_time_us,
            preprocessing_time_us,
            postprocessing_time_us,
            total_time_us,
        }
    }

    /// Create a result record, computing the total time as the sum of
    /// the three stage times.
    pub fn new_with_timing(
        data: Vec<u32>,
        shape: Vec<usize>,
        is_classification: bool,
        top_predictions: Vec<ClassificationResult>,
        inference_time_us: u64,
        preprocessing_time_us: u64,
        postprocessing_time_us: u64,
    ) -> (r: Self)
        requires
            preprocessing_time_us + inference_time_us + postprocessing_time_us <= u64::MAX,
        ensures
            r.data == data,
            r.shape == shape,
            r.is_classification == is_classification,
            r.top_predictions == top_predictions,
            r.inference_time_us == inference_time_us,
            r.preprocessing_time_us == preprocessing_time_us,
            r.postprocessing_time_us == postprocessing_time_us,
            r.total_time_us == preprocessing_time_us + inference_time_us + postprocessing_time_us,
            r.timing_consistent(),
    {
        let total_time_us = preprocessing_time_us + inference_time_us + postprocessing_time_us;
        Self::new(
            data,
            shape,
            is_classification,
            top_predictions,
            inference_time_us,
            preprocessing_time_us,
            postprocessing_time_us,
            total_time_us,
        )
    }

    /// The number of elements in the raw output.
    pub fn len(&self) -> (r: usize)
        ensures
            r == self.data@.len(),
    {
        self.data.len()
    }

    /// Whether the raw output is empty.
    pub fn is_empty(&self) -> (r: bool)
        ensures
            r == (self.data@.len() == 0),
    {
        self.data.len() == 0
    }

    /// The highest-ranked prediction, if any.
    pub fn top_prediction(&self) -> (r: Option<&ClassificationResult>)
        ensures
            r matches Some(e) ==> self.top_predictions@.len() > 0 && *e
                == self.top_predictions@[0],
            r is None <==> self.top_predictions@.len() == 0,
    {
        if self.top_predictions.len() > 0 {
            Some(&self.top_predictions[0])
        } else {
            None
        }
    }

    /// An owned copy of this record carrying the same values.
    pub fn duplicate(&self) -> (r: Self)
        ensures
            outcome_eq(*self, r),
    {
        let mut data: Vec<u32> = Vec::new();
        let mut i: usize = 0;
        while i < self.data.len()
            invariant
                i <= self.data@.len(),
                data@ == self.data@.take(i as int),
            decreases self.data@.len() - i,
        {
            data.push(self.data[i]);
            i += 1;
            proof {
                assert(data@ =~= self.data@.take(i as int));
            }
        }
        let mut shape: Vec<usize> = Vec::new();
        let mut i: usize = 0;
        while i < self.shape.len()
            invariant
                i <= self.shape@.len(),
                shape@ == self.shape@.take(i as int),
            decreases self.shape@.len() - i,
        {
            shape.push(self.shape[i]);
            i += 1;
            proof {
                assert(shape@ =~= self.shape@.take(i as int));
            }
        }
        let mut top_predictions: Vec<ClassificationResult> = Vec::new();
        let mut i: usize = 0;
        while i < self.top_predictions.len()
            invariant
                i <= self.top_predictions@.len(),
                top_predictions@ == self.top_predictions@.take(i as int),
            decreases self.top_predictions@.len() - i,
        {
            top_predictions.push(self.top_predictions[i].duplicate());
            i += 1;
            proof {
                assert(top_predictions@ =~= self.top_predictions@.take(i as int));
            }
        }
        proof {
            assert(data@ =~= self.data@);
            assert(shape@ =~= self.shape@);
            assert(top_predictions@ =~= self.top_predictions@);
        }
        InferenceResult {
            data,
            shape,
            is_classification: self.is_classification,
            top_predictions,
            inference_time_us: self.inference_time_us,
            preprocessing_time_us: self.preprocessing_time_us,
            postprocessing_time_us: self.postprocessing_time_us,
            total_time_us: self.total_time_us,
        }
    }
}

} // verus!
