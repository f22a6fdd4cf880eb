//! The learned flow classifier: turns flow state into feature vectors, runs
//! them through an offline-trained model and emits alerts in the same form
//! as the rule-based detectors.
//!
//! No model format exists yet: there is nothing to load and no training
//! pipeline, and both entry points report that.
use vstd::prelude::*;

use crate::detect::Alert;
use crate::flow::SlidingWindowCounters;

verus! {

/// A trained model, once one can be loaded.
pub struct MlClassifier {}

/// Why the classifier is not available.
#[derive(Debug, Clone, Copy, PartialEq, Eq, Structural)]
pub enum ClassifierError {
    /// No model has been trained and no model format is defined.
    NoModel,
}

impl MlClassifier {
    /// Loads a trained model from `model_path`. No model format is defined
    /// yet, so this always fails.
    pub fn load(model_path: &str) -> (r: Result<MlClassifier, ClassifierError>)
        ensures
            r == Err::<MlClassifier, ClassifierError>(ClassifierError::NoModel),
    {
        Err(ClassifierError::NoModel)
    }

    /// Classifies the flows of `counters` and emits an alert for each one
    /// the model does not find benign. Without a model there is nothing to
    /// run, so this always reports `NoModel`.
    pub fn check(&self, counters: &SlidingWindowCounters) -> (r: Result<Vec<Alert>, ClassifierError>)
        ensures
            r == Err::<Vec<Alert>, ClassifierError>(ClassifierError::NoModel),
    {
        Err(ClassifierError::NoModel)
    }
}

/// Offline training entry point, run once against a labelled dataset to
/// produce the model that `MlClassifier::load` reads. The pipeline does not
/// exist yet, so this always fails.
pub fn train_model(dataset_path: &str, output_model_path: &str) -> (r: Result<(), ClassifierError>)
    ensures
        r == Err::<(), ClassifierError>(ClassifierError::NoModel),
{
    Err(ClassifierError::NoModel)
}

} // verus!
