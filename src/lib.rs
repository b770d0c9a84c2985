//! A binary linear classifier (a Rosenblatt perceptron) over fixed-point
//! feature vectors, with online training and a per-epoch miss trace.
pub mod model;
pub mod perceptron;
mod rng;
pub mod sample;
pub mod shape;

pub use sample::{count_disagreements, label_for_name};
pub use shape::{in_range, is_batch, is_training_set};
pub use perceptron::{Perceptron, Trainable, WeightInit};
pub use model::{FEATURE_LIMIT, MAX_FEATURES, ONE, TRAINING_BUDGET, WEIGHT_LIMIT, WEIGHT_ONE};
