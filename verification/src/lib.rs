//! A procedurally animated sky simulation core: a sun on a circular
//! day/night trajectory, a day-to-night sky color gradient, a noise-driven
//! cloud density field, sun-occlusion darkening, a precomputed moon speckle
//! texture and a fixed star field.
//!
//! Every quantity is carried in fixed-point form: values that the design
//! treats as reals in [0, 1] are integers in [0, SCALE]. Screen positions
//! are pixels times SCALE. Angles are centidegrees. This keeps the whole
//! per-frame state transformation inside verified integer arithmetic.

pub mod fixed;
pub mod trig;
pub mod easing;
pub mod color;
pub mod sun;
pub mod clouds;
pub mod moon;
pub mod stars;
pub mod state;
