pub mod util;
pub mod value_prediction;
