use vstd::prelude::*;

pub mod cache;
pub mod chars;
pub mod circle;
pub mod decode;
pub mod fallback;
pub mod interaction;
pub mod manage_models;
pub mod mode;
pub mod onboarding;
pub mod new_project;
pub mod panel;
pub mod scale;
pub mod style;

verus! {

} // verus!
