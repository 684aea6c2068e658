//! Shading models: markers for a future fill stage; wireframe drawing uses none.
use vstd::prelude::*;

verus! {

/// A shading model.
pub trait Shader {}

/// Colour computed per vertex and interpolated across the face.
pub struct GouraudShading;

/// Normal interpolated across the face and lit per pixel.
pub struct PhongShading;

impl Shader for GouraudShading {}

impl Shader for PhongShading {}

} // verus!
