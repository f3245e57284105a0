//! Registration of a shader type: validation of the static configuration
//! before the per-frame stages and the dispatch node are installed.
//!
//! A registration with no shader source is a static configuration defect;
//! it is reported as a setup error and the host aborts startup with it.

use vstd::prelude::*;

verus! {

/// Where the shader type's code comes from: an already-loaded module, or
/// an asset path to load. A registration may also leave it unspecified,
/// which is invalid — there is no default compute shader.
pub enum ShaderSource {
    Unspecified,
    Handle(u64),
    Path(String),
}

/// One registered shader type's static configuration: its source and the
/// entry point to dispatch. The workgroup function is supplied separately
/// to the queue-build stage.
pub struct ShaderDescriptor {
    pub source: ShaderSource,
    pub entry_point: String,
}

/// A configuration defect that aborts startup.
pub enum SetupError {
    NoShaderSource,
}

/// Validates a shader type's registration: accepted exactly when a shader
/// source is supplied.
pub fn validate_registration(d: ShaderDescriptor) -> (r: Result<ShaderDescriptor, SetupError>)
    ensures
        match r {
            Ok(v) => !(d.source is Unspecified) && v == d,
            Err(e) => d.source is Unspecified && e is NoShaderSource,
        },
{
    match &d.source {
        ShaderSource::Unspecified => Err(SetupError::NoShaderSource),
        _ => Ok(d),
    }
}

} // verus!
