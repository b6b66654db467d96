//! The whole conversion: resolve every reference, then build the model.

use vstd::prelude::*;
use crate::builder::{build_device, built_model};
use crate::error::{outcome_view, ConversionError, ConversionErrorView};
use crate::laws::{is_reference_failure, law_resolution_consumes_references,
    law_resolution_fails_on_references_only};
use crate::model::{SerializableDevice, SerializableDeviceView};
use crate::raw::{RawDevice, RawDeviceView};
use crate::resolve::resolve_device;
use crate::resolved::resolved_device;

verus! {

/// The model of the device: that of its resolved tree, or the error on
/// which resolution fails.
pub open spec fn converted(device: RawDeviceView) -> Result<
    SerializableDeviceView,
    ConversionErrorView,
> {
    match resolved_device(device) {
        Ok(tree) => Ok(built_model(tree)),
        Err(error) => Err(error),
    }
}

/// Converts a raw device tree into the serializable model. The tree is
/// only read. The conversion fails as a whole on the first reference that
/// names nothing or closes a cycle, and in no other way.
pub fn convert(device: &RawDevice) -> (outcome: Result<SerializableDevice, ConversionError>)
    ensures
        outcome_view(outcome) == converted(device.deep_view()),
        outcome is Err ==> is_reference_failure(outcome_view(outcome)->Err_0),
{
    match resolve_device(device) {
        Ok(tree) => {
            proof {
                law_resolution_consumes_references(device.deep_view());
            }
            build_device(&tree)
        },
        Err(error) => {
            proof {
                law_resolution_fails_on_references_only(device.deep_view());
            }
            Err(error)
        },
    }
}

} // verus!
