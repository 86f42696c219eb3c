//! Status codes reported by the native hardware layer.

use vstd::prelude::*;

verus! {

/// The hardware operation whose status code is checked.
#[derive(Debug, Clone, Copy, PartialEq, Eq, Structural)]
pub enum HwOp {
    ButtonInit,
    SdMount,
    LedInit,
    RecordPrepare,
    PlaybackPrepare,
    AudioIdle,
    AdcRead,
    PwmSample,
    PwmStop,
}

/// A hardware operation that returned a non-zero ESP-IDF status code.
#[derive(Debug, Clone, Copy, PartialEq, Eq, Structural)]
pub struct HwError {
    pub op: HwOp,
    pub code: i32,
}

/// Turns an ESP-IDF status code into a result: zero is success, every
/// other code is an error that names the operation and keeps the code.
pub fn check(code: i32, op: HwOp) -> (res: Result<(), HwError>)
    ensures
        code == 0 <==> res is Ok,
        res is Err ==> res->Err_0 == (HwError { op, code }),
{
    if code == 0 {
        Ok(())
    } else {
        Err(HwError { op, code })
    }
}

} // verus!
