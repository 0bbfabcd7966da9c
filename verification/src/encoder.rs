//! Choosing between the hardware and software H.264 encoders, and what their failures mean.
use vstd::prelude::*;
use crate::error::{AirecError, ErrorCode, ErrorData};

verus! {

/// Which encoder a new recording should use, as probing showed.
#[derive(Clone, Debug)]
pub enum PreferredEncoder {
    Hardware,
    Software { hardware_error: String },
    Unavailable { hardware_error: String, software_error: String },
}

/// After the hardware probe: the hardware encoder if it worked, else `None` (probe the software
/// encoder next).
pub fn after_hardware_probe(hardware: Result<(), String>) -> (preferred: Option<PreferredEncoder>)
    ensures
        hardware is Ok <==> preferred == Some(PreferredEncoder::Hardware),
        hardware is Err ==> preferred is None,
{
    match hardware {
        Ok(()) => Some(PreferredEncoder::Hardware),
        Err(_) => None,
    }
}

/// After the hardware probe failed with `hardware_error`: the software encoder if its probe
/// worked, else neither.
pub fn after_software_probe(hardware_error: String, software: Result<(), String>) -> (preferred: PreferredEncoder)
    ensures
        match software {
            Ok(()) => preferred == PreferredEncoder::Software { hardware_error },
            Err(software_error) => preferred == PreferredEncoder::Unavailable { hardware_error, software_error },
        },
{
    match software {
        Ok(()) => PreferredEncoder::Software { hardware_error },
        Err(software_error) => PreferredEncoder::Unavailable { hardware_error, software_error },
    }
}

/// What probing both encoders found.
#[derive(Clone, Debug)]
pub struct EncoderDiagnostics {
    pub hardware_available: bool,
    pub software_available: bool,
    pub selected: Option<&'static str>,
    pub hardware_error: Option<String>,
    pub software_error: Option<String>,
}

/// The report of both encoder probes: the hardware encoder is selected where it works, else
/// the software one, else none.
pub fn diagnose_encoders(hardware: Result<(), String>, software: Result<(), String>) -> (diagnostics: EncoderDiagnostics)
    ensures
        diagnostics.hardware_available == hardware is Ok,
        diagnostics.software_available == software is Ok,
        hardware is Ok ==> diagnostics.selected is Some && diagnostics.selected->Some_0@ == "hardware"@,
        hardware is Err && software is Ok ==> diagnostics.selected is Some && diagnostics.selected->Some_0@
            == "software"@,
        hardware is Err && software is Err ==> diagnostics.selected is None,
        diagnostics.hardware_error == match hardware {
            Ok(()) => None,
            Err(error) => Some(error),
        },
        diagnostics.software_error == match software {
            Ok(()) => None,
            Err(error) => Some(error),
        },
{
    let hardware_available = hardware.is_ok();
    let software_available = software.is_ok();
    let selected = if hardware_available {
        Some("hardware")
    } else if software_available {
        Some("software")
    } else {
        None
    };
    let hardware_error = match hardware {
        Ok(()) => None,
        Err(error) => Some(error),
    };
    let software_error = match software {
        Ok(()) => None,
        Err(error) => Some(error),
    };
    EncoderDiagnostics { hardware_available, software_available, selected, hardware_error, software_error }
}

/// Both encoders failed: `hardware` and `software` are their errors.
pub fn encoder_unavailable(hardware: String, software: String) -> (error: AirecError)
    ensures
        error.code == ErrorCode::EncoderUnavailable,
        error.message@ == "hardware and software H.264 encoders are unavailable"@,
        error.data == (ErrorData::Encoders { hardware, software }),
{
    AirecError::new(
        ErrorCode::EncoderUnavailable,
        String::from_str("hardware and software H.264 encoders are unavailable"),
        ErrorData::Encoders { hardware, software },
    )
}

/// What a failed frame write leads to.
#[derive(Clone, Copy, Debug, PartialEq, Eq, Structural)]
pub enum WriteFailure {
    /// The hardware encoder failed on the first frame: start the software encoder instead.
    FallBackToSoftware,
    /// The software encoder failed on the first frame: no encoder is available.
    SoftwareDidNotStart,
    /// A later frame failed: the recording fails with the encoder's error.
    Failed,
}

pub fn write_failure(hardware: bool, frames_written: u64) -> (failure: WriteFailure)
    ensures
        failure == if frames_written == 0 {
            if hardware {
                WriteFailure::FallBackToSoftware
            } else {
                WriteFailure::SoftwareDidNotStart
            }
        } else {
            WriteFailure::Failed
        },
{
    if hardware && frames_written == 0 {
        WriteFailure::FallBackToSoftware
    } else if !hardware && frames_written == 0 {
        WriteFailure::SoftwareDidNotStart
    } else {
        WriteFailure::Failed
    }
}

/// A frame's position on the encoder's timeline in 100 ns units: milliseconds times 10 000,
/// held at the largest `i64`.
pub fn frame_timestamp_hns(t_ms: u64) -> (hns: i64)
    ensures
        hns == if t_ms * 10000 > i64::MAX {
            i64::MAX as int
        } else {
            t_ms * 10000
        },
{
    if t_ms > (i64::MAX as u64) / 10000 {
        i64::MAX
    } else {
        (t_ms * 10000) as i64
    }
}

/// The verdict of the environment check: success when Windows Graphics Capture is supported and
/// an encoder was selected; otherwise a capture error when capture is unsupported, else an
/// encoder error. Either error carries `report`, the check's JSON report.
pub fn doctor_verdict(capture_supported: bool, encoder_selected: bool, report: String) -> (verdict: Result<(), AirecError>)
    ensures
        capture_supported && encoder_selected ==> verdict is Ok,
        !capture_supported ==> verdict is Err && {
            let error = verdict->Err_0;
            &&& error.code == ErrorCode::CaptureInitFailed
            &&& error.message@ == "Windows Graphics Capture is unavailable"@
            &&& error.data == ErrorData::Json(report)
        },
        capture_supported && !encoder_selected ==> verdict is Err && {
            let error = verdict->Err_0;
            &&& error.code == ErrorCode::EncoderUnavailable
            &&& error.message@ == "no H.264 Media Foundation encoder is available"@
            &&& error.data == ErrorData::Json(report)
        },
{
    if capture_supported && encoder_selected {
        Ok(())
    } else if !capture_supported {
        Err(AirecError::new(
            ErrorCode::CaptureInitFailed,
            String::from_str("Windows Graphics Capture is unavailable"),
            ErrorData::Json(report),
        ))
    } else {
        Err(AirecError::new(
            ErrorCode::EncoderUnavailable,
            String::from_str("no H.264 Media Foundation encoder is available"),
            ErrorData::Json(report),
        ))
    }
}

} // verus!
