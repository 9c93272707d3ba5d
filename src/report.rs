//! Plain records of the remote forensic report, and the verdict on a
//! credential check.
use vstd::prelude::*;

verus! {

/// Where a recording was made, as the remote report describes it.
#[derive(Debug)]
pub struct EnvironmentProfile {
    pub room_type: String,
    pub environmental_markers: Vec<String>,
}

/// Whether the remote report judges the audio to be synthetic.
#[derive(Debug)]
pub struct DeepfakeDetection {
    pub is_deepfake: bool,
    pub confidence_score: i32,
    pub detection_flags: Vec<String>,
}

/// Outcome of checking a credential against the remote service.
#[derive(Debug)]
pub struct ApiKeyValidation {
    pub valid: bool,
    pub message: String,
}

/// How the remote service answered a credential check.
#[derive(PartialEq, Eq, Structural, Clone, Copy, Debug)]
pub enum KeyStatus {
    /// A success status.
    Accepted,
    /// 400 or 403: the service refused the credential.
    Rejected,
    /// Any other status.
    Failed,
}

/// Class of an HTTP status code of a credential check.
pub open spec fn key_status_of(code: u16) -> KeyStatus {
    if 200 <= code <= 299 {
        KeyStatus::Accepted
    } else if code == 400 || code == 403 {
        KeyStatus::Rejected
    } else {
        KeyStatus::Failed
    }
}

/// Classifies the HTTP status code of a credential check.
pub fn classify_key_status(code: u16) -> (r: KeyStatus)
    ensures
        r == key_status_of(code),
{
    if 200 <= code && code <= 299 {
        KeyStatus::Accepted
    } else if code == 400 || code == 403 {
        KeyStatus::Rejected
    } else {
        KeyStatus::Failed
    }
}

impl ApiKeyValidation {
    /// The verdict for status `code`. A success is valid; 400 and 403 mean an
    /// invalid key; any other status is a failure described by
    /// `failure_message`.
    pub fn from_status(code: u16, failure_message: String) -> (r: ApiKeyValidation)
        ensures
            r.valid == (key_status_of(code) == KeyStatus::Accepted),
            key_status_of(code) == KeyStatus::Accepted ==> r.message@ == "API key validated successfully"@,
            key_status_of(code) == KeyStatus::Rejected ==> r.message@
                == "Invalid API key. Please check and try again."@,
            key_status_of(code) == KeyStatus::Failed ==> r.message@ == failure_message@,
    {
        match classify_key_status(code) {
            KeyStatus::Accepted => ApiKeyValidation {
                valid: true,
                message: "API key validated successfully".to_owned(),
            },
            KeyStatus::Rejected => ApiKeyValidation {
                valid: false,
                message: "Invalid API key. Please check and try again.".to_owned(),
            },
            KeyStatus::Failed => ApiKeyValidation { valid: false, message: failure_message },
        }
    }
}

} // verus!
