//! What can go wrong with dictation.

use vstd::prelude::*;

verus! {

/// Why dictation failed.
#[derive(Debug)]
pub enum WhisperSttError {
    ModelLoad(String),
    Whisper(String),
    CaptureInit(String),
    ThreadSpawn(String),
    AlreadyRecording,
    NotRecording,
}

impl WhisperSttError {
    /// The text that a user is shown for the error.
    pub open spec fn text(self) -> Seq<char> {
        match self {
            WhisperSttError::ModelLoad(e) => "failed to load whisper model: "@ + e@,
            WhisperSttError::Whisper(e) => "whisper error: "@ + e@,
            WhisperSttError::CaptureInit(e) => "failed to initialize capture: "@ + e@,
            WhisperSttError::ThreadSpawn(e) => "failed to spawn thread: "@ + e@,
            WhisperSttError::AlreadyRecording => "PTT is already active"@,
            WhisperSttError::NotRecording => "PTT is not active"@,
        }
    }

    /// The text that a user is shown for the error.
    pub fn message(&self) -> (message: String)
        ensures
            message@ == self.text(),
    {
        match self {
            WhisperSttError::ModelLoad(e) => "failed to load whisper model: ".to_owned().concat(
                e.as_str(),
            ),
            WhisperSttError::Whisper(e) => "whisper error: ".to_owned().concat(e.as_str()),
            WhisperSttError::CaptureInit(e) => "failed to initialize capture: ".to_owned().concat(
                e.as_str(),
            ),
            WhisperSttError::ThreadSpawn(e) => "failed to spawn thread: ".to_owned().concat(
                e.as_str(),
            ),
            WhisperSttError::AlreadyRecording => "PTT is already active".to_owned(),
            WhisperSttError::NotRecording => "PTT is not active".to_owned(),
        }
    }
}

/// The text of an error says what failed, and then, letter for letter, why.
pub proof fn law_errors_say_what_and_why(why: String)
    ensures
        WhisperSttError::ModelLoad(why).text() == "failed to load whisper model: "@ + why@,
        WhisperSttError::Whisper(why).text() == "whisper error: "@ + why@,
        WhisperSttError::CaptureInit(why).text() == "failed to initialize capture: "@ + why@,
        WhisperSttError::ThreadSpawn(why).text() == "failed to spawn thread: "@ + why@,
        WhisperSttError::AlreadyRecording.text() == "PTT is already active"@,
        WhisperSttError::NotRecording.text() == "PTT is not active"@,
{
}

} // verus!
