use vstd::prelude::*;

verus! {

/// Failure taxonomy of the pipeline.
///
/// Every stage failure is fatal to the whole run; errors bubble to the
/// caller unchanged.  The two benign drain/flush signals a codec
/// reports at the end of a decode or encode loop are control flow, not
/// errors, and have no variant here.
#[derive(Clone, Copy, PartialEq, Eq, Structural, Debug)]
pub enum SplitError {
    /// The input container could not be opened or understood.
    Format,
    /// The container holds no audio stream.
    NoAudioStream,
    /// The input path has no extension to reuse for the output files.
    MissingExtension,
    /// A decode or encode call failed with a real error, one other
    /// than the two benign drain/flush signals.
    Codec,
    /// Building or running a sample-format converter failed.
    Resample,
    /// Model lookup, binding resolution or a model run failed, or a
    /// model output had the wrong shape.
    Model,
    /// No encoder is registered for the input stream's codec id.
    EncoderNotFound,
    /// Writing the output container failed.
    Encode,
    /// A filesystem operation outside the codec engine failed.
    Io,
}

impl SplitError {
    /// Short label naming the failed stage, for the error chain the
    /// caller prints.
    pub fn label(&self) -> (r: &'static str)
        ensures
            r@ == match self {
                SplitError::Format => "open input failed"@,
                SplitError::NoAudioStream => "no audio stream in input"@,
                SplitError::MissingExtension => "input path has no extension"@,
                SplitError::Codec => "codec call failed"@,
                SplitError::Resample => "resample failed"@,
                SplitError::Model => "model run failed"@,
                SplitError::EncoderNotFound => "encoder not found"@,
                SplitError::Encode => "write output failed"@,
                SplitError::Io => "file operation failed"@,
            },
    {
        match self {
            SplitError::Format => "open input failed",
            SplitError::NoAudioStream => "no audio stream in input",
            SplitError::MissingExtension => "input path has no extension",
            SplitError::Codec => "codec call failed",
            SplitError::Resample => "resample failed",
            SplitError::Model => "model run failed",
            SplitError::EncoderNotFound => "encoder not found",
            SplitError::Encode => "write output failed",
            SplitError::Io => "file operation failed",
        }
    }
}

} // verus!
