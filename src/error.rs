use vstd::prelude::*;

verus! {

/// Why an analysis or an effect stopped.
#[derive(Clone, Debug, PartialEq, Eq)]
pub enum Error {
    /// A loudness block lies above the histogram's ceiling; the input
    /// should be normalized first.
    Denormalized,
    /// A frame does not hold one sample per channel.
    InvalidFrame,
    /// A setting violates its precondition.
    InvalidArgument(String),
}

impl Error {
    /// Text for reporting the error to a user.
    pub fn message(&self) -> (r: String)
        ensures
            self is Denormalized ==> r@ == "Block value exceeds full-scale. Consider normalizing input."@,
            self is InvalidFrame ==> r@ == "Frame is invalid amount of samples."@,
            self is InvalidArgument ==> r@ == self->InvalidArgument_0@,
    {
        match self {
            Error::Denormalized => "Block value exceeds full-scale. Consider normalizing input.".to_owned(),
            Error::InvalidFrame => "Frame is invalid amount of samples.".to_owned(),
            Error::InvalidArgument(msg) => msg.clone(),
        }
    }
}

/// Checks that a frame holds one sample per channel.
pub fn check_frame(frame_len: usize, channels: usize) -> (r: Result<(), Error>)
    ensures
        r is Ok <==> frame_len == channels,
        r is Err ==> r == Err::<(), Error>(Error::InvalidFrame),
{
    if frame_len != channels {
        Err(Error::InvalidFrame)
    } else {
        Ok(())
    }
}

} // verus!
