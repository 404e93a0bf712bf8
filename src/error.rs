use vstd::prelude::*;

verus! {

/// Why an export failed; each variant carries the underlying cause's message.
#[derive(Debug)]
pub enum ExportError {
    /// Creating or writing the output file failed.
    Io(String),
    /// Projecting, casting or serialising the data failed.
    Encode(String),
    /// The delivery capability reported a failure.
    Delivery(String),
}

impl ExportError {
    /// The underlying cause's message.
    pub fn message(&self) -> (r: &String)
        ensures
            r@ == match self {
                ExportError::Io(m) => m@,
                ExportError::Encode(m) => m@,
                ExportError::Delivery(m) => m@,
            },
    {
        match self {
            ExportError::Io(m) => m,
            ExportError::Encode(m) => m,
            ExportError::Delivery(m) => m,
        }
    }
}

/// The outcome of creating or writing the output file: a failure becomes an
/// `Io` error that keeps its message.
pub fn file_outcome(step: Result<(), String>) -> (r: Result<(), ExportError>)
    ensures
        r is Ok <==> step is Ok,
        step is Err ==> (r matches Err(ExportError::Io(m)) && m@ == step->Err_0@),
{
    match step {
        Ok(()) => Ok(()),
        Err(m) => Err(ExportError::Io(m)),
    }
}

/// The outcome of serialising the frame: a failure becomes an `Encode` error
/// that keeps its message, and the bytes are handed on otherwise.
pub fn encode_outcome(step: Result<Vec<u8>, String>) -> (r: Result<Vec<u8>, ExportError>)
    ensures
        r is Ok <==> step is Ok,
        step is Ok ==> r->Ok_0@ == step->Ok_0@,
        step is Err ==> (r matches Err(ExportError::Encode(m)) && m@ == step->Err_0@),
{
    match step {
        Ok(b) => Ok(b),
        Err(m) => Err(ExportError::Encode(m)),
    }
}

/// The outcome reported by the delivery capability: a failure becomes a
/// `Delivery` error that keeps its message.
pub fn delivery_outcome(step: Result<(), String>) -> (r: Result<(), ExportError>)
    ensures
        r is Ok <==> step is Ok,
        step is Err ==> (r matches Err(ExportError::Delivery(m)) && m@ == step->Err_0@),
{
    match step {
        Ok(()) => Ok(()),
        Err(m) => Err(ExportError::Delivery(m)),
    }
}

} // verus!
