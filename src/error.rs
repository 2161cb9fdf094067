use vstd::prelude::*;

verus! {

/// Declares std's `io::Error` so that a failed read can be carried in
/// `Error::Io`; nothing is assumed of its contents.
#[verifier::external_type_specification]
#[verifier::external_body]
pub struct ExIoError(std::io::Error);

/// The four kinds of failure of a run; each one ends the run.
#[derive(Debug)]
pub enum Error {
    /// Reading the script failed.
    Io(std::io::Error),
    /// A line of the script is not a valid command.
    Scan,
    /// A command stands where the grammar does not allow it.
    Parse,
    /// Interpretation of the stages failed.
    Runtime,
}

impl Error {
    /// A short name of the error kind.
    pub fn kind_name(&self) -> (r: &'static str)
        ensures
            self is Scan ==> r@ == "ScanError"@,
            self is Parse ==> r@ == "ParseError"@,
            self is Runtime ==> r@ == "RuntimeError"@,
            self is Io ==> r@ == "IoError"@,
    {
        proof {
            reveal_strlit("ScanError");
            reveal_strlit("ParseError");
            reveal_strlit("RuntimeError");
            reveal_strlit("IoError");
        }
        match self {
            Error::Io(_) => "IoError",
            Error::Scan => "ScanError",
            Error::Parse => "ParseError",
            Error::Runtime => "RuntimeError",
        }
    }
}

} // verus!
