use vstd::prelude::*;

verus! {

/// An error that is nothing but its message.
#[derive(Debug)]
pub struct StrError {
    pub err_msg: String,
}

impl StrError {
    pub fn new(err_msg: String) -> (e: Self)
        ensures
            e.err_msg == err_msg,
    {
        StrError { err_msg }
    }

    /// The message, as the error prints.
    pub fn to_string(&self) -> (s: String)
        ensures
            s@ == self.err_msg@,
    {
        self.err_msg.clone()
    }
}

/// What can go wrong while a request body is read, enriched or written.
#[derive(Debug)]
pub enum ProcError {
    /// A finding of the proxy itself; its message names the cause.
    Str(StrError),
    /// A failure that the XML library reported.
    Xml(quick_xml::Error),
    /// A failure to write to the buffer of the rewritten body.
    Io(std::io::Error),
}

impl ProcError {
    /// The error is the proxy's own and carries `message`.
    pub open spec fn says(self, message: Seq<char>) -> bool {
        self matches ProcError::Str(e) && e.err_msg@ == message
    }

    /// What the error says: the message of an error of the proxy's own, or
    /// the text of the error that the XML library or the buffer gave.
    pub fn to_string(&self) -> (text: String)
        ensures
            self matches ProcError::Str(e) ==> text@ == e.err_msg@,
    {
        match self {
            ProcError::Str(error) => error.to_string(),
            ProcError::Xml(error) => error.to_string(),
            ProcError::Io(error) => error.to_string(),
        }
    }

    /// An error of the proxy's own with `message` as its text.
    pub fn from_message(message: &str) -> (e: Self)
        ensures
            e.says(message@),
    {
        ProcError::Str(StrError::new(message.to_owned()))
    }
}

} // verus!
