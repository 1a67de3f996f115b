//! The error type shared by all modules.
use vstd::prelude::*;
use vstd::string::*;

verus! {

/// An error, as the message that describes it.
#[derive(Debug, PartialEq, Eq)]
pub struct Error {
    pub message: String,
}

impl View for Error {
    type V = Seq<char>;

    open spec fn view(&self) -> Seq<char> {
        self.message@
    }
}

impl Error {
    /// An error with this message.
    pub fn new(message: &str) -> (r: Error)
        ensures
            r@ == message@,
    {
        Error { message: message.to_owned() }
    }

    /// An error whose message is `what` followed by `detail`.
    pub fn about(what: &str, detail: &str) -> (r: Error)
        ensures
            r@ == what@ + detail@,
    {
        let mut message = String::new();
        message.append(what);
        message.append(detail);
        assert(message@ =~= what@ + detail@);
        Error { message }
    }

    /// An error at a path: its message is `what`, the path, a colon and the
    /// reason.
    pub fn at(what: &str, path: &str, reason: &str) -> (r: Error)
        ensures
            r@ == at_path(what@, path@, reason@),
    {
        let mut message = String::new();
        message.append(what);
        message.append(path);
        message.append(": ");
        message.append(reason);
        assert(message@ =~= at_path(what@, path@, reason@));
        Error { message }
    }
}

/// The message that something went wrong at a path, for this reason.
pub open spec fn at_path(what: Seq<char>, path: Seq<char>, reason: Seq<char>) -> Seq<char> {
    what + path + ": "@ + reason
}

/// A result in the model.
pub open spec fn outcome<T: View>(r: Result<T, Error>) -> Result<T::V, Seq<char>> {
    match r {
        Ok(v) => Ok(v@),
        Err(e) => Err(e@),
    }
}

} // verus!
