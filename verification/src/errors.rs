use vstd::prelude::*;

verus! {

/// The errors of the library; each carries the message that is shown to the user.
#[derive(Clone, Debug, PartialEq, Eq)]
pub enum ReeknoteError {
    Io(String),
    External(String),
    Parse(String),
    InvalidInput(String),
    Unsupported(String),
}

/// What an error says: its kind and its message.
pub ghost enum ErrorView {
    Io(Seq<char>),
    External(Seq<char>),
    Parse(Seq<char>),
    InvalidInput(Seq<char>),
    Unsupported(Seq<char>),
}

impl View for ReeknoteError {
    type V = ErrorView;

    open spec fn view(&self) -> ErrorView {
        match self {
            ReeknoteError::Io(m) => ErrorView::Io(m@),
            ReeknoteError::External(m) => ErrorView::External(m@),
            ReeknoteError::Parse(m) => ErrorView::Parse(m@),
            ReeknoteError::InvalidInput(m) => ErrorView::InvalidInput(m@),
            ReeknoteError::Unsupported(m) => ErrorView::Unsupported(m@),
        }
    }
}

/// `res` is the text outcome `r`.
pub open spec fn text_outcome(res: Result<String, ReeknoteError>, r: Result<Seq<char>, ErrorView>) -> bool {
    match (res, r) {
        (Ok(t), Ok(x)) => t@ == x,
        (Err(e), Err(x)) => e@ == x,
        _ => false,
    }
}

impl ReeknoteError {
    pub open spec fn message_spec(&self) -> Seq<char> {
        match self {
            ReeknoteError::Io(m) => m@,
            ReeknoteError::External(m) => m@,
            ReeknoteError::Parse(m) => m@,
            ReeknoteError::InvalidInput(m) => m@,
            ReeknoteError::Unsupported(m) => m@,
        }
    }

    /// The text that the error displays.
    pub fn message(&self) -> (res: String)
        ensures
            res@ == self.message_spec(),
    {
        match self {
            ReeknoteError::Io(m) => m.clone(),
            ReeknoteError::External(m) => m.clone(),
            ReeknoteError::Parse(m) => m.clone(),
            ReeknoteError::InvalidInput(m) => m.clone(),
            ReeknoteError::Unsupported(m) => m.clone(),
        }
    }
}

/// `res` failed with invalid input, and the message `msg`.
pub open spec fn fails_invalid<T>(res: Result<T, ReeknoteError>, msg: Seq<char>) -> bool {
    res matches Err(ReeknoteError::InvalidInput(m)) && m@ == msg
}

/// `res` failed with a parse error, and the message `msg`.
pub open spec fn fails_parse<T>(res: Result<T, ReeknoteError>, msg: Seq<char>) -> bool {
    res matches Err(ReeknoteError::Parse(m)) && m@ == msg
}

/// An error whose message is the given text.
pub fn invalid_input(message: &str) -> (e: ReeknoteError)
    ensures
        e matches ReeknoteError::InvalidInput(m) && m@ == message@,
{
    ReeknoteError::InvalidInput(message.to_string())
}

} // verus!
