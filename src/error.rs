use vstd::prelude::*;

verus! {

/// Errors that the serving layer reports to a client.
#[derive(Clone, Debug)]
pub enum Error {
    SessionBusy,
    SessionDuplicate,
    SessionNotFound,
    /// The request body was not valid JSON; holds the parser's message.
    WrongJson(String),
    /// The requested dialog position is past the session's current one.
    InvalidDialogPos(usize),
}

/// The fields of the JSON body of an error response.
#[derive(Clone, Debug)]
pub struct ErrorBody {
    pub status: u16,
    pub code: u16,
    pub message: String,
    /// Present for a dialog position out of range.
    pub current_dialog_pos: Option<usize>,
}

impl Error {
    /// HTTP status code of the error.
    pub open spec fn status_spec(&self) -> u16 {
        match self {
            Error::SessionNotFound => 404,
            Error::SessionBusy => 406,
            Error::SessionDuplicate => 409,
            Error::WrongJson(_) => 400,
            Error::InvalidDialogPos(_) => 416,
        }
    }

    /// Human-readable message of the error.
    pub open spec fn message_spec(&self) -> Seq<char> {
        match self {
            Error::SessionNotFound => "Session not found"@,
            Error::SessionBusy => "Session is busy"@,
            Error::SessionDuplicate => "Session ID already exists"@,
            Error::WrongJson(e) => e@,
            Error::InvalidDialogPos(_) => "Dialog position out of range"@,
        }
    }

    pub fn status(&self) -> (r: u16)
        ensures
            r == self.status_spec(),
    {
        match self {
            Error::SessionNotFound => 404,
            Error::SessionBusy => 406,
            Error::SessionDuplicate => 409,
            Error::WrongJson(_) => 400,
            Error::InvalidDialogPos(_) => 416,
        }
    }

    /// The response body: status, code zero, message, and for a dialog
    /// position out of range the session's current position.
    pub fn body(&self) -> (r: ErrorBody)
        ensures
            r.status == self.status_spec(),
            r.code == 0,
            r.message@ == self.message_spec(),
            r.current_dialog_pos == (match self {
                Error::InvalidDialogPos(p) => Some(*p),
                _ => None::<usize>,
            }),
    {
        let status = self.status();
        match self {
            Error::SessionNotFound => ErrorBody { status, code: 0, message: "Session not found".to_owned(), current_dialog_pos: None },
            Error::SessionBusy => ErrorBody { status, code: 0, message: "Session is busy".to_owned(), current_dialog_pos: None },
            Error::SessionDuplicate => ErrorBody { status, code: 0, message: "Session ID already exists".to_owned(), current_dialog_pos: None },
            Error::WrongJson(e) => ErrorBody { status, code: 0, message: e.clone(), current_dialog_pos: None },
            Error::InvalidDialogPos(p) => ErrorBody {
                status,
                code: 0,
                message: "Dialog position out of range".to_owned(),
                current_dialog_pos: Some(*p),
            },
        }
    }
}

/// Reply to a successful fork of a session.
pub struct ForkSuccess;

/// Reply to a successful drop of a session.
pub struct DropSuccess;

impl ForkSuccess {
    pub fn msg(&self) -> (r: &'static str)
        ensures
            r@ == "fork success"@,
    {
        "fork success"
    }
}

impl DropSuccess {
    pub fn msg(&self) -> (r: &'static str)
        ensures
            r@ == "drop success"@,
    {
        "drop success"
    }
}

} // verus!
