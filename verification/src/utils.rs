//! The uniform success/data/error envelope in which every operation's
//! outcome is handed to the consumer.

use vstd::prelude::*;

verus! {

/// An operation outcome: a status marker (`ok` or `err`), the payload,
/// and an error description (empty on success).
pub struct Response<T> {
    status: String,
    data: T,
    err: String,
}

impl<T> Response<T> {
    /// The status marker.
    pub closed spec fn status_view(self) -> Seq<char> {
        self.status@
    }

    /// The payload.
    pub closed spec fn data_spec(self) -> T {
        self.data
    }

    /// The error description.
    pub closed spec fn err_view(self) -> Seq<char> {
        self.err@
    }

    /// Reads the status marker.
    pub fn status(&self) -> (r: &String)
        ensures
            r@ == self.status_view(),
    {
        &self.status
    }

    /// Reads the payload.
    pub fn data(&self) -> (r: &T)
        ensures
            *r == self.data_spec(),
    {
        &self.data
    }

    /// Reads the error description.
    pub fn err(&self) -> (r: &String)
        ensures
            r@ == self.err_view(),
    {
        &self.err
    }
}

/// Wraps `data` with `err`: the envelope is marked `ok` exactly when
/// `err` is empty.
pub fn create_res<T>(data: T, err: String) -> (r: Response<T>)
    ensures
        r.status_view() == if err@.len() == 0 {
            "ok"@
        } else {
            "err"@
        },
        r.data_spec() == data,
        r.err_view() == err@,
{
    let status = if err.as_str().is_empty() {
        "ok"
    } else {
        "err"
    };
    Response { status: String::from_str(status), data, err }
}

/// A successful envelope around `data`.
pub fn create_res_ok<T>(data: T) -> (r: Response<T>)
    ensures
        r.status_view() == "ok"@,
        r.data_spec() == data,
        r.err_view() == ""@,
{
    Response { status: String::from_str("ok"), data, err: String::from_str("") }
}

/// A failed envelope around an error description.
pub fn create_res_err(err: String) -> (r: Response<String>)
    ensures
        r.status_view() == "err"@,
        r.data_spec()@ == ""@,
        r.err_view() == err@,
{
    Response { status: String::from_str("err"), data: String::from_str(""), err }
}

} // verus!
