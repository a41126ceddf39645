//! The wire-level response envelope: a stable code, a message and an
//! optional payload, constructed either from a success value or from an
//! error of the taxonomy.

use vstd::prelude::*;
use vstd::string::StringExecFns;

use crate::error::DError;
use crate::error::LogicErr;
use crate::error::err_code_of;
use crate::error::err_message_of;
use crate::error::logic_code_of;
use crate::error::logic_message_of;

verus! {

/// The code of a successful envelope.
pub const CODE_SUC: i32 = 0;

/// The payload-free envelope body: a code and a message.
#[derive(Clone, Debug)]
pub struct RespRet {
    pub code: i32,
    pub msg: String,
}

impl RespRet {
    /// A successful envelope body carrying an explicit success message.
    pub fn with_msg(msg: &str) -> (r: Self)
        ensures
            r.code == 0,
            r.msg@ == msg@,
    {
        Self { code: CODE_SUC, msg: String::from_str(msg) }
    }

    /// A failure envelope body carrying the error's stable code and message.
    pub fn with_error(err: &LogicErr) -> (r: Self)
        ensures
            r.code == logic_code_of(*err),
            r.msg@ == logic_message_of(*err),
    {
        Self { code: err.code(), msg: err.message() }
    }

    /// An envelope body with the given code and message.
    pub fn new(code: i32, msg: &str) -> (r: Self)
        ensures
            r.code == code,
            r.msg@ == msg@,
    {
        Self { code, msg: String::from_str(msg) }
    }
}

impl Default for RespRet {
    /// The default body: success code and the short success message.
    fn default() -> (r: Self)
        ensures
            r.code == 0,
            r.msg@ == "suc"@,
    {
        Self { code: CODE_SUC, msg: String::from_str("suc") }
    }
}

/// One page of a paged query: which page and how many entries per page.
#[derive(PartialEq, Eq, Structural, Clone, Copy, Debug)]
pub struct Paginate {
    pub page: u64,
    pub cnt: u64,
}

/// The paging part of a query string.
#[derive(PartialEq, Eq, Structural, Clone, Copy, Debug)]
pub struct PaginateQuery {
    pub paginate: Paginate,
}

/// The full envelope: `code`, `msg` and an optional payload. On the wire
/// the payload field is omitted entirely when absent.
#[derive(Clone, Debug)]
pub struct RespVO<T> {
    pub code: i32,
    pub msg: String,
    pub data: Option<T>,
}

impl<T> RespVO<T> {
    /// A successful envelope around a clone of the given payload: success
    /// code, empty message, payload present.
    pub fn from(arg: &T) -> (r: Self) where T: Clone
        ensures
            r.code == 0,
            r.msg@ == Seq::<char>::empty(),
            r.data matches Some(d) && cloned::<T>(*arg, d),
    {
        Self { code: CODE_SUC, msg: String::new(), data: Some(arg.clone()) }
    }

    /// A successful envelope that takes ownership of its payload: success
    /// code, empty message, exactly this payload.
    pub fn success(data: T) -> (r: Self)
        ensures
            r.code == 0,
            r.msg@ == Seq::<char>::empty(),
            r.data == Some(data),
    {
        Self { code: CODE_SUC, msg: String::new(), data: Some(data) }
    }

    /// A failure envelope: the error's stable code and message, no payload.
    pub fn failure(err: &DError) -> (r: Self)
        ensures
            r.code == err_code_of(*err),
            r.code != 0,
            r.msg@ == err_message_of(*err),
            r.data is None,
    {
        proof {
            crate::error::lemma_code_total(*err);
        }
        Self { code: err.err_code(), msg: err.message(), data: None }
    }
}

} // verus!
