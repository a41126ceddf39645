//! The closed error taxonomy: domain errors raised by business logic and
//! infrastructure errors wrapping a lower-layer failure description, each
//! with a stable numeric code and a rendered message.

use vstd::prelude::*;
use vstd::string::StringExecFns;

verus! {

/// Domain errors raised inside business logic; each variant carries a
/// human-readable subject string.
#[derive(Debug)]
pub enum LogicErr {
    AlreadyExist(String),
    InsertFailed(String),
    UpdateFailed(String),
    NotFound(String),
    ConnectFailed(String),
    ParamsError(String),
    NeedUpdate(String),
    RpcCallFailed(String),
}

/// The stable code of a domain error; part of the external contract,
/// clients key behavior off these values.
pub open spec fn logic_code_of(e: LogicErr) -> i32 {
    match e {
        LogicErr::AlreadyExist(_) => 1001,
        LogicErr::InsertFailed(_) => 1002,
        LogicErr::UpdateFailed(_) => 1003,
        LogicErr::NotFound(_) => 1004,
        LogicErr::ConnectFailed(_) => 1005,
        LogicErr::ParamsError(_) => 1006,
        LogicErr::NeedUpdate(_) => 1007,
        LogicErr::RpcCallFailed(_) => 1008,
    }
}

/// The rendered message of a domain error.
pub open spec fn logic_message_of(e: LogicErr) -> Seq<char> {
    match e {
        LogicErr::AlreadyExist(s) => "[AlreadyExist]"@ + s@ + " already exist!"@,
        LogicErr::InsertFailed(s) => "[InsertFailed]"@ + s@ + " insert failed!"@,
        LogicErr::UpdateFailed(s) => "[UpdateFailed]"@ + s@ + " update failed!"@,
        LogicErr::NotFound(s) => "[NotFound]"@ + s@ + " not found!"@,
        LogicErr::ConnectFailed(s) => "[ConnectFailed]"@ + s@ + " db connect failed!"@,
        LogicErr::ParamsError(s) => "[ParamsError]"@ + s@ + " params deserialize error!"@,
        LogicErr::NeedUpdate(_) => "[NeedUpdate]need update!"@,
        LogicErr::RpcCallFailed(s) => "[Rpc]rpc call failed!"@ + s@,
    }
}

impl LogicErr {
    /// The stable numeric code of this error.
    pub fn code(&self) -> (r: i32)
        ensures
            r == logic_code_of(*self),
    {
        match self {
            LogicErr::AlreadyExist(_) => 1001,
            LogicErr::InsertFailed(_) => 1002,
            LogicErr::UpdateFailed(_) => 1003,
            LogicErr::NotFound(_) => 1004,
            LogicErr::ConnectFailed(_) => 1005,
            LogicErr::ParamsError(_) => 1006,
            LogicErr::NeedUpdate(_) => 1007,
            LogicErr::RpcCallFailed(_) => 1008,
        }
    }

    /// The rendered human-readable message of this error.
    pub fn message(&self) -> (r: String)
        ensures
            r@ == logic_message_of(*self),
    {
        match self {
            LogicErr::AlreadyExist(s) => {
                let mut m = String::from_str("[AlreadyExist]");
                m.append(s.as_str());
                m.append(" already exist!");
                m
            },
            LogicErr::InsertFailed(s) => {
                let mut m = String::from_str("[InsertFailed]");
                m.append(s.as_str());
                m.append(" insert failed!");
                m
            },
            LogicErr::UpdateFailed(s) => {
                let mut m = String::from_str("[UpdateFailed]");
                m.append(s.as_str());
                m.append(" update failed!");
                m
            },
            LogicErr::NotFound(s) => {
                let mut m = String::from_str("[NotFound]");
                m.append(s.as_str());
                m.append(" not found!");
                m
            },
            LogicErr::ConnectFailed(s) => {
                let mut m = String::from_str("[ConnectFailed]");
                m.append(s.as_str());
                m.append(" db connect failed!");
                m
            },
            LogicErr::ParamsError(s) => {
                let mut m = String::from_str("[ParamsError]");
                m.append(s.as_str());
                m.append(" params deserialize error!");
                m
            },
            LogicErr::NeedUpdate(_) => String::from_str("[NeedUpdate]need update!"),
            LogicErr::RpcCallFailed(s) => {
                let mut m = String::from_str("[Rpc]rpc call failed!");
                m.append(s.as_str());
                m
            },
        }
    }
}

/// Every failure a request handler can surface: infrastructure errors wrap
/// the description of a lower-layer failure (data store, serialization,
/// cache); `Custom` carries an already-classified domain error.
#[derive(Debug)]
pub enum DError {
    Db(String),
    SerializeError(String),
    RedisError(String),
    Custom(LogicErr),
}

/// The stable code of any error value; infrastructure errors take the
/// low range, domain errors delegate to `logic_code_of`.
pub open spec fn err_code_of(e: DError) -> i32 {
    match e {
        DError::Db(_) => 101,
        DError::SerializeError(_) => 102,
        DError::RedisError(_) => 103,
        DError::Custom(v) => logic_code_of(v),
    }
}

/// The rendered message of any error value.
pub open spec fn err_message_of(e: DError) -> Seq<char> {
    match e {
        DError::Db(s) => "[db error], "@ + s@,
        DError::SerializeError(s) => "[serialize to json error]:"@ + s@,
        DError::RedisError(s) => "[redis error]:"@ + s@,
        DError::Custom(v) => logic_message_of(v),
    }
}

impl DError {
    /// The stable numeric code of this error value.
    pub fn err_code(&self) -> (r: i32)
        ensures
            r == err_code_of(*self),
    {
        match self {
            DError::Db(_) => 101,
            DError::SerializeError(_) => 102,
            DError::RedisError(_) => 103,
            DError::Custom(v) => v.code(),
        }
    }

    /// The rendered human-readable message of this error value.
    pub fn message(&self) -> (r: String)
        ensures
            r@ == err_message_of(*self),
    {
        match self {
            DError::Db(s) => {
                let mut m = String::from_str("[db error], ");
                m.append(s.as_str());
                m
            },
            DError::SerializeError(s) => {
                let mut m = String::from_str("[serialize to json error]:");
                m.append(s.as_str());
                m
            },
            DError::RedisError(s) => {
                let mut m = String::from_str("[redis error]:");
                m.append(s.as_str());
                m
            },
            DError::Custom(v) => v.message(),
        }
    }

    /// The wire-level error body rendered from this error value: its stable
    /// code and its message.
    pub fn resp_err(&self) -> (r: RespErr)
        ensures
            r.code == err_code_of(*self),
            r.msg@ == err_message_of(*self),
    {
        RespErr { code: self.err_code(), msg: self.message() }
    }
}

/// The error body of the wire envelope: a stable code and a message.
pub struct RespErr {
    pub code: i32,
    pub msg: String,
}

/// The catch-all body surfaced when a failure escapes classification.
/// Must never be reached while the taxonomy stays total.
pub fn unknown_error_resp() -> (r: RespErr)
    ensures
        r.code == 9999,
        r.msg@ == "unknown error"@,
{
    RespErr { code: 9999, msg: String::from_str("unknown error") }
}

/// Classification is total and stable: every error value maps to exactly one
/// code, the code identifies the variant family, and no value falls through
/// to the catch-all or collides with the success code.
pub proof fn lemma_code_total(e: DError)
    ensures
        e matches DError::Db(_) <==> err_code_of(e) == 101,
        e matches DError::SerializeError(_) <==> err_code_of(e) == 102,
        e matches DError::RedisError(_) <==> err_code_of(e) == 103,
        e matches DError::Custom(_) <==> 1001 <= err_code_of(e) <= 1008,
        err_code_of(e) != 0,
        err_code_of(e) != 9999,
{
}

/// A failure envelope never carries an empty message: every error value
/// renders with its bracketed kind tag in front.
pub proof fn lemma_err_message_nonempty(e: DError)
    ensures
        err_message_of(e).len() > 0,
{
    reveal_strlit("[db error], ");
    reveal_strlit("[serialize to json error]:");
    reveal_strlit("[redis error]:");
    reveal_strlit("[AlreadyExist]");
    reveal_strlit("[InsertFailed]");
    reveal_strlit("[UpdateFailed]");
    reveal_strlit("[NotFound]");
    reveal_strlit("[ConnectFailed]");
    reveal_strlit("[ParamsError]");
    reveal_strlit("[NeedUpdate]need update!");
    reveal_strlit("[Rpc]rpc call failed!");
}

/// Each domain error variant maps to exactly one stable code: two domain
/// errors share a code only when they are the same variant.
pub proof fn lemma_logic_code_injective(a: LogicErr, b: LogicErr)
    ensures
        logic_code_of(a) == logic_code_of(b) ==> (a matches LogicErr::AlreadyExist(_)
            <==> b matches LogicErr::AlreadyExist(_)),
        logic_code_of(a) == logic_code_of(b) ==> (a matches LogicErr::NotFound(_)
            <==> b matches LogicErr::NotFound(_)),
        logic_code_of(a) == logic_code_of(b) ==> (a matches LogicErr::ConnectFailed(_)
            <==> b matches LogicErr::ConnectFailed(_)),
{
}

} // verus!
