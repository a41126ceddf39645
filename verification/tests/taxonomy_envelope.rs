use wirerope_core::envelope::Paginate;
use wirerope_core::envelope::PaginateQuery;
use wirerope_core::envelope::RespRet;
use wirerope_core::envelope::RespVO;
use wirerope_core::error::DError;
use wirerope_core::error::LogicErr;
use wirerope_core::error::unknown_error_resp;

#[test]
fn domain_codes_are_stable() {
    assert_eq!(LogicErr::AlreadyExist("u".to_string()).code(), 1001);
    assert_eq!(LogicErr::InsertFailed("u".to_string()).code(), 1002);
    assert_eq!(LogicErr::UpdateFailed("u".to_string()).code(), 1003);
    assert_eq!(LogicErr::NotFound("u".to_string()).code(), 1004);
    assert_eq!(LogicErr::ConnectFailed("u".to_string()).code(), 1005);
    assert_eq!(LogicErr::ParamsError("u".to_string()).code(), 1006);
    assert_eq!(LogicErr::NeedUpdate("u".to_string()).code(), 1007);
    assert_eq!(LogicErr::RpcCallFailed("u".to_string()).code(), 1008);
}

#[test]
fn domain_codes_do_not_change_between_calls() {
    let e = LogicErr::NotFound("row".to_string());
    let first = e.code();
    let second = e.code();
    assert_eq!(first, second);
    assert_eq!(first, 1004);
}

#[test]
fn infra_codes_are_stable() {
    assert_eq!(DError::Db("x".to_string()).err_code(), 101);
    assert_eq!(DError::SerializeError("x".to_string()).err_code(), 102);
    assert_eq!(DError::RedisError("x".to_string()).err_code(), 103);
    assert_eq!(DError::Custom(LogicErr::ParamsError("x".to_string())).err_code(), 1006);
}

#[test]
fn messages_render_with_kind_tags() {
    assert_eq!(
        LogicErr::AlreadyExist("user".to_string()).message(),
        "[AlreadyExist]user already exist!"
    );
    assert_eq!(
        LogicErr::ConnectFailed("mysql://db".to_string()).message(),
        "[ConnectFailed]mysql://db db connect failed!"
    );
    assert_eq!(LogicErr::NeedUpdate("x".to_string()).message(), "[NeedUpdate]need update!");
    assert_eq!(LogicErr::RpcCallFailed("boom".to_string()).message(), "[Rpc]rpc call failed!boom");
    assert_eq!(DError::Db("dup key".to_string()).message(), "[db error], dup key");
    assert_eq!(DError::SerializeError("eof".to_string()).message(), "[serialize to json error]:eof");
    assert_eq!(DError::RedisError("conn".to_string()).message(), "[redis error]:conn");
}

#[test]
fn messages_are_never_empty() {
    let samples = vec![
        DError::Db(String::new()),
        DError::SerializeError(String::new()),
        DError::RedisError(String::new()),
        DError::Custom(LogicErr::NeedUpdate(String::new())),
        DError::Custom(LogicErr::NotFound(String::new())),
    ];
    for e in &samples {
        assert!(!e.message().is_empty());
    }
}

#[test]
fn resp_err_carries_code_and_message() {
    let e = DError::Custom(LogicErr::NotFound("row".to_string()));
    let r = e.resp_err();
    assert_eq!(r.code, 1004);
    assert_eq!(r.msg, "[NotFound]row not found!");
}

#[test]
fn unknown_error_is_the_catch_all() {
    let r = unknown_error_resp();
    assert_eq!(r.code, 9999);
    assert_eq!(r.msg, "unknown error");
}

#[test]
fn success_envelope_has_zero_code_and_empty_message() {
    let v: RespVO<i32> = RespVO::success(41);
    assert_eq!(v.code, 0);
    assert_eq!(v.msg, "");
    assert_eq!(v.data, Some(41));

    let s = "payload".to_string();
    let w: RespVO<String> = RespVO::from(&s);
    assert_eq!(w.code, 0);
    assert_eq!(w.msg, "");
    assert_eq!(w.data, Some("payload".to_string()));
}

#[test]
fn success_body_with_explicit_message() {
    let r = RespRet::with_msg("created");
    assert_eq!(r.code, 0);
    assert_eq!(r.msg, "created");
}

#[test]
fn failure_envelope_has_no_data_and_nonzero_code() {
    let e = DError::Db("broken".to_string());
    let v: RespVO<String> = RespVO::failure(&e);
    assert_eq!(v.code, 101);
    assert!(v.code != 0);
    assert!(v.data.is_none());
    assert_eq!(v.msg, "[db error], broken");

    let c = DError::Custom(LogicErr::AlreadyExist("k".to_string()));
    let w: RespVO<i32> = RespVO::failure(&c);
    assert_eq!(w.code, 1001);
    assert!(w.data.is_none());
}

#[test]
fn resp_ret_constructors() {
    let a = RespRet::new(7, "seven");
    assert_eq!(a.code, 7);
    assert_eq!(a.msg, "seven");

    let b = RespRet::with_error(&LogicErr::ParamsError("q".to_string()));
    assert_eq!(b.code, 1006);
    assert_eq!(b.msg, "[ParamsError]q params deserialize error!");

    let d = RespRet::default();
    assert_eq!(d.code, 0);
    assert_eq!(d.msg, "suc");
}

#[test]
fn paginate_holds_its_fields() {
    let p = Paginate { page: 2, cnt: 50 };
    let q = PaginateQuery { paginate: p };
    assert_eq!(q.paginate.page, 2);
    assert_eq!(q.paginate.cnt, 50);
}
