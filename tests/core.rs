use axum_project::auth::mw_require_auth;
use axum_project::controller::ModelController;
use axum_project::hello::{hello2_html, hello_html};
use axum_project::model::TicketStore;
use axum_project::response::{main_response_mapper, ClientError};
use axum_project::token::AUTH_TOKEN;
use axum_project::{Error, Token};

fn token(user_id: u64, expiration: &str, signature: &str) -> Token {
    Token { user_id, expiration: expiration.to_string(), signature: signature.to_string() }
}

#[test]
fn parse_reads_user_id() {
    let t = Token::parse("user-12.exp1.sig1").unwrap();
    assert_eq!(t.user_id, 12);
    assert_eq!(t.expiration, "exp1");
    assert_eq!(t.signature, "sig1");
}

#[test]
fn parse_rejects_malformed() {
    for raw in ["junk", "user-abc.e.s", "", "user-.e.s", "user-1.e", "user-1..s", "user-1.e.",
        "user-1.e.s.t", "usr-1.e.s", "user-18446744073709551616.e.s"] {
        assert_eq!(Token::parse(raw).unwrap_err(), Error::AuthFailTokenWrongFormat, "{raw}");
    }
}

#[test]
fn parse_accepts_largest_id_and_leading_zeros() {
    assert_eq!(Token::parse("user-18446744073709551615.e.s").unwrap().user_id, u64::MAX);
    assert_eq!(Token::parse("user-007.e.s").unwrap().user_id, 7);
}

#[test]
fn serialize_writes_wire_format() {
    assert_eq!(token(0, "e", "s").serialize(), "user-0.e.s");
    assert_eq!(token(1, "exp", "sign").serialize(), "user-1.exp.sign");
    assert_eq!(token(u64::MAX, "x", "y").serialize(), "user-18446744073709551615.x.y");
}

#[test]
fn round_trip() {
    for t in [token(0, "a", "b"), token(12, "exp1", "sig1"), token(9876543210, "2024-01-01", "xyz")] {
        let back = Token::parse(&t.serialize()).unwrap();
        assert_eq!(back.user_id, t.user_id);
        assert_eq!(back.expiration, t.expiration);
        assert_eq!(back.signature, t.signature);
    }
}

#[test]
fn guard_without_cookie() {
    assert_eq!(mw_require_auth(None).unwrap_err(), Error::AuthFailNoAuthTokenCookie);
}

#[test]
fn guard_with_valid_cookie() {
    assert_eq!(mw_require_auth(Some("user-5.x.y")).unwrap().user_id, 5);
}

#[test]
fn guard_with_malformed_cookie() {
    assert_eq!(mw_require_auth(Some("user-x.y.z")).unwrap_err(), Error::AuthFailTokenWrongFormat);
}

#[test]
fn cookie_name() {
    assert_eq!(AUTH_TOKEN, "auth-token");
}

#[test]
fn store_create_list_delete() {
    let mut store = TicketStore::new();
    let a = store.create_ticket("A".to_string());
    let b = store.create_ticket("B".to_string());
    assert_eq!(a.id, 0);
    assert!(a.id < b.id);
    let all = store.list_tickets();
    assert_eq!(all.len(), 2);
    assert_eq!((all[0].id, all[0].title.as_str()), (a.id, "A"));
    assert_eq!((all[1].id, all[1].title.as_str()), (b.id, "B"));
    let removed = store.delete_ticket(a.id).unwrap();
    assert_eq!((removed.id, removed.title.as_str()), (a.id, "A"));
    let rest = store.list_tickets();
    assert_eq!(rest.len(), 1);
    assert_eq!(rest[0].id, b.id);
    assert_eq!(store.delete_ticket(a.id).unwrap_err(), Error::TicketDeleteFailIdNotFound { id: a.id });
}

#[test]
fn store_never_reuses_ids() {
    let mut store = TicketStore::new();
    let a = store.create_ticket("A".to_string());
    store.delete_ticket(a.id).unwrap();
    let b = store.create_ticket("B".to_string());
    assert_eq!(b.id, 1);
}

#[test]
fn controller_many_creates() {
    let mc = ModelController::new();
    let n: u64 = 50;
    let handles: Vec<ModelController> = (0..n).map(|_| mc.clone()).collect();
    let mut ids: Vec<u64> = handles
        .iter()
        .enumerate()
        .map(|(k, h)| h.create_ticket(format!("T{k}")).id)
        .collect();
    ids.sort();
    ids.dedup();
    assert_eq!(ids.len() as u64, n);
    assert_eq!(mc.list_tickets().len() as u64, n);
    assert!(mc.delete_ticket(n + 10).is_err());
    assert_eq!(mc.delete_ticket(3).unwrap().id, 3);
    assert_eq!(mc.list_tickets().len() as u64, n - 1);
}

#[test]
fn response_mapping() {
    let f = main_response_mapper(Some(Error::AuthFailNoAuthTokenCookie)).unwrap();
    assert_eq!((f.status, f.client_error), (401, ClientError::NoAuth));
    let f = main_response_mapper(Some(Error::AuthFailTokenWrongFormat)).unwrap();
    assert_eq!(f.status, 401);
    let f = main_response_mapper(Some(Error::TicketDeleteFailIdNotFound { id: 9 })).unwrap();
    assert_eq!((f.status, f.client_error), (404, ClientError::InvalidParams));
    assert_eq!(ClientError::NoAuth.as_str(), "NO_AUTH");
    assert_eq!(ClientError::InvalidParams.as_str(), "INVALID_PARAMS");
    assert!(main_response_mapper(None).is_none());
}

#[test]
fn end_to_end_requests() {
    let mut store = TicketStore::new();
    // Unauthenticated create: rejected with a 401, nothing stored.
    let err = mw_require_auth(None).unwrap_err();
    assert_eq!(main_response_mapper(Some(err)).unwrap().status, 401);
    assert!(store.list_tickets().is_empty());
    // Authenticated create.
    let cookie = token(1, "exp", "sign").serialize();
    assert!(mw_require_auth(Some(cookie.as_str())).is_ok());
    let t = store.create_ticket("T".to_string());
    assert_eq!(t.title, "T");
    // Delete of an unknown id: 404, state unchanged.
    let err = store.delete_ticket(t.id + 100).unwrap_err();
    assert_eq!(main_response_mapper(Some(err)).unwrap().status, 404);
    let all = store.list_tickets();
    assert_eq!(all.len(), 1);
    assert_eq!((all[0].id, all[0].title.as_str()), (t.id, "T"));
}

#[test]
fn hello_pages() {
    assert_eq!(hello_html(Some("John")), "<h1>Hello <strong>John</strong></h1>");
    assert_eq!(hello_html(None), "<h1>Hello <strong>world</strong></h1>");
    assert_eq!(hello2_html("Mike"), "Hello2 <strong>Mike</strong>");
}
