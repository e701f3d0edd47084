//! The directive store end to end: registration, lookup, listing,
//! deletion, quota and credential gating, and the documented scenarios.

use std::collections::HashSet;

use palladium::directive::{DirectiveACLAuth, ExpirySpec};
use palladium::errors::StoreError;
use palladium::mappings::{
    get_directive, get_directives, post_directive, redirect, GetDirectivesQueryParams,
    PostDirectiveRequest, PostDirectiveRequestAuth,
};
use palladium::server::Server;

const NOW: u64 = 1704067200;

fn basic_header(key: &str, secret: &str) -> String {
    format!("Basic {}", base64::encode(format!("{}:{}", key, secret)))
}

#[test]
fn claimed_ids_are_unique() {
    let srv = Server::new();
    let mut seen: HashSet<String> = HashSet::new();
    for _ in 0..100_000 {
        let id = srv.claim_id();
        assert_eq!(id.len(), 36);
        assert!(seen.insert(id), "a claimed identifier repeated");
    }
}

#[test]
fn register_without_id_generates_one() {
    let mut srv = Server::new();
    let id = srv
        .register(None, "https://example.com".to_string(), None, None, None, NOW)
        .unwrap();
    assert_eq!(id.len(), 36);
    let d = srv.read(&id, NOW).unwrap();
    assert_eq!(d.id, id);
    assert_eq!(d.url, "https://example.com");
    assert_eq!(d.acls.expire_at, None);
    assert_eq!(d.acls.calls.max, None);
    assert_eq!(d.acls.calls.curr, 0);
    assert!(d.acls.auth.is_none());
}

#[test]
fn register_rejects_empty_destination() {
    let mut srv = Server::new();
    let r = srv.register(Some("x".to_string()), String::new(), None, None, None, NOW);
    assert_eq!(r, Err(StoreError::Validation));
    assert_eq!(srv.read("x", NOW), Err(StoreError::NotFound));
}

#[test]
fn register_rejects_unparsable_expiry() {
    let mut srv = Server::new();
    let r = srv.register(
        Some("x".to_string()),
        "https://example.com".to_string(),
        Some(ExpirySpec::At("tomorrowish".to_string())),
        None,
        None,
        NOW,
    );
    assert_eq!(r, Err(StoreError::InvalidExpiryFormat));
    assert_eq!(srv.read("x", NOW), Err(StoreError::NotFound));
}

#[test]
fn register_overwrites_and_resets_quota() {
    let mut srv = Server::new();
    srv.register(
        Some("x".to_string()),
        "https://one.example".to_string(),
        None,
        Some(2),
        None,
        NOW,
    )
    .unwrap();
    assert_eq!(srv.redirect("x", &None, NOW), Ok("https://one.example".to_string()));
    assert_eq!(srv.read("x", NOW).unwrap().acls.calls.curr, 1);
    srv.register(
        Some("x".to_string()),
        "https://two.example".to_string(),
        None,
        Some(2),
        None,
        NOW,
    )
    .unwrap();
    let d = srv.read("x", NOW).unwrap();
    assert_eq!(d.url, "https://two.example");
    assert_eq!(d.acls.calls.curr, 0);
}

#[test]
fn read_absent_is_not_found() {
    let srv = Server::new();
    assert_eq!(srv.read("missing", NOW), Err(StoreError::NotFound));
}

#[test]
fn quota_allows_exactly_max_calls() {
    let mut srv = Server::new();
    srv.register(
        Some("q".to_string()),
        "https://example.com".to_string(),
        None,
        Some(3),
        None,
        NOW,
    )
    .unwrap();
    let mut allowed = 0;
    let mut exhausted = 0;
    for _ in 0..5 {
        match srv.redirect("q", &None, NOW) {
            Ok(url) => {
                assert_eq!(url, "https://example.com");
                allowed += 1;
            },
            Err(StoreError::Exhausted) => exhausted += 1,
            Err(e) => panic!("unexpected error {:?}", e),
        }
    }
    assert_eq!(allowed, 3);
    assert_eq!(exhausted, 2);
    let d = srv.read("q", NOW).unwrap();
    assert_eq!(d.acls.calls.curr, 3);
}

#[test]
fn unlimited_quota_never_exhausts() {
    let mut srv = Server::new();
    srv.register(Some("u".to_string()), "https://example.com".to_string(), None, None, None, NOW)
        .unwrap();
    for _ in 0..10 {
        assert_eq!(srv.redirect("u", &None, NOW), Ok("https://example.com".to_string()));
    }
    assert_eq!(srv.read("u", NOW).unwrap().acls.calls.curr, 0);
}

#[test]
fn auth_gate_requires_exact_credentials() {
    let mut srv = Server::new();
    srv.register(
        Some("a".to_string()),
        "https://example.com".to_string(),
        None,
        None,
        Some(DirectiveACLAuth { key: "k".to_string(), secret: "s".to_string() }),
        NOW,
    )
    .unwrap();
    // no credentials
    assert_eq!(redirect(&mut srv, "a", None, NOW), Err(StoreError::Unauthorized));
    // wrong credentials
    let wrong = basic_header("k", "wrong");
    assert_eq!(redirect(&mut srv, "a", Some(&wrong), NOW), Err(StoreError::Unauthorized));
    let wrong_key = basic_header("other", "s");
    assert_eq!(redirect(&mut srv, "a", Some(&wrong_key), NOW), Err(StoreError::Unauthorized));
    // malformed headers
    assert_eq!(redirect(&mut srv, "a", Some("azpz"), NOW), Err(StoreError::Unauthorized));
    let nocolon = format!("Basic {}", base64::encode("nocolon"));
    assert_eq!(redirect(&mut srv, "a", Some(&nocolon), NOW), Err(StoreError::Unauthorized));
    let notb64 = "Basic !!!not-base64!!!".to_string();
    assert_eq!(redirect(&mut srv, "a", Some(&notb64), NOW), Err(StoreError::Unauthorized));
    let notutf8 = format!("Basic {}", base64::encode([0xffu8, 0xfe, 0x3a, 0x80]));
    assert_eq!(redirect(&mut srv, "a", Some(&notutf8), NOW), Err(StoreError::Unauthorized));
    // exact match
    let right = basic_header("k", "s");
    assert_eq!(redirect(&mut srv, "a", Some(&right), NOW), Ok("https://example.com".to_string()));
}

#[test]
fn secret_may_contain_colons() {
    let mut srv = Server::new();
    srv.register(
        Some("c".to_string()),
        "https://example.com".to_string(),
        None,
        None,
        Some(DirectiveACLAuth { key: "k".to_string(), secret: "s:t".to_string() }),
        NOW,
    )
    .unwrap();
    let header = basic_header("k", "s:t");
    assert_eq!(
        redirect(&mut srv, "c", Some(&header), NOW),
        Ok("https://example.com".to_string())
    );
}

#[test]
fn expiry_round_trip_keeps_the_delta() {
    let mut srv = Server::new();
    srv.register(
        Some("e".to_string()),
        "https://example.com".to_string(),
        Some(ExpirySpec::At("2024-01-01T00:01:00Z".to_string())),
        None,
        None,
        NOW,
    )
    .unwrap();
    let d = srv.read("e", NOW).unwrap();
    assert_eq!(d.acls.expire_at, Some(NOW + 60));
    assert_eq!(palladium::expiry::delta_seconds(d.acls.expire_at.unwrap(), NOW), 60);
}

#[test]
fn expired_directives_answer_not_found() {
    let mut srv = Server::new();
    srv.register(
        Some("e".to_string()),
        "https://example.com".to_string(),
        Some(ExpirySpec::Seconds(10)),
        None,
        None,
        NOW,
    )
    .unwrap();
    assert!(srv.read("e", NOW + 9).is_ok());
    assert_eq!(srv.read("e", NOW + 10), Err(StoreError::NotFound));
    assert_eq!(srv.redirect("e", &None, NOW + 10), Err(StoreError::NotFound));
}

#[test]
fn pagination_enumerates_everything_in_order() {
    let mut srv = Server::new();
    for id in ["delta", "alpha", "echo", "charlie", "bravo"] {
        srv.register(
            Some(id.to_string()),
            "https://example.com".to_string(),
            None,
            None,
            None,
            NOW,
        )
        .unwrap();
    }
    let mut pages = 0;
    let mut collected: Vec<String> = Vec::new();
    let mut cursor: Option<String> = None;
    loop {
        let page = srv.list(2, cursor.clone());
        if page.is_empty() {
            break;
        }
        pages += 1;
        cursor = page.last().cloned();
        collected.extend(page);
        assert!(pages <= 3, "more pages than ceil(5 / 2)");
    }
    assert_eq!(pages, 3);
    assert_eq!(collected, vec!["alpha", "bravo", "charlie", "delta", "echo"]);
}

#[test]
fn list_respects_page_size_and_cursor() {
    let mut srv = Server::new();
    for id in ["a", "b", "c"] {
        srv.register(
            Some(id.to_string()),
            "https://example.com".to_string(),
            None,
            None,
            None,
            NOW,
        )
        .unwrap();
    }
    assert_eq!(srv.list(10, None), vec!["a", "b", "c"]);
    assert_eq!(srv.list(2, None), vec!["a", "b"]);
    assert_eq!(srv.list(10, Some("b".to_string())), vec!["c"]);
    assert_eq!(srv.list(10, Some("z".to_string())), Vec::<String>::new());
    assert_eq!(srv.list(0, None), Vec::<String>::new());
}

#[test]
fn delete_is_idempotent() {
    let mut srv = Server::new();
    // deleting something that was never there is a success, not NotFound
    srv.delete("ghost");
    srv.register(Some("d".to_string()), "https://example.com".to_string(), None, None, None, NOW)
        .unwrap();
    srv.delete("d");
    assert_eq!(srv.read("d", NOW), Err(StoreError::NotFound));
    srv.delete("d");
    assert_eq!(srv.read("d", NOW), Err(StoreError::NotFound));
}

#[test]
fn clear_removes_everything() {
    let mut srv = Server::new();
    for id in ["a", "b"] {
        srv.register(
            Some(id.to_string()),
            "https://example.com".to_string(),
            None,
            None,
            None,
            NOW,
        )
        .unwrap();
    }
    srv.clear();
    assert_eq!(srv.list(10, None), Vec::<String>::new());
    srv.clear();
    assert_eq!(srv.list(10, None), Vec::<String>::new());
}

#[test]
fn scenario_single_use_directive() {
    let mut srv = Server::new();
    let body = PostDirectiveRequest {
        destination: "https://example.com".to_string(),
        expire: None,
        max_calls: Some(1),
        auth: None,
    };
    let resp = post_directive(&mut srv, body, NOW).unwrap();
    let id = resp.id;
    assert_eq!(redirect(&mut srv, &id, None, NOW), Ok("https://example.com".to_string()));
    assert_eq!(redirect(&mut srv, &id, None, NOW), Err(StoreError::Exhausted));
}

#[test]
fn scenario_zero_second_expiry_is_born_expired() {
    let mut srv = Server::new();
    srv.register(
        Some("z".to_string()),
        "https://example.com".to_string(),
        Some(ExpirySpec::Seconds(0)),
        None,
        None,
        NOW,
    )
    .unwrap();
    assert_eq!(srv.read("z", NOW), Err(StoreError::NotFound));
}

#[test]
fn handler_shapes_round_trip() {
    let mut srv = Server::new();
    let body = PostDirectiveRequest {
        destination: "https://example.com".to_string(),
        expire: Some(ExpirySpec::Seconds(60)),
        max_calls: Some(5),
        auth: Some(PostDirectiveRequestAuth { key: "k".to_string(), secret: "s".to_string() }),
    };
    let resp = post_directive(&mut srv, body, NOW).unwrap();
    let detail = get_directive(&srv, &resp.id, NOW).unwrap();
    assert_eq!(detail.id, resp.id);
    assert_eq!(detail.url, "https://example.com");
    assert_eq!(detail.acls.expire_at, Some(NOW + 60));
    let listing = get_directives(&srv, GetDirectivesQueryParams { next: 10, cursor: None });
    assert_eq!(listing, vec![resp.id]);
}

#[test]
fn error_labels_are_stable() {
    assert_eq!(StoreError::Validation.label(), "validation");
    assert_eq!(StoreError::InvalidExpiryFormat.label(), "invalid_expiry_format");
    assert_eq!(StoreError::NotFound.label(), "not_found");
    assert_eq!(StoreError::Unauthorized.label(), "unauthorized");
    assert_eq!(StoreError::Exhausted.label(), "exhausted");
    assert_eq!(StoreError::BackendUnavailable.label(), "backend_unavailable");
    assert_eq!(StoreError::BackendTimeout.label(), "backend_timeout");
}
