//! The request-level operations behind the HTTP surface.
//!
//! Each function here is the computational half of one endpoint: it takes
//! plain values that the routing layer extracted from a request — body
//! fields, path and query parameters, the raw `Authorization` header, the
//! clock reading — and drives the store. The routing layer itself (request
//! parsing, serialization, status codes) stays outside the verified crate.

use vstd::prelude::*;

use crate::auth::{parse_basic_credentials, spec_parse_basic};
use crate::directive::{
    auth_option_view, expiry_option_view, spec_expired, DirectiveACLAuth, DirectiveACLAuthView,
    ExpirySpec,
};
use crate::errors::StoreError;
use crate::expiry::spec_resolve;
use crate::policy::{spec_evaluate, AccessDecision, DenyReason};
use crate::server::{
    bump_directive, cursor_of, cut_of, registered_view, spec_register_error, Server,
};

verus! {

/// A credential pair as it arrives in a registration body.
pub struct PostDirectiveRequestAuth {
    pub key: String,
    pub secret: String,
}

/// A registration body: the destination URL and the optional access
/// controls.
pub struct PostDirectiveRequest {
    pub destination: String,
    pub expire: Option<ExpirySpec>,
    pub max_calls: Option<u64>,
    pub auth: Option<PostDirectiveRequestAuth>,
}

/// The answer to a registration: the identifier the directive is stored
/// under.
pub struct PostDirectiveResponse {
    pub id: String,
}

/// The access-control block of a directive detail answer.
pub struct GetDirectiveResponseACLs {
    pub expire_at: Option<u64>,
}

/// A directive detail answer.
pub struct GetDirectiveResponse {
    pub id: String,
    pub url: String,
    pub acls: GetDirectiveResponseACLs,
}

/// The query parameters of a listing: the page size and the optional
/// continuation cursor.
pub struct GetDirectivesQueryParams {
    pub next: u16,
    pub cursor: Option<String>,
}

/// The credential view of a registration body's auth block.
pub open spec fn request_auth_view(
    a: Option<PostDirectiveRequestAuth>,
) -> Option<DirectiveACLAuthView> {
    match a {
        Some(p) => Some(DirectiveACLAuthView { key: p.key@, secret: p.secret@ }),
        None => None,
    }
}

/// Registers a new directive under a freshly claimed identifier and answers
/// that identifier. Fails exactly as `Server::register` does: an empty
/// destination is invalid, and the expiry must resolve at `now`.
pub fn post_directive(srv: &mut Server, body: PostDirectiveRequest, now: u64) -> (r: Result<
    PostDirectiveResponse,
    StoreError,
>)
    requires
        old(srv).wf(),
    ensures
        final(srv).wf(),
        r is Err <==> spec_register_error(
            body.destination@,
            expiry_option_view(body.expire),
            now,
        ) is Some,
        r matches Err(e) ==> Some(e) == spec_register_error(
            body.destination@,
            expiry_option_view(body.expire),
            now,
        ) && *final(srv) == *old(srv),
        r matches Ok(resp) ==> resp.id@.len() == 36,
        r matches Ok(resp) ==> (spec_resolve(expiry_option_view(body.expire), now) matches Ok(t)
            && final(srv)@ == old(srv)@.insert(
            resp.id@,
            registered_view(
                resp.id@,
                body.destination@,
                t,
                body.max_calls,
                request_auth_view(body.auth),
            ),
        )),
{
    let auth = match body.auth {
        Some(a) => Some(DirectiveACLAuth { key: a.key, secret: a.secret }),
        None => None,
    };
    let ghost authv = auth_option_view(auth);
    let id = srv.register(None, body.destination, body.expire, body.max_calls, auth, now);
    match id {
        Ok(id) => {
            proof {
                assert(authv =~= request_auth_view(body.auth));
            }
            Ok(PostDirectiveResponse { id })
        },
        Err(e) => Err(e),
    }
}

/// Looks a directive up and shapes it as a detail answer; `NotFound` where
/// it is absent or past its expiry at `now`.
pub fn get_directive(srv: &Server, directive_id: &str, now: u64) -> (r: Result<
    GetDirectiveResponse,
    StoreError,
>)
    requires
        srv.wf(),
    ensures
        r matches Ok(resp) ==> srv@.contains_key(directive_id@) && !spec_expired(
            srv@[directive_id@].acls,
            now,
        ) && resp.id@ == directive_id@ && resp.url@ == srv@[directive_id@].url
            && resp.acls.expire_at == srv@[directive_id@].acls.expire_at,
        r matches Err(e) ==> e == StoreError::NotFound && (!srv@.contains_key(directive_id@)
            || spec_expired(srv@[directive_id@].acls, now)),
{
    let d = srv.read(directive_id, now)?;
    Ok(
        GetDirectiveResponse {
            id: directive_id.to_owned(),
            url: d.url,
            acls: GetDirectiveResponseACLs { expire_at: d.acls.expire_at },
        },
    )
}

/// Lists a page of identifiers as `Server::list` does.
pub fn get_directives(srv: &Server, query: GetDirectivesQueryParams) -> (r: Vec<String>)
    requires
        srv.wf(),
    ensures
        cut_of(srv.ids(), cursor_of(query.cursor)) + r@.len() <= srv.ids().len(),
        r@.map_values(|s: String| s@) == srv.ids().subrange(
            cut_of(srv.ids(), cursor_of(query.cursor)),
            cut_of(srv.ids(), cursor_of(query.cursor)) + r@.len(),
        ),
        r@.len() <= query.next as int,
        r@.len() < query.next as int ==> cut_of(srv.ids(), cursor_of(query.cursor)) + r@.len()
            == srv.ids().len(),
{
    srv.list(query.next, query.cursor)
}

/// Deletes one directive; deleting an absent identifier succeeds too.
pub fn delete_directive(srv: &mut Server, directive_id: &str)
    requires
        old(srv).wf(),
    ensures
        final(srv).wf(),
        final(srv)@ == old(srv)@.remove(directive_id@),
{
    srv.delete(directive_id);
}

/// Deletes every directive.
pub fn delete_directives(srv: &mut Server)
    ensures
        final(srv).wf(),
        final(srv)@ == Map::<Seq<char>, crate::directive::DirectiveView>::empty(),
{
    srv.clear();
}

/// The credentials a redirect request presents: those its `Authorization`
/// header denotes, if it has one and the header parses.
pub open spec fn presented_credentials(h: Option<&str>) -> Option<DirectiveACLAuthView> {
    match h {
        Some(v) => spec_parse_basic(v@),
        None => None,
    }
}

/// The composite redirect at the request level: parse the optional
/// `Authorization` header, then run the store's redirect, which looks up,
/// applies the access policy, consumes a quota unit on success and answers
/// the destination URL.
pub fn redirect(srv: &mut Server, directive_id: &str, auth_header: Option<&str>, now: u64) -> (r:
    Result<String, StoreError>)
    requires
        old(srv).wf(),
    ensures
        final(srv).wf(),
        (!old(srv)@.contains_key(directive_id@) || spec_expired(
            old(srv)@[directive_id@].acls,
            now,
        )) ==> (r matches Err(e) && e == StoreError::NotFound && *final(srv) == *old(srv)),
        old(srv)@.contains_key(directive_id@) && !spec_expired(
            old(srv)@[directive_id@].acls,
            now,
        ) ==> (match spec_evaluate(
            old(srv)@[directive_id@].acls,
            presented_credentials(auth_header),
        ) {
            AccessDecision::Deny(DenyReason::Unauthorized) => r matches Err(e) && e
                == StoreError::Unauthorized && *final(srv) == *old(srv),
            AccessDecision::Deny(DenyReason::Exhausted) => r matches Err(e) && e
                == StoreError::Exhausted && *final(srv) == *old(srv),
            AccessDecision::Allow => r matches Ok(url) && url@ == old(srv)@[directive_id@].url
                && final(srv)@ == old(srv)@.insert(
                directive_id@,
                bump_directive(old(srv)@[directive_id@]),
            ),
        }),
{
    let creds = match auth_header {
        Some(h) => parse_basic_credentials(h),
        None => None,
    };
    proof {
        assert(auth_option_view(creds) == presented_credentials(auth_header));
    }
    srv.redirect(directive_id, &creds, now)
}

} // verus!
