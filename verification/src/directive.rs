//! The directive data model.
//!
//! A directive maps an identifier to a destination URL under an
//! access-control block: an optional expiry instant, an optional call quota,
//! and an optional credential pair. Exec values carry `String`s and machine
//! integers; each type has a ghost view over character sequences, and all
//! contracts speak about the views.

use vstd::prelude::*;

verus! {

/// A declarative expiry requested at registration: either an absolute
/// RFC 3339 instant (as text, parsed by the expiry policy) or a relative
/// number of seconds from the moment of registration.
#[derive(Debug, Clone)]
pub enum ExpirySpec {
    At(String),
    Seconds(u64),
}

/// A credential pair that must be presented to exercise a directive.
#[derive(Debug, Clone, PartialEq)]
pub struct DirectiveACLAuth {
    pub key: String,
    pub secret: String,
}

/// Call-quota state: `max` is the upper bound on successful redirects
/// (absent means unlimited), `curr` counts the calls consumed so far.
#[derive(Debug, Clone, Copy, PartialEq)]
pub struct DirectiveACLCalls {
    pub max: Option<u64>,
    pub curr: u64,
}

/// The access-control block of a stored directive. `expire_at` is the
/// resolved absolute expiry instant in seconds since the Unix epoch.
#[derive(Debug, Clone, PartialEq)]
pub struct DirectiveACLs {
    pub expire_at: Option<u64>,
    pub calls: DirectiveACLCalls,
    pub auth: Option<DirectiveACLAuth>,
}

/// A stored directive: identifier, destination URL, access-control block.
#[derive(Debug, Clone, PartialEq)]
pub struct Directive {
    pub id: String,
    pub url: String,
    pub acls: DirectiveACLs,
}

/// Ghost view of a declarative expiry.
#[verifier::ext_equal]
pub ghost enum ExpirySpecView {
    At(Seq<char>),
    Seconds(u64),
}

impl View for ExpirySpec {
    type V = ExpirySpecView;

    open spec fn view(&self) -> ExpirySpecView {
        match self {
            ExpirySpec::At(s) => ExpirySpecView::At(s@),
            ExpirySpec::Seconds(n) => ExpirySpecView::Seconds(*n),
        }
    }
}

/// The view of an optional declarative expiry.
pub open spec fn expiry_option_view(e: Option<ExpirySpec>) -> Option<ExpirySpecView> {
    match e {
        Some(s) => Some(s@),
        None => None,
    }
}

/// Ghost view of a credential pair.
#[verifier::ext_equal]
pub ghost struct DirectiveACLAuthView {
    pub key: Seq<char>,
    pub secret: Seq<char>,
}

/// Ghost view of the quota state.
#[verifier::ext_equal]
pub ghost struct DirectiveACLCallsView {
    pub max: Option<u64>,
    pub curr: u64,
}

/// Ghost view of an access-control block.
#[verifier::ext_equal]
pub ghost struct DirectiveACLsView {
    pub expire_at: Option<u64>,
    pub calls: DirectiveACLCallsView,
    pub auth: Option<DirectiveACLAuthView>,
}

/// Ghost view of a directive.
#[verifier::ext_equal]
pub ghost struct DirectiveView {
    pub id: Seq<char>,
    pub url: Seq<char>,
    pub acls: DirectiveACLsView,
}

impl View for DirectiveACLAuth {
    type V = DirectiveACLAuthView;

    open spec fn view(&self) -> DirectiveACLAuthView {
        DirectiveACLAuthView { key: self.key@, secret: self.secret@ }
    }
}

impl View for DirectiveACLCalls {
    type V = DirectiveACLCallsView;

    open spec fn view(&self) -> DirectiveACLCallsView {
        DirectiveACLCallsView { max: self.max, curr: self.curr }
    }
}

/// The view of an optional credential pair.
pub open spec fn auth_option_view(p: Option<DirectiveACLAuth>) -> Option<DirectiveACLAuthView> {
    match p {
        Some(a) => Some(a@),
        None => None,
    }
}

impl View for DirectiveACLs {
    type V = DirectiveACLsView;

    open spec fn view(&self) -> DirectiveACLsView {
        DirectiveACLsView {
            expire_at: self.expire_at,
            calls: self.calls@,
            auth: auth_option_view(self.auth),
        }
    }
}

impl View for Directive {
    type V = DirectiveView;

    open spec fn view(&self) -> DirectiveView {
        DirectiveView { id: self.id@, url: self.url@, acls: self.acls@ }
    }
}

/// The invariant of a stored access-control block: the consumed count never
/// passes a configured quota, and stays zero while no quota is configured
/// (the counter only moves as the quota-increment side effect of redirect).
pub open spec fn acls_wf(a: DirectiveACLsView) -> bool {
    match a.calls.max {
        Some(m) => a.calls.curr <= m,
        None => a.calls.curr == 0,
    }
}

/// The invariant of a stored directive: a non-empty destination URL and a
/// well-formed access-control block.
pub open spec fn directive_wf(d: DirectiveView) -> bool {
    d.url.len() > 0 && acls_wf(d.acls)
}

/// Whether an access-control block is past its expiry instant at time `now`.
pub open spec fn spec_expired(a: DirectiveACLsView, now: u64) -> bool {
    match a.expire_at {
        Some(t) => t <= now,
        None => false,
    }
}

impl DirectiveACLs {
    /// Decides `spec_expired` on an exec access-control block.
    pub fn is_expired(&self, now: u64) -> (r: bool)
        ensures
            r == spec_expired(self@, now),
    {
        match self.expire_at {
            Some(t) => t <= now,
            None => false,
        }
    }

    /// A fresh copy whose view is the same.
    pub fn duplicate(&self) -> (r: DirectiveACLs)
        ensures
            r@ == self@,
    {
        let r = DirectiveACLs {
            expire_at: self.expire_at,
            calls: self.calls,
            auth: match &self.auth {
                Some(a) => Some(DirectiveACLAuth { key: a.key.clone(), secret: a.secret.clone() }),
                None => None,
            },
        };
        proof {
            assert(r@ =~= self@);
        }
        r
    }
}

impl Directive {
    /// A fresh copy whose view is the same.
    pub fn duplicate(&self) -> (r: Directive)
        ensures
            r@ == self@,
    {
        let r = Directive {
            id: self.id.clone(),
            url: self.url.clone(),
            acls: self.acls.duplicate(),
        };
        proof {
            assert(r@ =~= self@);
        }
        r
    }
}

} // verus!
