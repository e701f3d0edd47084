//! The access policy evaluator.
//!
//! Given a directive's access-control block and the credentials presented
//! with a redirect request, decide whether the redirect may proceed. The
//! checks run in a fixed order and the first match wins: a configured
//! credential pair that is missing or mismatched denies with `Unauthorized`;
//! a configured quota that is fully consumed denies with `Exhausted`;
//! otherwise the request is allowed, which obligates the store to increment
//! the call counter in the same logical operation.

use vstd::prelude::*;

use crate::directive::{
    auth_option_view, DirectiveACLAuth, DirectiveACLAuthView, DirectiveACLCallsView,
    DirectiveACLs, DirectiveACLsView,
};

verus! {

/// Why a redirect was denied.
#[derive(Debug, Clone, Copy, PartialEq, Eq, Structural)]
pub enum DenyReason {
    /// Credentials are required and were missing or wrong.
    Unauthorized,
    /// The call quota is fully consumed.
    Exhausted,
}

/// The outcome of evaluating an access-control block against a request.
#[derive(Debug, Clone, Copy, PartialEq, Eq, Structural)]
pub enum AccessDecision {
    Allow,
    Deny(DenyReason),
}

/// Whether the presented credentials match the required pair exactly.
pub open spec fn creds_match(
    required: DirectiveACLAuthView,
    presented: Option<DirectiveACLAuthView>,
) -> bool {
    match presented {
        Some(c) => c.key == required.key && c.secret == required.secret,
        None => false,
    }
}

/// The quota check alone: deny once the consumed count reaches the bound.
pub open spec fn spec_quota_decision(a: DirectiveACLsView) -> AccessDecision {
    match a.calls.max {
        Some(m) => if a.calls.curr >= m {
            AccessDecision::Deny(DenyReason::Exhausted)
        } else {
            AccessDecision::Allow
        },
        None => AccessDecision::Allow,
    }
}

/// The full policy: the credential gate first, then the quota.
pub open spec fn spec_evaluate(
    a: DirectiveACLsView,
    presented: Option<DirectiveACLAuthView>,
) -> AccessDecision {
    match a.auth {
        Some(required) => if !creds_match(required, presented) {
            AccessDecision::Deny(DenyReason::Unauthorized)
        } else {
            spec_quota_decision(a)
        },
        None => spec_quota_decision(a),
    }
}

/// The quota-increment side effect of an allowed redirect: the consumed
/// count advances exactly where a quota is configured.
pub open spec fn bump_acls(a: DirectiveACLsView) -> DirectiveACLsView {
    match a.calls.max {
        Some(_) => DirectiveACLsView {
            expire_at: a.expire_at,
            calls: DirectiveACLCallsView { max: a.calls.max, curr: (a.calls.curr + 1) as u64 },
            auth: a.auth,
        },
        None => a,
    }
}

/// Law (credential gate): where a credential pair is required, a request
/// with no credentials is denied as unauthorized, one with a wrong key or
/// wrong secret is denied as unauthorized, and only the exact pair gets
/// through, after which the quota alone decides.
pub proof fn lemma_auth_gate(
    a: DirectiveACLsView,
    required: DirectiveACLAuthView,
    presented: Option<DirectiveACLAuthView>,
)
    requires
        a.auth == Some(required),
    ensures
        presented is None ==> spec_evaluate(a, presented) == AccessDecision::Deny(
            DenyReason::Unauthorized,
        ),
        (presented matches Some(c) && (c.key != required.key || c.secret != required.secret))
            ==> spec_evaluate(a, presented) == AccessDecision::Deny(DenyReason::Unauthorized),
        presented == Some(required) ==> spec_evaluate(a, presented) == spec_quota_decision(a),
{
}

/// The access-control state after `k` redirect attempts with the given
/// credentials: each attempt applies the policy and, when allowed, the
/// quota increment.
pub open spec fn attempts_after(
    a: DirectiveACLsView,
    presented: Option<DirectiveACLAuthView>,
    k: nat,
) -> DirectiveACLsView
    decreases k,
{
    if k == 0 {
        a
    } else {
        let prev = attempts_after(a, presented, (k - 1) as nat);
        if spec_evaluate(prev, presented) == AccessDecision::Allow {
            bump_acls(prev)
        } else {
            prev
        }
    }
}

/// How many of the first `k` attempts are allowed.
pub open spec fn allows_after(
    a: DirectiveACLsView,
    presented: Option<DirectiveACLAuthView>,
    k: nat,
) -> int
    decreases k,
{
    if k == 0 {
        0
    } else {
        allows_after(a, presented, (k - 1) as nat) + if spec_evaluate(
            attempts_after(a, presented, (k - 1) as nat),
            presented,
        ) == AccessDecision::Allow {
            1int
        } else {
            0int
        }
    }
}

/// Law (quota enforcement): for an access-control block with quota `m` and
/// a passing credential gate, a run of `k` redirect attempts — in whatever
/// order the requests arrived, since each is decided solely by the count
/// consumed before it — allows exactly the first `m - curr` of them and
/// denies every later one as exhausted; the count consumed never passes `m`.
pub proof fn lemma_quota_enforcement(
    a: DirectiveACLsView,
    presented: Option<DirectiveACLAuthView>,
    m: u64,
    k: nat,
)
    requires
        a.calls.max == Some(m),
        a.calls.curr <= m,
        a.auth matches Some(required) ==> creds_match(required, presented),
    ensures
        attempts_after(a, presented, k).auth == a.auth,
        attempts_after(a, presented, k).expire_at == a.expire_at,
        attempts_after(a, presented, k).calls.max == Some(m),
        attempts_after(a, presented, k).calls.curr == if a.calls.curr + k <= m {
            a.calls.curr + k
        } else {
            m as int
        },
        allows_after(a, presented, k) == if a.calls.curr + k <= m {
            k as int
        } else {
            m - a.calls.curr
        },
        forall|j: nat|
            j < k ==> spec_evaluate(attempts_after(a, presented, j), presented) == (if a.calls.curr
                + j < m {
                AccessDecision::Allow
            } else {
                AccessDecision::Deny(DenyReason::Exhausted)
            }),
    decreases k,
{
    if k > 0 {
        lemma_quota_enforcement(a, presented, m, (k - 1) as nat);
        let prev = attempts_after(a, presented, (k - 1) as nat);
        assert(prev.auth == a.auth);
        assert(spec_evaluate(prev, presented) == (if a.calls.curr + (k - 1) < m {
            AccessDecision::Allow
        } else {
            AccessDecision::Deny(DenyReason::Exhausted)
        }));
    }
}

/// Evaluates the access policy of `a` against the presented credentials.
pub fn evaluate(a: &DirectiveACLs, presented: &Option<DirectiveACLAuth>) -> (r: AccessDecision)
    ensures
        r == spec_evaluate(a@, auth_option_view(*presented)),
{
    if let Some(required) = &a.auth {
        let ok = match presented {
            Some(c) => c.key == required.key && c.secret == required.secret,
            None => false,
        };
        if !ok {
            return AccessDecision::Deny(DenyReason::Unauthorized);
        }
    }
    match a.calls.max {
        Some(m) => if a.calls.curr >= m {
            AccessDecision::Deny(DenyReason::Exhausted)
        } else {
            AccessDecision::Allow
        },
        None => AccessDecision::Allow,
    }
}

} // verus!
