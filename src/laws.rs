//! Properties of the registry's operations, stated over their models.

use vstd::prelude::*;

use crate::approvals::ApprovalsView;
use crate::contract::{
    lemma_index_of, approval_counter, approve_outcome, has_token, ids_distinct, init_view, mint_outcome,
    owner_of, revoke_all_outcome, revoke_outcome, token_index, token_of, with_approvals,
    ContractView, TokenView,
};
use crate::metadata::{ContractMetadataView, TokenMetadataView};

verus! {

/// Replacing one token's approvals keeps every token id and owner, and every
/// other token as it was.
proof fn lemma_with_approvals(v: ContractView, id: Seq<char>, a: ApprovalsView)
    requires
        ids_distinct(v.tokens),
        has_token(v.tokens, id),
    ensures
        ids_distinct(with_approvals(v, id, a).tokens),
        forall|t: Seq<char>| #[trigger]
            owner_of(with_approvals(v, id, a), t) == owner_of(v, t),
        token_of(with_approvals(v, id, a), id) == Some(
            TokenView { approvals: a, ..v.tokens[token_index(v.tokens, id)] },
        ),
        forall|t: Seq<char>|
            t != id ==> #[trigger] token_of(with_approvals(v, id, a), t) == token_of(v, t),
{
    let w = with_approvals(v, id, a);
    let i = token_index(v.tokens, id);
    assert(ids_distinct(w.tokens)) by {
        assert forall|p: int, q: int|
            0 <= p < w.tokens.len() && 0 <= q < w.tokens.len() && p != q implies (
        #[trigger] w.tokens[p]).token_id != (#[trigger] w.tokens[q]).token_id by {
            assert(w.tokens[p].token_id == v.tokens[p].token_id);
            assert(w.tokens[q].token_id == v.tokens[q].token_id);
        }
    }
    assert forall|t: Seq<char>| #[trigger] token_of(w, t) == (if t == id {
        Some(TokenView { approvals: a, ..v.tokens[i] })
    } else {
        token_of(v, t)
    }) by {
        if has_token(v.tokens, t) {
            let k = token_index(v.tokens, t);
            assert(w.tokens[k].token_id == t);
            lemma_index_of(w.tokens, t, k);
            if t == id {
                assert(k == i);
            } else {
                assert(k != i);
            }
        } else {
            if has_token(w.tokens, t) {
                let k = token_index(w.tokens, t);
                assert(v.tokens[k].token_id == t);
            }
        }
    }
    assert forall|t: Seq<char>| #[trigger] owner_of(w, t) == owner_of(v, t) by {
        assert(token_of(w, t) == (if t == id {
            Some(TokenView { approvals: a, ..v.tokens[i] })
        } else {
            token_of(v, t)
        }));
    }
}

/// Minting keeps token ids pairwise distinct: a successful mint never adds
/// an id that is already there.
pub proof fn lemma_mint_keeps_ids_distinct(
    v: ContractView,
    id: Seq<char>,
    owner: Seq<char>,
    meta: TokenMetadataView,
    attached_deposit: u128,
    storage_cost: u128,
)
    requires
        ids_distinct(v.tokens),
    ensures
        mint_outcome(v, id, owner, meta, attached_deposit, storage_cost) is Ok ==> ids_distinct(
            mint_outcome(v, id, owner, meta, attached_deposit, storage_cost).unwrap().tokens,
        ),
        mint_outcome(v, id, owner, meta, attached_deposit, storage_cost) is Ok ==> !has_token(
            v.tokens,
            id,
        ),
{
    if let Ok(w) = mint_outcome(v, id, owner, meta, attached_deposit, storage_cost) {
        assert forall|p: int, q: int|
            0 <= p < w.tokens.len() && 0 <= q < w.tokens.len() && p != q implies (
        #[trigger] w.tokens[p]).token_id != (#[trigger] w.tokens[q]).token_id by {
            if p == v.tokens.len() {
                assert(w.tokens[q] == v.tokens[q]);
            } else if q == v.tokens.len() {
                assert(w.tokens[p] == v.tokens[p]);
            } else {
                assert(w.tokens[p] == v.tokens[p]);
                assert(w.tokens[q] == v.tokens[q]);
            }
        }
    }
}

/// After a successful mint the new token is owned by its receiver, and every
/// other token keeps its owner and stays as it was.
pub proof fn lemma_mint_sets_owner(
    v: ContractView,
    id: Seq<char>,
    owner: Seq<char>,
    meta: TokenMetadataView,
    attached_deposit: u128,
    storage_cost: u128,
)
    requires
        ids_distinct(v.tokens),
    ensures
        mint_outcome(v, id, owner, meta, attached_deposit, storage_cost) is Ok ==> owner_of(
            mint_outcome(v, id, owner, meta, attached_deposit, storage_cost).unwrap(),
            id,
        ) == Some(owner),
        mint_outcome(v, id, owner, meta, attached_deposit, storage_cost) is Ok ==> forall|
            t: Seq<char>,
        |
            t != id ==> #[trigger] owner_of(
                mint_outcome(v, id, owner, meta, attached_deposit, storage_cost).unwrap(),
                t,
            ) == owner_of(v, t),
        mint_outcome(v, id, owner, meta, attached_deposit, storage_cost) is Ok ==> forall|
            t: Seq<char>,
        |
            t != id ==> #[trigger] token_of(
                mint_outcome(v, id, owner, meta, attached_deposit, storage_cost).unwrap(),
                t,
            ) == token_of(v, t),
{
    lemma_mint_keeps_ids_distinct(v, id, owner, meta, attached_deposit, storage_cost);
    if let Ok(w) = mint_outcome(v, id, owner, meta, attached_deposit, storage_cost) {
        let n = v.tokens.len() as int;
        lemma_index_of(w.tokens, id, n);
        assert forall|t: Seq<char>| t != id implies #[trigger] token_of(w, t) == token_of(v, t) by {
            if has_token(v.tokens, t) {
                let k = token_index(v.tokens, t);
                assert(w.tokens[k] == v.tokens[k]);
                lemma_index_of(w.tokens, t, k);
            } else if has_token(w.tokens, t) {
                let k = token_index(w.tokens, t);
                assert(k != n);
                assert(v.tokens[k] == w.tokens[k]);
            }
        }
    }
}

/// Approving and revoking never change who owns a token.
pub proof fn lemma_approvals_keep_owners(
    v: ContractView,
    id: Seq<char>,
    account: Seq<char>,
    caller: Seq<char>,
)
    requires
        ids_distinct(v.tokens),
    ensures
        approve_outcome(v, id, account, caller) is Ok ==> forall|t: Seq<char>| #[trigger]
            owner_of(approve_outcome(v, id, account, caller).unwrap().0, t) == owner_of(v, t),
        revoke_outcome(v, id, account, caller) is Ok ==> forall|t: Seq<char>| #[trigger]
            owner_of(revoke_outcome(v, id, account, caller).unwrap(), t) == owner_of(v, t),
        revoke_all_outcome(v, id, caller) is Ok ==> forall|t: Seq<char>| #[trigger]
            owner_of(revoke_all_outcome(v, id, caller).unwrap(), t) == owner_of(v, t),
{
    if has_token(v.tokens, id) {
        let a = v.tokens[token_index(v.tokens, id)].approvals;
        let n = (a.counter + 1) as u64;
        lemma_with_approvals(v, id, ApprovalsView { grants: a.grants.insert(account, n), counter: n });
        lemma_with_approvals(v, id, ApprovalsView { grants: a.grants.remove(account), ..a });
        lemma_with_approvals(v, id, ApprovalsView { grants: Map::empty(), ..a });
    }
}

/// Revoking the same approval twice succeeds both times, and the second
/// revocation leaves the registry as the first one left it.
pub proof fn lemma_revoke_idempotent(
    v: ContractView,
    id: Seq<char>,
    account: Seq<char>,
    caller: Seq<char>,
)
    requires
        ids_distinct(v.tokens),
    ensures
        revoke_outcome(v, id, account, caller) is Ok ==> revoke_outcome(
            revoke_outcome(v, id, account, caller).unwrap(),
            id,
            account,
            caller,
        ) == revoke_outcome(v, id, account, caller),
{
    if let Ok(w) = revoke_outcome(v, id, account, caller) {
        let a = v.tokens[token_index(v.tokens, id)].approvals;
        let b = ApprovalsView { grants: a.grants.remove(account), ..a };
        lemma_with_approvals(v, id, b);
        let i = token_index(v.tokens, id);
        assert(token_of(w, id) == Some(TokenView { approvals: b, ..v.tokens[i] }));
        let j = token_index(w.tokens, id);
        assert(w.tokens[j].approvals == b);
        assert(b.grants.remove(account) =~= b.grants);
        let b2 = ApprovalsView { grants: b.grants.remove(account), ..b };
        assert(b2 == b);
        assert(w.tokens.update(j, TokenView { approvals: b2, ..w.tokens[j] })
            =~= w.tokens);
    }
}

/// Approval ids grow: an approval hands out the token's counter plus one and
/// makes it the new counter; revocations keep every counter; and no other
/// token's counter moves.
pub proof fn lemma_approval_ids_increase(
    v: ContractView,
    id: Seq<char>,
    account: Seq<char>,
    caller: Seq<char>,
)
    requires
        ids_distinct(v.tokens),
        approval_counter(v, id) < u64::MAX,
    ensures
        approve_outcome(v, id, account, caller) is Ok ==> {
            let (w, n) = approve_outcome(v, id, account, caller).unwrap();
            &&& n == approval_counter(v, id) + 1
            &&& approval_counter(w, id) == n
            &&& forall|t: Seq<char>|
                t != id ==> #[trigger] approval_counter(w, t) == approval_counter(v, t)
        },
        revoke_outcome(v, id, account, caller) is Ok ==> forall|t: Seq<char>| #[trigger]
            approval_counter(revoke_outcome(v, id, account, caller).unwrap(), t)
                == approval_counter(v, t),
        revoke_all_outcome(v, id, caller) is Ok ==> forall|t: Seq<char>| #[trigger]
            approval_counter(revoke_all_outcome(v, id, caller).unwrap(), t) == approval_counter(
                v,
                t,
            ),
{
    if has_token(v.tokens, id) {
        let a = v.tokens[token_index(v.tokens, id)].approvals;
        let n = (a.counter + 1) as u64;
        lemma_with_approvals(v, id, ApprovalsView { grants: a.grants.insert(account, n), counter: n });
        lemma_with_approvals(v, id, ApprovalsView { grants: a.grants.remove(account), ..a });
        lemma_with_approvals(v, id, ApprovalsView { grants: Map::empty(), ..a });
    }
}

/// Two successful approvals of one token, with any revocations between them,
/// hand out strictly increasing ids: here an approval, then a revocation of
/// every approval, then another approval.
pub proof fn lemma_approve_after_revoke_all(
    v: ContractView,
    id: Seq<char>,
    first: Seq<char>,
    second: Seq<char>,
    caller: Seq<char>,
)
    requires
        ids_distinct(v.tokens),
        approval_counter(v, id) + 1 < u64::MAX,
        approve_outcome(v, id, first, caller) is Ok,
    ensures
        revoke_all_outcome(approve_outcome(v, id, first, caller).unwrap().0, id, caller) is Ok,
        ({
            let (v1, n1) = approve_outcome(v, id, first, caller).unwrap();
            let v2 = revoke_all_outcome(v1, id, caller).unwrap();
            approve_outcome(v2, id, second, caller) is Ok && n1 < approve_outcome(
                v2,
                id,
                second,
                caller,
            ).unwrap().1
        }),
{
    let (v1, n1) = approve_outcome(v, id, first, caller).unwrap();
    let a = v.tokens[token_index(v.tokens, id)].approvals;
    lemma_with_approvals(v, id, ApprovalsView { grants: a.grants.insert(first, n1), counter: n1 });
    lemma_approval_ids_increase(v, id, first, caller);
    lemma_approvals_keep_owners(v, id, first, caller);
    assert(owner_of(v1, id) == owner_of(v, id));
    let v2 = revoke_all_outcome(v1, id, caller).unwrap();
    let a1 = v1.tokens[token_index(v1.tokens, id)].approvals;
    lemma_with_approvals(v1, id, ApprovalsView { grants: Map::empty(), ..a1 });
    lemma_approval_ids_increase(v1, id, first, caller);
    lemma_approvals_keep_owners(v1, id, first, caller);
    lemma_approval_ids_increase(v2, id, second, caller);
}

/// The descriptor of a freshly initialized registry is exactly the one it
/// was initialized with.
pub proof fn lemma_metadata_round_trip(owner: Seq<char>, d: ContractMetadataView)
    ensures
        init_view(owner, d).metadata == d,
        init_view(owner, d).owner_id == owner,
        init_view(owner, d).tokens.len() == 0,
{
}

/// One call into an initialized registry, as its arguments' models.
pub ghost enum Call {
    Mint {
        token_id: Seq<char>,
        receiver_id: Seq<char>,
        metadata: TokenMetadataView,
        attached_deposit: u128,
        storage_cost: u128,
    },
    Approve { token_id: Seq<char>, account_id: Seq<char>, caller: Seq<char> },
    Revoke { token_id: Seq<char>, account_id: Seq<char>, caller: Seq<char> },
    RevokeAll { token_id: Seq<char>, caller: Seq<char> },
}

/// The token a call is about.
pub open spec fn call_token(c: Call) -> Seq<char> {
    match c {
        Call::Mint { token_id, .. } => token_id,
        Call::Approve { token_id, .. } => token_id,
        Call::Revoke { token_id, .. } => token_id,
        Call::RevokeAll { token_id, .. } => token_id,
    }
}

/// The registry after a call: the outcome's state where the call succeeds,
/// the same state where it is refused.
pub open spec fn step(v: ContractView, c: Call) -> ContractView {
    match c {
        Call::Mint { token_id, receiver_id, metadata, attached_deposit, storage_cost } => {
            match mint_outcome(v, token_id, receiver_id, metadata, attached_deposit, storage_cost) {
                Ok(w) => w,
                Err(_) => v,
            }
        },
        Call::Approve { token_id, account_id, caller } => {
            match approve_outcome(v, token_id, account_id, caller) {
                Ok((w, _)) => w,
                Err(_) => v,
            }
        },
        Call::Revoke { token_id, account_id, caller } => {
            match revoke_outcome(v, token_id, account_id, caller) {
                Ok(w) => w,
                Err(_) => v,
            }
        },
        Call::RevokeAll { token_id, caller } => {
            match revoke_all_outcome(v, token_id, caller) {
                Ok(w) => w,
                Err(_) => v,
            }
        },
    }
}

/// Whether the call is a mint that succeeds on `v`.
pub open spec fn mints(v: ContractView, c: Call) -> bool {
    match c {
        Call::Mint { token_id, receiver_id, metadata, attached_deposit, storage_cost } => mint_outcome(
            v,
            token_id,
            receiver_id,
            metadata,
            attached_deposit,
            storage_cost,
        ) is Ok,
        _ => false,
    }
}

/// The approval id a call hands out on `v`: some for an approval that
/// succeeds, none otherwise.
pub open spec fn approval_given(v: ContractView, c: Call) -> Option<u64> {
    match c {
        Call::Approve { token_id, account_id, caller } => {
            match approve_outcome(v, token_id, account_id, caller) {
                Ok((_, n)) => Some(n),
                Err(_) => None,
            }
        },
        _ => None,
    }
}

/// An approval may be asked for only while the token's counter can still
/// grow; other calls always may.
pub open spec fn within_approval_limit(v: ContractView, c: Call) -> bool {
    match c {
        Call::Approve { token_id, .. } => approval_counter(v, token_id) < u64::MAX,
        _ => true,
    }
}

/// The registry after the first `k` calls of `calls`, starting from `v`.
pub open spec fn state_at(v: ContractView, calls: Seq<Call>, k: nat) -> ContractView
    decreases k,
{
    if k == 0 || k > calls.len() {
        v
    } else {
        step(state_at(v, calls, (k - 1) as nat), calls[k - 1])
    }
}

/// The number of successful mints among the first `k` calls of `calls`.
pub open spec fn mint_count(v: ContractView, calls: Seq<Call>, k: nat) -> nat
    decreases k,
{
    if k == 0 || k > calls.len() {
        0
    } else {
        mint_count(v, calls, (k - 1) as nat) + if mints(
            state_at(v, calls, (k - 1) as nat),
            calls[k - 1],
        ) {
            1nat
        } else {
            0nat
        }
    }
}

/// Every call of the sequence meets the limit on approvals.
pub open spec fn approval_limits_kept(v: ContractView, calls: Seq<Call>) -> bool {
    forall|k: int|
        0 <= k < calls.len() ==> #[trigger] within_approval_limit(
            state_at(v, calls, k as nat),
            calls[k],
        )
}

/// What one call does to ids, owners, counters and the number of tokens.
proof fn lemma_step(v: ContractView, c: Call)
    requires
        ids_distinct(v.tokens),
    ensures
        ids_distinct(step(v, c).tokens),
        forall|t: Seq<char>|
            has_token(v.tokens, t) ==> #[trigger] owner_of(step(v, c), t) == owner_of(v, t),
        step(v, c).tokens.len() == v.tokens.len() + if mints(v, c) {
            1int
        } else {
            0int
        },
        mints(v, c) ==> !has_token(v.tokens, call_token(c)),
        mints(v, c) ==> owner_of(step(v, c), call_token(c)) == Some(c->Mint_receiver_id),
        within_approval_limit(v, c) ==> forall|t: Seq<char>| #[trigger]
            approval_counter(step(v, c), t) >= approval_counter(v, t),
        within_approval_limit(v, c) && approval_given(v, c) is Some ==> {
            &&& approval_given(v, c).unwrap() == approval_counter(v, call_token(c)) + 1
            &&& approval_counter(step(v, c), call_token(c)) == approval_given(v, c).unwrap()
        },
{
    match c {
        Call::Mint { token_id, receiver_id, metadata, attached_deposit, storage_cost } => {
            lemma_mint_keeps_ids_distinct(v, token_id, receiver_id, metadata, attached_deposit, storage_cost);
            lemma_mint_sets_owner(v, token_id, receiver_id, metadata, attached_deposit, storage_cost);
        },
        Call::Approve { token_id, account_id, caller } => {
            if has_token(v.tokens, token_id) {
                let a = v.tokens[token_index(v.tokens, token_id)].approvals;
                let n = (a.counter + 1) as u64;
                lemma_with_approvals(
                    v,
                    token_id,
                    ApprovalsView { grants: a.grants.insert(account_id, n), counter: n },
                );
            }
        },
        Call::Revoke { token_id, account_id, caller } => {
            if has_token(v.tokens, token_id) {
                let a = v.tokens[token_index(v.tokens, token_id)].approvals;
                lemma_with_approvals(v, token_id, ApprovalsView { grants: a.grants.remove(account_id), ..a });
            }
        },
        Call::RevokeAll { token_id, caller } => {
            if has_token(v.tokens, token_id) {
                let a = v.tokens[token_index(v.tokens, token_id)].approvals;
                lemma_with_approvals(v, token_id, ApprovalsView { grants: Map::empty(), ..a });
            }
        },
    }
}

proof fn lemma_states_valid(v: ContractView, calls: Seq<Call>, k: nat)
    requires
        ids_distinct(v.tokens),
        k <= calls.len(),
    ensures
        ids_distinct(state_at(v, calls, k).tokens),
        state_at(v, calls, k).tokens.len() == v.tokens.len() + mint_count(v, calls, k),
    decreases k,
{
    if k > 0 {
        lemma_states_valid(v, calls, (k - 1) as nat);
        lemma_step(state_at(v, calls, (k - 1) as nat), calls[k - 1]);
    }
}

proof fn lemma_owners_kept(v: ContractView, calls: Seq<Call>, i: nat, k: nat, t: Seq<char>)
    requires
        ids_distinct(v.tokens),
        i <= k <= calls.len(),
        has_token(state_at(v, calls, i).tokens, t),
    ensures
        owner_of(state_at(v, calls, k), t) == owner_of(state_at(v, calls, i), t),
    decreases k,
{
    if k > i {
        lemma_owners_kept(v, calls, i, (k - 1) as nat, t);
        let s = state_at(v, calls, (k - 1) as nat);
        lemma_states_valid(v, calls, (k - 1) as nat);
        lemma_step(s, calls[k - 1]);
        assert(owner_of(s, t) is Some);
        assert(has_token(s.tokens, t));
    }
}

proof fn lemma_counters_grow(v: ContractView, calls: Seq<Call>, i: nat, k: nat, t: Seq<char>)
    requires
        ids_distinct(v.tokens),
        approval_limits_kept(v, calls),
        i <= k <= calls.len(),
    ensures
        approval_counter(state_at(v, calls, k), t) >= approval_counter(state_at(v, calls, i), t),
    decreases k,
{
    if k > i {
        lemma_counters_grow(v, calls, i, (k - 1) as nat, t);
        let s = state_at(v, calls, (k - 1) as nat);
        lemma_states_valid(v, calls, (k - 1) as nat);
        assert(within_approval_limit(s, calls[k - 1]));
        lemma_step(s, calls[k - 1]);
    }
}

/// Over any sequence of calls on a freshly initialized registry, no two
/// successful mints use the same token id, and the number of tokens is the
/// number of successful mints so far.
pub proof fn lemma_minted_ids_distinct(
    owner: Seq<char>,
    d: ContractMetadataView,
    calls: Seq<Call>,
    i: nat,
    j: nat,
)
    requires
        i < j < calls.len(),
        mints(state_at(init_view(owner, d), calls, i), calls[i as int]),
        mints(state_at(init_view(owner, d), calls, j), calls[j as int]),
    ensures
        call_token(calls[i as int]) != call_token(calls[j as int]),
        state_at(init_view(owner, d), calls, j).tokens.len() == mint_count(
            init_view(owner, d),
            calls,
            j,
        ),
{
    let v = init_view(owner, d);
    let t = call_token(calls[i as int]);
    lemma_states_valid(v, calls, i);
    lemma_states_valid(v, calls, j);
    lemma_step(state_at(v, calls, i), calls[i as int]);
    lemma_step(state_at(v, calls, j), calls[j as int]);
    assert(state_at(v, calls, i + 1) == step(state_at(v, calls, i), calls[i as int]));
    let s1 = state_at(v, calls, i + 1);
    assert(owner_of(s1, t) is Some);
    assert(has_token(s1.tokens, t));
    lemma_owners_kept(v, calls, i + 1, j, t);
    if call_token(calls[j as int]) == t {
        assert(owner_of(state_at(v, calls, j), t) is Some);
        assert(has_token(state_at(v, calls, j).tokens, t));
    }
}

/// Over any sequence of calls on a freshly initialized registry, once a mint
/// has succeeded the token is owned by its receiver in every later state.
pub proof fn lemma_minted_owner_stays(
    owner: Seq<char>,
    d: ContractMetadataView,
    calls: Seq<Call>,
    i: nat,
    k: nat,
)
    requires
        i < k <= calls.len(),
        mints(state_at(init_view(owner, d), calls, i), calls[i as int]),
    ensures
        owner_of(state_at(init_view(owner, d), calls, k), call_token(calls[i as int])) == Some(
            calls[i as int]->Mint_receiver_id,
        ),
{
    let v = init_view(owner, d);
    let t = call_token(calls[i as int]);
    lemma_states_valid(v, calls, i);
    lemma_step(state_at(v, calls, i), calls[i as int]);
    assert(state_at(v, calls, i + 1) == step(state_at(v, calls, i), calls[i as int]));
    assert(has_token(state_at(v, calls, i + 1).tokens, t));
    lemma_owners_kept(v, calls, i + 1, k, t);
}

/// In every state reached by a sequence of calls on a freshly initialized
/// registry, revoking the same approval twice succeeds both times, and the
/// second revocation leaves the registry as the first one left it.
pub proof fn lemma_revoke_idempotent_when_reached(
    owner: Seq<char>,
    d: ContractMetadataView,
    calls: Seq<Call>,
    k: nat,
    id: Seq<char>,
    account: Seq<char>,
    caller: Seq<char>,
)
    requires
        k <= calls.len(),
    ensures
        ({
            let s = state_at(init_view(owner, d), calls, k);
            revoke_outcome(s, id, account, caller) is Ok ==> revoke_outcome(
                revoke_outcome(s, id, account, caller).unwrap(),
                id,
                account,
                caller,
            ) == revoke_outcome(s, id, account, caller)
        }),
{
    lemma_states_valid(init_view(owner, d), calls, k);
    lemma_revoke_idempotent(state_at(init_view(owner, d), calls, k), id, account, caller);
}

/// Over any sequence of calls that keeps to the limit on approvals,
/// starting from any registry state whose token ids are distinct (which
/// every operation keeps, from a fresh registry on), the successful approvals
/// of one token hand out strictly increasing ids, whatever revocations and
/// mints come between.
pub proof fn lemma_approval_ids_strictly_increase(
    v: ContractView,
    calls: Seq<Call>,
    i: nat,
    j: nat,
)
    requires
        ids_distinct(v.tokens),
        i < j < calls.len(),
        approval_limits_kept(v, calls),
        call_token(calls[i as int]) == call_token(calls[j as int]),
        approval_given(state_at(v, calls, i), calls[i as int]) is Some,
        approval_given(state_at(v, calls, j), calls[j as int]) is Some,
    ensures
        approval_given(state_at(v, calls, i), calls[i as int]).unwrap()
            < approval_given(state_at(v, calls, j), calls[j as int]).unwrap(),
{
    let t = call_token(calls[i as int]);
    let si = state_at(v, calls, i);
    let sj = state_at(v, calls, j);
    lemma_states_valid(v, calls, i);
    lemma_states_valid(v, calls, j);
    let ki: int = i as int;
    let kj: int = j as int;
    assert(within_approval_limit(state_at(v, calls, ki as nat), calls[ki]));
    assert(within_approval_limit(state_at(v, calls, kj as nat), calls[kj]));
    lemma_step(si, calls[i as int]);
    lemma_step(sj, calls[j as int]);
    assert(state_at(v, calls, i + 1) == step(si, calls[i as int]));
    lemma_counters_grow(v, calls, i + 1, j, t);
}

/// A cached approval id goes stale: after an approval, its revocation and a
/// new approval of the same account, the account holds the new id, which is
/// larger than the old one, so a check against the old id fails.
pub proof fn lemma_stale_approval_rejected(
    v: ContractView,
    id: Seq<char>,
    account: Seq<char>,
    caller: Seq<char>,
)
    requires
        ids_distinct(v.tokens),
        approval_counter(v, id) + 1 < u64::MAX,
        approve_outcome(v, id, account, caller) is Ok,
    ensures
        ({
            let (v1, n1) = approve_outcome(v, id, account, caller).unwrap();
            &&& revoke_outcome(v1, id, account, caller) is Ok
            &&& revoke_all_outcome(v1, id, caller) is Ok
            &&& approve_outcome(revoke_outcome(v1, id, account, caller).unwrap(), id, account, caller) is Ok
            &&& approve_outcome(revoke_all_outcome(v1, id, caller).unwrap(), id, account, caller) is Ok
            &&& {
                let (v3, n3) = approve_outcome(
                    revoke_outcome(v1, id, account, caller).unwrap(),
                    id,
                    account,
                    caller,
                ).unwrap();
                &&& n1 < n3
                &&& token_of(v3, id) is Some
                &&& token_of(v3, id).unwrap().approvals.grants.contains_key(account)
                &&& token_of(v3, id).unwrap().approvals.grants[account] == n3
            }
            &&& {
                let (v3, n3) = approve_outcome(
                    revoke_all_outcome(v1, id, caller).unwrap(),
                    id,
                    account,
                    caller,
                ).unwrap();
                &&& n1 < n3
                &&& token_of(v3, id) is Some
                &&& token_of(v3, id).unwrap().approvals.grants.contains_key(account)
                &&& token_of(v3, id).unwrap().approvals.grants[account] == n3
            }
        }),
{
    let (v1, n1) = approve_outcome(v, id, account, caller).unwrap();
    let a = v.tokens[token_index(v.tokens, id)].approvals;
    lemma_with_approvals(v, id, ApprovalsView { grants: a.grants.insert(account, n1), counter: n1 });
    lemma_approval_ids_increase(v, id, account, caller);
    assert(owner_of(v1, id) == owner_of(v, id));
    let a1 = v1.tokens[token_index(v1.tokens, id)].approvals;
    lemma_with_approvals(v1, id, ApprovalsView { grants: a1.grants.remove(account), ..a1 });
    lemma_with_approvals(v1, id, ApprovalsView { grants: Map::empty(), ..a1 });
    lemma_approval_ids_increase(v1, id, account, caller);
    let v2 = revoke_outcome(v1, id, account, caller).unwrap();
    let w2 = revoke_all_outcome(v1, id, caller).unwrap();
    assert(owner_of(v2, id) == owner_of(v, id));
    assert(owner_of(w2, id) == owner_of(v, id));
    let a2 = v2.tokens[token_index(v2.tokens, id)].approvals;
    let b2 = w2.tokens[token_index(w2.tokens, id)].approvals;
    lemma_with_approvals(
        v2,
        id,
        ApprovalsView { grants: a2.grants.insert(account, (a2.counter + 1) as u64), counter: (a2.counter + 1) as u64 },
    );
    lemma_with_approvals(
        w2,
        id,
        ApprovalsView { grants: b2.grants.insert(account, (b2.counter + 1) as u64), counter: (b2.counter + 1) as u64 },
    );
    lemma_approval_ids_increase(v2, id, account, caller);
    lemma_approval_ids_increase(w2, id, account, caller);
}

} // verus!
