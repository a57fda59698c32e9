//! The registry: tokens with their owners, metadata and approvals, the
//! contract-level descriptor, and the operations that mint, approve, revoke
//! and enumerate.

use vstd::prelude::*;

use crate::account::AccountId;
use crate::approvals::{ApprovalTable, ApprovalsView};
use crate::metadata::{
    default_contract_metadata, valid_contract_metadata, ContractMetadata, ContractMetadataView, TokenMetadata,
    TokenMetadataView,
};

verus! {

/// Why an operation of the registry was refused.
#[derive(Debug, Clone, Copy, PartialEq, Eq, Structural)]
pub enum NftError {
    AlreadyInitialized,
    NotInitialized,
    InvalidMetadata,
    DuplicateToken,
    InsufficientDeposit,
    NotOwner,
    TokenNotFound,
}

/// The model of a token: its id, owner, metadata and approvals.
pub ghost struct TokenView {
    pub token_id: Seq<char>,
    pub owner_id: Seq<char>,
    pub metadata: TokenMetadataView,
    pub approvals: ApprovalsView,
}

/// A token as the registry holds it and hands it out.
pub struct Token {
    pub token_id: String,
    pub owner_id: AccountId,
    pub metadata: TokenMetadata,
    pub approvals: ApprovalTable,
}

impl View for Token {
    type V = TokenView;

    open spec fn view(&self) -> TokenView {
        TokenView {
            token_id: self.token_id@,
            owner_id: self.owner_id@,
            metadata: self.metadata@,
            approvals: self.approvals@,
        }
    }
}

impl Token {
    /// Its approval table is well formed.
    pub open spec fn wf(&self) -> bool {
        self.approvals.wf()
    }

    /// A copy of the token.
    pub fn copy(&self) -> (r: Token)
        requires
            self.wf(),
        ensures
            r.wf(),
            r@ == self@,
    {
        Token {
            token_id: self.token_id.clone(),
            owner_id: self.owner_id.clone(),
            metadata: self.metadata.copy(),
            approvals: self.approvals.copy(),
        }
    }
}

/// The model of the registry: the account that created it, its descriptor,
/// and its tokens in the order they were minted.
pub ghost struct ContractView {
    pub owner_id: Seq<char>,
    pub metadata: ContractMetadataView,
    pub tokens: Seq<TokenView>,
}

/// No two tokens share an id.
pub open spec fn ids_distinct(tokens: Seq<TokenView>) -> bool {
    forall|i: int, j: int|
        0 <= i < tokens.len() && 0 <= j < tokens.len() && i != j ==> (#[trigger] tokens[i]).token_id
            != (#[trigger] tokens[j]).token_id
}

/// Some token has id `id`.
pub open spec fn has_token(tokens: Seq<TokenView>, id: Seq<char>) -> bool {
    exists|i: int| 0 <= i < tokens.len() && (#[trigger] tokens[i]).token_id == id
}

/// The position of the token with id `id`, where there is one.
pub open spec fn token_index(tokens: Seq<TokenView>, id: Seq<char>) -> int {
    choose|i: int| 0 <= i < tokens.len() && (#[trigger] tokens[i]).token_id == id
}

/// The token with id `id`, if there is one.
pub open spec fn token_of(v: ContractView, id: Seq<char>) -> Option<TokenView> {
    if has_token(v.tokens, id) {
        Some(v.tokens[token_index(v.tokens, id)])
    } else {
        None
    }
}

/// The owner of the token with id `id`, if there is one.
pub open spec fn owner_of(v: ContractView, id: Seq<char>) -> Option<Seq<char>> {
    match token_of(v, id) {
        Some(t) => Some(t.owner_id),
        None => None,
    }
}

/// The last approval id handed out for the token with id `id` (0 for none).
pub open spec fn approval_counter(v: ContractView, id: Seq<char>) -> u64 {
    match token_of(v, id) {
        Some(t) => t.approvals.counter,
        None => 0,
    }
}

/// A freshly initialized registry.
pub open spec fn init_view(owner_id: Seq<char>, metadata: ContractMetadataView) -> ContractView {
    ContractView { owner_id, metadata, tokens: Seq::empty() }
}

/// A new token: its owner, its metadata, and no approvals yet.
pub open spec fn new_token(
    id: Seq<char>,
    owner_id: Seq<char>,
    metadata: TokenMetadataView,
) -> TokenView {
    TokenView {
        token_id: id,
        owner_id,
        metadata,
        approvals: ApprovalsView { grants: Map::empty(), counter: 0 },
    }
}

/// The registry after minting a token that is not there yet.
pub open spec fn mint_view(
    v: ContractView,
    id: Seq<char>,
    owner_id: Seq<char>,
    metadata: TokenMetadataView,
) -> ContractView {
    ContractView { tokens: v.tokens.push(new_token(id, owner_id, metadata)), ..v }
}

/// What a mint does: a duplicate id is refused first, then a deposit below
/// the cost of the new token's storage; otherwise the token is added.
pub open spec fn mint_outcome(
    v: ContractView,
    id: Seq<char>,
    owner_id: Seq<char>,
    metadata: TokenMetadataView,
    attached_deposit: u128,
    storage_cost: u128,
) -> Result<ContractView, NftError> {
    if has_token(v.tokens, id) {
        Err(NftError::DuplicateToken)
    } else if attached_deposit < storage_cost {
        Err(NftError::InsufficientDeposit)
    } else {
        Ok(mint_view(v, id, owner_id, metadata))
    }
}

/// The check shared by approve and revoke: the token exists and `caller`
/// owns it.
pub open spec fn owner_check(v: ContractView, id: Seq<char>, caller: Seq<char>) -> Result<
    (),
    NftError,
> {
    if !has_token(v.tokens, id) {
        Err(NftError::TokenNotFound)
    } else if v.tokens[token_index(v.tokens, id)].owner_id != caller {
        Err(NftError::NotOwner)
    } else {
        Ok(())
    }
}

/// The registry with the approvals of the token with id `id` replaced.
pub open spec fn with_approvals(v: ContractView, id: Seq<char>, a: ApprovalsView) -> ContractView {
    let i = token_index(v.tokens, id);
    ContractView { tokens: v.tokens.update(i, TokenView { approvals: a, ..v.tokens[i] }), ..v }
}

/// What an approval does: after the owner check, `account` is approved under
/// the token's counter plus one, which becomes the new counter and is returned.
pub open spec fn approve_outcome(
    v: ContractView,
    id: Seq<char>,
    account: Seq<char>,
    caller: Seq<char>,
) -> Result<(ContractView, u64), NftError> {
    match owner_check(v, id, caller) {
        Err(e) => Err(e),
        Ok(_) => {
            let a = v.tokens[token_index(v.tokens, id)].approvals;
            let n = (a.counter + 1) as u64;
            Ok((with_approvals(v, id, ApprovalsView { grants: a.grants.insert(account, n), counter: n }), n))
        },
    }
}

/// What a revocation does: after the owner check, `account` loses its
/// approval of the token, if it had one; the counter stays.
pub open spec fn revoke_outcome(
    v: ContractView,
    id: Seq<char>,
    account: Seq<char>,
    caller: Seq<char>,
) -> Result<ContractView, NftError> {
    match owner_check(v, id, caller) {
        Err(e) => Err(e),
        Ok(_) => {
            let a = v.tokens[token_index(v.tokens, id)].approvals;
            Ok(with_approvals(v, id, ApprovalsView { grants: a.grants.remove(account), ..a }))
        },
    }
}

/// What revoking all does: after the owner check, the token keeps no
/// approval; the counter stays.
pub open spec fn revoke_all_outcome(
    v: ContractView,
    id: Seq<char>,
    caller: Seq<char>,
) -> Result<ContractView, NftError> {
    match owner_check(v, id, caller) {
        Err(e) => Err(e),
        Ok(_) => {
            let a = v.tokens[token_index(v.tokens, id)].approvals;
            Ok(with_approvals(v, id, ApprovalsView { grants: Map::empty(), ..a }))
        },
    }
}

/// The tokens owned by `owner`, in the order they were minted.
pub open spec fn owned_by(tokens: Seq<TokenView>, owner: Seq<char>) -> Seq<TokenView> {
    tokens.filter(|t: TokenView| t.owner_id == owner)
}

/// A page of `s`: from position `from`, at most `limit` items (all that
/// remain when no limit is given); empty when `from` is past the end.
pub open spec fn page<A>(s: Seq<A>, from: int, limit: Option<u64>) -> Seq<A> {
    if from >= s.len() {
        Seq::empty()
    } else {
        let end = match limit {
            Some(l) => if from + l < s.len() {
                from + l
            } else {
                s.len() as int
            },
            None => s.len() as int,
        };
        s.subrange(from, end)
    }
}

/// With distinct ids, a token found at `i` is the one `token_index` picks.
pub(crate) proof fn lemma_index_of(tokens: Seq<TokenView>, id: Seq<char>, i: int)
    requires
        ids_distinct(tokens),
        0 <= i < tokens.len(),
        tokens[i].token_id == id,
    ensures
        has_token(tokens, id),
        token_index(tokens, id) == i,
{
    assert(has_token(tokens, id));
    let j = token_index(tokens, id);
    if j != i {
        assert(tokens[i].token_id != tokens[j].token_id);
    }
}

/// The refund owed after paying for storage: what is left of the deposit,
/// where that is more than one unit, and nothing otherwise.
pub fn storage_refund(attached_deposit: u128, storage_cost: u128) -> (r: u128)
    requires
        storage_cost <= attached_deposit,
    ensures
        r == (if attached_deposit - storage_cost > 1 {
            attached_deposit - storage_cost
        } else {
            0
        }),
{
    let refund = attached_deposit - storage_cost;
    if refund > 1 {
        refund
    } else {
        0
    }
}

/// The models of a sequence of tokens.
pub open spec fn views(s: Seq<Token>) -> Seq<TokenView> {
    s.map_values(|t: Token| t@)
}

/// The start of a page: the given index, or 0.
pub open spec fn start_of(from_index: Option<u128>) -> int {
    match from_index {
        Some(f) => f as int,
        None => 0,
    }
}

proof fn lemma_owned_by_push(s: Seq<TokenView>, x: TokenView, owner: Seq<char>)
    ensures
        owned_by(s.push(x), owner) == (if x.owner_id == owner {
            owned_by(s, owner).push(x)
        } else {
            owned_by(s, owner)
        }),
{
    reveal(Seq::filter);
    assert(s.push(x).drop_last() =~= s);
}

/// The page of `items` that starts at `from_index` and holds at most `limit`
/// tokens, as copies.
fn take_page(items: &Vec<Token>, from_index: Option<u128>, limit: Option<u64>) -> (r: Vec<Token>)
    requires
        forall|i: int| 0 <= i < items@.len() ==> (#[trigger] items@[i]).wf(),
    ensures
        views(r@) == page(views(items@), start_of(from_index), limit),
        forall|i: int| 0 <= i < r@.len() ==> (#[trigger] r@[i]).wf(),
{
    let mut out: Vec<Token> = Vec::new();
    let start: usize = match from_index {
        Some(f) => if f < items.len() as u128 {
            f as usize
        } else {
            return out;
        },
        None => 0,
    };
    if start >= items.len() {
        return out;
    }
    let end: usize = match limit {
        Some(l) => if (l as u128) < (items.len() - start) as u128 {
            start + l as usize
        } else {
            items.len()
        },
        None => items.len(),
    };
    let mut i: usize = start;
    while i < end
        invariant
            start <= i <= end <= items@.len(),
            forall|k: int| 0 <= k < items@.len() ==> (#[trigger] items@[k]).wf(),
            views(out@) == views(items@).subrange(start as int, i as int),
            forall|k: int| 0 <= k < out@.len() ==> (#[trigger] out@[k]).wf(),
        decreases end - i,
    {
        let t = items[i].copy();
        let ghost prev = out@;
        assert(t@ == views(items@)[i as int]);
        out.push(t);
        assert(views(out@) =~= views(prev).push(views(items@)[i as int]));
        i = i + 1;
        assert(views(out@) =~= views(items@).subrange(start as int, i as int));
    }
    assert(views(out@) =~= page(views(items@), start_of(from_index), limit));
    out
}

/// An initialized registry.
pub struct Contract {
    owner_id: AccountId,
    metadata: ContractMetadata,
    tokens: Vec<Token>,
}

impl View for Contract {
    type V = ContractView;

    closed spec fn view(&self) -> ContractView {
        ContractView {
            owner_id: self.owner_id@,
            metadata: self.metadata@,
            tokens: self.tokens@.map_values(|t: Token| t@),
        }
    }
}

impl Contract {
    /// The descriptor is well formed, token ids are distinct, and each
    /// token's approvals are well formed.
    pub closed spec fn wf(&self) -> bool {
        &&& valid_contract_metadata(self.metadata@)
        &&& ids_distinct(self@.tokens)
        &&& forall|i: int| 0 <= i < self.tokens@.len() ==> (#[trigger] self.tokens@[i]).wf()
    }

    /// A well-formed registry never holds two tokens with one id.
    pub proof fn lemma_ids_distinct(&self)
        requires
            self.wf(),
        ensures
            ids_distinct(self@.tokens),
    {
    }

    /// Creates the registry for `owner_id` with the descriptor `metadata`.
    /// `state_exists` tells whether the host already holds a registry.
    pub fn new(state_exists: bool, owner_id: AccountId, metadata: ContractMetadata) -> (r: Result<
        Contract,
        NftError,
    >)
        ensures
            state_exists ==> r == Err::<Contract, NftError>(NftError::AlreadyInitialized),
            !state_exists && !valid_contract_metadata(metadata@) ==> r == Err::<
                Contract,
                NftError,
            >(NftError::InvalidMetadata),
            !state_exists && valid_contract_metadata(metadata@) ==> r is Ok,
            r is Ok ==> r.unwrap().wf() && r.unwrap()@ == init_view(owner_id@, metadata@),
    {
        if state_exists {
            return Err(NftError::AlreadyInitialized);
        }
        if !metadata.is_valid() {
            return Err(NftError::InvalidMetadata);
        }
        let c = Contract { owner_id, metadata, tokens: Vec::new() };
        assert(c@.tokens =~= Seq::<TokenView>::empty());
        Ok(c)
    }

    /// Creates the registry for `owner_id` with the default descriptor.
    pub fn new_default_meta(state_exists: bool, owner_id: AccountId) -> (r: Result<
        Contract,
        NftError,
    >)
        ensures
            state_exists ==> r == Err::<Contract, NftError>(NftError::AlreadyInitialized),
            !state_exists ==> r is Ok,
            r is Ok ==> r.unwrap().wf() && r.unwrap()@ == init_view(
                owner_id@,
                default_contract_metadata(),
            ),
            valid_contract_metadata(default_contract_metadata()),
    {
        Self::new(state_exists, owner_id, ContractMetadata::default_meta())
    }

    /// The contract-level descriptor.
    pub fn nft_metadata(&self) -> (r: ContractMetadata)
        ensures
            r@ == self@.metadata,
    {
        self.metadata.copy()
    }

    /// The account that created the registry.
    pub fn owner_id(&self) -> (r: &AccountId)
        ensures
            r@ == self@.owner_id,
    {
        &self.owner_id
    }

    fn find(&self, token_id: &String) -> (r: Option<usize>)
        requires
            self.wf(),
        ensures
            match r {
                Some(i) => i < self@.tokens.len() && has_token(self@.tokens, token_id@)
                    && token_index(self@.tokens, token_id@) == i,
                None => !has_token(self@.tokens, token_id@),
            },
    {
        let mut i: usize = 0;
        while i < self.tokens.len()
            invariant
                self.wf(),
                i <= self.tokens@.len(),
                forall|k: int| 0 <= k < i ==> (#[trigger] self@.tokens[k]).token_id != token_id@,
            decreases self.tokens@.len() - i,
        {
            if self.tokens[i].token_id == *token_id {
                proof {
                    lemma_index_of(self@.tokens, token_id@, i as int);
                }
                return Some(i);
            }
            i = i + 1;
        }
        None
    }

    /// Mints the token `token_id` for `receiver_id`. Any caller may mint:
    /// the registry's owner is not asked. The caller attached
    /// `attached_deposit`; `storage_cost` is what the new token's storage
    /// costs. A refused mint changes nothing.
    pub fn nft_mint(
        &mut self,
        token_id: String,
        receiver_id: AccountId,
        token_metadata: TokenMetadata,
        attached_deposit: u128,
        storage_cost: u128,
    ) -> (r: Result<Token, NftError>)
        requires
            old(self).wf(),
        ensures
            final(self).wf(),
            ids_distinct(final(self)@.tokens),
            match mint_outcome(
                old(self)@,
                token_id@,
                receiver_id@,
                token_metadata@,
                attached_deposit,
                storage_cost,
            ) {
                Ok(v) => r is Ok && final(self)@ == v && r.unwrap().wf() && r.unwrap()@ == new_token(
                    token_id@,
                    receiver_id@,
                    token_metadata@,
                ),
                Err(e) => r == Err::<Token, NftError>(e) && final(self)@ == old(self)@,
            },
    {
        match self.find(&token_id) {
            Some(_) => {
                return Err(NftError::DuplicateToken);
            },
            None => {},
        }
        if attached_deposit < storage_cost {
            return Err(NftError::InsufficientDeposit);
        }
        let token = Token {
            token_id,
            owner_id: receiver_id,
            metadata: token_metadata,
            approvals: ApprovalTable::new(),
        };
        let out = token.copy();
        let ghost before = self@.tokens;
        self.tokens.push(token);
        assert(self@.tokens =~= before.push(out@));
        assert(ids_distinct(self@.tokens)) by {
            assert forall|i: int, j: int|
                0 <= i < self@.tokens.len() && 0 <= j < self@.tokens.len() && i != j implies (
            #[trigger] self@.tokens[i]).token_id != (#[trigger] self@.tokens[j]).token_id by {
                if i == before.len() {
                    assert(!has_token(before, out@.token_id));
                    assert(self@.tokens[j] == before[j]);
                } else if j == before.len() {
                    assert(!has_token(before, out@.token_id));
                    assert(self@.tokens[i] == before[i]);
                }
            }
        }
        Ok(out)
    }

    /// The token with id `token_id`, if there is one.
    pub fn nft_token(&self, token_id: &String) -> (r: Option<Token>)
        requires
            self.wf(),
        ensures
            match token_of(self@, token_id@) {
                Some(t) => r is Some && r.unwrap()@ == t && r.unwrap().wf(),
                None => r is None,
            },
    {
        match self.find(token_id) {
            Some(i) => Some(self.tokens[i].copy()),
            None => None,
        }
    }

    /// The owner of the token with id `token_id`, if there is one.
    pub fn nft_owner_of(&self, token_id: &String) -> (r: Option<AccountId>)
        requires
            self.wf(),
        ensures
            match owner_of(self@, token_id@) {
                Some(o) => r is Some && r.unwrap()@ == o,
                None => r is None,
            },
    {
        match self.find(token_id) {
            Some(i) => Some(self.tokens[i].owner_id.clone()),
            None => None,
        }
    }

    /// Finds the token and checks that `caller` owns it.
    fn owned_index(&self, token_id: &String, caller: &AccountId) -> (r: Result<usize, NftError>)
        requires
            self.wf(),
        ensures
            match owner_check(self@, token_id@, caller@) {
                Ok(_) => r is Ok && r.unwrap() < self@.tokens.len() && r.unwrap() == token_index(
                    self@.tokens,
                    token_id@,
                ),
                Err(e) => r == Err::<usize, NftError>(e),
            },
    {
        match self.find(token_id) {
            None => Err(NftError::TokenNotFound),
            Some(i) => {
                if self.tokens[i].owner_id.same(caller) {
                    Ok(i)
                } else {
                    Err(NftError::NotOwner)
                }
            },
        }
    }

    /// Replaces the approvals of the token at position `i`.
    fn put_approvals(&mut self, i: usize, approvals: ApprovalTable)
        requires
            old(self).wf(),
            i < old(self)@.tokens.len(),
            approvals.wf(),
        ensures
            final(self).wf(),
            final(self)@ == with_approvals(
                old(self)@,
                old(self)@.tokens[i as int].token_id,
                approvals@,
            ),
    {
        proof {
            lemma_index_of(self@.tokens, self@.tokens[i as int].token_id, i as int);
        }
        let ghost before = self@;
        let mut token = self.tokens.remove(i);
        token.approvals = approvals;
        self.tokens.insert(i, token);
        assert(self@.tokens =~= before.tokens.update(
            i as int,
            TokenView { approvals: approvals@, ..before.tokens[i as int] },
        ));
        assert(ids_distinct(self@.tokens)) by {
            assert forall|a: int, b: int|
                0 <= a < self@.tokens.len() && 0 <= b < self@.tokens.len() && a != b implies (
            #[trigger] self@.tokens[a]).token_id != (#[trigger] self@.tokens[b]).token_id by {
                assert(self@.tokens[a].token_id == before.tokens[a].token_id);
                assert(self@.tokens[b].token_id == before.tokens[b].token_id);
            }
        }
        assert forall|k: int| 0 <= k < self.tokens@.len() implies (#[trigger] self.tokens@[k]).wf() by {
            if k != i {
                assert(self.tokens@[k] == old(self).tokens@[k]);
            }
        }
    }

    /// Approves `account_id` for the token `token_id`, on behalf of `caller`,
    /// who must own it; returns the new approval id.
    pub fn nft_approve(&mut self, token_id: &String, account_id: AccountId, caller: &AccountId) -> (r:
        Result<u64, NftError>)
        requires
            old(self).wf(),
            approval_counter(old(self)@, token_id@) < u64::MAX,
        ensures
            final(self).wf(),
            ids_distinct(final(self)@.tokens),
            match approve_outcome(old(self)@, token_id@, account_id@, caller@) {
                Ok((v, n)) => r == Ok::<u64, NftError>(n) && final(self)@ == v,
                Err(e) => r == Err::<u64, NftError>(e) && final(self)@ == old(self)@,
            },
    {
        let i = match self.owned_index(token_id, caller) {
            Ok(i) => i,
            Err(e) => {
                return Err(e);
            },
        };
        let mut approvals = self.tokens[i].approvals.copy();
        let n = approvals.grant(account_id);
        self.put_approvals(i, approvals);
        Ok(n)
    }

    /// Withdraws the approval of `account_id` for the token `token_id`, on
    /// behalf of `caller`, who must own it. Withdrawing an approval that does
    /// not exist succeeds and changes nothing.
    pub fn nft_revoke(&mut self, token_id: &String, account_id: &AccountId, caller: &AccountId) -> (r:
        Result<(), NftError>)
        requires
            old(self).wf(),
        ensures
            final(self).wf(),
            ids_distinct(final(self)@.tokens),
            match revoke_outcome(old(self)@, token_id@, account_id@, caller@) {
                Ok(v) => r is Ok && final(self)@ == v,
                Err(e) => r == Err::<(), NftError>(e) && final(self)@ == old(self)@,
            },
    {
        let i = match self.owned_index(token_id, caller) {
            Ok(i) => i,
            Err(e) => {
                return Err(e);
            },
        };
        let mut approvals = self.tokens[i].approvals.copy();
        approvals.revoke(account_id);
        self.put_approvals(i, approvals);
        Ok(())
    }

    /// Withdraws every approval of the token `token_id`, on behalf of
    /// `caller`, who must own it. The approval counter is kept.
    pub fn nft_revoke_all(&mut self, token_id: &String, caller: &AccountId) -> (r: Result<
        (),
        NftError,
    >)
        requires
            old(self).wf(),
        ensures
            final(self).wf(),
            ids_distinct(final(self)@.tokens),
            match revoke_all_outcome(old(self)@, token_id@, caller@) {
                Ok(v) => r is Ok && final(self)@ == v,
                Err(e) => r == Err::<(), NftError>(e) && final(self)@ == old(self)@,
            },
    {
        let i = match self.owned_index(token_id, caller) {
            Ok(i) => i,
            Err(e) => {
                return Err(e);
            },
        };
        let mut approvals = self.tokens[i].approvals.copy();
        approvals.revoke_all();
        self.put_approvals(i, approvals);
        Ok(())
    }

    /// Whether `account_id` is approved for the token `token_id`, and, when
    /// `approval_id` is given, under exactly that id.
    pub fn nft_is_approved(
        &self,
        token_id: &String,
        account_id: &AccountId,
        approval_id: Option<u64>,
    ) -> (r: Result<bool, NftError>)
        requires
            self.wf(),
        ensures
            match token_of(self@, token_id@) {
                Some(t) => r == Ok::<bool, NftError>(
                    t.approvals.grants.contains_key(account_id@) && match approval_id {
                        Some(id) => t.approvals.grants[account_id@] == id,
                        None => true,
                    },
                ),
                None => r == Err::<bool, NftError>(NftError::TokenNotFound),
            },
    {
        match self.find(token_id) {
            Some(i) => Ok(self.tokens[i].approvals.is_approved(account_id, approval_id)),
            None => Err(NftError::TokenNotFound),
        }
    }
    /// The number of tokens.
    pub fn nft_total_supply(&self) -> (r: u128)
        ensures
            r == self@.tokens.len(),
    {
        self.tokens.len() as u128
    }

    /// The tokens in the order they were minted, from `from_index` (0 when
    /// not given), at most `limit` of them; empty past the end.
    pub fn nft_tokens(&self, from_index: Option<u128>, limit: Option<u64>) -> (r: Vec<Token>)
        requires
            self.wf(),
        ensures
            views(r@) == page(self@.tokens, start_of(from_index), limit),
            forall|i: int| 0 <= i < r@.len() ==> (#[trigger] r@[i]).wf(),
    {
        take_page(&self.tokens, from_index, limit)
    }

    /// Copies of the tokens that `owner` holds, in the order they were minted.
    fn owned_tokens(&self, owner: &AccountId) -> (r: Vec<Token>)
        requires
            self.wf(),
        ensures
            views(r@) == owned_by(self@.tokens, owner@),
            forall|i: int| 0 <= i < r@.len() ==> (#[trigger] r@[i]).wf(),
    {
        let mut out: Vec<Token> = Vec::new();
        let mut i: usize = 0;
        while i < self.tokens.len()
            invariant
                self.wf(),
                i <= self.tokens@.len(),
                views(out@) == owned_by(self@.tokens.subrange(0, i as int), owner@),
                forall|k: int| 0 <= k < out@.len() ==> (#[trigger] out@[k]).wf(),
            decreases self.tokens@.len() - i,
        {
            proof {
                assert(self@.tokens.subrange(0, i + 1) =~= self@.tokens.subrange(0, i as int).push(
                    self@.tokens[i as int],
                ));
                lemma_owned_by_push(self@.tokens.subrange(0, i as int), self@.tokens[i as int], owner@);
            }
            if self.tokens[i].owner_id.same(owner) {
                let t = self.tokens[i].copy();
                let ghost prev = out@;
                assert(t@ == self@.tokens[i as int]);
                out.push(t);
                assert(views(out@) =~= views(prev).push(self@.tokens[i as int]));
                assert(views(out@) =~= owned_by(self@.tokens.subrange(0, i + 1), owner@));
            }
            i = i + 1;
        }
        assert(self@.tokens.subrange(0, i as int) =~= self@.tokens);
        out
    }

    /// The number of tokens that `owner` holds.
    pub fn nft_supply_for_owner(&self, owner: &AccountId) -> (r: u128)
        requires
            self.wf(),
        ensures
            r == owned_by(self@.tokens, owner@).len(),
    {
        let mut n: u128 = 0;
        let mut i: usize = 0;
        while i < self.tokens.len()
            invariant
                self.wf(),
                i <= self.tokens@.len(),
                n == owned_by(self@.tokens.subrange(0, i as int), owner@).len(),
                n <= i,
            decreases self.tokens@.len() - i,
        {
            proof {
                assert(self@.tokens.subrange(0, i + 1) =~= self@.tokens.subrange(0, i as int).push(
                    self@.tokens[i as int],
                ));
                lemma_owned_by_push(self@.tokens.subrange(0, i as int), self@.tokens[i as int], owner@);
            }
            if self.tokens[i].owner_id.same(owner) {
                n = n + 1;
            }
            i = i + 1;
        }
        assert(self@.tokens.subrange(0, i as int) =~= self@.tokens);
        n
    }

    /// The tokens that `owner` holds, in the order they were minted, from
    /// `from_index` (0 when not given), at most `limit` of them; empty past
    /// the end.
    pub fn nft_tokens_for_owner(
        &self,
        owner: &AccountId,
        from_index: Option<u128>,
        limit: Option<u64>,
    ) -> (r: Vec<Token>)
        requires
            self.wf(),
        ensures
            views(r@) == page(owned_by(self@.tokens, owner@), start_of(from_index), limit),
            forall|i: int| 0 <= i < r@.len() ==> (#[trigger] r@[i]).wf(),
    {
        let owned = self.owned_tokens(owner);
        take_page(&owned, from_index, limit)
    }
}

} // verus!
