//! The registry as the host sees it: empty until initialized once, after
//! which every operation goes to the initialized registry.

use vstd::prelude::*;

use crate::account::AccountId;
use crate::contract::{
    approval_counter, approve_outcome, ids_distinct, init_view, mint_outcome, new_token, revoke_all_outcome,
    revoke_outcome, token_of, Contract, ContractView, NftError, Token,
};
use crate::metadata::{valid_contract_metadata, ContractMetadata, TokenMetadata};

verus! {

/// A registry that is either not yet initialized or holds its state.
pub struct Registry {
    contract: Option<Contract>,
}

impl View for Registry {
    type V = Option<ContractView>;

    closed spec fn view(&self) -> Option<ContractView> {
        match self.contract {
            Some(c) => Some(c@),
            None => None,
        }
    }
}

impl Registry {
    /// The held state, where there is one, is well formed.
    pub closed spec fn wf(&self) -> bool {
        match self.contract {
            Some(c) => c.wf(),
            None => true,
        }
    }

    /// A well-formed registry never holds two tokens with one id.
    pub proof fn lemma_ids_distinct(&self)
        requires
            self.wf(),
        ensures
            self@ is Some ==> ids_distinct(self@.unwrap().tokens),
    {
        if let Some(c) = self.contract {
            c.lemma_ids_distinct();
        }
    }

    /// A registry that is not initialized yet.
    pub fn new() -> (r: Registry)
        ensures
            r.wf(),
            r@ is None,
    {
        Registry { contract: None }
    }

    /// Initializes the registry for `owner_id` with the descriptor
    /// `metadata`; allowed once, and only with a well-formed descriptor.
    pub fn initialize(&mut self, owner_id: AccountId, metadata: ContractMetadata) -> (r: Result<
        (),
        NftError,
    >)
        requires
            old(self).wf(),
        ensures
            final(self).wf(),
            old(self)@ is Some ==> r == Err::<(), NftError>(NftError::AlreadyInitialized)
                && final(self)@ == old(self)@,
            old(self)@ is None && !valid_contract_metadata(metadata@) ==> r == Err::<(), NftError>(
                NftError::InvalidMetadata,
            ) && final(self)@ == old(self)@,
            old(self)@ is None && valid_contract_metadata(metadata@) ==> r is Ok && final(self)@
                == Some(init_view(owner_id@, metadata@)),
    {
        if self.contract.is_some() {
            return Err(NftError::AlreadyInitialized);
        }
        match Contract::new(false, owner_id, metadata) {
            Ok(c) => {
                self.contract = Some(c);
                Ok(())
            },
            Err(e) => Err(e),
        }
    }

    /// The initialized registry, for reading.
    pub fn contract(&self) -> (r: Result<&Contract, NftError>)
        requires
            self.wf(),
        ensures
            match self@ {
                Some(v) => r is Ok && r.unwrap()@ == v && r.unwrap().wf(),
                None => r is Err && r == Err::<&Contract, NftError>(NftError::NotInitialized),
            },
    {
        match &self.contract {
            Some(c) => Ok(c),
            None => Err(NftError::NotInitialized),
        }
    }

    /// The contract-level descriptor.
    pub fn nft_metadata(&self) -> (r: Result<ContractMetadata, NftError>)
        requires
            self.wf(),
        ensures
            match self@ {
                Some(v) => r is Ok && r.unwrap()@ == v.metadata,
                None => r is Err && r->Err_0 == NftError::NotInitialized,
            },
    {
        match &self.contract {
            Some(c) => Ok(c.nft_metadata()),
            None => Err(NftError::NotInitialized),
        }
    }

    /// The token with id `token_id`, if there is one.
    pub fn nft_token(&self, token_id: &String) -> (r: Result<Option<Token>, NftError>)
        requires
            self.wf(),
        ensures
            match self@ {
                Some(v) => r is Ok && match token_of(v, token_id@) {
                    Some(t) => r.unwrap() is Some && r.unwrap().unwrap()@ == t,
                    None => r.unwrap() is None,
                },
                None => r is Err && r->Err_0 == NftError::NotInitialized,
            },
    {
        match &self.contract {
            Some(c) => Ok(c.nft_token(token_id)),
            None => Err(NftError::NotInitialized),
        }
    }

    /// Mints the token `token_id` for `receiver_id`; see
    /// [`Contract::nft_mint`]. A refused mint changes nothing.
    pub fn nft_mint(
        &mut self,
        token_id: String,
        receiver_id: AccountId,
        token_metadata: TokenMetadata,
        attached_deposit: u128,
        storage_cost: u128,
    ) -> (r: Result<Token, NftError>)
        requires
            old(self).wf(),
        ensures
            final(self).wf(),
            match old(self)@ {
                None => r is Err && r->Err_0 == NftError::NotInitialized && final(self)@ == old(
                    self,
                )@,
                Some(v) => match mint_outcome(
                    v,
                    token_id@,
                    receiver_id@,
                    token_metadata@,
                    attached_deposit,
                    storage_cost,
                ) {
                    Ok(w) => r is Ok && final(self)@ == Some(w) && r.unwrap()@ == new_token(
                        token_id@,
                        receiver_id@,
                        token_metadata@,
                    ),
                    Err(e) => r is Err && r->Err_0 == e && final(self)@ == old(self)@,
                },
            },
    {
        match &mut self.contract {
            Some(c) => c.nft_mint(token_id, receiver_id, token_metadata, attached_deposit, storage_cost),
            None => Err(NftError::NotInitialized),
        }
    }

    /// Approves `account_id` for the token `token_id` on behalf of `caller`;
    /// see [`Contract::nft_approve`].
    pub fn nft_approve(&mut self, token_id: &String, account_id: AccountId, caller: &AccountId) -> (r:
        Result<u64, NftError>)
        requires
            old(self).wf(),
            old(self)@ is Some ==> approval_counter(old(self)@.unwrap(), token_id@) < u64::MAX,
        ensures
            final(self).wf(),
            match old(self)@ {
                None => r is Err && r->Err_0 == NftError::NotInitialized && final(self)@ == old(
                    self,
                )@,
                Some(v) => match approve_outcome(v, token_id@, account_id@, caller@) {
                    Ok((w, n)) => r == Ok::<u64, NftError>(n) && final(self)@ == Some(w),
                    Err(e) => r is Err && r->Err_0 == e && final(self)@ == old(self)@,
                },
            },
    {
        match &mut self.contract {
            Some(c) => c.nft_approve(token_id, account_id, caller),
            None => Err(NftError::NotInitialized),
        }
    }

    /// Withdraws the approval of `account_id` for the token `token_id` on
    /// behalf of `caller`; see [`Contract::nft_revoke`].
    pub fn nft_revoke(&mut self, token_id: &String, account_id: &AccountId, caller: &AccountId) -> (r:
        Result<(), NftError>)
        requires
            old(self).wf(),
        ensures
            final(self).wf(),
            match old(self)@ {
                None => r is Err && r->Err_0 == NftError::NotInitialized && final(self)@ == old(
                    self,
                )@,
                Some(v) => match revoke_outcome(v, token_id@, account_id@, caller@) {
                    Ok(w) => r is Ok && final(self)@ == Some(w),
                    Err(e) => r is Err && r->Err_0 == e && final(self)@ == old(self)@,
                },
            },
    {
        match &mut self.contract {
            Some(c) => c.nft_revoke(token_id, account_id, caller),
            None => Err(NftError::NotInitialized),
        }
    }

    /// Withdraws every approval of the token `token_id` on behalf of
    /// `caller`; see [`Contract::nft_revoke_all`].
    pub fn nft_revoke_all(&mut self, token_id: &String, caller: &AccountId) -> (r: Result<
        (),
        NftError,
    >)
        requires
            old(self).wf(),
        ensures
            final(self).wf(),
            match old(self)@ {
                None => r is Err && r->Err_0 == NftError::NotInitialized && final(self)@ == old(
                    self,
                )@,
                Some(v) => match revoke_all_outcome(v, token_id@, caller@) {
                    Ok(w) => r is Ok && final(self)@ == Some(w),
                    Err(e) => r is Err && r->Err_0 == e && final(self)@ == old(self)@,
                },
            },
    {
        match &mut self.contract {
            Some(c) => c.nft_revoke_all(token_id, caller),
            None => Err(NftError::NotInitialized),
        }
    }
}

} // verus!
