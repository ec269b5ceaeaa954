//! The factory: configuration, the two tables, and the two-phase creation
//! of a pair with a single staging slot.

use crate::asset::{AssetInfoRaw, CreatePairRequirements, PairInfoRaw};
use crate::byte_order::{compare_bytes, lemma_trichotomy, ByteOrder};
use crate::pair_key::{pair_key, pair_key_of};
use crate::decimals::{add_allow_native_token, denom_key, native_token_decimals};
use crate::registry::{keyed, lemma_keyed_after_put, PairRegistry};
use crate::storage::{empty_storage, stored_decimals, unread_decimals};
use crate::error::FactoryError;
use crate::state::{cursor_bound, page_limit_of, read_pairs};
use crate::state::{Config, TmpPairInfo};
use crate::listing::{has_key, listing_blocked, lookup, page_of};
use vstd::prelude::*;

verus! {

/// What the factory asks of whoever instantiates contracts: make a pool
/// from the pair template, with this context.
#[derive(Debug, Clone, PartialEq, Eq)]
pub struct InstantiateRequest {
    pub code_id: u64,
    pub token_code_id: u64,
    pub asset_infos: [AssetInfoRaw; 2],
    pub asset_decimals: [u8; 2],
    pub requirements: CreatePairRequirements,
}

/// The whole state of the factory.
pub struct Factory {
    pub config: Config,
    pub pairs: PairRegistry,
    pub native_decimals: cosmwasm_std::MemoryStorage,
    pub pending: Option<TmpPairInfo>,
}

impl Factory {
    /// The registry is well formed, every record in it stands under the
    /// key of its own pair, and so does what is staged.
    pub open spec fn wf(&self) -> bool {
        &&& self.pairs.wf()
        &&& keyed(self.pairs@)
        &&& self.pending is Some ==> self.pending->Some_0.pair_key@ == pair_key_of(
            self.pending->Some_0.asset_infos[0]@,
            self.pending->Some_0.asset_infos[1]@,
        )
    }

    /// A factory with no pair, no decimals and nothing staged.
    pub fn new(owner: Vec<u8>, pair_code_id: u64, token_code_id: u64) -> (factory: Self)
        ensures
            factory.wf(),
            factory.config == (Config { owner, pair_code_id, token_code_id }),
            factory.pairs@.len() == 0,
            forall|denom: Seq<u8>| !stored_decimals(factory.native_decimals).contains_key(denom),
            forall|denom: Seq<u8>| !unread_decimals(factory.native_decimals).contains(denom),
            forall|k: Seq<u8>| !factory.pairs.unreadable().contains(k),
            factory.pending is None,
    {
        Factory {
            config: Config { owner, pair_code_id, token_code_id },
            pairs: PairRegistry::new(),
            native_decimals: empty_storage(),
            pending: None,
        }
    }

    /// The configuration.
    pub fn get_config(&self) -> (config: &Config)
        ensures
            *config == self.config,
    {
        &self.config
    }

    /// Changes the configuration on behalf of `caller`: refused unless the
    /// caller is the owner; of the three fields only those given change.
    pub fn update_config(
        &mut self,
        caller: &[u8],
        owner: Option<Vec<u8>>,
        token_code_id: Option<u64>,
        pair_code_id: Option<u64>,
    ) -> (result: Result<(), FactoryError>)
        ensures
            caller@ != old(self).config.owner@ ==> result == Err::<(), FactoryError>(
                FactoryError::Unauthorized,
            ) && *final(self) == *old(self),
            caller@ == old(self).config.owner@ ==> result is Ok,
            result is Ok ==> {
                &&& final(self).pairs == old(self).pairs
                &&& final(self).native_decimals == old(self).native_decimals
                &&& final(self).pending == old(self).pending
                &&& final(self).config.owner == (match owner {
                    Some(o) => o,
                    None => old(self).config.owner,
                })
                &&& final(self).config.token_code_id == (match token_code_id {
                    Some(id) => id,
                    None => old(self).config.token_code_id,
                })
                &&& final(self).config.pair_code_id == (match pair_code_id {
                    Some(id) => id,
                    None => old(self).config.pair_code_id,
                })
            },
    {
        proof {
            lemma_trichotomy(caller@, self.config.owner@);
        }
        match compare_bytes(caller, self.config.owner.as_slice()) {
            ByteOrder::Equal => {},
            _ => {
                return Err(FactoryError::Unauthorized);
            },
        }
        if let Some(o) = owner {
            self.config.owner = o;
        }
        if let Some(id) = token_code_id {
            self.config.token_code_id = id;
        }
        if let Some(id) = pair_code_id {
            self.config.pair_code_id = id;
        }
        Ok(())
    }

    /// Sets the precision of a native denom; a second call for the same
    /// denom replaces the first. This always succeeds.
    pub fn add_native_token_decimals(&mut self, denom: String, decimals: u8) -> (result: Result<
        (),
        FactoryError,
    >)
        requires
            old(self).wf(),
        ensures
            final(self).wf(),
            final(self).config == old(self).config,
            final(self).pairs == old(self).pairs,
            final(self).pending == old(self).pending,
            result is Ok,
            stored_decimals(final(self).native_decimals) == stored_decimals(
                old(self).native_decimals,
            ).insert(denom_key(denom@), decimals),
            unread_decimals(final(self).native_decimals) == unread_decimals(
                old(self).native_decimals,
            ).remove(denom_key(denom@)),
    {
        add_allow_native_token(&mut self.native_decimals, denom, decimals)
    }

    /// The precision stored for a native denom: the stored value where the
    /// table has one, the error `Storage` where what the storage holds for
    /// the denom cannot be read, the error `NotFound` otherwise.
    pub fn get_native_token_decimals(&self, denom: &str) -> (result: Result<u8, FactoryError>)
        ensures
            stored_decimals(self.native_decimals).contains_key(denom_key(denom@)) ==> result
                == Ok::<u8, FactoryError>(stored_decimals(self.native_decimals)[denom_key(denom@)]),
            unread_decimals(self.native_decimals).contains(denom_key(denom@)) ==> result == Err::<
                u8,
                FactoryError,
            >(FactoryError::Storage),
            !stored_decimals(self.native_decimals).contains_key(denom_key(denom@))
                && !unread_decimals(self.native_decimals).contains(denom_key(denom@)) ==> result
                == Err::<u8, FactoryError>(FactoryError::NotFound),
    {
        native_token_decimals(&self.native_decimals, denom)
    }

    /// The record of a pair, whatever the order of its two identifiers:
    /// the record where the pair is registered, the error `Storage` where
    /// what the storage holds under the pair's key cannot be read, the
    /// error `NotFound` otherwise.
    pub fn get_pair(&self, asset_infos: &[AssetInfoRaw; 2]) -> (result: Result<
        &PairInfoRaw,
        FactoryError,
    >)
        requires
            self.wf(),
        ensures
            match lookup(self.pairs@, pair_key_of(asset_infos[0]@, asset_infos[1]@)) {
                Some(record) => result is Ok && *result->Ok_0 == record,
                None => result is Err && result->Err_0 == (if self.pairs.unreadable().contains(
                    pair_key_of(asset_infos[0]@, asset_infos[1]@),
                ) {
                    FactoryError::Storage
                } else {
                    FactoryError::NotFound
                }),
            },
    {
        let key = pair_key(asset_infos);
        self.pairs.get(key.as_slice())
    }

    /// One page of the registered pairs in ascending key order. It fails,
    /// with `Storage`, exactly where a key that cannot be read comes up
    /// after the cursor's bound before the page is full.
    pub fn list_pairs(&self, start_after: Option<[AssetInfoRaw; 2]>, limit: Option<u32>) -> (result:
        Result<Vec<&PairInfoRaw>, FactoryError>)
        requires
            self.wf(),
        ensures
            result is Ok ==> result->Ok_0@.len() == page_of(
                self.pairs@,
                cursor_bound(start_after),
                page_limit_of(limit),
            ).len(),
            result is Ok ==> forall|i: int|
                0 <= i < result->Ok_0@.len() ==> *(#[trigger] result->Ok_0@[i]) == page_of(
                    self.pairs@,
                    cursor_bound(start_after),
                    page_limit_of(limit),
                )[i].1,
            result is Err ==> result->Err_0 == FactoryError::Storage,
            result is Err <==> listing_blocked(
                self.pairs@,
                self.pairs.unreadable(),
                cursor_bound(start_after),
                page_limit_of(limit),
            ),
    {
        read_pairs(&self.pairs, start_after, limit)
    }

    /// First phase of a creation. Refused with `Unauthorized` where the
    /// caller is not allowed to create pairs, else with `AlreadyExists`
    /// where the pair is registered, else with `Storage` where what the
    /// storage holds under the pair's key cannot be read; a refusal
    /// changes nothing. Otherwise the pair is
    /// staged, replacing whatever was staged before, and the request for a
    /// new pool is returned.
    pub fn request_creation(
        &mut self,
        asset_infos: [AssetInfoRaw; 2],
        asset_decimals: [u8; 2],
        requirements: CreatePairRequirements,
        caller_allowed: bool,
    ) -> (result: Result<InstantiateRequest, FactoryError>)
        requires
            old(self).wf(),
        ensures
            final(self).wf(),
            final(self).config == old(self).config,
            final(self).pairs == old(self).pairs,
            final(self).native_decimals == old(self).native_decimals,
            !caller_allowed ==> result == Err::<InstantiateRequest, FactoryError>(
                FactoryError::Unauthorized,
            ),
            caller_allowed && has_key(
                old(self).pairs@,
                pair_key_of(asset_infos[0]@, asset_infos[1]@),
            ) ==> result == Err::<InstantiateRequest, FactoryError>(FactoryError::AlreadyExists),
            caller_allowed && old(self).pairs.unreadable().contains(
                pair_key_of(asset_infos[0]@, asset_infos[1]@),
            ) ==> result == Err::<InstantiateRequest, FactoryError>(FactoryError::Storage),
            caller_allowed && !has_key(
                old(self).pairs@,
                pair_key_of(asset_infos[0]@, asset_infos[1]@),
            ) && !old(self).pairs.unreadable().contains(
                pair_key_of(asset_infos[0]@, asset_infos[1]@),
            ) ==> result is Ok,
            result is Err ==> final(self).pending == old(self).pending,
            result is Ok ==> {
                &&& result->Ok_0.code_id == old(self).config.pair_code_id
                &&& result->Ok_0.token_code_id == old(self).config.token_code_id
                &&& result->Ok_0.asset_infos[0]@ == asset_infos[0]@
                &&& result->Ok_0.asset_infos[1]@ == asset_infos[1]@
                &&& result->Ok_0.asset_decimals == asset_decimals
                &&& result->Ok_0.requirements == requirements
                &&& final(self).pending is Some
                &&& final(self).pending->Some_0.pair_key@ == pair_key_of(
                    asset_infos[0]@,
                    asset_infos[1]@,
                )
                &&& final(self).pending->Some_0.asset_infos == asset_infos
                &&& final(self).pending->Some_0.asset_decimals == asset_decimals
            },
    {
        if !caller_allowed {
            return Err(FactoryError::Unauthorized);
        }
        let key = pair_key(&asset_infos);
        match creation_verdict(self.pairs.contains(key.as_slice())) {
            Ok(()) => {},
            Err(refusal) => {
                return Err(refusal);
            },
        }
        let request = InstantiateRequest {
            code_id: self.config.pair_code_id,
            token_code_id: self.config.token_code_id,
            asset_infos: [asset_infos[0].duplicate(), asset_infos[1].duplicate()],
            asset_decimals,
            requirements,
        };
        self.pending = Some(TmpPairInfo { pair_key: key, asset_infos, asset_decimals });
        Ok(request)
    }

    /// Second phase of a creation, on the acknowledgment that the pool
    /// exists. Refused with `NoPendingCreation`, and nothing changes, where
    /// nothing is staged. Otherwise the record made of what was staged and
    /// of what the acknowledgment brings is stored under the staged key,
    /// and the staging slot is cleared.
    pub fn finalize_creation(
        &mut self,
        contract_addr: Vec<u8>,
        liquidity_token: Vec<u8>,
        requirements: CreatePairRequirements,
    ) -> (result: Result<(), FactoryError>)
        requires
            old(self).wf(),
        ensures
            final(self).wf(),
            final(self).config == old(self).config,
            final(self).native_decimals == old(self).native_decimals,
            old(self).pending is None ==> result == Err::<(), FactoryError>(
                FactoryError::NoPendingCreation,
            ) && *final(self) == *old(self),
            old(self).pending is Some ==> result is Ok,
            result is Ok ==> final(self).pairs.unreadable() == old(self).pairs.unreadable().remove(
                old(self).pending->Some_0.pair_key@,
            ),
            result is Ok ==> {
                let staged = old(self).pending->Some_0;
                let stored = lookup(final(self).pairs@, staged.pair_key@);
                &&& final(self).pending is None
                &&& stored is Some
                &&& stored->Some_0.asset_infos == staged.asset_infos
                &&& stored->Some_0.asset_decimals == staged.asset_decimals
                &&& stored->Some_0.contract_addr == contract_addr
                &&& stored->Some_0.liquidity_token == liquidity_token
                &&& stored->Some_0.requirements == requirements
                &&& forall|k: Seq<u8>|
                    k != staged.pair_key@ ==> lookup(final(self).pairs@, k) == lookup(
                        old(self).pairs@,
                        k,
                    )
            },
    {
        let staged = match self.pending.take() {
            None => {
                return Err(FactoryError::NoPendingCreation);
            },
            Some(staged) => staged,
        };
        let record = PairInfoRaw {
            asset_infos: staged.asset_infos,
            contract_addr,
            liquidity_token,
            asset_decimals: staged.asset_decimals,
            requirements,
        };
        let ghost before = self.pairs@;
        proof {
            self.pairs.lemma_view_sorted();
        }
        let stored = self.pairs.put(staged.pair_key, record);
        proof {
            self.pairs.lemma_view_sorted();
            lemma_keyed_after_put(before, self.pairs@, old(self).pending->Some_0.pair_key@);
        }
        stored
    }

    /// Gives up a staged creation: the staging slot is cleared and nothing
    /// is registered.
    pub fn abort_creation(&mut self)
        ensures
            old(self).wf() ==> final(self).wf(),
            final(self).pending is None,
            final(self).config == old(self).config,
            final(self).pairs == old(self).pairs,
            final(self).native_decimals == old(self).native_decimals,
    {
        self.pending = None;
    }
}

/// Whether a creation may go on, given what the registry said of the
/// pair's key: it may where the key is not registered; it is refused with
/// `AlreadyExists` where it is, and with the registry's own error where
/// the registry could not tell.
pub fn creation_verdict(registered: Result<bool, FactoryError>) -> (verdict: Result<
    (),
    FactoryError,
>)
    ensures
        verdict == (match registered {
            Ok(false) => Ok::<(), FactoryError>(()),
            Ok(true) => Err::<(), FactoryError>(FactoryError::AlreadyExists),
            Err(error) => Err::<(), FactoryError>(error),
        }),
{
    match registered {
        Ok(false) => Ok(()),
        Ok(true) => Err(FactoryError::AlreadyExists),
        Err(error) => Err(error),
    }
}

} // verus!
