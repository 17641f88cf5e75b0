//! Account descriptors, their identity keys, and validation.

use vstd::prelude::*;

verus! {

/// Mathematical identity key of an account: the (broker id, account id) pair.
/// At most one live session may exist per key at any time.
pub struct KeyV {
    pub broker_id: Seq<char>,
    pub account: Seq<char>,
}

/// Mathematical model of an [`AccountDescriptor`].
pub struct AccountDescriptorV {
    pub broker_id: Seq<char>,
    pub account: Seq<char>,
    pub trade_front: Seq<char>,
    pub fens_trade_front: Seq<char>,
    pub auth_code: Seq<char>,
    pub user_product_info: Seq<char>,
    pub app_id: Seq<char>,
    pub password: Seq<char>,
}

impl AccountDescriptorV {
    /// Identity key of the described account.
    pub open spec fn key(self) -> KeyV {
        KeyV { broker_id: self.broker_id, account: self.account }
    }

    /// A descriptor may drive a session only if the broker id and the account
    /// id are non-empty and at least one front-end address is given.
    pub open spec fn valid(self) -> bool {
        &&& self.broker_id.len() > 0
        &&& self.account.len() > 0
        &&& (self.trade_front.len() > 0 || self.fens_trade_front.len() > 0)
    }
}

/// Everything needed to connect and authenticate one broker/account pair.
/// Immutable once a session has been constructed from it: replacing any field
/// requires tearing the session down and creating a new one.
pub struct AccountDescriptor {
    pub broker_id: String,
    pub account: String,
    pub trade_front: String,
    pub fens_trade_front: String,
    pub auth_code: String,
    pub user_product_info: String,
    pub app_id: String,
    pub password: String,
}

impl View for AccountDescriptor {
    type V = AccountDescriptorV;

    open spec fn view(&self) -> AccountDescriptorV {
        AccountDescriptorV {
            broker_id: self.broker_id@,
            account: self.account@,
            trade_front: self.trade_front@,
            fens_trade_front: self.fens_trade_front@,
            auth_code: self.auth_code@,
            user_product_info: self.user_product_info@,
            app_id: self.app_id@,
            password: self.password@,
        }
    }
}

/// Executable identity key of an account.
pub struct AccountKey {
    pub broker_id: String,
    pub account: String,
}

impl View for AccountKey {
    type V = KeyV;

    open spec fn view(&self) -> KeyV {
        KeyV { broker_id: self.broker_id@, account: self.account@ }
    }
}

impl AccountDescriptor {
    /// The identity key of this descriptor.
    pub fn key(&self) -> (k: AccountKey)
        ensures
            k@ == self@.key(),
    {
        AccountKey { broker_id: self.broker_id.clone(), account: self.account.clone() }
    }

    /// Whether this descriptor may drive a session.
    pub fn is_valid(&self) -> (r: bool)
        ensures
            r == self@.valid(),
    {
        !self.broker_id.as_str().is_empty() && !self.account.as_str().is_empty() && (
        !self.trade_front.as_str().is_empty() || !self.fens_trade_front.as_str().is_empty())
    }

    /// A field-by-field copy, equal to `self` in the model.
    pub fn duplicate(&self) -> (r: AccountDescriptor)
        ensures
            r@ == self@,
    {
        AccountDescriptor {
            broker_id: self.broker_id.clone(),
            account: self.account.clone(),
            trade_front: self.trade_front.clone(),
            fens_trade_front: self.fens_trade_front.clone(),
            auth_code: self.auth_code.clone(),
            user_product_info: self.user_product_info.clone(),
            app_id: self.app_id.clone(),
            password: self.password.clone(),
        }
    }

    /// Whether this descriptor has the same identity key as `other`.
    pub fn same_key(&self, other: &AccountDescriptor) -> (r: bool)
        ensures
            r == (self@.key() == other@.key()),
    {
        let r = self.broker_id == other.broker_id && self.account == other.account;
        proof {
            if r {
                assert(self@.key() == other@.key());
            }
        }
        r
    }

    /// Whether this descriptor's identity key equals `k`.
    pub fn has_key(&self, k: &AccountKey) -> (r: bool)
        ensures
            r == (self@.key() == k@),
    {
        let r = self.broker_id == k.broker_id && self.account == k.account;
        proof {
            if r {
                assert(self@.key() == k@);
            }
        }
        r
    }
}

/// The model of a sequence of account descriptors.
pub open spec fn descs_view(ds: Seq<AccountDescriptor>) -> Seq<AccountDescriptorV> {
    Seq::new(ds.len(), |i: int| ds[i]@)
}

/// Whether some descriptor in the set carries the key.
pub open spec fn desired_has_key(ds: Seq<AccountDescriptorV>, k: KeyV) -> bool {
    exists|i: int| 0 <= i < ds.len() && ds[i].key() == k
}

/// The set without the descriptors that carry the key, order kept.
pub open spec fn remove_key(ds: Seq<AccountDescriptorV>, k: KeyV) -> Seq<AccountDescriptorV>
    decreases ds.len(),
{
    if ds.len() == 0 {
        Seq::empty()
    } else if ds[0].key() == k {
        remove_key(ds.skip(1), k)
    } else {
        seq![ds[0]] + remove_key(ds.skip(1), k)
    }
}

/// Why an account could not be added to the desired set.
#[derive(Clone, Copy, PartialEq, Eq, Structural, Debug)]
pub enum AccountError {
    /// The account id is empty.
    EmptyAccount,
    /// The broker id is empty.
    EmptyBroker,
    /// An account with the same identity key is already in the set.
    AlreadyExists,
}

/// The human-readable message for each account error.
pub open spec fn error_message(e: AccountError) -> Seq<char> {
    match e {
        AccountError::EmptyAccount => "the account id must not be empty"@,
        AccountError::EmptyBroker => "the broker id must not be empty"@,
        AccountError::AlreadyExists => "the account already exists"@,
    }
}

impl AccountError {
    /// A human-readable message for the caller.
    pub fn message(&self) -> (r: &'static str)
        ensures
            r@ == error_message(*self),
    {
        match self {
            AccountError::EmptyAccount => "the account id must not be empty",
            AccountError::EmptyBroker => "the broker id must not be empty",
            AccountError::AlreadyExists => "the account already exists",
        }
    }
}

/// The desired account set, as configuration commands edit it.  Reconciling
/// the registry against it brings the live sessions in line.
pub struct AccountSet {
    pub accounts: Vec<AccountDescriptor>,
}

impl View for AccountSet {
    type V = Seq<AccountDescriptorV>;

    open spec fn view(&self) -> Seq<AccountDescriptorV> {
        descs_view(self.accounts@)
    }
}

impl AccountSet {
    /// An empty desired set.
    pub fn new() -> (r: AccountSet)
        ensures
            r@ == Seq::<AccountDescriptorV>::empty(),
    {
        let r = AccountSet { accounts: Vec::new() };
        proof {
            assert(descs_view(r.accounts@) =~= Seq::<AccountDescriptorV>::empty());
        }
        r
    }

    /// Whether some descriptor in the set has the same key as `d`.
    pub fn contains_key_of(&self, d: &AccountDescriptor) -> (r: bool)
        ensures
            r == desired_has_key(self@, d@.key()),
    {
        let mut i: usize = 0;
        while i < self.accounts.len()
            invariant
                i <= self.accounts.len(),
                forall|t: int| 0 <= t < i ==> self@[t].key() != d@.key(),
            decreases self.accounts.len() - i,
        {
            if self.accounts[i].same_key(d) {
                assert(self@[i as int].key() == d@.key());
                return true;
            }
            i = i + 1;
        }
        false
    }

    /// Add an account to the desired set.  The account id and the broker id
    /// must be non-empty and the identity key must not already be present;
    /// otherwise the set is unchanged and the error says why.
    pub fn add_account(&mut self, a: AccountDescriptor) -> (r: Result<(), AccountError>)
        ensures
            r == Ok::<(), AccountError>(()) <==> (a@.account.len() > 0 && a@.broker_id.len() > 0
                && !desired_has_key(old(self)@, a@.key())),
            a@.account.len() == 0 ==> r == Err::<(), AccountError>(AccountError::EmptyAccount),
            a@.account.len() > 0 && a@.broker_id.len() == 0 ==> r == Err::<(), AccountError>(
                AccountError::EmptyBroker,
            ),
            a@.account.len() > 0 && a@.broker_id.len() > 0 && desired_has_key(old(self)@, a@.key())
                ==> r == Err::<(), AccountError>(AccountError::AlreadyExists),
            r is Ok ==> final(self)@ == old(self)@.push(a@),
            r is Err ==> final(self)@ == old(self)@,
    {
        if a.account.as_str().is_empty() {
            return Err(AccountError::EmptyAccount);
        }
        if a.broker_id.as_str().is_empty() {
            return Err(AccountError::EmptyBroker);
        }
        if self.contains_key_of(&a) {
            return Err(AccountError::AlreadyExists);
        }
        let ghost ds0 = self@;
        let ghost av = a@;
        self.accounts.push(a);
        proof {
            assert(descs_view(self.accounts@) =~= ds0.push(av));
        }
        Ok(())
    }

    /// Remove every account with the given identity key from the desired set.
    pub fn delete_account(&mut self, broker_id: &String, account: &String)
        ensures
            final(self)@ == remove_key(
                old(self)@,
                KeyV { broker_id: broker_id@, account: account@ },
            ),
    {
        let ghost k = KeyV { broker_id: broker_id@, account: account@ };
        let key = AccountKey { broker_id: broker_id.clone(), account: account.clone() };
        let ghost ds0 = self@;
        let mut rest: Vec<AccountDescriptor> = Vec::new();
        core::mem::swap(&mut rest, &mut self.accounts);
        proof {
            assert(descs_view(self.accounts@) =~= Seq::<AccountDescriptorV>::empty());
            assert(descs_view(rest@) == ds0);
            assert(Seq::<AccountDescriptorV>::empty() + remove_key(ds0, k) =~= remove_key(ds0, k));
        }
        while rest.len() > 0
            invariant
                key@ == k,
                descs_view(self.accounts@) + remove_key(descs_view(rest@), k) == remove_key(
                    ds0,
                    k,
                ),
            decreases rest.len(),
        {
            let ghost rest_pre = descs_view(rest@);
            let ghost kept_pre = descs_view(self.accounts@);
            let d = rest.remove(0);
            proof {
                assert(descs_view(rest@) =~= rest_pre.skip(1));
                assert(d@ == rest_pre[0]);
            }
            if d.has_key(&key) {
                proof {
                    assert(remove_key(rest_pre, k) == remove_key(rest_pre.skip(1), k));
                }
            } else {
                proof {
                    assert(remove_key(rest_pre, k) == seq![rest_pre[0]] + remove_key(
                        rest_pre.skip(1),
                        k,
                    ));
                }
                self.accounts.push(d);
                proof {
                    assert(descs_view(self.accounts@) =~= kept_pre.push(rest_pre[0]));
                    assert(kept_pre.push(rest_pre[0]) + remove_key(rest_pre.skip(1), k) =~=
                    kept_pre + remove_key(rest_pre, k));
                }
            }
        }
        proof {
            assert(descs_view(rest@) =~= Seq::<AccountDescriptorV>::empty());
            assert(remove_key(Seq::<AccountDescriptorV>::empty(), k)
                == Seq::<AccountDescriptorV>::empty());
            assert(descs_view(self.accounts@) + Seq::<AccountDescriptorV>::empty() =~= descs_view(
                self.accounts@,
            ));
        }
    }
}

} // verus!
