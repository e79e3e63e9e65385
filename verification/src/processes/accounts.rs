//! Names of accounts, remembered by security identifier.
use vstd::prelude::*;

verus! {

/// How many names are remembered.
pub const MAX_ACCOUNT_NAMES: usize = 256;

struct CachedAccountName {
    sid: Vec<u8>,
    name: String,
    last_used: u64,
}

/// Names of accounts, and in which refresh each was last used. When there are too many, one of
/// those that were not used for the longest time is forgotten.
pub struct AccountNameCache {
    entries: Vec<CachedAccountName>,
    generation: u64,
}

/// A remembered name.
pub struct AccountView {
    pub sid: Seq<u8>,
    pub name: Seq<char>,
    pub last_used: u64,
}

/// Where the name of an account is remembered, if it is.
pub open spec fn account_index(accounts: Seq<AccountView>, sid: Seq<u8>) -> Option<int>
    decreases accounts.len(),
{
    if accounts.len() == 0 {
        None
    } else if accounts.last().sid == sid {
        Some(accounts.len() - 1)
    } else {
        account_index(accounts.drop_last(), sid)
    }
}

/// The account that was not used for the longest time; the first of them.
pub open spec fn oldest_index(accounts: Seq<AccountView>) -> int
    decreases accounts.len(),
{
    if accounts.len() <= 1 {
        0
    } else {
        let before = oldest_index(accounts.drop_last());
        if accounts.last().last_used < accounts[before].last_used {
            accounts.len() - 1
        } else {
            before
        }
    }
}

/// The accounts after a name was remembered.
pub open spec fn with_account(accounts: Seq<AccountView>, account: AccountView) -> Seq<
    AccountView,
> {
    match account_index(accounts, account.sid) {
        Some(index) => accounts.update(index, account),
        None => if accounts.len() >= MAX_ACCOUNT_NAMES {
            accounts.remove(oldest_index(accounts)).push(account)
        } else {
            accounts.push(account)
        },
    }
}

fn same_bytes(a: &[u8], b: &[u8]) -> (same: bool)
    ensures
        same == (a@ == b@),
{
    if a.len() != b.len() {
        return false;
    }
    for index in 0..a.len()
        invariant
            a@.len() == b@.len(),
            forall|i: int| 0 <= i < index ==> a@[i] == b@[i],
    {
        if a[index] != b[index] {
            return false;
        }
    }
    assert(a@ =~= b@);
    true
}

impl CachedAccountName {
    spec fn spec_view(self) -> AccountView {
        AccountView { sid: self.sid@, name: self.name@, last_used: self.last_used }
    }
}

impl AccountNameCache {
    pub closed spec fn accounts(&self) -> Seq<AccountView> {
        self.entries@.map_values(|entry: CachedAccountName| entry.spec_view())
    }

    /// The refresh that is going on.
    pub closed spec fn current(&self) -> u64 {
        self.generation
    }

    pub fn new() -> (cache: Self)
        ensures
            cache.accounts() == Seq::<AccountView>::empty(),
            cache.current() == 0,
    {
        let cache = AccountNameCache { entries: Vec::new(), generation: 0 };
        assert(cache.accounts() =~= Seq::<AccountView>::empty());
        cache
    }

    pub fn begin_refresh(&mut self)
        ensures
            final(self).accounts() == old(self).accounts(),
            final(self).current() == if old(self).current() == u64::MAX {
                0
            } else {
                old(self).current() + 1
            },
    {
        self.generation = self.generation.wrapping_add(1);
    }

    fn find(&self, sid: &[u8]) -> (index: Option<usize>)
        ensures
            match index {
                Some(at) => account_index(self.accounts(), sid@) == Some(at as int) && at
                    < self.entries@.len(),
                None => account_index(self.accounts(), sid@) is None,
            },
    {
        let ghost accounts = self.accounts();
        let mut at: usize = self.entries.len();
        assert(accounts.take(at as int) =~= accounts);
        while at > 0
            invariant
                accounts == self.accounts(),
                at <= self.entries@.len(),
                account_index(accounts, sid@) == account_index(accounts.take(at as int), sid@),
            decreases at,
        {
            assert(accounts.take(at as int).drop_last() =~= accounts.take(at - 1));
            assert(accounts.take(at as int).last() == self.entries@[at - 1].spec_view());
            if same_bytes(self.entries[at - 1].sid.as_slice(), sid) {
                return Some(at - 1);
            }
            at = at - 1;
        }
        None
    }

    /// The name that is remembered for an account. It counts as used in this refresh.
    pub fn get(&mut self, sid: &[u8]) -> (name: Option<String>)
        ensures
            final(self).current() == old(self).current(),
            match account_index(old(self).accounts(), sid@) {
                None => name is None && final(self).accounts() == old(self).accounts(),
                Some(index) => {
                    let account = old(self).accounts()[index];
                    &&& name matches Some(found)
                    &&& found@ == account.name
                    &&& final(self).accounts() == old(self).accounts().update(
                        index,
                        AccountView { last_used: old(self).current(), ..account },
                    )
                },
            },
    {
        match self.find(sid) {
            None => None,
            Some(index) => {
                let ghost before = self.accounts();
                let name = self.entries[index].name.clone();
                self.entries[index].last_used = self.generation;
                assert(self.accounts() =~= before.update(
                    index as int,
                    AccountView { last_used: self.generation, ..before[index as int] },
                ));
                Some(name)
            },
        }
    }

    fn oldest(&self) -> (index: usize)
        requires
            self.entries@.len() > 0,
        ensures
            index == oldest_index(self.accounts()),
            index < self.entries@.len(),
    {
        let ghost accounts = self.accounts();
        let mut oldest: usize = 0;
        for index in 1..self.entries.len()
            invariant
                accounts == self.accounts(),
                self.entries@.len() > 0,
                oldest < index,
                oldest == oldest_index(accounts.take(index as int)),
        {
            assert(accounts.take(index + 1).drop_last() =~= accounts.take(index as int));
            assert(accounts.take(index + 1).last() == self.entries@[index as int].spec_view());
            if self.entries[index].last_used < self.entries[oldest].last_used {
                oldest = index;
            }
        }
        assert(accounts.take(accounts.len() as int) =~= accounts);
        oldest
    }

    /// Remembers the name of an account.
    pub fn insert(&mut self, sid: Vec<u8>, name: String)
        ensures
            final(self).current() == old(self).current(),
            final(self).accounts() == with_account(
                old(self).accounts(),
                AccountView { sid: sid@, name: name@, last_used: old(self).current() },
            ),
    {
        let ghost before = self.accounts();
        let ghost account = AccountView { sid: sid@, name: name@, last_used: self.generation };
        match self.find(sid.as_slice()) {
            Some(index) => {
                self.entries.set(index, CachedAccountName { sid, name, last_used: self.generation });
                assert(self.accounts() =~= before.update(index as int, account));
            },
            None => {
                if self.entries.len() >= MAX_ACCOUNT_NAMES {
                    let oldest: usize = self.oldest();
                    self.entries.remove(oldest);
                    assert(self.accounts() =~= before.remove(oldest as int));
                }
                let ghost kept = self.accounts();
                self.entries.push(CachedAccountName { sid, name, last_used: self.generation });
                assert(self.accounts() =~= kept.push(account));
            },
        }
    }
}

/// No more names are remembered than there is room for.
pub proof fn account_names_stay_bounded(accounts: Seq<AccountView>, account: AccountView)
    requires
        accounts.len() <= MAX_ACCOUNT_NAMES,
    ensures
        with_account(accounts, account).len() <= MAX_ACCOUNT_NAMES,
{
    lemma_account_index(accounts, account.sid);
    lemma_oldest(accounts);
}

proof fn lemma_account_index(accounts: Seq<AccountView>, sid: Seq<u8>)
    ensures
        account_index(accounts, sid) matches Some(index) ==> 0 <= index < accounts.len()
            && accounts[index].sid == sid,
    decreases accounts.len(),
{
    if accounts.len() > 0 {
        lemma_account_index(accounts.drop_last(), sid);
    }
}

proof fn lemma_oldest(accounts: Seq<AccountView>)
    ensures
        accounts.len() > 0 ==> 0 <= oldest_index(accounts) < accounts.len(),
        forall|i: int|
            0 <= i < accounts.len() ==> accounts[oldest_index(accounts)].last_used <= (
            #[trigger] accounts[i]).last_used,
    decreases accounts.len(),
{
    if accounts.len() > 1 {
        lemma_oldest(accounts.drop_last());
        assert forall|i: int| 0 <= i < accounts.len() implies accounts[oldest_index(
            accounts,
        )].last_used <= (#[trigger] accounts[i]).last_used by {
            if i < accounts.len() - 1 {
                assert(accounts.drop_last()[i] == accounts[i]);
            }
        }
    }
}

/// A name that was just remembered is found, and what had to be forgotten for it was not used
/// later than anything that is kept.
pub proof fn remembered_name_is_found(accounts: Seq<AccountView>, account: AccountView)
    ensures
        ({
            let after = with_account(accounts, account);
            let index = account_index(after, account.sid);
            &&& index is Some
            &&& after[index->0] == account
        }),
        forall|i: int|
            0 <= i < accounts.len() ==> accounts[oldest_index(accounts)].last_used <= (
            #[trigger] accounts[i]).last_used,
{
    lemma_account_index(accounts, account.sid);
    lemma_oldest(accounts);
    match account_index(accounts, account.sid) {
        Some(index) => {
            lemma_updated_index(accounts, account, index);
        },
        None => {},
    }
}

proof fn lemma_updated_index(accounts: Seq<AccountView>, account: AccountView, index: int)
    requires
        account_index(accounts, account.sid) == Some(index),
    ensures
        account_index(accounts.update(index, account), account.sid) == Some(index),
    decreases accounts.len(),
{
    lemma_account_index(accounts, account.sid);
    let after = accounts.update(index, account);
    if index < accounts.len() - 1 {
        lemma_updated_index(accounts.drop_last(), account, index);
        assert(after.drop_last() =~= accounts.drop_last().update(index, account));
    }
}

} // verus!
