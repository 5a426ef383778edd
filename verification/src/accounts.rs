//! Accounts: named buckets that hold money. They are listed with their
//! balance and whether they are active, edited, and deleted softly.

use crate::date::Timestamp;
use crate::text::{not_found_message, not_found_text};
use vstd::prelude::*;

verus! {

/// An account as stored.
#[derive(Debug)]
pub struct AccountRow {
    pub id: i32,
    pub name: String,
    pub asset: bool,
    pub category: Option<String>,
    pub position: Option<i32>,
    pub deleted_at: Option<Timestamp>,
    pub created_at: Timestamp,
    pub updated_at: Timestamp,
}

/// An account with its computed balance and activity.
#[derive(Debug)]
pub struct Account {
    pub id: i32,
    pub name: String,
    pub asset: bool,
    pub category: Option<String>,
    pub position: Option<i32>,
    pub deleted_at: Option<Timestamp>,
    pub created_at: Timestamp,
    pub updated_at: Timestamp,
    pub balance_cents: i32,
    pub active: bool,
}

impl Account {
    /// The stored account with the balance and activity computed for it.
    pub fn from_row(row: AccountRow, balance_cents: i32, active: bool) -> (r: Self)
        ensures
            r.id == row.id,
            r.name == row.name,
            r.asset == row.asset,
            r.category == row.category,
            r.position == row.position,
            r.deleted_at == row.deleted_at,
            r.created_at == row.created_at,
            r.updated_at == row.updated_at,
            r.balance_cents == balance_cents,
            r.active == active,
    {
        Self {
            id: row.id,
            name: row.name,
            asset: row.asset,
            category: row.category,
            position: row.position,
            deleted_at: row.deleted_at,
            created_at: row.created_at,
            updated_at: row.updated_at,
            balance_cents,
            active,
        }
    }
}

/// The fields of an account that an edit may change; those left `None`
/// keep their value.
#[derive(Debug)]
pub struct UpdateAccountInput {
    pub name: Option<String>,
    pub asset: Option<bool>,
    pub category: Option<String>,
    pub position: Option<i32>,
}

/// The balance of an account: the sum of its account entries that the
/// database returns, 0 where it returns no row; `None` where the sum does
/// not fit in an `i32`.
pub fn account_balance(sum_row: Option<(i64,)>) -> (r: Option<i32>)
    ensures
        ({
            let sum: int = match sum_row {
                Some(s) => s.0 as int,
                None => 0,
            };
            &&& i32::MIN <= sum <= i32::MAX ==> r == Some(sum as i32)
            &&& !(i32::MIN <= sum <= i32::MAX) ==> r is None
        }),
{
    match sum_row {
        Some(s) => if i32::MIN as i64 <= s.0 && s.0 <= i32::MAX as i64 {
            Some(s.0 as i32)
        } else {
            None
        },
        None => Some(0),
    }
}

/// Whether an account is active: it is where its balance is not zero, and
/// otherwise where the database reports entries of it in the last 90 days.
/// That report is only asked for when the balance is zero (`None` where it
/// was not asked for, or returned no row).
pub fn account_active(balance_cents: i32, recent_entries: Option<(bool,)>) -> (r: bool)
    ensures
        r == (balance_cents != 0 || recent_entries == Some((true,))),
{
    if balance_cents != 0 {
        return true;
    }
    match recent_entries {
        Some(recent) => recent.0,
        None => false,
    }
}

/// The listing of active accounts: not deleted, and with entries in the
/// last 90 days or a balance other than zero.
pub open spec fn active_accounts_sql() -> Seq<char> {
    "SELECT * FROM accounts
                 WHERE deleted_at IS NULL
                   AND (
                     EXISTS (
                       SELECT 1 FROM account_entries ae
                       JOIN bank_entries be ON be.id = ae.bank_entry_id
                       WHERE ae.account_id = accounts.id
                         AND be.date >= CURRENT_DATE - INTERVAL '90 days'
                     )
                     OR (
                       SELECT COALESCE(SUM(ae2.amount_cents), 0)
                       FROM account_entries ae2
                       WHERE ae2.account_id = accounts.id
                     ) != 0
                   )
                 ORDER BY position ASC, name ASC"@
}

/// The listing of all accounts, soft-deleted ones included.
pub open spec fn all_accounts_sql() -> Seq<char> {
    "SELECT * FROM accounts
                 ORDER BY position ASC, name ASC"@
}

/// Whether an account is active.
pub open spec fn is_active() -> spec_fn(Account) -> bool {
    |a: Account| a.active
}

/// Whether an account is inactive.
pub open spec fn is_inactive() -> spec_fn(Account) -> bool {
    |a: Account| !a.active
}

/// The table that both listings read.
pub open spec fn accounts_from_sql() -> Seq<char> {
    "SELECT * FROM accounts"@
}

/// The test that leaves soft-deleted accounts out.
pub open spec fn undeleted_sql() -> Seq<char> {
    "\n                 WHERE deleted_at IS NULL"@
}

/// Whether an account has entries on bank entries of the last 90 days.
pub open spec fn recent_entries_sql() -> Seq<char> {
    "EXISTS (\n                       SELECT 1 FROM account_entries ae\n                       JOIN bank_entries be ON be.id = ae.bank_entry_id\n                       WHERE ae.account_id = accounts.id\n                         AND be.date >= CURRENT_DATE - INTERVAL '90 days'\n                     )"@
}

/// The balance of an account: the sum of its entries, 0 where it has none.
pub open spec fn balance_sum_sql() -> Seq<char> {
    "(\n                       SELECT COALESCE(SUM(ae2.amount_cents), 0)\n                       FROM account_entries ae2\n                       WHERE ae2.account_id = accounts.id\n                     )"@
}

/// The order of both listings: by position, then by name.
pub open spec fn accounts_order_sql() -> Seq<char> {
    "\n                 ORDER BY position ASC, name ASC"@
}

/// The default listing keeps exactly the undeleted accounts that
/// `account_active` calls active: those with entries in the last 90 days
/// or whose entries do not add up to 0, the same test as
/// `balance_cents != 0`. The listing of all accounts has no filter at all.
/// Both come in the same order.
pub proof fn lemma_account_listings()
    ensures
        active_accounts_sql() == accounts_from_sql() + undeleted_sql() + "\n                   AND (\n                     "@
            + recent_entries_sql() + "\n                     OR "@ + balance_sum_sql() + " != 0"@
            + "\n                   )"@ + accounts_order_sql(),
        all_accounts_sql() == accounts_from_sql() + accounts_order_sql(),
{
    reveal_strlit("SELECT * FROM accounts");
    reveal_strlit("\n                 WHERE deleted_at IS NULL");
    reveal_strlit("EXISTS (\n                       SELECT 1 FROM account_entries ae\n                       JOIN bank_entries be ON be.id = ae.bank_entry_id\n                       WHERE ae.account_id = accounts.id\n                         AND be.date >= CURRENT_DATE - INTERVAL '90 days'\n                     )");
    reveal_strlit("(\n                       SELECT COALESCE(SUM(ae2.amount_cents), 0)\n                       FROM account_entries ae2\n                       WHERE ae2.account_id = accounts.id\n                     )");
    reveal_strlit("\n                 ORDER BY position ASC, name ASC");
    reveal_strlit("\n                   AND (\n                     ");
    reveal_strlit("\n                     OR ");
    reveal_strlit(" != 0");
    reveal_strlit("\n                   )");
    reveal_strlit("SELECT * FROM accounts\n                 ORDER BY position ASC, name ASC");
    reveal_strlit("SELECT * FROM accounts\n                 WHERE deleted_at IS NULL\n                   AND (\n                     EXISTS (\n                       SELECT 1 FROM account_entries ae\n                       JOIN bank_entries be ON be.id = ae.bank_entry_id\n                       WHERE ae.account_id = accounts.id\n                         AND be.date >= CURRENT_DATE - INTERVAL '90 days'\n                     )\n                     OR (\n                       SELECT COALESCE(SUM(ae2.amount_cents), 0)\n                       FROM account_entries ae2\n                       WHERE ae2.account_id = accounts.id\n                     ) != 0\n                   )\n                 ORDER BY position ASC, name ASC");
    assert(active_accounts_sql() =~= accounts_from_sql() + undeleted_sql() + "\n                   AND (\n                     "@
        + recent_entries_sql() + "\n                     OR "@ + balance_sum_sql() + " != 0"@
        + "\n                   )"@ + accounts_order_sql());
    assert(all_accounts_sql() =~= accounts_from_sql() + accounts_order_sql());
}

/// Queries on accounts.
#[derive(Debug, Default)]
pub struct AccountQuery;

impl AccountQuery {
    /// The query that lists accounts: the active ones that are not deleted
    /// unless `active` is `Some(false)`, which lists every account, inactive
    /// and soft-deleted ones included.
    pub fn accounts_sql(&self, active: Option<bool>) -> (r: &'static str)
        ensures
            r@ == (if (match active {
                Some(a) => a,
                None => true,
            }) {
                active_accounts_sql()
            } else {
                all_accounts_sql()
            }),
    {
        let only_active = match active {
            Some(a) => a,
            None => true,
        };
        if only_active {
            "SELECT * FROM accounts
                 WHERE deleted_at IS NULL
                   AND (
                     EXISTS (
                       SELECT 1 FROM account_entries ae
                       JOIN bank_entries be ON be.id = ae.bank_entry_id
                       WHERE ae.account_id = accounts.id
                         AND be.date >= CURRENT_DATE - INTERVAL '90 days'
                     )
                     OR (
                       SELECT COALESCE(SUM(ae2.amount_cents), 0)
                       FROM account_entries ae2
                       WHERE ae2.account_id = accounts.id
                     ) != 0
                   )
                 ORDER BY position ASC, name ASC"
        } else {
            "SELECT * FROM accounts
                 ORDER BY position ASC, name ASC"
        }
    }

    /// A listing of accounts with the active ones first, then the inactive
    /// ones, each group in the order it was given.
    pub fn active_first(&self, accounts: Vec<Account>) -> (r: Vec<Account>)
        ensures
            r@ == accounts@.filter(is_active()) + accounts@.filter(is_inactive()),
    {
        let ghost orig = accounts@;
        let mut rest = accounts;
        let mut active: Vec<Account> = Vec::new();
        let mut inactive: Vec<Account> = Vec::new();
        let ghost mut i: int = 0;
        proof {
            reveal(Seq::filter);
            assert(orig.take(0) =~= Seq::<Account>::empty());
            assert(rest@ =~= orig.skip(0));
        }
        while rest.len() > 0
            invariant
                0 <= i <= orig.len(),
                rest@ == orig.skip(i),
                active@ == orig.take(i).filter(is_active()),
                inactive@ == orig.take(i).filter(is_inactive()),
            decreases rest.len(),
        {
            let ghost before = rest@;
            let a = rest.remove(0);
            proof {
                assert(a == orig[i]);
                assert(rest@ =~= orig.skip(i + 1));
                assert(orig.take(i + 1).drop_last() =~= orig.take(i));
                assert(orig.take(i + 1).last() == a);
                reveal(Seq::filter);
            }
            if a.active {
                active.push(a);
            } else {
                inactive.push(a);
            }
            proof {
                i = i + 1;
            }
        }
        proof {
            assert(orig.take(i) =~= orig);
        }
        active.append(&mut inactive);
        active
    }
}

/// The values an account has after an edit: each field of `input` that is
/// given, else the current one.
pub open spec fn edited_account(current: AccountRow, input: UpdateAccountInput) -> (
    String,
    bool,
    Option<String>,
    Option<i32>,
) {
    (
        match input.name {
            Some(n) => n,
            None => current.name,
        },
        match input.asset {
            Some(a) => a,
            None => current.asset,
        },
        match input.category {
            Some(c) => Some(c),
            None => current.category,
        },
        match input.position {
            Some(p) => Some(p),
            None => current.position,
        },
    )
}

/// Changes to accounts.
#[derive(Debug, Default)]
pub struct AccountMutation;

impl AccountMutation {
    /// What an edit of account `id` writes: name, asset, category and
    /// position, each from `input` where given, else from the current
    /// account; an error where no (undeleted) account has that id.
    pub fn update_account(
        &self,
        id: i32,
        current: Option<AccountRow>,
        input: UpdateAccountInput,
    ) -> (r: Result<(String, bool, Option<String>, Option<i32>), String>)
        ensures
            current is None ==> (r matches Err(e) && e@ == not_found_text("account"@, id as int)),
            current matches Some(c) ==> r == Ok::<_, String>(edited_account(c, input)),
    {
        match current {
            None => Err(not_found_message("account", id)),
            Some(c) => {
                let name = match input.name {
                    Some(n) => n,
                    None => c.name,
                };
                let asset = match input.asset {
                    Some(a) => a,
                    None => c.asset,
                };
                let category = match input.category {
                    Some(cat) => Some(cat),
                    None => c.category,
                };
                let position = match input.position {
                    Some(p) => Some(p),
                    None => c.position,
                };
                Ok((name, asset, category, position))
            },
        }
    }

    /// The outcome of deleting account `id`: the account as the soft delete
    /// left it, or an error where no (undeleted) account had that id.
    pub fn delete_account(&self, id: i32, deleted: Option<AccountRow>) -> (r: Result<
        AccountRow,
        String,
    >)
        ensures
            deleted matches Some(row) ==> r == Ok::<AccountRow, String>(row),
            deleted is None ==> (r matches Err(e) && e@ == not_found_text("account"@, id as int)),
    {
        match deleted {
            Some(row) => Ok(row),
            None => Err(not_found_message("account", id)),
        }
    }
}

/// An edit that gives nothing leaves an account as it is.
pub proof fn lemma_empty_account_edit(current: AccountRow)
    ensures
        edited_account(
            current,
            UpdateAccountInput { name: None, asset: None, category: None, position: None },
        ) == (current.name, current.asset, current.category, current.position),
{
}

/// Making the same edit twice gives what making it once gave.
pub proof fn lemma_account_edit_idempotent(current: AccountRow, input: UpdateAccountInput)
    ensures
        ({
            let e = edited_account(current, input);
            let after = AccountRow {
                id: current.id,
                name: e.0,
                asset: e.1,
                category: e.2,
                position: e.3,
                deleted_at: current.deleted_at,
                created_at: current.created_at,
                updated_at: current.updated_at,
            };
            edited_account(after, input) == e
        }),
{
}

} // verus!
