//! Bank entries (one transaction each) and the account entries that split
//! their amount across accounts.

use crate::accounts::{Account, AccountRow};
use crate::date::{CalendarDate, Timestamp};
use crate::text::{
    decimal_text, int_text, join, join_strings, not_found_message, not_found_text,
};
use vstd::prelude::*;

verus! {

/// A bank entry as stored.
#[derive(Debug)]
pub struct BankEntryRow {
    pub id: i32,
    pub date: CalendarDate,
    pub amount_cents: i32,
    pub description: Option<String>,
    pub notes: Option<String>,
    pub external_id: Option<String>,
    pub created_at: Timestamp,
    pub updated_at: Timestamp,
}

/// A bank entry with the account entries that split it.
#[derive(Debug)]
pub struct BankEntry {
    pub id: i32,
    pub date: CalendarDate,
    pub amount_cents: i32,
    pub description: Option<String>,
    pub notes: Option<String>,
    pub external_id: Option<String>,
    pub created_at: Timestamp,
    pub updated_at: Timestamp,
    pub account_entries: Vec<AccountEntry>,
}

impl BankEntry {
    /// The stored bank entry together with its account entries.
    pub fn from_row(row: BankEntryRow, account_entries: Vec<AccountEntry>) -> (r: Self)
        ensures
            r.id == row.id,
            r.date == row.date,
            r.amount_cents == row.amount_cents,
            r.description == row.description,
            r.notes == row.notes,
            r.external_id == row.external_id,
            r.created_at == row.created_at,
            r.updated_at == row.updated_at,
            r.account_entries == account_entries,
    {
        Self {
            id: row.id,
            date: row.date,
            amount_cents: row.amount_cents,
            description: row.description,
            notes: row.notes,
            external_id: row.external_id,
            created_at: row.created_at,
            updated_at: row.updated_at,
            account_entries,
        }
    }
}

/// An account entry as stored: part of a bank entry's amount, given to an
/// account.
#[derive(Debug)]
pub struct AccountEntryRow {
    pub id: i32,
    pub account_id: i32,
    pub bank_entry_id: i32,
    pub amount_cents: i32,
    pub notes: Option<String>,
    pub created_at: Timestamp,
    pub updated_at: Timestamp,
}

/// An account entry with its account, where that could be found.
#[derive(Debug)]
pub struct AccountEntry {
    pub id: i32,
    pub account_id: i32,
    pub bank_entry_id: i32,
    pub amount_cents: i32,
    pub notes: Option<String>,
    pub created_at: Timestamp,
    pub updated_at: Timestamp,
    pub account: Option<Account>,
}

impl AccountEntry {
    /// The stored account entry together with its account.
    pub fn from_row(row: AccountEntryRow, account: Option<Account>) -> (r: Self)
        ensures
            r.id == row.id,
            r.account_id == row.account_id,
            r.bank_entry_id == row.bank_entry_id,
            r.amount_cents == row.amount_cents,
            r.notes == row.notes,
            r.created_at == row.created_at,
            r.updated_at == row.updated_at,
            r.account == account,
    {
        Self {
            id: row.id,
            account_id: row.account_id,
            bank_entry_id: row.bank_entry_id,
            amount_cents: row.amount_cents,
            notes: row.notes,
            created_at: row.created_at,
            updated_at: row.updated_at,
            account,
        }
    }

    /// An account entry as it is shown inside a bank entry: with its stored
    /// account, where there is one, given the balance and the active flag
    /// computed for that account.
    pub fn with_stored_account(
        row: AccountEntryRow,
        account: Option<AccountRow>,
        balance_cents: i32,
        active: bool,
    ) -> (r: Self)
        ensures
            r.id == row.id,
            r.account_id == row.account_id,
            r.bank_entry_id == row.bank_entry_id,
            r.amount_cents == row.amount_cents,
            r.notes == row.notes,
            r.created_at == row.created_at,
            r.updated_at == row.updated_at,
            r.account is Some <==> account is Some,
            r.account matches Some(a) ==> {
                &&& account matches Some(stored)
                &&& a.id == stored.id
                &&& a.name == stored.name
                &&& a.asset == stored.asset
                &&& a.category == stored.category
                &&& a.position == stored.position
                &&& a.deleted_at == stored.deleted_at
                &&& a.created_at == stored.created_at
                &&& a.updated_at == stored.updated_at
                &&& a.balance_cents == balance_cents
                &&& a.active == active
            },
    {
        let account = match account {
            Some(stored) => Some(Account::from_row(stored, balance_cents, active)),
            None => None,
        };
        AccountEntry::from_row(row, account)
    }
}

/// A new bank entry and its split.
#[derive(Debug)]
pub struct CreateBankEntryInput {
    pub date: CalendarDate,
    pub amount_cents: i32,
    pub description: Option<String>,
    pub notes: Option<String>,
    pub account_entries: Vec<CreateAccountEntryInput>,
}

/// An edit of a bank entry: fields left `None` keep their value; where
/// `account_entries` is given, each of its items changes the split.
#[derive(Debug)]
pub struct UpdateBankEntryInput {
    pub date: Option<CalendarDate>,
    pub amount_cents: Option<i32>,
    pub description: Option<String>,
    pub notes: Option<String>,
    pub account_entries: Option<Vec<UpdateAccountEntryInput>>,
}

/// One part of a new split: the account is named, and created where no
/// account has that name.
#[derive(Debug)]
pub struct CreateAccountEntryInput {
    pub account_name: String,
    pub amount_cents: i32,
    pub notes: Option<String>,
}

/// A change to one part of a split: with an `id`, of that account entry
/// (removed where `_destroy` is true); without one, a new part.
#[derive(Debug)]
pub struct UpdateAccountEntryInput {
    pub id: Option<i32>,
    pub account_name: Option<String>,
    pub amount_cents: Option<i32>,
    pub notes: Option<String>,
    pub _destroy: Option<bool>,
}

/// How a split finds its account by name: the undeleted account of that
/// name, or, where there is none, a new one to be created.
#[derive(Debug)]
pub enum AccountByName {
    Found(AccountRow),
    Create,
}

/// The step that finds or creates the account of a split, from the
/// undeleted account of that name, where there is one.
pub fn account_by_name(existing: Option<AccountRow>) -> (r: AccountByName)
    ensures
        existing matches Some(a) ==> r == AccountByName::Found(a),
        existing is None ==> r is Create,
{
    match existing {
        Some(a) => AccountByName::Found(a),
        None => AccountByName::Create,
    }
}

/// What one `UpdateAccountEntryInput` does to the stored account entries.
#[derive(Debug, PartialEq)]
#[allow(inconsistent_fields)]
pub enum AccountEntryChange {
    /// Remove account entry `id`.
    Delete { id: i32 },
    /// Set, on account entry `id`, the amount, the notes and the account
    /// (by name, created where missing) that are given, in that order.
    Update {
        id: i32,
        amount_cents: Option<i32>,
        notes: Option<String>,
        account_name: Option<String>,
    },
    /// Add an account entry for the named account (created where missing).
    Create { account_name: String, amount_cents: i32, notes: Option<String> },
    /// Nothing: a removal without an id, or a new part without an account.
    Ignore,
}

/// The change that an `UpdateAccountEntryInput` asks for.
pub open spec fn account_entry_change(input: UpdateAccountEntryInput) -> AccountEntryChange {
    if input._destroy == Some(true) {
        match input.id {
            Some(id) => AccountEntryChange::Delete { id },
            None => AccountEntryChange::Ignore,
        }
    } else {
        match input.id {
            Some(id) => AccountEntryChange::Update {
                id,
                amount_cents: input.amount_cents,
                notes: input.notes,
                account_name: input.account_name,
            },
            None => match input.account_name {
                Some(name) => AccountEntryChange::Create {
                    account_name: name,
                    amount_cents: match input.amount_cents {
                        Some(a) => a,
                        None => 0,
                    },
                    notes: input.notes,
                },
                None => AccountEntryChange::Ignore,
            },
        }
    }
}

impl UpdateAccountEntryInput {
    /// The change this input asks for.
    pub fn change(self) -> (r: AccountEntryChange)
        ensures
            r == account_entry_change(self),
    {
        let destroy = match self._destroy {
            Some(d) => d,
            None => false,
        };
        if destroy {
            match self.id {
                Some(id) => AccountEntryChange::Delete { id },
                None => AccountEntryChange::Ignore,
            }
        } else {
            match self.id {
                Some(id) => AccountEntryChange::Update {
                    id,
                    amount_cents: self.amount_cents,
                    notes: self.notes,
                    account_name: self.account_name,
                },
                None => match self.account_name {
                    Some(name) => AccountEntryChange::Create {
                        account_name: name,
                        amount_cents: match self.amount_cents {
                            Some(a) => a,
                            None => 0,
                        },
                        notes: self.notes,
                    },
                    None => AccountEntryChange::Ignore,
                },
            }
        }
    }
}

/// Only an explicit `_destroy: Some(true)` removes a split: a change is a
/// removal only then, and then it removes the split of the given id.
pub proof fn lemma_only_destroy_removes(input: UpdateAccountEntryInput)
    ensures
        account_entry_change(input) is Delete ==> input._destroy == Some(true),
        account_entry_change(input) is Delete ==> input.id == Some(
            account_entry_change(input)->Delete_id,
        ),
        input._destroy == Some(true) && input.id is Some ==> account_entry_change(input)
            == (AccountEntryChange::Delete { id: input.id.unwrap() }),
{
}

/// An input with an id that does not ask for removal (`_destroy` left out
/// or false) updates that split with its amount, notes and account name
/// exactly as given.
pub proof fn lemma_kept_split_is_updated(input: UpdateAccountEntryInput)
    requires
        input.id is Some,
        input._destroy != Some(true),
    ensures
        account_entry_change(input) == (AccountEntryChange::Update {
            id: input.id.unwrap(),
            amount_cents: input.amount_cents,
            notes: input.notes,
            account_name: input.account_name,
        }),
{
}

/// Leaving `_destroy` out asks for what `_destroy: Some(false)` asks for.
pub proof fn lemma_destroy_defaults_to_false(input: UpdateAccountEntryInput)
    requires
        input._destroy is None,
    ensures
        account_entry_change(input) == account_entry_change(
            (UpdateAccountEntryInput { _destroy: Some(false), ..input }),
        ),
{
}

/// What an edit of a bank entry writes: its new date, amount, description
/// and notes, and the changes to its split, in the order given.
#[derive(Debug)]
pub struct BankEntryUpdate {
    pub date: CalendarDate,
    pub amount_cents: i32,
    pub description: Option<String>,
    pub notes: Option<String>,
    pub account_entry_changes: Option<Vec<AccountEntryChange>>,
}

/// The conditions that filter the listing of bank entries, each naming the
/// parameter that carries its value: `$1` for the first one present, and so
/// on in the order date from, date to, account.
pub open spec fn bank_entry_conditions(from: bool, to: bool, account: bool) -> Seq<Seq<char>> {
    let to_index: int = if from {
        2
    } else {
        1
    };
    let account_index: int = if to {
        to_index + 1
    } else {
        to_index
    };
    (if from {
        seq!["be.date >= $"@ + decimal_text(1)]
    } else {
        Seq::empty()
    }) + (if to {
        seq!["be.date <= $"@ + decimal_text(to_index)]
    } else {
        Seq::empty()
    }) + (if account {
        seq![account_filter_open() + decimal_text(account_index) + ")"@]
    } else {
        Seq::empty()
    })
}

/// The filters of the listing are numbered `$1`, `$2`, ... one after the
/// other in the order date from, date to, account, over those present:
/// there is one condition per filter given, the date-from filter (where
/// given) is `$1`, the date-to filter takes the number after it, and the
/// account filter, last, takes the number of filters given; so no number
/// is used twice and none is skipped.
pub proof fn lemma_bank_entry_parameters(from: bool, to: bool, account: bool)
    ensures
        ({
            let c = bank_entry_conditions(from, to, account);
            let n_from: int = if from {
                1
            } else {
                0
            };
            let n_to: int = if to {
                1
            } else {
                0
            };
            let n_account: int = if account {
                1
            } else {
                0
            };
            &&& c.len() == n_from + n_to + n_account
            &&& from ==> c[0] == "be.date >= $"@ + decimal_text(1)
            &&& to ==> c[n_from] == "be.date <= $"@ + decimal_text(n_from + 1)
            &&& account ==> c[c.len() - 1] == account_filter_open() + decimal_text(c.len() as int)
                + ")"@
        }),
{
}

/// The start of the account filter: the bank entry has an account entry
/// of the account that is bound at the number that follows. Being a test
/// rather than a join, it lists each bank entry once, however many of its
/// account entries go to that account.
pub open spec fn account_filter_open() -> Seq<char> {
    "EXISTS (SELECT 1 FROM account_entries ae WHERE ae.bank_entry_id = be.id AND ae.account_id = $"@
}

/// The listing of bank entries, newest first, each once, filtered by date
/// range and by account where those are given.
pub open spec fn bank_entries_sql(from: bool, to: bool, account: bool) -> Seq<char> {
    let conditions = bank_entry_conditions(from, to, account);
    "SELECT be.* FROM bank_entries be"@ + (if conditions.len() > 0 {
        " WHERE "@ + join(conditions, " AND "@)
    } else {
        Seq::empty()
    }) + " ORDER BY be.date DESC, be.id DESC"@
}

fn condition(text: &str, index: u32) -> (r: String)
    ensures
        r@ == text@ + decimal_text(index as int),
{
    let mut c = String::from_str(text);
    let n = int_text(index as i64);
    c.append(n.as_str());
    c
}

/// Queries on bank entries.
#[derive(Debug, Default)]
pub struct BankEntryQuery;

impl BankEntryQuery {
    /// The query that lists bank entries, each once, for the filters that
    /// are given; their values are bound in the order date from, date to,
    /// account.
    pub fn bank_entries_sql(
        &self,
        date_from: &Option<CalendarDate>,
        date_to: &Option<CalendarDate>,
        account_id: &Option<i32>,
    ) -> (r: String)
        ensures
            r@ == bank_entries_sql(date_from is Some, date_to is Some, account_id is Some),
    {
        let mut sql = String::from_str("SELECT be.* FROM bank_entries be");
        let mut conditions: Vec<String> = Vec::new();
        let mut param_idx: u32 = 1;
        if date_from.is_some() {
            conditions.push(condition("be.date >= $", param_idx));
            param_idx += 1;
        }
        if date_to.is_some() {
            conditions.push(condition("be.date <= $", param_idx));
            param_idx += 1;
        }
        if account_id.is_some() {
            let mut c = condition(
                "EXISTS (SELECT 1 FROM account_entries ae WHERE ae.bank_entry_id = be.id AND ae.account_id = $",
                param_idx,
            );
            c.append(")");
            conditions.push(c);
        }
        let ghost texts = conditions@.map_values(|s: String| s@);
        assert(texts =~= bank_entry_conditions(
            date_from is Some,
            date_to is Some,
            account_id is Some,
        ));
        if conditions.len() > 0 {
            sql.append(" WHERE ");
            let joined = join_strings(&conditions, " AND ");
            sql.append(joined.as_str());
        }
        sql.append(" ORDER BY be.date DESC, be.id DESC");
        sql
    }
}

/// A copy of an optional text.
pub fn clone_text(o: &Option<String>) -> (r: Option<String>)
    ensures
        r == *o,
{
    match o {
        Some(s) => Some(s.clone()),
        None => None,
    }
}

/// The date, amount, description and notes a bank entry has after an edit:
/// each field of `input` that is given, else the current one.
pub open spec fn edited_bank_entry(current: BankEntryRow, input: UpdateBankEntryInput) -> (
    CalendarDate,
    i32,
    Option<String>,
    Option<String>,
) {
    (
        match input.date {
            Some(d) => d,
            None => current.date,
        },
        match input.amount_cents {
            Some(a) => a,
            None => current.amount_cents,
        },
        match input.description {
            Some(d) => Some(d),
            None => current.description,
        },
        match input.notes {
            Some(n) => Some(n),
            None => current.notes,
        },
    )
}

/// An edit that gives nothing leaves a bank entry as it is.
pub proof fn lemma_empty_bank_entry_edit(current: BankEntryRow)
    ensures
        edited_bank_entry(
            current,
            UpdateBankEntryInput {
                date: None,
                amount_cents: None,
                description: None,
                notes: None,
                account_entries: None,
            },
        ) == (current.date, current.amount_cents, current.description, current.notes),
{
}

/// Making the same edit twice gives what making it once gave.
pub proof fn lemma_bank_entry_edit_idempotent(current: BankEntryRow, input: UpdateBankEntryInput)
    ensures
        ({
            let e = edited_bank_entry(current, input);
            let after = BankEntryRow {
                id: current.id,
                date: e.0,
                amount_cents: e.1,
                description: e.2,
                notes: e.3,
                external_id: current.external_id,
                created_at: current.created_at,
                updated_at: current.updated_at,
            };
            edited_bank_entry(after, input) == e
        }),
{
}

/// Changes to bank entries.
#[derive(Debug, Default)]
pub struct BankEntryMutation;

impl BankEntryMutation {
    /// What an edit of bank entry `id` writes: each field of `input` that is
    /// given, else the current one, and the change that each of its account
    /// entry inputs asks for; an error where no bank entry has that id.
    pub fn update_bank_entry(
        &self,
        id: i32,
        current: Option<BankEntryRow>,
        input: UpdateBankEntryInput,
    ) -> (r: Result<BankEntryUpdate, String>)
        ensures
            current is None ==> (r matches Err(e) && e@ == not_found_text(
                "bank entry"@,
                id as int,
            )),
            current matches Some(c) ==> (r matches Ok(u) && {
                &&& (u.date, u.amount_cents, u.description, u.notes) == edited_bank_entry(c, input)
                &&& u.account_entry_changes is Some <==> input.account_entries is Some
                &&& u.account_entry_changes matches Some(changes) ==> {
                    &&& input.account_entries matches Some(inputs)
                    &&& changes.len() == inputs.len()
                    &&& forall|i: int|
                        0 <= i < inputs.len() ==> #[trigger] changes@[i] == account_entry_change(
                            inputs@[i],
                        )
                }
            }),
    {
        let c = match current {
            None => {
                return Err(not_found_message("bank entry", id));
            },
            Some(c) => c,
        };
        let date = match input.date {
            Some(d) => d,
            None => c.date,
        };
        let amount_cents = match input.amount_cents {
            Some(a) => a,
            None => c.amount_cents,
        };
        let description = match input.description {
            Some(d) => Some(d),
            None => c.description,
        };
        let notes = match input.notes {
            Some(n) => Some(n),
            None => c.notes,
        };
        let account_entry_changes = match input.account_entries {
            None => None,
            Some(inputs) => {
                let ghost all = inputs@;
                let mut rest = inputs;
                let mut changes: Vec<AccountEntryChange> = Vec::new();
                while rest.len() > 0
                    invariant
                        changes.len() + rest.len() == all.len(),
                        rest@ == all.skip(changes.len() as int),
                        forall|i: int|
                            0 <= i < changes.len() ==> #[trigger] changes@[i]
                                == account_entry_change(all[i]),
                    decreases rest.len(),
                {
                    let ghost before = rest@;
                    let item = rest.remove(0);
                    proof {
                        before.remove_ensures(0);
                        assert(all.skip(changes.len() as int)[0] == all[changes.len() as int]);
                        assert(rest@ =~= all.skip(changes.len() + 1));
                    }
                    changes.push(item.change());
                }
                Some(changes)
            },
        };
        Ok(BankEntryUpdate { date, amount_cents, description, notes, account_entry_changes })
    }

    /// The outcome of deleting bank entry `id`: the deleted entry with the
    /// account entries it had, or an error where no bank entry had that id.
    pub fn delete_bank_entry(
        &self,
        id: i32,
        deleted: Option<BankEntryRow>,
        account_entries: Vec<AccountEntry>,
    ) -> (r: Result<BankEntry, String>)
        ensures
            deleted is None ==> (r matches Err(e) && e@ == not_found_text(
                "bank entry"@,
                id as int,
            )),
            deleted matches Some(row) ==> (r matches Ok(b) && b.id == row.id && b.date == row.date
                && b.amount_cents == row.amount_cents && b.description == row.description
                && b.notes == row.notes && b.external_id == row.external_id && b.created_at
                == row.created_at && b.updated_at == row.updated_at && b.account_entries
                == account_entries),
    {
        match deleted {
            Some(row) => Ok(BankEntry::from_row(row, account_entries)),
            None => Err(not_found_message("bank entry", id)),
        }
    }
}

} // verus!
