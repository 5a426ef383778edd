//! Importing bank statements: each new transaction of an OFX file becomes a
//! bank entry; those whose `FITID` is already stored are skipped.

use crate::bank_entries::{clone_text, BankEntryRow};
use crate::date::{CalendarDate, Timestamp};
use crate::ofx::{opt_chars, OFXTransaction};
use vstd::prelude::*;

verus! {

/// An import as stored: when it happened and the balance it stated.
#[derive(Debug)]
pub struct BankImportRow {
    pub id: i32,
    pub balance_cents: i32,
    pub created_at: Timestamp,
}

#[derive(Debug)]
pub struct BankImport {
    pub id: i32,
    pub balance_cents: i32,
    pub created_at: Timestamp,
}

impl BankImport {
    pub fn from_row(row: BankImportRow) -> (r: Self)
        ensures
            r.id == row.id,
            r.balance_cents == row.balance_cents,
            r.created_at == row.created_at,
    {
        Self { id: row.id, balance_cents: row.balance_cents, created_at: row.created_at }
    }
}

/// What an import did: the bank entries it created and how many
/// transactions it skipped as already imported.
#[derive(Debug)]
pub struct ImportResult {
    pub bank_import: BankImport,
    pub created_count: i32,
    pub skipped_count: i32,
    pub entries: Vec<ImportedEntry>,
}

/// A bank entry that an import created.
#[derive(Debug)]
pub struct ImportedEntry {
    pub id: i32,
    pub external_id: Option<String>,
    pub date: CalendarDate,
    pub amount_cents: i32,
    pub description: Option<String>,
    pub notes: Option<String>,
    pub was_skipped: bool,
}

impl ImportedEntry {
    /// The bank entry that an import just stored.
    pub fn from_row(row: BankEntryRow) -> (r: Self)
        ensures
            r.id == row.id,
            r.external_id == row.external_id,
            r.date == row.date,
            r.amount_cents == row.amount_cents,
            r.description == row.description,
            r.notes == row.notes,
            !r.was_skipped,
    {
        ImportedEntry {
            id: row.id,
            external_id: row.external_id,
            date: row.date,
            amount_cents: row.amount_cents,
            description: row.description,
            notes: row.notes,
            was_skipped: false,
        }
    }
}

/// The text of an OFX/QFX file to import.
#[derive(Debug)]
pub struct ImportBankStatementInput {
    pub file_content: String,
}

/// Queries on imports.
#[derive(Debug, Default)]
pub struct BankImportQuery;

/// The listing of bank entries that need distribution: those whose account
/// entries do not add up to their amount (what remains is not zero), the
/// latest first.
pub open spec fn needing_distribution_sql() -> Seq<char> {
    "SELECT be.*
             FROM bank_entries be
             WHERE COALESCE((
                 SELECT SUM(ae.amount_cents)
                 FROM account_entries ae
                 WHERE ae.bank_entry_id = be.id
               ), 0) != be.amount_cents
             ORDER BY be.date DESC, be.id DESC"@
}

impl BankImportQuery {
    /// The query that lists the bank entries that need distribution.
    pub fn needing_distribution_sql(&self) -> (r: &'static str)
        ensures
            r@ == needing_distribution_sql(),
    {
        "SELECT be.*
             FROM bank_entries be
             WHERE COALESCE((
                 SELECT SUM(ae.amount_cents)
                 FROM account_entries ae
                 WHERE ae.bank_entry_id = be.id
               ), 0) != be.amount_cents
             ORDER BY be.date DESC, be.id DESC"
    }
}

/// The bank entry that an imported transaction becomes.
#[derive(Debug)]
pub struct NewBankEntry {
    pub date: CalendarDate,
    pub amount_cents: i32,
    pub description: Option<String>,
    pub notes: Option<String>,
    pub external_id: Option<String>,
}

/// The notes of an imported entry: the transaction type and the memo,
/// joined by `": "` where both are present.
pub open spec fn import_notes(trntype: Option<Seq<char>>, memo: Option<Seq<char>>) -> Option<
    Seq<char>,
> {
    match (trntype, memo) {
        (Some(t), Some(m)) => Some(t + ": "@ + m),
        (Some(t), None) => Some(t),
        (None, Some(m)) => Some(m),
        (None, None) => None,
    }
}

/// Counts an import as it goes through a statement's transactions.
#[derive(Debug)]
pub struct ImportTally {
    pub created_count: i32,
    pub skipped_count: i32,
    pub entries: Vec<ImportedEntry>,
}

impl ImportTally {
    /// Every created entry is counted, and counts are not negative.
    pub open spec fn is_consistent(&self) -> bool {
        &&& self.created_count == self.entries.len()
        &&& self.skipped_count >= 0
    }

    /// Nothing imported yet.
    pub fn new() -> (r: Self)
        ensures
            r.is_consistent(),
            r.created_count == 0,
            r.skipped_count == 0,
            r.entries@.len() == 0,
    {
        ImportTally { created_count: 0, skipped_count: 0, entries: Vec::new() }
    }

    /// One more transaction skipped.
    pub fn record_skipped(&mut self)
        requires
            old(self).skipped_count < i32::MAX,
        ensures
            final(self).skipped_count == old(self).skipped_count + 1,
            final(self).created_count == old(self).created_count,
            final(self).entries@ == old(self).entries@,
            old(self).is_consistent() ==> final(self).is_consistent(),
    {
        self.skipped_count += 1;
    }

    /// One more bank entry created.
    pub fn record_created(&mut self, entry: ImportedEntry)
        requires
            old(self).created_count < i32::MAX,
        ensures
            final(self).created_count == old(self).created_count + 1,
            final(self).skipped_count == old(self).skipped_count,
            final(self).entries@ == old(self).entries@.push(entry),
            old(self).is_consistent() ==> final(self).is_consistent(),
    {
        self.created_count += 1;
        self.entries.push(entry);
    }

    /// The result of the import recorded by `bank_import`.
    pub fn into_result(self, bank_import: BankImport) -> (r: ImportResult)
        ensures
            r.bank_import == bank_import,
            r.created_count == self.created_count,
            r.skipped_count == self.skipped_count,
            r.entries == self.entries,
    {
        ImportResult {
            bank_import,
            created_count: self.created_count,
            skipped_count: self.skipped_count,
            entries: self.entries,
        }
    }
}

/// Changes made by imports.
#[derive(Debug, Default)]
pub struct BankImportMutation;

impl BankImportMutation {
    /// The `FITID` to look for among stored bank entries before importing a
    /// transaction; a transaction without one is never taken for a
    /// duplicate.
    pub fn duplicate_check_id<'a>(&self, txn: &'a OFXTransaction) -> (r: Option<&'a String>)
        ensures
            r matches Some(f) ==> txn.fitid == Some(*f),
            r is None <==> txn.fitid is None,
    {
        match &txn.fitid {
            Some(f) => Some(f),
            None => None,
        }
    }

    /// The notes of an imported entry, from the transaction type and memo.
    pub fn import_notes(&self, trntype: &Option<String>, memo: &Option<String>) -> (r: Option<
        String,
    >)
        ensures
            opt_chars(r) == import_notes(opt_chars(*trntype), opt_chars(*memo)),
    {
        match (trntype, memo) {
            (Some(t), Some(m)) => {
                let mut s = t.clone();
                s.append(": ");
                s.append(m.as_str());
                Some(s)
            },
            (Some(t), None) => Some(t.clone()),
            (None, Some(m)) => Some(m.clone()),
            (None, None) => None,
        }
    }

    /// What importing `txn` stores: nothing where a bank entry with its
    /// `FITID` already exists, else a bank entry with its date and amount,
    /// its name as description, its type and memo as notes and its `FITID`
    /// as external id.
    pub fn import_transaction(&self, txn: &OFXTransaction, already_exists: bool) -> (r: Option<
        NewBankEntry,
    >)
        ensures
            already_exists ==> r is None,
            !already_exists ==> (r matches Some(e) && {
                &&& e.date == txn.date
                &&& e.amount_cents == txn.amount_cents
                &&& e.description == txn.name
                &&& opt_chars(e.notes) == import_notes(opt_chars(txn.trntype), opt_chars(txn.memo))
                &&& e.external_id == txn.fitid
            }),
    {
        if already_exists {
            return None;
        }
        Some(
            NewBankEntry {
                date: txn.date,
                amount_cents: txn.amount_cents,
                description: clone_text(&txn.name),
                notes: self.import_notes(&txn.trntype, &txn.memo),
                external_id: clone_text(&txn.fitid),
            },
        )
    }
}

} // verus!
