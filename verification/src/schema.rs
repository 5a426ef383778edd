//! The roots of the GraphQL schema, which gather the queries and the
//! changes of every part of the ledger.

use crate::accounts::{AccountMutation, AccountQuery};
use crate::bank_entries::{BankEntryMutation, BankEntryQuery};
use crate::bank_imports::{BankImportMutation, BankImportQuery};
use crate::projected_entries::{ProjectedEntryMutation, ProjectedEntryQuery};
use vstd::prelude::*;

verus! {

/// The liveness query.
#[derive(Debug, Default)]
pub struct HealthQuery;

impl HealthQuery {
    /// Always `"ok"`.
    pub fn health(&self) -> (r: &'static str)
        ensures
            r@ == "ok"@,
    {
        "ok"
    }
}

/// Every query of the schema.
#[derive(Debug, Default)]
pub struct QueryRoot(
    pub HealthQuery,
    pub AccountQuery,
    pub BankEntryQuery,
    pub BankImportQuery,
    pub ProjectedEntryQuery,
);

/// Every change of the schema.
#[derive(Debug, Default)]
pub struct MutationRoot(
    pub AccountMutation,
    pub BankEntryMutation,
    pub BankImportMutation,
    pub ProjectedEntryMutation,
);

} // verus!
