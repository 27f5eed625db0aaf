//! The stored backup of one account and the request that updates it.

use vstd::prelude::*;
use crate::codec::{empty_payload, frames, payload_text};
use crate::model::{copy_opt_string, opt_chars};

verus! {

/// `chrono::NaiveDateTime`, the database timestamps of a backup record,
/// carried through unread.
#[verifier::external_type_specification]
#[verifier::external_body]
pub struct ExNaiveDateTime(chrono::NaiveDateTime);

/// The tables a backup holds, each as one packed payload.
#[derive(Clone, Copy, Debug, PartialEq, Eq, Structural)]
pub enum Table {
    Customers,
    LaundryRecords,
    LaundryDocuments,
    Expenses,
}

/// The backup of one account: one packed payload per table.
#[derive(Debug)]
pub struct BackupRecord {
    pub id: Option<i32>,
    pub created_at: Option<chrono::NaiveDateTime>,
    pub updated_at: Option<chrono::NaiveDateTime>,
    pub customers: Option<String>,
    pub laundry_records: Option<String>,
    pub laundry_documents: Option<String>,
    pub email: Option<String>,
    pub expenses: Option<String>,
}

/// A client's request to back up its tables; a table it leaves out is
/// kept as stored.
#[derive(Debug)]
pub struct TableJsonPostBody {
    pub email: Option<String>,
    pub customers: Option<String>,
    pub laundry_documents: Option<String>,
    pub laundry_records: Option<String>,
    pub expenses: Option<String>,
}

impl TableJsonPostBody {
    /// The payload the request carries for a table.
    pub open spec fn spec_payload(&self, table: Table) -> Option<String> {
        match table {
            Table::Customers => self.customers,
            Table::LaundryRecords => self.laundry_records,
            Table::LaundryDocuments => self.laundry_documents,
            Table::Expenses => self.expenses,
        }
    }

    /// The payload the request carries for a table, if any.
    pub fn payload(&self, table: Table) -> (r: Option<String>)
        ensures
            r == self.spec_payload(table),
    {
        match table {
            Table::Customers => copy_opt_string(&self.customers),
            Table::LaundryRecords => copy_opt_string(&self.laundry_records),
            Table::LaundryDocuments => copy_opt_string(&self.laundry_documents),
            Table::Expenses => copy_opt_string(&self.expenses),
        }
    }
}

impl BackupRecord {
    /// The stored payload of a table.
    pub open spec fn spec_payload(&self, table: Table) -> Option<String> {
        match table {
            Table::Customers => self.customers,
            Table::LaundryRecords => self.laundry_records,
            Table::LaundryDocuments => self.laundry_documents,
            Table::Expenses => self.expenses,
        }
    }

    /// The record with the stored payload of `table` set to `p`.
    pub open spec fn with_payload(self, table: Table, p: Option<String>) -> BackupRecord {
        match table {
            Table::Customers => BackupRecord { customers: p, ..self },
            Table::LaundryRecords => BackupRecord { laundry_records: p, ..self },
            Table::LaundryDocuments => BackupRecord { laundry_documents: p, ..self },
            Table::Expenses => BackupRecord { expenses: p, ..self },
        }
    }

    /// A new backup for an account, every table holding an empty list; an
    /// account without an email gets the empty one.
    pub fn fresh(email: Option<String>) -> (rec: BackupRecord)
        ensures
            rec.id is None,
            rec.created_at is None,
            rec.updated_at is None,
            opt_chars(rec.email) == Some(
                match email {
                    Some(e) => e@,
                    None => Seq::<char>::empty(),
                },
            ),
            forall|t: Table| #[trigger] rec.spec_payload(t) matches Some(p) && frames(p@, "[]"@) && payload_text(p@) == Some("[]"@),
    {
        let empty = empty_payload();
        let email = match email {
            Some(e) => e,
            None => String::new(),
        };
        BackupRecord {
            id: None,
            created_at: None,
            updated_at: None,
            customers: Some(empty.clone()),
            laundry_records: Some(empty.clone()),
            laundry_documents: Some(empty.clone()),
            email: Some(email),
            expenses: Some(empty),
        }
    }

    /// The stored payload of a table; the empty text when there is none.
    pub fn stored_payload(&self, table: Table) -> (r: String)
        ensures
            r@ == match self.spec_payload(table) {
                Some(p) => p@,
                None => Seq::<char>::empty(),
            },
    {
        let p = match table {
            Table::Customers => &self.customers,
            Table::LaundryRecords => &self.laundry_records,
            Table::LaundryDocuments => &self.laundry_documents,
            Table::Expenses => &self.expenses,
        };
        match p {
            Some(s) => s.clone(),
            None => String::new(),
        }
    }

    /// Stores the outcome of backing up a table: a new payload replaces the
    /// stored one; no outcome leaves the record as it is.
    pub fn store_payload(&mut self, table: Table, outcome: Option<String>)
        ensures
            *final(self) == match outcome {
                Some(p) => old(self).with_payload(table, Some(p)),
                None => *old(self),
            },
    {
        if let Some(p) = outcome {
            match table {
                Table::Customers => self.customers = Some(p),
                Table::LaundryRecords => self.laundry_records = Some(p),
                Table::LaundryDocuments => self.laundry_documents = Some(p),
                Table::Expenses => self.expenses = Some(p),
            }
        }
    }

    /// Stores the outcomes of backing up the tables of a request: each table
    /// the request carries takes its outcome as `store_payload` does; the
    /// tables it leaves out, and every other field, stay as they are.
    pub fn store_outcomes(
        &mut self,
        body: &TableJsonPostBody,
        customers: Option<String>,
        laundry_records: Option<String>,
        laundry_documents: Option<String>,
        expenses: Option<String>,
    )
        ensures
            final(self).id == old(self).id,
            final(self).created_at == old(self).created_at,
            final(self).updated_at == old(self).updated_at,
            final(self).email == old(self).email,
            final(self).customers == if body.customers is Some && customers is Some {
                customers
            } else {
                old(self).customers
            },
            final(self).laundry_records == if body.laundry_records is Some && laundry_records is Some {
                laundry_records
            } else {
                old(self).laundry_records
            },
            final(self).laundry_documents == if body.laundry_documents is Some
                && laundry_documents is Some {
                laundry_documents
            } else {
                old(self).laundry_documents
            },
            final(self).expenses == if body.expenses is Some && expenses is Some {
                expenses
            } else {
                old(self).expenses
            },
            forall|t: Table| #[trigger] final(self).spec_payload(t) == {
                let outcome = match t {
                    Table::Customers => customers,
                    Table::LaundryRecords => laundry_records,
                    Table::LaundryDocuments => laundry_documents,
                    Table::Expenses => expenses,
                };
                if body.spec_payload(t) is Some && outcome is Some {
                    outcome
                } else {
                    old(self).spec_payload(t)
                }
            },
    {
        if body.customers.is_some() {
            self.store_payload(Table::Customers, customers);
        }
        if body.laundry_records.is_some() {
            self.store_payload(Table::LaundryRecords, laundry_records);
        }
        if body.laundry_documents.is_some() {
            self.store_payload(Table::LaundryDocuments, laundry_documents);
        }
        if body.expenses.is_some() {
            self.store_payload(Table::Expenses, expenses);
        }
    }
}

/// Each table's payload is the field named after it, in a stored backup and
/// in a request alike.
pub proof fn law_tables_are_fields(rec: BackupRecord, body: TableJsonPostBody)
    ensures
        rec.spec_payload(Table::Customers) == rec.customers,
        rec.spec_payload(Table::LaundryRecords) == rec.laundry_records,
        rec.spec_payload(Table::LaundryDocuments) == rec.laundry_documents,
        rec.spec_payload(Table::Expenses) == rec.expenses,
        body.spec_payload(Table::Customers) == body.customers,
        body.spec_payload(Table::LaundryRecords) == body.laundry_records,
        body.spec_payload(Table::LaundryDocuments) == body.laundry_documents,
        body.spec_payload(Table::Expenses) == body.expenses,
{
}

/// Storing a payload for a table sets the field named after that table and
/// nothing else.
pub proof fn law_storing_sets_its_field(rec: BackupRecord, p: Option<String>)
    ensures
        rec.with_payload(Table::Customers, p) == (BackupRecord { customers: p, ..rec }),
        rec.with_payload(Table::LaundryRecords, p) == (BackupRecord { laundry_records: p, ..rec }),
        rec.with_payload(Table::LaundryDocuments, p) == (BackupRecord { laundry_documents: p, ..rec }),
        rec.with_payload(Table::Expenses, p) == (BackupRecord { expenses: p, ..rec }),
{
}

} // verus!
