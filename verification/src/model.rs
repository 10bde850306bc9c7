//! The mathematical model of a ledger: three relations, the rule that ties
//! every balance to the rows of its account, and the transitions between
//! ledger states.

use vstd::prelude::*;

verus! {

/// The two kinds of transaction. The kind alone decides the sign of a row's
/// effect on its account.
#[derive(Clone, Copy, Debug, PartialEq, Eq, Structural)]
pub enum Kind {
    Income,
    Expense,
}

/// An account row as a mathematical value.
pub struct AccountView {
    pub id: int,
    pub name: Seq<char>,
    pub balance: int,
}

/// A transaction row as a mathematical value.
pub struct TransactionView {
    pub id: int,
    pub account_name: Seq<char>,
    pub amount: int,
    pub date: Seq<char>,
    pub description: Option<Seq<char>>,
}

/// The whole ledger as a mathematical value. `openings[i]` is the balance
/// that `accounts[i]` was created with.
pub struct LedgerView {
    pub accounts: Seq<AccountView>,
    pub openings: Seq<int>,
    pub expenses: Seq<TransactionView>,
    pub incomes: Seq<TransactionView>,
    pub next_account_id: int,
    pub next_expense_id: int,
    pub next_income_id: int,
}

/// What posting `amount` of the given kind adds to a balance.
pub open spec fn signed(kind: Kind, amount: int) -> int {
    match kind {
        Kind::Income => amount,
        Kind::Expense => -amount,
    }
}

/// What a single row contributes to the total of the account `name`.
pub open spec fn share(t: TransactionView, name: Seq<char>) -> int {
    if t.account_name == name {
        t.amount
    } else {
        0
    }
}

/// The sum of the amounts of the rows of `txs` that reference `name`.
pub open spec fn total(txs: Seq<TransactionView>, name: Seq<char>) -> int
    decreases txs.len(),
{
    if txs.len() == 0 {
        0
    } else {
        total(txs.drop_last(), name) + share(txs.last(), name)
    }
}

/// The rows of `txs`, in order, that do not reference `name`.
pub open spec fn without(txs: Seq<TransactionView>, name: Seq<char>) -> Seq<TransactionView>
    decreases txs.len(),
{
    if txs.len() == 0 {
        Seq::empty()
    } else if txs.last().account_name == name {
        without(txs.drop_last(), name)
    } else {
        without(txs.drop_last(), name).push(txs.last())
    }
}

/// Some account of `accounts` is called `name`.
pub open spec fn has_name(accounts: Seq<AccountView>, name: Seq<char>) -> bool {
    exists|i: int| 0 <= i < accounts.len() && #[trigger] accounts[i].name == name
}

/// Some account of `accounts` has the id `id`.
pub open spec fn has_account_id(accounts: Seq<AccountView>, id: int) -> bool {
    exists|i: int| 0 <= i < accounts.len() && #[trigger] accounts[i].id == id
}

/// Some row of `txs` has the id `id`.
pub open spec fn has_tx_id(txs: Seq<TransactionView>, id: int) -> bool {
    exists|i: int| 0 <= i < txs.len() && #[trigger] txs[i].id == id
}

/// The place of the account called `name`.
pub open spec fn position_of(accounts: Seq<AccountView>, name: Seq<char>) -> int {
    choose|i: int| 0 <= i < accounts.len() && #[trigger] accounts[i].name == name
}

/// The stored balance of the account called `name`.
pub open spec fn balance_in(accounts: Seq<AccountView>, name: Seq<char>) -> int {
    accounts[position_of(accounts, name)].balance
}

/// Adding `delta` to the balance of the account called `name`, if there is
/// one, stays within 64 bits.
pub open spec fn adjustment_fits(accounts: Seq<AccountView>, name: Seq<char>, delta: int) -> bool {
    has_name(accounts, name) ==> i64::MIN <= balance_in(accounts, name) + delta <= i64::MAX
}

/// No two accounts share a name.
pub open spec fn names_distinct(accounts: Seq<AccountView>) -> bool {
    forall|i: int, j: int|
        0 <= i < accounts.len() && 0 <= j < accounts.len() && i != j ==> #[trigger] accounts[i].name
            != #[trigger] accounts[j].name
}

/// `accounts` with `delta` added to the balance of the account called `name`.
/// Accounts of other names are untouched; with no such account nothing changes.
pub open spec fn adjust(accounts: Seq<AccountView>, name: Seq<char>, delta: int) -> Seq<
    AccountView,
> {
    Seq::new(
        accounts.len(),
        |i: int|
            if accounts[i].name == name {
                AccountView {
                    id: accounts[i].id,
                    name: accounts[i].name,
                    balance: accounts[i].balance + delta,
                }
            } else {
                accounts[i]
            },
    )
}

/// The accounts are well formed: ids are positive, ascending and below
/// `next`, names are non-empty and distinct, balances fit in 64 bits.
pub open spec fn accounts_wf(accounts: Seq<AccountView>, next: int) -> bool {
    &&& 0 < next <= u64::MAX
    &&& forall|i: int|
        0 <= i < accounts.len() ==> {
            &&& 0 < (#[trigger] accounts[i]).id < next
            &&& accounts[i].name.len() > 0
            &&& i64::MIN <= accounts[i].balance <= i64::MAX
        }
    &&& forall|i: int, j: int|
        0 <= i < j < accounts.len() ==> (#[trigger] accounts[i]).id < (#[trigger] accounts[j]).id
    &&& names_distinct(accounts)
}

/// The rows of one kind are well formed: ids are positive, ascending and
/// below `next`, amounts are non-negative magnitudes.
pub open spec fn rows_wf(txs: Seq<TransactionView>, next: int) -> bool {
    &&& 0 < next <= u64::MAX
    &&& forall|i: int|
        0 <= i < txs.len() ==> {
            &&& 0 < (#[trigger] txs[i]).id < next
            &&& 0 <= txs[i].amount <= i64::MAX
        }
    &&& forall|i: int, j: int|
        0 <= i < j < txs.len() ==> (#[trigger] txs[i]).id < (#[trigger] txs[j]).id
}

/// Every row references an existing account.
pub open spec fn rows_reference(txs: Seq<TransactionView>, accounts: Seq<AccountView>) -> bool {
    forall|k: int| 0 <= k < txs.len() ==> has_name(accounts, (#[trigger] txs[k]).account_name)
}

impl LedgerView {
    /// The ledger right after its relations were created: no rows at all.
    pub open spec fn empty() -> LedgerView {
        LedgerView {
            accounts: Seq::empty(),
            openings: Seq::empty(),
            expenses: Seq::empty(),
            incomes: Seq::empty(),
            next_account_id: 1,
            next_expense_id: 1,
            next_income_id: 1,
        }
    }

    /// The rows of one kind.
    pub open spec fn rows(self, kind: Kind) -> Seq<TransactionView> {
        match kind {
            Kind::Income => self.incomes,
            Kind::Expense => self.expenses,
        }
    }

    /// The id that the next row of this kind will get.
    pub open spec fn next_row_id(self, kind: Kind) -> int {
        match kind {
            Kind::Income => self.next_income_id,
            Kind::Expense => self.next_expense_id,
        }
    }

    /// This ledger with the rows and the next id of one kind replaced.
    pub open spec fn with_rows(self, kind: Kind, txs: Seq<TransactionView>, next: int) -> LedgerView {
        match kind {
            Kind::Income => LedgerView { incomes: txs, next_income_id: next, ..self },
            Kind::Expense => LedgerView { expenses: txs, next_expense_id: next, ..self },
        }
    }

    /// Some account is called `name`.
    pub open spec fn has_account(self, name: Seq<char>) -> bool {
        has_name(self.accounts, name)
    }

    /// Some account has the id `id`.
    pub open spec fn has_id(self, id: int) -> bool {
        has_account_id(self.accounts, id)
    }

    /// The place of the account called `name`.
    pub open spec fn index_of(self, name: Seq<char>) -> int {
        position_of(self.accounts, name)
    }

    /// The stored balance of the account called `name`.
    pub open spec fn balance_of(self, name: Seq<char>) -> int {
        balance_in(self.accounts, name)
    }

    /// The place of the account with the id `id`.
    pub open spec fn account_index(self, id: int) -> int {
        choose|i: int| 0 <= i < self.accounts.len() && #[trigger] self.accounts[i].id == id
    }

    /// The place of the row of this kind with the id `id`.
    pub open spec fn row_index(self, kind: Kind, id: int) -> int {
        choose|i: int| 0 <= i < self.rows(kind).len() && #[trigger] self.rows(kind)[i].id == id
    }

    /// The state invariant. Its last clause is the balance rule: each
    /// stored balance is the opening balance plus the incomes minus the
    /// expenses that reference the account.
    pub open spec fn wf(self) -> bool {
        &&& self.openings.len() == self.accounts.len()
        &&& accounts_wf(self.accounts, self.next_account_id)
        &&& rows_wf(self.expenses, self.next_expense_id)
        &&& rows_wf(self.incomes, self.next_income_id)
        &&& rows_reference(self.expenses, self.accounts)
        &&& rows_reference(self.incomes, self.accounts)
        &&& forall|i: int|
            0 <= i < self.accounts.len() ==> (#[trigger] self.accounts[i]).balance
                == self.openings[i] + total(self.incomes, self.accounts[i].name) - total(
                self.expenses,
                self.accounts[i].name,
            )
    }

    /// A new account can be given an id.
    pub open spec fn can_create(self) -> bool {
        self.next_account_id < u64::MAX
    }

    /// The ledger after an account called `name` was created with the balance `initial`.
    pub open spec fn create(self, name: Seq<char>, initial: int) -> LedgerView {
        LedgerView {
            accounts: self.accounts.push(
                AccountView { id: self.next_account_id, name, balance: initial },
            ),
            openings: self.openings.push(initial),
            next_account_id: self.next_account_id + 1,
            ..self
        }
    }

    /// A row of this kind and amount can be stored against `name`: an id is
    /// left for it and the adjusted balance fits in 64 bits.
    pub open spec fn can_post(self, kind: Kind, name: Seq<char>, amount: int) -> bool {
        &&& self.next_row_id(kind) < u64::MAX
        &&& i64::MIN <= self.balance_of(name) + signed(kind, amount) <= i64::MAX
    }

    /// The row that a post creates.
    pub open spec fn new_row(
        self,
        kind: Kind,
        name: Seq<char>,
        amount: int,
        date: Seq<char>,
        description: Option<Seq<char>>,
    ) -> TransactionView {
        TransactionView { id: self.next_row_id(kind), account_name: name, amount, date, description }
    }

    /// The ledger after a row was posted: the row is appended to the rows of
    /// its kind and its account's balance is adjusted in the same step.
    pub open spec fn post(
        self,
        kind: Kind,
        name: Seq<char>,
        amount: int,
        date: Seq<char>,
        description: Option<Seq<char>>,
    ) -> LedgerView {
        LedgerView {
            accounts: adjust(self.accounts, name, signed(kind, amount)),
            ..self.with_rows(
                kind,
                self.rows(kind).push(self.new_row(kind, name, amount, date, description)),
                self.next_row_id(kind) + 1,
            )
        }
    }

    /// Some row of this kind has the id `id`.
    pub open spec fn has_row(self, kind: Kind, id: int) -> bool {
        has_tx_id(self.rows(kind), id)
    }

    /// The row of this kind with the id `id`.
    pub open spec fn row(self, kind: Kind, id: int) -> TransactionView {
        self.rows(kind)[self.row_index(kind, id)]
    }

    /// The balance of the row's account stays within 64 bits when the row
    /// with this id is taken back.
    pub open spec fn can_remove_row(self, kind: Kind, id: int) -> bool {
        let t = self.row(kind, id);
        self.has_account(t.account_name) ==> i64::MIN <= self.balance_of(t.account_name) - signed(
            kind,
            t.amount,
        ) <= i64::MAX
    }

    /// The ledger after the row with this id was deleted: the row is gone
    /// and its effect on the balance is reversed in the same step.
    pub open spec fn remove_row(self, kind: Kind, id: int) -> LedgerView {
        let t = self.row(kind, id);
        LedgerView {
            accounts: adjust(self.accounts, t.account_name, -signed(kind, t.amount)),
            ..self.with_rows(
                kind,
                self.rows(kind).remove(self.row_index(kind, id)),
                self.next_row_id(kind),
            )
        }
    }

    /// The ledger after the account with this id was deleted, together with
    /// every row that references it.
    pub open spec fn remove_account(self, id: int) -> LedgerView {
        let i = self.account_index(id);
        let name = self.accounts[i].name;
        LedgerView {
            accounts: self.accounts.remove(i),
            openings: self.openings.remove(i),
            expenses: without(self.expenses, name),
            incomes: without(self.incomes, name),
            ..self
        }
    }
}

/// The id that follows the last of these accounts.
pub open spec fn next_account_after(accounts: Seq<AccountView>) -> int {
    if accounts.len() == 0 {
        1
    } else {
        accounts.last().id + 1
    }
}

/// The id that follows the last of these rows.
pub open spec fn next_row_after(txs: Seq<TransactionView>) -> int {
    if txs.len() == 0 {
        1
    } else {
        txs.last().id + 1
    }
}

/// These rows, as they were persisted, make a ledger: each relation is
/// well formed and every transaction references one of the accounts.
pub open spec fn restorable(
    accounts: Seq<AccountView>,
    expenses: Seq<TransactionView>,
    incomes: Seq<TransactionView>,
) -> bool {
    &&& accounts_wf(accounts, next_account_after(accounts))
    &&& rows_wf(expenses, next_row_after(expenses))
    &&& rows_wf(incomes, next_row_after(incomes))
    &&& rows_reference(expenses, accounts)
    &&& rows_reference(incomes, accounts)
}

/// One write against the ledger.
pub enum Step {
    Create { name: Seq<char>, initial: int },
    DeleteAccount { id: int },
    Post {
        kind: Kind,
        name: Seq<char>,
        amount: int,
        date: Seq<char>,
        description: Option<Seq<char>>,
    },
    Remove { kind: Kind, id: int },
}

impl LedgerView {
    /// The ledger that holds exactly these rows. Each opening balance is
    /// the stored balance with the account's rows taken out again.
    pub open spec fn restored(
        accounts: Seq<AccountView>,
        expenses: Seq<TransactionView>,
        incomes: Seq<TransactionView>,
    ) -> LedgerView {
        LedgerView {
            accounts,
            openings: Seq::new(
                accounts.len(),
                |i: int|
                    accounts[i].balance - total(incomes, accounts[i].name) + total(
                        expenses,
                        accounts[i].name,
                    ),
            ),
            expenses,
            incomes,
            next_account_id: next_account_after(accounts),
            next_expense_id: next_row_after(expenses),
            next_income_id: next_row_after(incomes),
        }
    }

    /// The relations after schema setup: what was there stays as it is,
    /// and where nothing was there the relations are created empty.
    pub open spec fn ensured(existing: Option<LedgerView>) -> LedgerView {
        match existing {
            Some(found) => found,
            None => LedgerView::empty(),
        }
    }

    /// The write takes effect: it is not refused and stays within the
    /// machine's limits.
    pub open spec fn accepts(self, step: Step) -> bool {
        match step {
            Step::Create { name, initial } => {
                &&& name.len() > 0
                &&& i64::MIN <= initial <= i64::MAX
                &&& !self.has_account(name)
                &&& self.can_create()
            },
            Step::DeleteAccount { id } => self.has_id(id),
            Step::Post { kind, name, amount, date, description } => {
                &&& 0 <= amount <= i64::MAX
                &&& self.has_account(name)
                &&& self.can_post(kind, name, amount)
            },
            Step::Remove { kind, id } => {
                &&& self.has_row(kind, id)
                &&& self.can_remove_row(kind, id)
            },
        }
    }

    /// The ledger after one write. A write that is not accepted changes nothing.
    pub open spec fn apply(self, step: Step) -> LedgerView {
        if !self.accepts(step) {
            self
        } else {
            match step {
                Step::Create { name, initial } => self.create(name, initial),
                Step::DeleteAccount { id } => self.remove_account(id),
                Step::Post { kind, name, amount, date, description } => self.post(
                    kind,
                    name,
                    amount,
                    date,
                    description,
                ),
                Step::Remove { kind, id } => self.remove_row(kind, id),
            }
        }
    }

    /// The ledger after a sequence of writes, applied in order.
    pub open spec fn run(self, steps: Seq<Step>) -> LedgerView
        decreases steps.len(),
    {
        if steps.len() == 0 {
            self
        } else {
            self.run(steps.drop_last()).apply(steps.last())
        }
    }
}

} // verus!
