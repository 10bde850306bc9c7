//! The ledger store: the six operations on accounts and transactions.
//! Every change of a row goes through the one function that also adjusts
//! the balance, so no row can exist without its effect on the balance.

use vstd::prelude::*;
use crate::model::{
    accounts_wf, adjust, adjustment_fits, has_account_id, has_name, names_distinct,
    next_account_after, next_row_after, position_of, restorable, rows_reference, rows_wf, without,
    AccountView, Kind, LedgerView, TransactionView,
};
use crate::laws::{
    lemma_account_index, lemma_create_wf, lemma_index_of, lemma_post_wf, lemma_remove_account_wf,
    lemma_remove_row_wf, lemma_restored_wf, lemma_row_index,
};

verus! {

/// A named bucket with its derived balance, in the smallest currency unit.
#[derive(Clone, Debug, PartialEq, Eq)]
pub struct Account {
    pub id: u64,
    pub name: String,
    pub balance: i64,
}

/// One posted income or expense. The amount is a magnitude; the relation
/// that holds the row decides its sign.
#[derive(Clone, Debug, PartialEq, Eq)]
pub struct Transaction {
    pub id: u64,
    pub account_name: String,
    pub amount: i64,
    pub date: String,
    pub description: Option<String>,
}

/// Why an operation was refused.
#[derive(Clone, Copy, Debug, PartialEq, Eq, Structural)]
pub enum LedgerError {
    /// An account of that name exists already.
    DuplicateName,
    /// No account has the name that the transaction references.
    UnknownAccount,
    /// No row has that id.
    NotFound,
    /// The amount is negative.
    InvalidAmount,
    /// A balance adjustment was aimed at an account that does not exist.
    ConsistencyViolation,
    /// The persisted store could not be opened or prepared.
    StorageUnavailable,
}

impl View for Account {
    type V = AccountView;

    open spec fn view(&self) -> AccountView {
        AccountView { id: self.id as int, name: self.name@, balance: self.balance as int }
    }
}

impl View for Transaction {
    type V = TransactionView;

    open spec fn view(&self) -> TransactionView {
        TransactionView {
            id: self.id as int,
            account_name: self.account_name@,
            amount: self.amount as int,
            date: self.date@,
            description: match self.description {
                Some(s) => Some(s@),
                None => None,
            },
        }
    }
}

/// The accounts of a vector as mathematical values.
pub open spec fn account_views(s: Seq<Account>) -> Seq<AccountView> {
    Seq::new(s.len(), |i: int| s[i]@)
}

/// The rows of a vector as mathematical values.
pub open spec fn row_views(s: Seq<Transaction>) -> Seq<TransactionView> {
    Seq::new(s.len(), |i: int| s[i]@)
}

/// An optional text as a mathematical value.
pub open spec fn note_view(d: Option<&str>) -> Option<Seq<char>> {
    match d {
        Some(s) => Some(s@),
        None => None,
    }
}

/// The balance that an account starts with: the given one, or zero.
pub open spec fn opening_balance(initial: Option<i64>) -> int {
    match initial {
        Some(b) => b as int,
        None => 0,
    }
}

/// The ledger: accounts, expenses and incomes, each in the order of their ids.
pub struct Ledger {
    accounts: Vec<Account>,
    expenses: Vec<Transaction>,
    incomes: Vec<Transaction>,
    next_account_id: u64,
    next_expense_id: u64,
    next_income_id: u64,
    openings: Ghost<Seq<int>>,
}

impl View for Ledger {
    type V = LedgerView;

    closed spec fn view(&self) -> LedgerView {
        LedgerView {
            accounts: account_views(self.accounts@),
            openings: self.openings@,
            expenses: row_views(self.expenses@),
            incomes: row_views(self.incomes@),
            next_account_id: self.next_account_id as int,
            next_expense_id: self.next_expense_id as int,
            next_income_id: self.next_income_id as int,
        }
    }
}

fn copy_account(a: &Account) -> (r: Account)
    ensures
        r@ == a@,
{
    Account { id: a.id, name: a.name.clone(), balance: a.balance }
}

fn copy_row(t: &Transaction) -> (r: Transaction)
    ensures
        r@ == t@,
{
    let description = match &t.description {
        Some(s) => Some(s.clone()),
        None => None,
    };
    Transaction {
        id: t.id,
        account_name: t.account_name.clone(),
        amount: t.amount,
        date: t.date.clone(),
        description,
    }
}

fn copy_rows(rows: &Vec<Transaction>) -> (out: Vec<Transaction>)
    ensures
        row_views(out@) == row_views(rows@),
{
    let mut out: Vec<Transaction> = Vec::new();
    let mut i: usize = 0;
    while i < rows.len()
        invariant
            i <= rows.len(),
            out.len() == i,
            forall|k: int| 0 <= k < i ==> (#[trigger] out[k])@ == rows[k]@,
        decreases rows.len() - i,
    {
        out.push(copy_row(&rows[i]));
        i += 1;
    }
    assert(row_views(out@) =~= row_views(rows@));
    out
}

/// The rows that do not reference `name`, in their order.
fn rows_without(rows: &Vec<Transaction>, name: &String) -> (out: Vec<Transaction>)
    ensures
        row_views(out@) == without(row_views(rows@), name@),
{
    let mut out: Vec<Transaction> = Vec::new();
    let mut i: usize = 0;
    assert(row_views(rows@).subrange(0, 0) =~= Seq::empty());
    while i < rows.len()
        invariant
            i <= rows.len(),
            row_views(out@) == without(row_views(rows@).subrange(0, i as int), name@),
        decreases rows.len() - i,
    {
        let ghost before = row_views(rows@).subrange(0, i as int);
        let ghost now = row_views(rows@).subrange(0, i + 1);
        assert(now.drop_last() =~= before);
        assert(now.last() == rows[i as int]@);
        if rows[i].account_name != *name {
            let ghost kept = row_views(out@);
            out.push(copy_row(&rows[i]));
            assert(row_views(out@) =~= kept.push(rows[i as int]@));
        }
        i += 1;
    }
    assert(row_views(rows@).subrange(0, i as int) =~= row_views(rows@));
    out
}

/// The place of the row with the id `id`.
fn row_position(rows: &Vec<Transaction>, id: u64) -> (r: Option<usize>)
    ensures
        match r {
            Some(i) => i < rows.len() && rows[i as int].id == id,
            None => forall|k: int| 0 <= k < rows.len() ==> (#[trigger] rows[k]).id != id,
        },
{
    let mut i: usize = 0;
    while i < rows.len()
        invariant
            i <= rows.len(),
            forall|k: int| 0 <= k < i ==> (#[trigger] rows[k]).id != id,
        decreases rows.len() - i,
    {
        if rows[i].id == id {
            return Some(i);
        }
        i += 1;
    }
    None
}

/// The place of the account called `name`.
fn name_position(accounts: &Vec<Account>, name: &String) -> (r: Option<usize>)
    ensures
        match r {
            Some(i) => i < accounts.len() && accounts[i as int].name@ == name@,
            None => !has_name(account_views(accounts@), name@),
        },
{
    let mut i: usize = 0;
    while i < accounts.len()
        invariant
            i <= accounts.len(),
            forall|k: int| 0 <= k < i ==> (#[trigger] account_views(accounts@)[k]).name != name@,
        decreases accounts.len() - i,
    {
        if accounts[i].name == *name {
            return Some(i);
        }
        i += 1;
    }
    None
}

/// Whether the accounts are well formed, with the id after the last one as
/// the next id.
fn accounts_in_order(accounts: &Vec<Account>) -> (ok: bool)
    ensures
        ok == accounts_wf(
            account_views(accounts@),
            next_account_after(account_views(accounts@)),
        ),
{
    let ghost views = account_views(accounts@);
    let n = accounts.len();
    if n > 0 && accounts[n - 1].id == u64::MAX {
        return false;
    }
    let mut i: usize = 0;
    while i < n
        invariant
            i <= n,
            n == accounts.len(),
            views == account_views(accounts@),
            forall|k: int| 0 <= k < i ==> 0 < (#[trigger] views[k]).id && views[k].name.len() > 0,
            forall|a: int, b: int| 0 <= a < b < i ==> (#[trigger] views[a]).id < (#[trigger] views[b]).id,
            forall|a: int, b: int|
                0 <= a < i && 0 <= b < i && a != b ==> #[trigger] views[a].name
                    != #[trigger] views[b].name,
        decreases n - i,
    {
        if accounts[i].id == 0 || accounts[i].name.as_str().is_empty() {
            assert(!(0 < views[i as int].id && views[i as int].name.len() > 0));
            return false;
        }
        if i > 0 && accounts[i - 1].id >= accounts[i].id {
            assert(!(views[i - 1].id < views[i as int].id));
            return false;
        }
        if name_position_before(accounts, i) {
            return false;
        }
        i += 1;
    }
    true
}

/// Whether an account before the place `at` has the name of the account at `at`.
fn name_position_before(accounts: &Vec<Account>, at: usize) -> (found: bool)
    requires
        at < accounts.len(),
    ensures
        found == exists|k: int|
            0 <= k < at && (#[trigger] account_views(accounts@)[k]).name == accounts[at as int].name@,
{
    let mut j: usize = 0;
    while j < at
        invariant
            j <= at < accounts.len(),
            forall|k: int|
                0 <= k < j ==> (#[trigger] account_views(accounts@)[k]).name
                    != accounts[at as int].name@,
        decreases at - j,
    {
        if accounts[j].name == accounts[at].name {
            assert(account_views(accounts@)[j as int].name == accounts[at as int].name@);
            return true;
        }
        j += 1;
    }
    false
}

/// Whether the rows are well formed, with the id after the last one as the
/// next id, and reference these accounts only.
fn rows_in_order(rows: &Vec<Transaction>, accounts: &Vec<Account>) -> (ok: bool)
    ensures
        ok == (rows_wf(row_views(rows@), next_row_after(row_views(rows@))) && rows_reference(
            row_views(rows@),
            account_views(accounts@),
        )),
{
    let ghost views = row_views(rows@);
    let n = rows.len();
    if n > 0 && rows[n - 1].id == u64::MAX {
        return false;
    }
    let mut i: usize = 0;
    while i < n
        invariant
            i <= n,
            n == rows.len(),
            views == row_views(rows@),
            forall|k: int|
                0 <= k < i ==> 0 < (#[trigger] views[k]).id && 0 <= views[k].amount && has_name(
                    account_views(accounts@),
                    views[k].account_name,
                ),
            forall|a: int, b: int| 0 <= a < b < i ==> (#[trigger] views[a]).id < (#[trigger] views[b]).id,
        decreases n - i,
    {
        if rows[i].id == 0 || rows[i].amount < 0 {
            assert(!(0 < views[i as int].id && 0 <= views[i as int].amount));
            return false;
        }
        if i > 0 && rows[i - 1].id >= rows[i].id {
            assert(!(views[i - 1].id < views[i as int].id));
            return false;
        }
        match name_position(accounts, &rows[i].account_name) {
            None => {
                assert(!has_name(account_views(accounts@), views[i as int].account_name));
                return false;
            },
            Some(at) => {
                assert(account_views(accounts@)[at as int].name == views[i as int].account_name);
            },
        }
        i += 1;
    }
    true
}

/// The one place where a balance changes: adds `delta` to the balance of
/// the account called `name`. With no such account nothing changes and the
/// adjustment is reported as a violation. The ledger routes every post and
/// every deletion of a row through this function; on accounts of the
/// caller's own it shows what the rule does.
pub fn adjust_balance(accounts: &mut Vec<Account>, name: &str, delta: i64) -> (r: Result<
    (),
    LedgerError,
>)
    requires
        names_distinct(account_views(old(accounts)@)),
        adjustment_fits(account_views(old(accounts)@), name@, delta as int),
    ensures
        has_name(account_views(old(accounts)@), name@) ==> r is Ok,
        !has_name(account_views(old(accounts)@), name@) ==> r == Err::<(), LedgerError>(
            LedgerError::ConsistencyViolation,
        ),
        final(accounts).len() == old(accounts).len(),
        account_views(final(accounts)@) == adjust(
            account_views(old(accounts)@),
            name@,
            delta as int,
        ),
{
    let owned = name.to_owned();
    let ghost before = account_views(accounts@);
    match name_position(accounts, &owned) {
        Some(i) => {
            assert(before[i as int].name == name@);
            assert(position_of(before, name@) == i) by {
                let j = position_of(before, name@);
                assert(0 <= j < before.len() && before[j].name == name@);
            }
            let current = &accounts[i];
            let updated = Account {
                id: current.id,
                name: current.name.clone(),
                balance: current.balance + delta,
            };
            accounts.set(i, updated);
            assert(account_views(accounts@) =~= adjust(before, name@, delta as int));
            Ok(())
        },
        None => {
            assert(before =~= adjust(before, name@, delta as int));
            Err(LedgerError::ConsistencyViolation)
        },
    }
}

impl Ledger {
    /// The ledger that holds exactly these persisted rows, each relation in
    /// the order of its ids. Rows that do not make a ledger are reported
    /// as a store that cannot be prepared.
    pub fn restore(
        accounts: Vec<Account>,
        expenses: Vec<Transaction>,
        incomes: Vec<Transaction>,
    ) -> (r: Result<Ledger, LedgerError>)
        ensures
            r is Ok <==> restorable(
                account_views(accounts@),
                row_views(expenses@),
                row_views(incomes@),
            ),
            r matches Err(e) ==> e == LedgerError::StorageUnavailable,
            r matches Ok(ledger) ==> ledger@.wf() && ledger@ == LedgerView::restored(
                account_views(accounts@),
                row_views(expenses@),
                row_views(incomes@),
            ),
    {
        if !accounts_in_order(&accounts) {
            return Err(LedgerError::StorageUnavailable);
        }
        if !rows_in_order(&expenses, &accounts) {
            return Err(LedgerError::StorageUnavailable);
        }
        if !rows_in_order(&incomes, &accounts) {
            return Err(LedgerError::StorageUnavailable);
        }
        let next_account_id: u64 = if accounts.len() == 0 {
            1
        } else {
            accounts[accounts.len() - 1].id + 1
        };
        let next_expense_id: u64 = if expenses.len() == 0 {
            1
        } else {
            expenses[expenses.len() - 1].id + 1
        };
        let next_income_id: u64 = if incomes.len() == 0 {
            1
        } else {
            incomes[incomes.len() - 1].id + 1
        };
        let ghost view = LedgerView::restored(
            account_views(accounts@),
            row_views(expenses@),
            row_views(incomes@),
        );
        proof {
            lemma_restored_wf(
                account_views(accounts@),
                row_views(expenses@),
                row_views(incomes@),
            );
        }
        Ok(
            Ledger {
                accounts,
                expenses,
                incomes,
                next_account_id,
                next_expense_id,
                next_income_id,
                openings: Ghost(view.openings),
            },
        )
    }

    /// The relations right after they were created: all three are empty.
    pub fn new() -> (ledger: Ledger)
        ensures
            ledger@ == LedgerView::empty(),
            ledger@.wf(),
    {
        let ledger = Ledger {
            accounts: Vec::new(),
            expenses: Vec::new(),
            incomes: Vec::new(),
            next_account_id: 1,
            next_expense_id: 1,
            next_income_id: 1,
            openings: Ghost(Seq::empty()),
        };
        assert(ledger@.accounts =~= Seq::empty());
        assert(ledger@.expenses =~= Seq::empty());
        assert(ledger@.incomes =~= Seq::empty());
        ledger
    }

    /// Makes sure that the relations exist. Where they exist already they
    /// are handed back untouched, with every row; where they do not, they
    /// are created empty.
    pub fn ensure_schema(existing: Option<Ledger>) -> (ledger: Ledger)
        ensures
            ledger@ == LedgerView::ensured(
                match existing {
                    Some(found) => Some(found@),
                    None => None,
                },
            ),
    {
        match existing {
            Some(found) => found,
            None => Ledger::new(),
        }
    }

    fn account_position(&self, name: &String) -> (r: Option<usize>)
        ensures
            match r {
                Some(i) => i < self@.accounts.len() && self@.accounts[i as int].name == name@,
                None => !self@.has_account(name@),
            },
    {
        name_position(&self.accounts, name)
    }

    fn account_id_position(&self, id: u64) -> (r: Option<usize>)
        ensures
            match r {
                Some(i) => i < self@.accounts.len() && self@.accounts[i as int].id == id,
                None => !has_account_id(self@.accounts, id as int),
            },
    {
        let mut i: usize = 0;
        while i < self.accounts.len()
            invariant
                i <= self.accounts.len(),
                forall|k: int| 0 <= k < i ==> (#[trigger] self@.accounts[k]).id != id,
            decreases self.accounts.len() - i,
        {
            if self.accounts[i].id == id {
                return Some(i);
            }
            i += 1;
        }
        None
    }

    /// Whether an account is called `name`.
    pub fn has_account(&self, name: &str) -> (b: bool)
        ensures
            b == self@.has_account(name@),
    {
        let owned = name.to_owned();
        let at = self.account_position(&owned);
        proof {
            if let Some(i) = at {
                assert(self@.accounts[i as int].name == name@);
            }
        }
        at.is_some()
    }

    /// The stored balance of the account called `name`, if there is one.
    pub fn balance(&self, name: &str) -> (b: Option<i64>)
        requires
            self@.wf(),
        ensures
            match b {
                Some(x) => self@.has_account(name@) && x == self@.balance_of(name@),
                None => !self@.has_account(name@),
            },
    {
        let owned = name.to_owned();
        match self.account_position(&owned) {
            Some(i) => {
                proof {
                    lemma_index_of(self@, name@, i as int);
                }
                Some(self.accounts[i].balance)
            },
            None => None,
        }
    }

    /// Whether `create_account` may be called: an id is left for a new account.
    pub fn can_create(&self) -> (b: bool)
        ensures
            b == self@.can_create(),
    {
        self.next_account_id < u64::MAX
    }

    /// Creates an account under a non-empty name with the given opening
    /// balance, or zero. A name that is taken is refused and nothing changes.
    pub fn create_account(&mut self, name: &str, initial: Option<i64>) -> (r: Result<
        Account,
        LedgerError,
    >)
        requires
            old(self)@.wf(),
            name@.len() > 0,
            !old(self)@.has_account(name@) ==> old(self)@.can_create(),
        ensures
            final(self)@.wf(),
            old(self)@.has_account(name@) ==> (r matches Err(LedgerError::DuplicateName))
                && final(self)@ == old(self)@,
            !old(self)@.has_account(name@) ==> r is Ok && final(self)@ == old(self)@.create(
                name@,
                opening_balance(initial),
            ) && r->Ok_0@ == final(self)@.accounts.last(),
    {
        let owned = name.to_owned();
        if self.account_position(&owned).is_some() {
            return Err(LedgerError::DuplicateName);
        }
        let balance: i64 = match initial {
            Some(b) => b,
            None => 0,
        };
        let account = Account { id: self.next_account_id, name: owned, balance };
        let created = copy_account(&account);
        self.accounts.push(account);
        self.next_account_id = self.next_account_id + 1;
        proof {
            self.openings@ = self.openings@.push(balance as int);
            assert(self@.accounts =~= old(self)@.create(name@, balance as int).accounts);
            lemma_create_wf(old(self)@, name@, balance as int);
        }
        Ok(created)
    }

    /// All accounts, in the order of their ids.
    pub fn list_accounts(&self) -> (out: Vec<Account>)
        ensures
            account_views(out@) == self@.accounts,
    {
        let mut out: Vec<Account> = Vec::new();
        let mut i: usize = 0;
        while i < self.accounts.len()
            invariant
                i <= self.accounts.len(),
                out.len() == i,
                forall|k: int| 0 <= k < i ==> (#[trigger] out[k])@ == self.accounts[k]@,
            decreases self.accounts.len() - i,
        {
            out.push(copy_account(&self.accounts[i]));
            i += 1;
        }
        assert(account_views(out@) =~= self@.accounts);
        out
    }

    /// Deletes the account with this id and, with it, every row that
    /// references its name. An unknown id is refused and nothing changes.
    pub fn delete_account(&mut self, id: u64) -> (r: Result<(), LedgerError>)
        requires
            old(self)@.wf(),
        ensures
            final(self)@.wf(),
            !old(self)@.has_id(id as int) ==> (r matches Err(LedgerError::NotFound)) && final(self)@ == old(self)@,
            old(self)@.has_id(id as int) ==> r is Ok && final(self)@ == old(
                self,
            )@.remove_account(id as int),
    {
        match self.account_id_position(id) {
            None => Err(LedgerError::NotFound),
            Some(i) => {
                proof {
                    lemma_account_index(self@, id as int, i as int);
                    lemma_remove_account_wf(self@, id as int);
                }
                let gone = self.accounts.remove(i);
                let expenses = rows_without(&self.expenses, &gone.name);
                let incomes = rows_without(&self.incomes, &gone.name);
                self.expenses = expenses;
                self.incomes = incomes;
                proof {
                    self.openings@ = self.openings@.remove(i as int);
                    assert(self@.accounts =~= old(self)@.accounts.remove(i as int));
                }
                Ok(())
            },
        }
    }

    /// Whether `post_transaction` may be called with these arguments: it
    /// may, unless the row would be stored and either no id is left for it
    /// or the adjusted balance would leave the 64-bit range.
    pub fn can_post(&self, kind: Kind, account_name: &str, amount: i64) -> (b: bool)
        requires
            self@.wf(),
        ensures
            b == (amount >= 0 && self@.has_account(account_name@) ==> self@.can_post(
                kind,
                account_name@,
                amount as int,
            )),
    {
        if amount < 0 {
            return true;
        }
        let owned = account_name.to_owned();
        match self.account_position(&owned) {
            None => true,
            Some(i) => {
                proof {
                    lemma_index_of(self@, account_name@, i as int);
                }
                let balance = self.accounts[i].balance;
                match kind {
                    Kind::Income => self.next_income_id < u64::MAX && balance <= i64::MAX - amount,
                    Kind::Expense => self.next_expense_id < u64::MAX && balance >= i64::MIN
                        + amount,
                }
            },
        }
    }

    /// Posts an income or an expense against the account called
    /// `account_name`. The row is stored and the balance adjusted in one
    /// step; a refused post changes nothing.
    pub fn post_transaction(
        &mut self,
        kind: Kind,
        account_name: &str,
        amount: i64,
        date: &str,
        description: Option<&str>,
    ) -> (r: Result<Transaction, LedgerError>)
        requires
            old(self)@.wf(),
            amount >= 0 && old(self)@.has_account(account_name@) ==> old(self)@.can_post(
                kind,
                account_name@,
                amount as int,
            ),
        ensures
            final(self)@.wf(),
            amount < 0 ==> (r matches Err(LedgerError::InvalidAmount)) && final(self)@ == old(self)@,
            amount >= 0 && !old(self)@.has_account(account_name@) ==> (r matches Err(LedgerError::UnknownAccount)) && final(self)@ == old(self)@,
            amount >= 0 && old(self)@.has_account(account_name@) ==> r is Ok && r->Ok_0@ == old(
                self,
            )@.new_row(kind, account_name@, amount as int, date@, note_view(description))
                && final(self)@ == old(self)@.post(
                kind,
                account_name@,
                amount as int,
                date@,
                note_view(description),
            ),
    {
        if amount < 0 {
            return Err(LedgerError::InvalidAmount);
        }
        let owned = account_name.to_owned();
        if self.account_position(&owned).is_none() {
            return Err(LedgerError::UnknownAccount);
        }
        let delta: i64 = match kind {
            Kind::Income => amount,
            Kind::Expense => -amount,
        };
        match adjust_balance(&mut self.accounts, account_name, delta) {
            Err(e) => Err(e),
            Ok(()) => {
                let note = match description {
                    Some(s) => Some(s.to_owned()),
                    None => None,
                };
                let id = match kind {
                    Kind::Income => self.next_income_id,
                    Kind::Expense => self.next_expense_id,
                };
                let row = Transaction {
                    id,
                    account_name: owned,
                    amount,
                    date: date.to_owned(),
                    description: note,
                };
                let posted = copy_row(&row);
                match kind {
                    Kind::Income => {
                        self.incomes.push(row);
                        self.next_income_id = self.next_income_id + 1;
                    },
                    Kind::Expense => {
                        self.expenses.push(row);
                        self.next_expense_id = self.next_expense_id + 1;
                    },
                }
                proof {
                    let after = old(self)@.post(
                        kind,
                        account_name@,
                        amount as int,
                        date@,
                        note_view(description),
                    );
                    assert(self@.rows(kind) =~= after.rows(kind));
                    assert(self@ == after);
                    lemma_post_wf(
                        old(self)@,
                        kind,
                        account_name@,
                        amount as int,
                        date@,
                        note_view(description),
                    );
                }
                Ok(posted)
            },
        }
    }

    /// All rows of one kind, in the order of their ids.
    pub fn list_transactions(&self, kind: Kind) -> (out: Vec<Transaction>)
        ensures
            row_views(out@) == self@.rows(kind),
    {
        match kind {
            Kind::Income => copy_rows(&self.incomes),
            Kind::Expense => copy_rows(&self.expenses),
        }
    }

    /// Whether a row of this kind has this id.
    pub fn has_transaction(&self, kind: Kind, id: u64) -> (b: bool)
        ensures
            b == self@.has_row(kind, id as int),
    {
        let at = match kind {
            Kind::Income => row_position(&self.incomes, id),
            Kind::Expense => row_position(&self.expenses, id),
        };
        proof {
            if let Some(i) = at {
                assert(self@.rows(kind)[i as int].id == id);
            }
        }
        at.is_some()
    }

    /// Whether `delete_transaction` may be called with these arguments: it
    /// may, unless the row exists and the reversed balance would leave the
    /// 64-bit range.
    pub fn can_delete_transaction(&self, kind: Kind, id: u64) -> (b: bool)
        requires
            self@.wf(),
        ensures
            b == (self@.has_row(kind, id as int) ==> self@.can_remove_row(kind, id as int)),
    {
        let rows = match kind {
            Kind::Income => &self.incomes,
            Kind::Expense => &self.expenses,
        };
        match row_position(rows, id) {
            None => {
                assert(!self@.has_row(kind, id as int));
                true
            },
            Some(i) => {
                assert(self@.rows(kind)[i as int].id == id);
                proof {
                    lemma_row_index(self@, kind, id as int, i as int);
                }
                match self.account_position(&rows[i].account_name) {
                    None => true,
                    Some(j) => {
                        proof {
                            lemma_index_of(self@, rows[i as int].account_name@, j as int);
                        }
                        let balance = self.accounts[j].balance;
                        let amount = rows[i].amount;
                        match kind {
                            Kind::Income => balance >= i64::MIN + amount,
                            Kind::Expense => balance <= i64::MAX - amount,
                        }
                    },
                }
            },
        }
    }

    /// Deletes the row of this kind with this id and reverses its effect on
    /// the balance in the same step. An unknown id is refused and nothing
    /// changes.
    pub fn delete_transaction(&mut self, kind: Kind, id: u64) -> (r: Result<(), LedgerError>)
        requires
            old(self)@.wf(),
            old(self)@.has_row(kind, id as int) ==> old(self)@.can_remove_row(kind, id as int),
        ensures
            final(self)@.wf(),
            !old(self)@.has_row(kind, id as int) ==> (r matches Err(LedgerError::NotFound))
                && final(self)@ == old(self)@,
            old(self)@.has_row(kind, id as int) ==> r is Ok && final(self)@ == old(
                self,
            )@.remove_row(kind, id as int),
    {
        let at = match kind {
            Kind::Income => row_position(&self.incomes, id),
            Kind::Expense => row_position(&self.expenses, id),
        };
        match at {
            None => {
                assert(!self@.has_row(kind, id as int));
                Err(LedgerError::NotFound)
            },
            Some(i) => {
                assert(self@.rows(kind)[i as int].id == id);
                proof {
                    lemma_row_index(self@, kind, id as int, i as int);
                    lemma_remove_row_wf(self@, kind, id as int);
                }
                let gone = match kind {
                    Kind::Income => self.incomes.remove(i),
                    Kind::Expense => self.expenses.remove(i),
                };
                assert(self@.rows(kind) =~= old(self)@.rows(kind).remove(i as int));
                assert(self@.accounts == old(self)@.accounts);
                let delta: i64 = match kind {
                    Kind::Income => -gone.amount,
                    Kind::Expense => gone.amount,
                };
                // With no account left under that name there is nothing to
                // reverse: the row alone goes.
                let _ = adjust_balance(&mut self.accounts, gone.account_name.as_str(), delta);
                assert(self@ == old(self)@.remove_row(kind, id as int));
                Ok(())
            },
        }
    }
}

} // verus!
