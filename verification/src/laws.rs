//! What is proved of the ledger model: how totals react to single rows,
//! that every transition keeps the state invariant, and what follows for
//! balances.

use vstd::prelude::*;
use crate::model::{
    accounts_wf, adjust, adjustment_fits, has_name, names_distinct, position_of, restorable,
    rows_reference, rows_wf, share, signed, total, without, AccountView, Kind, LedgerView, Step,
    TransactionView,
};

verus! {

/// Appending a row adds exactly its share to the total of every account.
pub proof fn lemma_total_push(txs: Seq<TransactionView>, t: TransactionView, name: Seq<char>)
    ensures
        total(txs.push(t), name) == total(txs, name) + share(t, name),
{
    assert(txs.push(t).drop_last() =~= txs);
}

/// Removing a row takes exactly its share from the total of every account.
pub proof fn lemma_total_remove(txs: Seq<TransactionView>, i: int, name: Seq<char>)
    requires
        0 <= i < txs.len(),
    ensures
        total(txs.remove(i), name) == total(txs, name) - share(txs[i], name),
    decreases txs.len(),
{
    if i == txs.len() - 1 {
        assert(txs.remove(i) =~= txs.drop_last());
    } else {
        lemma_total_remove(txs.drop_last(), i, name);
        assert(txs.remove(i) =~= txs.drop_last().remove(i).push(txs.last()));
        lemma_total_push(txs.drop_last().remove(i), txs.last(), name);
    }
}

/// Every row that survives a cascade was a row before and references
/// another account.
pub proof fn lemma_without_members(txs: Seq<TransactionView>, name: Seq<char>)
    ensures
        without(txs, name).len() <= txs.len(),
        forall|k: int|
            0 <= k < without(txs, name).len() ==> {
                &&& (#[trigger] without(txs, name)[k]).account_name != name
                &&& exists|j: int| 0 <= j < txs.len() && txs[j] == without(txs, name)[k]
            },
    decreases txs.len(),
{
    if txs.len() > 0 {
        let rest = txs.drop_last();
        lemma_without_members(rest, name);
        assert forall|k: int| 0 <= k < without(txs, name).len() implies {
            &&& (#[trigger] without(txs, name)[k]).account_name != name
            &&& exists|j: int| 0 <= j < txs.len() && txs[j] == without(txs, name)[k]
        } by {
            if k < without(rest, name).len() {
                assert(without(txs, name)[k] == without(rest, name)[k]);
                let j = choose|j: int| 0 <= j < rest.len() && rest[j] == without(rest, name)[k];
                assert(txs[j] == without(txs, name)[k]);
            } else {
                assert(txs[txs.len() - 1] == without(txs, name)[k]);
            }
        }
    }
}

/// A cascade keeps the rows well formed.
pub proof fn lemma_without_wf(txs: Seq<TransactionView>, name: Seq<char>, next: int)
    requires
        rows_wf(txs, next),
    ensures
        rows_wf(without(txs, name), next),
    decreases txs.len(),
{
    if txs.len() > 0 {
        let rest = txs.drop_last();
        assert(rows_wf(rest, next));
        lemma_without_wf(rest, name, next);
        lemma_without_members(rest, name);
        let out = without(txs, name);
        if txs.last().account_name != name {
            assert forall|i: int, j: int| 0 <= i < j < out.len() implies (#[trigger] out[i]).id
                < (#[trigger] out[j]).id by {
                if j == out.len() - 1 {
                    let s = choose|s: int| 0 <= s < rest.len() && rest[s] == without(rest, name)[i];
                    assert(txs[s].id < txs[txs.len() - 1].id);
                }
            }
        }
    }
}

/// A cascade on one account leaves the totals of every other account as
/// they were, and leaves nothing for the account itself.
pub proof fn lemma_without_total(txs: Seq<TransactionView>, name: Seq<char>, other: Seq<char>)
    ensures
        other != name ==> total(without(txs, name), other) == total(txs, other),
        total(without(txs, name), name) == 0,
    decreases txs.len(),
{
    if txs.len() > 0 {
        lemma_without_total(txs.drop_last(), name, other);
        if txs.last().account_name != name {
            lemma_total_push(without(txs.drop_last(), name), txs.last(), other);
            lemma_total_push(without(txs.drop_last(), name), txs.last(), name);
        }
    }
}

/// Adjusting a balance within the 64-bit range keeps the accounts well formed.
pub proof fn lemma_adjust_wf(accounts: Seq<AccountView>, next: int, name: Seq<char>, delta: int)
    requires
        accounts_wf(accounts, next),
        adjustment_fits(accounts, name, delta),
    ensures
        accounts_wf(adjust(accounts, name, delta), next),
{
    let after = adjust(accounts, name, delta);
    assert forall|i: int| 0 <= i < after.len() implies {
        &&& 0 < (#[trigger] after[i]).id < next
        &&& after[i].name.len() > 0
        &&& i64::MIN <= after[i].balance <= i64::MAX
    } by {
        assert(after[i].id == accounts[i].id);
        if accounts[i].name == name {
            let at = position_of(accounts, name);
            assert(0 <= at < accounts.len() && accounts[at].name == name);
        }
    }
    assert forall|i: int, j: int| 0 <= i < j < after.len() implies (#[trigger] after[i]).id < (
        #[trigger] after[j]
    ).id by {
        assert(accounts[i].id < accounts[j].id);
    }
    assert forall|i: int, j: int|
        0 <= i < after.len() && 0 <= j < after.len() && i != j implies #[trigger] after[i].name
        != #[trigger] after[j].name by {
        assert(accounts[i].name != accounts[j].name);
    }
}

/// Adjusting a balance changes no name, so rows reference what they did.
pub proof fn lemma_adjust_reference(
    txs: Seq<TransactionView>,
    accounts: Seq<AccountView>,
    name: Seq<char>,
    delta: int,
)
    requires
        rows_reference(txs, accounts),
    ensures
        rows_reference(txs, adjust(accounts, name, delta)),
{
    let after = adjust(accounts, name, delta);
    assert forall|k: int| 0 <= k < txs.len() implies has_name(
        after,
        (#[trigger] txs[k]).account_name,
    ) by {
        let j = choose|j: int|
            0 <= j < accounts.len() && #[trigger] accounts[j].name == txs[k].account_name;
        assert(after[j].name == txs[k].account_name);
    }
}

/// Under distinct names the account called `name` stands at one place only.
pub proof fn lemma_index_of(v: LedgerView, name: Seq<char>, i: int)
    requires
        names_distinct(v.accounts),
        0 <= i < v.accounts.len(),
        v.accounts[i].name == name,
    ensures
        v.index_of(name) == i,
        v.balance_of(name) == v.accounts[i].balance,
{
    let j = v.index_of(name);
    assert(0 <= j < v.accounts.len() && v.accounts[j].name == name);
}

/// Under ascending ids the row with a given id stands at one place only.
pub proof fn lemma_row_index(v: LedgerView, kind: Kind, id: int, i: int)
    requires
        rows_wf(v.rows(kind), v.next_row_id(kind)),
        0 <= i < v.rows(kind).len(),
        v.rows(kind)[i].id == id,
    ensures
        v.row_index(kind, id) == i,
        v.row(kind, id) == v.rows(kind)[i],
{
    let j = v.row_index(kind, id);
    assert(0 <= j < v.rows(kind).len() && v.rows(kind)[j].id == id);
    if j < i {
        assert(v.rows(kind)[j].id < v.rows(kind)[i].id);
    } else if i < j {
        assert(v.rows(kind)[i].id < v.rows(kind)[j].id);
    }
}

/// Under ascending ids the account with a given id stands at one place only.
pub proof fn lemma_account_index(v: LedgerView, id: int, i: int)
    requires
        accounts_wf(v.accounts, v.next_account_id),
        0 <= i < v.accounts.len(),
        v.accounts[i].id == id,
    ensures
        v.account_index(id) == i,
{
    let j = v.account_index(id);
    assert(0 <= j < v.accounts.len() && v.accounts[j].id == id);
    if j < i {
        assert(v.accounts[j].id < v.accounts[i].id);
    } else if i < j {
        assert(v.accounts[i].id < v.accounts[j].id);
    }
}

/// The empty ledger satisfies the state invariant.
pub proof fn lemma_empty_wf()
    ensures
        LedgerView::empty().wf(),
{
}

/// Creating an account under a fresh, non-empty name keeps the state
/// invariant.
pub proof fn lemma_create_wf(v: LedgerView, name: Seq<char>, initial: int)
    requires
        v.wf(),
        v.can_create(),
        name.len() > 0,
        !v.has_account(name),
        i64::MIN <= initial <= i64::MAX,
    ensures
        v.create(name, initial).wf(),
{
    let w = v.create(name, initial);
    let n = v.accounts.len() as int;
    assert forall|i: int, j: int|
        0 <= i < w.accounts.len() && 0 <= j < w.accounts.len() && i != j implies #[trigger] w.accounts[i].name
        != #[trigger] w.accounts[j].name by {
        if i < n && j < n {
            assert(v.accounts[i].name != v.accounts[j].name);
        } else if i < n {
            assert(v.accounts[i].name != name);
        } else {
            assert(v.accounts[j].name != name);
        }
    }
    assert(accounts_wf(w.accounts, w.next_account_id));
    assert forall|k: int| 0 <= k < w.expenses.len() implies has_name(
        w.accounts,
        (#[trigger] w.expenses[k]).account_name,
    ) by {
        let j = choose|j: int|
            0 <= j < v.accounts.len() && #[trigger] v.accounts[j].name == v.expenses[k].account_name;
        assert(w.accounts[j].name == w.expenses[k].account_name);
    }
    assert forall|k: int| 0 <= k < w.incomes.len() implies has_name(
        w.accounts,
        (#[trigger] w.incomes[k]).account_name,
    ) by {
        let j = choose|j: int|
            0 <= j < v.accounts.len() && #[trigger] v.accounts[j].name == v.incomes[k].account_name;
        assert(w.accounts[j].name == w.incomes[k].account_name);
    }
    lemma_unreferenced_total(v.incomes, v.accounts, name);
    lemma_unreferenced_total(v.expenses, v.accounts, name);
    assert forall|i: int| 0 <= i < w.accounts.len() implies (#[trigger] w.accounts[i]).balance
        == w.openings[i] + total(w.incomes, w.accounts[i].name) - total(
        w.expenses,
        w.accounts[i].name,
    ) by {
        if i < n {
            assert(w.accounts[i] == v.accounts[i]);
        }
    }
}

/// Rows that reference existing accounts only hold nothing for a name
/// that no account has.
pub proof fn lemma_unreferenced_total(
    txs: Seq<TransactionView>,
    accounts: Seq<AccountView>,
    name: Seq<char>,
)
    requires
        rows_reference(txs, accounts),
        !has_name(accounts, name),
    ensures
        total(txs, name) == 0,
    decreases txs.len(),
{
    if txs.len() > 0 {
        let rest = txs.drop_last();
        assert forall|k: int| 0 <= k < rest.len() implies has_name(
            accounts,
            (#[trigger] rest[k]).account_name,
        ) by {
            assert(rest[k] == txs[k]);
        }
        lemma_unreferenced_total(rest, accounts, name);
        assert(has_name(accounts, txs[txs.len() - 1].account_name));
    }
}

/// Posting a row against an existing account keeps the state invariant:
/// the balance moves by exactly what the new row adds to the totals.
pub proof fn lemma_post_wf(
    v: LedgerView,
    kind: Kind,
    name: Seq<char>,
    amount: int,
    date: Seq<char>,
    description: Option<Seq<char>>,
)
    requires
        v.wf(),
        v.has_account(name),
        0 <= amount <= i64::MAX,
        v.can_post(kind, name, amount),
    ensures
        v.post(kind, name, amount, date, description).wf(),
{
    let w = v.post(kind, name, amount, date, description);
    let t = v.new_row(kind, name, amount, date, description);
    let d = signed(kind, amount);
    let at = v.index_of(name);
    assert(0 <= at < v.accounts.len() && v.accounts[at].name == name);
    lemma_adjust_wf(v.accounts, v.next_account_id, name, d);
    lemma_adjust_reference(v.expenses, v.accounts, name, d);
    lemma_adjust_reference(v.incomes, v.accounts, name, d);
    assert(w.accounts[at].name == name);
    assert(has_name(w.accounts, t.account_name));
    assert(rows_reference(w.rows(kind), w.accounts)) by {
        assert forall|k: int| 0 <= k < w.rows(kind).len() implies has_name(
            w.accounts,
            (#[trigger] w.rows(kind)[k]).account_name,
        ) by {
            if k < v.rows(kind).len() {
                assert(w.rows(kind)[k] == v.rows(kind)[k]);
            }
        }
    }
    assert(rows_wf(w.rows(kind), w.next_row_id(kind)));
    assert forall|i: int| 0 <= i < w.accounts.len() implies (#[trigger] w.accounts[i]).balance
        == w.openings[i] + total(w.incomes, w.accounts[i].name) - total(
        w.expenses,
        w.accounts[i].name,
    ) by {
        lemma_total_push(v.rows(kind), t, v.accounts[i].name);
        assert(v.accounts[i].balance == v.openings[i] + total(v.incomes, v.accounts[i].name)
            - total(v.expenses, v.accounts[i].name));
    }
}

/// Deleting a row keeps the state invariant: the balance moves back by
/// exactly what the row had added to the totals.
pub proof fn lemma_remove_row_wf(v: LedgerView, kind: Kind, id: int)
    requires
        v.wf(),
        v.has_row(kind, id),
        v.can_remove_row(kind, id),
    ensures
        v.remove_row(kind, id).wf(),
{
    let w = v.remove_row(kind, id);
    let at = v.row_index(kind, id);
    assert(0 <= at < v.rows(kind).len() && v.rows(kind)[at].id == id);
    let t = v.rows(kind)[at];
    let name = t.account_name;
    let d = -signed(kind, t.amount);
    assert(has_name(v.accounts, name));
    lemma_adjust_wf(v.accounts, v.next_account_id, name, d);
    lemma_adjust_reference(v.expenses, v.accounts, name, d);
    lemma_adjust_reference(v.incomes, v.accounts, name, d);
    let after = w.rows(kind);
    assert forall|k: int| 0 <= k < after.len() implies {
        &&& 0 < (#[trigger] after[k]).id < w.next_row_id(kind)
        &&& 0 <= after[k].amount <= i64::MAX
        &&& has_name(w.accounts, after[k].account_name)
    } by {
        if k < at {
            assert(after[k] == v.rows(kind)[k]);
        } else {
            assert(after[k] == v.rows(kind)[k + 1]);
        }
    }
    assert forall|i: int, j: int| 0 <= i < j < after.len() implies (#[trigger] after[i]).id < (
        #[trigger] after[j]
    ).id by {
        let a = if i < at { i } else { i + 1 };
        let b = if j < at { j } else { j + 1 };
        assert(after[i] == v.rows(kind)[a]);
        assert(after[j] == v.rows(kind)[b]);
    }
    assert(rows_wf(after, w.next_row_id(kind)));
    assert(rows_reference(after, w.accounts));
    assert forall|i: int| 0 <= i < w.accounts.len() implies (#[trigger] w.accounts[i]).balance
        == w.openings[i] + total(w.incomes, w.accounts[i].name) - total(
        w.expenses,
        w.accounts[i].name,
    ) by {
        lemma_total_remove(v.rows(kind), at, v.accounts[i].name);
        assert(v.accounts[i].balance == v.openings[i] + total(v.incomes, v.accounts[i].name)
            - total(v.expenses, v.accounts[i].name));
    }
}

/// Deleting an account together with its rows keeps the state invariant.
pub proof fn lemma_remove_account_wf(v: LedgerView, id: int)
    requires
        v.wf(),
        v.has_id(id),
    ensures
        v.remove_account(id).wf(),
{
    let w = v.remove_account(id);
    let at = v.account_index(id);
    assert(0 <= at < v.accounts.len() && v.accounts[at].id == id);
    let name = v.accounts[at].name;
    assert forall|i: int| 0 <= i < w.accounts.len() implies w.accounts[i] == v.accounts[if i
        < at {
        i
    } else {
        i + 1
    }] by {}
    assert forall|i: int| 0 <= i < w.accounts.len() implies {
        &&& 0 < (#[trigger] w.accounts[i]).id < w.next_account_id
        &&& w.accounts[i].name.len() > 0
        &&& i64::MIN <= w.accounts[i].balance <= i64::MAX
        &&& w.accounts[i].name != name
    } by {
        let a = if i < at { i } else { i + 1 };
        assert(w.accounts[i] == v.accounts[a]);
        assert(v.accounts[a].name != v.accounts[at].name);
    }
    assert forall|i: int, j: int| 0 <= i < j < w.accounts.len() implies (
        #[trigger] w.accounts[i]
    ).id < (#[trigger] w.accounts[j]).id by {
        let a = if i < at { i } else { i + 1 };
        let b = if j < at { j } else { j + 1 };
        assert(v.accounts[a].id < v.accounts[b].id);
    }
    assert forall|i: int, j: int|
        0 <= i < w.accounts.len() && 0 <= j < w.accounts.len() && i != j implies #[trigger] w.accounts[i].name
        != #[trigger] w.accounts[j].name by {
        let a = if i < at { i } else { i + 1 };
        let b = if j < at { j } else { j + 1 };
        assert(v.accounts[a].name != v.accounts[b].name);
    }
    lemma_without_wf(v.expenses, name, v.next_expense_id);
    lemma_without_wf(v.incomes, name, v.next_income_id);
    lemma_cascade_reference(v.expenses, v.accounts, at);
    lemma_cascade_reference(v.incomes, v.accounts, at);
    assert forall|i: int| 0 <= i < w.accounts.len() implies (#[trigger] w.accounts[i]).balance
        == w.openings[i] + total(w.incomes, w.accounts[i].name) - total(
        w.expenses,
        w.accounts[i].name,
    ) by {
        let a = if i < at { i } else { i + 1 };
        assert(w.accounts[i] == v.accounts[a]);
        assert(w.openings[i] == v.openings[a]);
        lemma_without_total(v.expenses, name, v.accounts[a].name);
        lemma_without_total(v.incomes, name, v.accounts[a].name);
        assert(v.accounts[a].balance == v.openings[a] + total(v.incomes, v.accounts[a].name)
            - total(v.expenses, v.accounts[a].name));
    }
}

/// After an account and its rows are gone, every remaining row references
/// a remaining account.
pub proof fn lemma_cascade_reference(txs: Seq<TransactionView>, accounts: Seq<AccountView>, at: int)
    requires
        rows_reference(txs, accounts),
        0 <= at < accounts.len(),
    ensures
        rows_reference(without(txs, accounts[at].name), accounts.remove(at)),
{
    let name = accounts[at].name;
    let out = without(txs, name);
    let rest = accounts.remove(at);
    lemma_without_members(txs, name);
    assert forall|k: int| 0 <= k < out.len() implies has_name(rest, (#[trigger] out[k]).account_name) by {
        let s = choose|s: int| 0 <= s < txs.len() && txs[s] == out[k];
        assert(has_name(accounts, txs[s].account_name));
        let j = choose|j: int|
            0 <= j < accounts.len() && #[trigger] accounts[j].name == txs[s].account_name;
        assert(j != at);
        let b = if j < at { j } else { j - 1 };
        assert(rest[b].name == out[k].account_name);
    }
}

/// The balance rule, read off the state invariant: a stored balance is
/// the opening balance plus the incomes minus the expenses of its account.
/// For an account opened with zero it is the incomes minus the expenses.
pub proof fn lemma_balance_is_derived(v: LedgerView, i: int)
    requires
        v.wf(),
        0 <= i < v.accounts.len(),
    ensures
        v.balance_of(v.accounts[i].name) == v.accounts[i].balance,
        v.accounts[i].balance == v.openings[i] + total(v.incomes, v.accounts[i].name) - total(
            v.expenses,
            v.accounts[i].name,
        ),
        v.openings[i] == 0 ==> v.accounts[i].balance == total(v.incomes, v.accounts[i].name)
            - total(v.expenses, v.accounts[i].name),
{
    lemma_index_of(v, v.accounts[i].name, i);
}

/// Every write keeps the state invariant. A post or a deletion of a row
/// also keeps each account's place, id, name and opening balance.
pub proof fn lemma_apply_keeps(v: LedgerView, step: Step)
    requires
        v.wf(),
    ensures
        v.apply(step).wf(),
        step is Post || step is Remove ==> {
            &&& v.apply(step).openings == v.openings
            &&& v.apply(step).accounts.len() == v.accounts.len()
            &&& forall|i: int|
                0 <= i < v.accounts.len() ==> (#[trigger] v.apply(step).accounts[i]).name
                    == v.accounts[i].name && v.apply(step).accounts[i].id == v.accounts[i].id
        },
{
    if v.accepts(step) {
        match step {
            Step::Create { name, initial } => {
                lemma_create_wf(v, name, initial);
            },
            Step::DeleteAccount { id } => {
                lemma_remove_account_wf(v, id);
            },
            Step::Post { kind, name, amount, date, description } => {
                lemma_post_wf(v, kind, name, amount, date, description);
            },
            Step::Remove { kind, id } => {
                lemma_remove_row_wf(v, kind, id);
            },
        }
    }
}

/// The balance rule for the account at the place `i`: the balance that a
/// lookup by name gives is the opening balance plus the incomes minus the
/// expenses of that name; for an account opened with zero, the incomes
/// minus the expenses.
pub open spec fn balance_rule_at(v: LedgerView, i: int) -> bool {
    let name = v.accounts[i].name;
    &&& v.balance_of(name) == v.openings[i] + total(v.incomes, name) - total(v.expenses, name)
    &&& v.openings[i] == 0 ==> v.balance_of(name) == total(v.incomes, name) - total(
        v.expenses,
        name,
    )
}

/// After any sequence of writes, starting from a ledger that satisfies
/// the state invariant, the balance of every account is its opening
/// balance plus the incomes minus the expenses that exist for it then;
/// for an account opened with zero, the incomes minus the expenses.
pub proof fn lemma_balance_after_any_writes(v: LedgerView, steps: Seq<Step>)
    requires
        v.wf(),
    ensures
        v.run(steps).wf(),
        forall|i: int|
            0 <= i < v.run(steps).accounts.len() ==> #[trigger] balance_rule_at(v.run(steps), i),
    decreases steps.len(),
{
    if steps.len() > 0 {
        lemma_balance_after_any_writes(v, steps.drop_last());
        lemma_apply_keeps(v.run(steps.drop_last()), steps.last());
    }
    let after = v.run(steps);
    assert forall|i: int| 0 <= i < after.accounts.len() implies balance_rule_at(after, i) by {
        lemma_balance_is_derived(after, i);
    }
}

/// Posts and deletions of rows never touch what an account was opened
/// with: after any sequence of them the accounts stand where they stood,
/// under their ids and names, with their opening balances.
pub proof fn lemma_rows_keep_accounts(v: LedgerView, steps: Seq<Step>)
    requires
        v.wf(),
        forall|k: int| 0 <= k < steps.len() ==> (#[trigger] steps[k] is Post) || steps[k] is Remove,
    ensures
        v.run(steps).wf(),
        v.run(steps).openings == v.openings,
        v.run(steps).accounts.len() == v.accounts.len(),
        forall|i: int|
            0 <= i < v.accounts.len() ==> (#[trigger] v.run(steps).accounts[i]).name
                == v.accounts[i].name && v.run(steps).accounts[i].id == v.accounts[i].id,
    decreases steps.len(),
{
    if steps.len() > 0 {
        let before = steps.drop_last();
        assert forall|k: int| 0 <= k < before.len() implies (#[trigger] before[k] is Post)
            || before[k] is Remove by {
            assert(before[k] == steps[k]);
        }
        lemma_rows_keep_accounts(v, before);
        assert(steps[steps.len() - 1] is Post || steps[steps.len() - 1] is Remove);
        lemma_apply_keeps(v.run(before), steps.last());
    }
}

/// Schema setup is idempotent and loses nothing: a second setup returns
/// what the first returned, and relations that exist come back as they are.
pub proof fn lemma_ensured_idempotent(existing: Option<LedgerView>)
    ensures
        LedgerView::ensured(Some(LedgerView::ensured(existing))) == LedgerView::ensured(existing),
        existing matches Some(found) ==> LedgerView::ensured(existing) == found,
        existing is None ==> LedgerView::ensured(existing) == LedgerView::empty(),
{
}

/// Posting a row and then deleting that same row restores every account,
/// its balance included, and the rows of every kind. Only the id that the
/// row had used is not given out again.
pub proof fn lemma_post_then_delete(
    v: LedgerView,
    kind: Kind,
    name: Seq<char>,
    amount: int,
    date: Seq<char>,
    description: Option<Seq<char>>,
)
    requires
        v.wf(),
        v.has_account(name),
        0 <= amount <= i64::MAX,
        v.can_post(kind, name, amount),
    ensures
        ({
            let posted = v.post(kind, name, amount, date, description);
            let id = v.next_row_id(kind);
            &&& posted.has_row(kind, id)
            &&& posted.can_remove_row(kind, id)
            &&& posted.remove_row(kind, id) == v.with_rows(kind, v.rows(kind), id + 1)
            &&& posted.remove_row(kind, id).accounts == v.accounts
            &&& posted.remove_row(kind, id).balance_of(name) == v.balance_of(name)
        }),
{
    let posted = v.post(kind, name, amount, date, description);
    let id = v.next_row_id(kind);
    let n = v.rows(kind).len() as int;
    lemma_post_wf(v, kind, name, amount, date, description);
    assert(posted.rows(kind)[n].id == id);
    lemma_row_index(posted, kind, id, n);
    let at = v.index_of(name);
    assert(0 <= at < v.accounts.len() && v.accounts[at].name == name);
    assert(posted.accounts[at].name == name);
    lemma_index_of(posted, name, at);
    lemma_index_of(v, name, at);
    let back = posted.remove_row(kind, id);
    assert(back.rows(kind) =~= v.rows(kind));
    assert(back.accounts =~= v.accounts);
}

/// Deleting an account leaves no account of its name and no row that
/// references it, in either relation; the other rows stay in their order.
pub proof fn lemma_delete_cascades(v: LedgerView, id: int)
    requires
        v.wf(),
        v.has_id(id),
    ensures
        ({
            let name = v.accounts[v.account_index(id)].name;
            let after = v.remove_account(id);
            &&& after.wf()
            &&& !after.has_account(name)
            &&& !after.has_id(id)
            &&& forall|kind: Kind, k: int|
                0 <= k < after.rows(kind).len() ==> (#[trigger] after.rows(kind)[k]).account_name
                    != name
            &&& forall|kind: Kind| total(#[trigger] after.rows(kind), name) == 0
            &&& forall|kind: Kind| #[trigger] after.rows(kind) == without(v.rows(kind), name)
        }),
{
    let at = v.account_index(id);
    assert(0 <= at < v.accounts.len() && v.accounts[at].id == id);
    let name = v.accounts[at].name;
    let after = v.remove_account(id);
    lemma_remove_account_wf(v, id);
    lemma_without_members(v.expenses, name);
    lemma_without_members(v.incomes, name);
    lemma_without_total(v.expenses, name, name);
    lemma_without_total(v.incomes, name, name);
    assert forall|j: int| 0 <= j < after.accounts.len() implies (#[trigger] after.accounts[j]).name
        != name && after.accounts[j].id != id by {
        let a = if j < at { j } else { j + 1 };
        assert(after.accounts[j] == v.accounts[a]);
        assert(v.accounts[a].name != v.accounts[at].name);
        if a < at {
            assert(v.accounts[a].id < v.accounts[at].id);
        } else {
            assert(v.accounts[at].id < v.accounts[a].id);
        }
    }
    assert forall|kind: Kind, k: int| 0 <= k < after.rows(kind).len() implies (
        #[trigger] after.rows(kind)[k]
    ).account_name != name by {
        match kind {
            Kind::Income => {},
            Kind::Expense => {},
        }
    }
}

/// Rows that can be restored make a ledger that satisfies the state
/// invariant: the opening balances are what the stored balances leave
/// once the rows are taken out of them.
pub proof fn lemma_restored_wf(
    accounts: Seq<AccountView>,
    expenses: Seq<TransactionView>,
    incomes: Seq<TransactionView>,
)
    requires
        restorable(accounts, expenses, incomes),
    ensures
        LedgerView::restored(accounts, expenses, incomes).wf(),
{
}

} // verus!
