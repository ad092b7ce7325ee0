//! The ledger of pool shares: who holds how many, who may spend whose, and
//! how many exist. A minimal fungible-token ledger scoped to one pool.

use crate::error::AstroSwapError;
use crate::types::Address;
use vstd::prelude::*;
use vstd::set::fold::lemma_finite_set_induct;
use vstd::set::fold::lemma_fold_empty;
use vstd::set::fold::lemma_fold_insert;

verus! {

/// One row of a keyed table of amounts.
#[derive(Debug, PartialEq, Eq)]
pub struct Entry<K> {
    pub key: K,
    pub amount: i128,
}

/// What a ledger holds, as mathematical values.
///
/// `balances` maps every account that has ever been credited to its balance;
/// an account outside its domain holds nothing. `allowances` does the same
/// for pairs of owner and spender.
pub struct LedgerView {
    pub total_supply: int,
    pub balances: Map<Address, int>,
    pub allowances: Map<(Address, Address), int>,
}

/// The balance of `who` in `balances`: zero for an account it does not know.
pub open spec fn balance_at(balances: Map<Address, int>, who: Address) -> int {
    if balances.dom().contains(who) {
        balances[who]
    } else {
        0
    }
}

/// What `spender` may still take from `owner`: zero for a pair never approved.
pub open spec fn allowance_at(
    allowances: Map<(Address, Address), int>,
    owner: Address,
    spender: Address,
) -> int {
    if allowances.dom().contains((owner, spender)) {
        allowances[(owner, spender)]
    } else {
        0
    }
}

/// The step of the sum: adds the balance of one account to what was summed.
pub open spec fn add_balance_of(balances: Map<Address, int>) -> spec_fn(int, Address) -> int {
    |acc: int, who: Address| acc + balances[who]
}

/// The sum of the balances of all accounts in the domain of `balances`.
pub open spec fn sum_of_balances(balances: Map<Address, int>) -> int {
    balances.dom().fold(0int, add_balance_of(balances))
}

/// Whether no balance in `balances` is negative.
pub open spec fn no_negative_balance(balances: Map<Address, int>) -> bool {
    forall|who: Address| balances.dom().contains(who) ==> #[trigger] balances[who] >= 0
}

proof fn lemma_sum_step_commutes(balances: Map<Address, int>)
    ensures
        vstd::set::fold::is_fun_commutative(add_balance_of(balances)),
{
    let f = add_balance_of(balances);
    assert forall|a1: Address, a2: Address, b: int| #[trigger] f(f(b, a2), a1) == f(f(b, a1), a2) by {}
}

proof fn lemma_sum_depends_on_values(s: Set<Address>, m1: Map<Address, int>, m2: Map<Address, int>)
    requires
        s.finite(),
        forall|a: Address| s.contains(a) ==> m1[a] == m2[a],
    ensures
        s.fold(0int, add_balance_of(m1)) == s.fold(0int, add_balance_of(m2)),
{
    let pred = |t: Set<Address>|
        (forall|a: Address| t.contains(a) ==> m1[a] == m2[a]) ==> t.fold(0int, add_balance_of(m1))
            == t.fold(0int, add_balance_of(m2));
    lemma_sum_step_commutes(m1);
    lemma_sum_step_commutes(m2);
    assert(pred(Set::empty())) by {
        lemma_fold_empty(0int, add_balance_of(m1));
        lemma_fold_empty(0int, add_balance_of(m2));
    }
    assert forall|t: Set<Address>, a: Address|
        pred(t) && t.finite() && !t.contains(a) implies #[trigger] pred(t.insert(a)) by {
        if forall|b: Address| t.insert(a).contains(b) ==> m1[b] == m2[b] {
            assert forall|b: Address| t.contains(b) implies m1[b] == m2[b] by {
                assert(t.insert(a).contains(b));
            }
            assert(t.insert(a).contains(a));
            lemma_fold_insert(t, 0int, add_balance_of(m1), a);
            lemma_fold_insert(t, 0int, add_balance_of(m2), a);
        }
    }
    lemma_finite_set_induct(s, pred);
}

proof fn lemma_sum_is_not_negative(s: Set<Address>, m: Map<Address, int>)
    requires
        s.finite(),
        forall|a: Address| s.contains(a) ==> m[a] >= 0,
    ensures
        s.fold(0int, add_balance_of(m)) >= 0,
{
    let pred = |t: Set<Address>|
        (forall|a: Address| t.contains(a) ==> m[a] >= 0) ==> t.fold(0int, add_balance_of(m)) >= 0;
    lemma_sum_step_commutes(m);
    assert(pred(Set::empty())) by {
        lemma_fold_empty(0int, add_balance_of(m));
    }
    assert forall|t: Set<Address>, a: Address|
        pred(t) && t.finite() && !t.contains(a) implies #[trigger] pred(t.insert(a)) by {
        if forall|b: Address| t.insert(a).contains(b) ==> m[b] >= 0 {
            assert forall|b: Address| t.contains(b) implies m[b] >= 0 by {
                assert(t.insert(a).contains(b));
            }
            assert(t.insert(a).contains(a));
            lemma_fold_insert(t, 0int, add_balance_of(m), a);
        }
    }
    lemma_finite_set_induct(s, pred);
}

/// The sum of a balance map splits into the balance of any one account and
/// the sum over all the others.
pub proof fn lemma_sum_splits(balances: Map<Address, int>, who: Address)
    requires
        balances.dom().finite(),
    ensures
        sum_of_balances(balances) == balance_at(balances, who) + sum_of_balances(
            balances.remove(who),
        ),
{
    let rest = balances.dom().remove(who);
    lemma_sum_step_commutes(balances);
    assert(balances.remove(who).dom() =~= rest);
    lemma_sum_depends_on_values(rest, balances.remove(who), balances);
    if balances.dom().contains(who) {
        assert(balances.dom() =~= rest.insert(who));
        lemma_fold_insert(rest, 0int, add_balance_of(balances), who);
    } else {
        assert(balances.dom() =~= rest);
    }
}

/// Setting one balance changes the sum by the difference between the new
/// balance and the old one.
pub proof fn lemma_sum_after_insert(balances: Map<Address, int>, who: Address, amount: int)
    requires
        balances.dom().finite(),
    ensures
        sum_of_balances(balances.insert(who, amount)) == sum_of_balances(balances) - balance_at(
            balances,
            who,
        ) + amount,
{
    let after = balances.insert(who, amount);
    lemma_sum_splits(balances, who);
    lemma_sum_splits(after, who);
    assert(after.remove(who) =~= balances.remove(who));
}

/// Where no balance is negative, no balance exceeds the sum, and neither does
/// the sum of the balances of two different accounts.
pub proof fn lemma_balances_bounded_by_sum(balances: Map<Address, int>, a: Address, b: Address)
    requires
        balances.dom().finite(),
        no_negative_balance(balances),
    ensures
        0 <= balance_at(balances, a) <= sum_of_balances(balances),
        a != b ==> balance_at(balances, a) + balance_at(balances, b) <= sum_of_balances(balances),
{
    let without_a = balances.remove(a);
    lemma_sum_splits(balances, a);
    lemma_sum_splits(without_a, b);
    let without_both = without_a.remove(b);
    assert forall|c: Address| without_both.dom().contains(c) implies without_both[c] >= 0 by {
        assert(balances.dom().contains(c));
        assert(balances[c] >= 0);
    }
    lemma_sum_is_not_negative(without_both.dom(), without_both);
    if balances.dom().contains(a) {
        assert(balances[a] >= 0);
    }
    if without_a.dom().contains(b) {
        assert(balances.dom().contains(b));
        assert(balances[b] >= 0);
    }
    if a != b {
        assert(balance_at(without_a, b) == balance_at(balances, b));
    }
}

/// Whether some row of `rows` has the key `key`.
pub open spec fn has_key<K>(rows: Seq<Entry<K>>, key: K) -> bool {
    exists|i: int| 0 <= i < rows.len() && (#[trigger] rows[i]).key == key
}

/// The position of a row with the key `key`, where there is one.
pub open spec fn position_of<K>(rows: Seq<Entry<K>>, key: K) -> int {
    choose|i: int| 0 <= i < rows.len() && (#[trigger] rows[i]).key == key
}

/// Whether no key occurs in two rows.
pub open spec fn keys_are_distinct<K>(rows: Seq<Entry<K>>) -> bool {
    forall|i: int, j: int|
        0 <= i < rows.len() && 0 <= j < rows.len() && i != j ==> (#[trigger] rows[i]).key != (
        #[trigger] rows[j]).key
}

/// Whether no row holds a negative amount.
pub open spec fn amounts_are_not_negative<K>(rows: Seq<Entry<K>>) -> bool {
    forall|i: int| 0 <= i < rows.len() ==> (#[trigger] rows[i]).amount >= 0
}

/// The map from each key in `rows` to the amount in its row.
pub open spec fn table_of<K>(rows: Seq<Entry<K>>) -> Map<K, int> {
    Map::new(|key: K| has_key(rows, key), |key: K| rows[position_of(rows, key)].amount as int)
}

proof fn lemma_table_row<K>(rows: Seq<Entry<K>>, i: int)
    requires
        keys_are_distinct(rows),
        0 <= i < rows.len(),
    ensures
        table_of(rows).dom().contains(rows[i].key),
        table_of(rows)[rows[i].key] == rows[i].amount,
{
    let key = rows[i].key;
    assert(has_key(rows, key));
    let j = position_of(rows, key);
    assert(0 <= j < rows.len() && rows[j].key == key);
    assert(i == j);
}

proof fn lemma_table_after_push<K>(rows: Seq<Entry<K>>, row: Entry<K>)
    requires
        keys_are_distinct(rows),
        !has_key(rows, row.key),
    ensures
        keys_are_distinct(rows.push(row)),
        table_of(rows.push(row)) == table_of(rows).insert(row.key, row.amount as int),
{
    let after = rows.push(row);
    assert forall|i: int, j: int|
        0 <= i < after.len() && 0 <= j < after.len() && i != j implies (#[trigger] after[i]).key
        != (#[trigger] after[j]).key by {
        if i < rows.len() && j < rows.len() {
            assert(after[i] == rows[i] && after[j] == rows[j]);
        } else if i < rows.len() {
            assert(after[i] == rows[i]);
            assert(rows[i].key != row.key);
        } else {
            assert(after[j] == rows[j]);
            assert(rows[j].key != row.key);
        }
    }
    let lhs = table_of(after);
    let rhs = table_of(rows).insert(row.key, row.amount as int);
    assert forall|key: K| lhs.dom().contains(key) <==> rhs.dom().contains(key) by {
        if has_key(after, key) {
            let i = position_of(after, key);
            if i < rows.len() {
                assert(rows[i].key == key);
            }
        }
        if has_key(rows, key) {
            let i = position_of(rows, key);
            assert(after[i].key == key);
        }
        if key == row.key {
            assert(after[rows.len() as int].key == key);
        }
    }
    assert forall|key: K| lhs.dom().contains(key) implies lhs[key] == rhs[key] by {
        let i = position_of(after, key);
        lemma_table_row(after, i);
        if i < rows.len() {
            assert(after[i] == rows[i]);
            lemma_table_row(rows, i);
        }
    }
    assert(lhs =~= rhs);
}

proof fn lemma_table_after_update<K>(rows: Seq<Entry<K>>, at: int, row: Entry<K>)
    requires
        keys_are_distinct(rows),
        0 <= at < rows.len(),
        rows[at].key == row.key,
    ensures
        keys_are_distinct(rows.update(at, row)),
        table_of(rows.update(at, row)) == table_of(rows).insert(row.key, row.amount as int),
{
    let after = rows.update(at, row);
    assert forall|i: int, j: int|
        0 <= i < after.len() && 0 <= j < after.len() && i != j implies (#[trigger] after[i]).key
        != (#[trigger] after[j]).key by {
        assert(after[i].key == rows[i].key);
        assert(after[j].key == rows[j].key);
    }
    let lhs = table_of(after);
    let rhs = table_of(rows).insert(row.key, row.amount as int);
    assert forall|key: K| lhs.dom().contains(key) <==> rhs.dom().contains(key) by {
        if has_key(after, key) {
            let i = position_of(after, key);
            assert(rows[i].key == key);
        }
        if has_key(rows, key) {
            let i = position_of(rows, key);
            assert(after[i].key == key);
        }
        if key == row.key {
            assert(after[at].key == key);
        }
    }
    assert forall|key: K| lhs.dom().contains(key) implies lhs[key] == rhs[key] by {
        let i = position_of(after, key);
        lemma_table_row(after, i);
        if i != at {
            assert(after[i] == rows[i]);
            lemma_table_row(rows, i);
        }
    }
    assert(lhs =~= rhs);
}

proof fn lemma_table_is_finite<K>(rows: Seq<Entry<K>>)
    requires
        keys_are_distinct(rows),
    ensures
        table_of(rows).dom().finite(),
    decreases rows.len(),
{
    if rows.len() == 0 {
        assert(table_of(rows).dom() =~= Set::empty());
    } else {
        let front = rows.drop_last();
        let last = rows.last();
        assert forall|i: int, j: int|
            0 <= i < front.len() && 0 <= j < front.len() && i != j implies (#[trigger] front[i]).key
            != (#[trigger] front[j]).key by {
            assert(front[i] == rows[i] && front[j] == rows[j]);
        }
        assert(!has_key(front, last.key)) by {
            if has_key(front, last.key) {
                let i = position_of(front, last.key);
                assert(rows[i].key == last.key);
                assert(rows[rows.len() - 1].key == last.key);
            }
        }
        lemma_table_is_finite(front);
        lemma_table_after_push(front, last);
        assert(front.push(last) =~= rows);
    }
}

proof fn lemma_table_amounts<K>(rows: Seq<Entry<K>>)
    requires
        keys_are_distinct(rows),
        amounts_are_not_negative(rows),
    ensures
        forall|key: K| table_of(rows).dom().contains(key) ==> 0 <= #[trigger] table_of(rows)[key] <= i128::MAX,
{
    assert forall|key: K| table_of(rows).dom().contains(key) implies 0 <= #[trigger] table_of(
        rows,
    )[key] <= i128::MAX by {
        let i = position_of(rows, key);
        assert(rows[i].amount >= 0);
    }
}

/// The position of the row for `who`, if there is one.
fn find_holder(rows: &Vec<Entry<Address>>, who: &Address) -> (found: Option<usize>)
    ensures
        match found {
            Some(i) => i < rows.len() && rows[i as int].key == *who && forall|j: int|
                0 <= j < i ==> (#[trigger] rows[j]).key != *who,
            None => !has_key(rows@, *who),
        },
{
    let mut i: usize = 0;
    while i < rows.len()
        invariant
            i <= rows.len(),
            forall|j: int| 0 <= j < i ==> (#[trigger] rows[j]).key != *who,
        decreases rows.len() - i,
    {
        if rows[i].key == *who {
            return Some(i);
        }
        i = i + 1;
    }
    None
}

/// The position of the row for the pair of `owner` and `spender`, if there is one.
fn find_approval(
    rows: &Vec<Entry<(Address, Address)>>,
    owner: &Address,
    spender: &Address,
) -> (found: Option<usize>)
    ensures
        match found {
            Some(i) => i < rows.len() && rows[i as int].key == (*owner, *spender) && forall|j: int|
                0 <= j < i ==> (#[trigger] rows[j]).key != (*owner, *spender),
            None => !has_key(rows@, (*owner, *spender)),
        },
{
    let mut i: usize = 0;
    while i < rows.len()
        invariant
            i <= rows.len(),
            forall|j: int| 0 <= j < i ==> (#[trigger] rows[j]).key != (*owner, *spender),
        decreases rows.len() - i,
    {
        if rows[i].key.0 == *owner && rows[i].key.1 == *spender {
            return Some(i);
        }
        i = i + 1;
    }
    None
}

/// The amount in the row at `slot`, or zero where there is no row.
fn amount_at<K>(rows: &Vec<Entry<K>>, slot: Option<usize>, Ghost(key): Ghost<K>) -> (amount: i128)
    requires
        keys_are_distinct(rows@),
        match slot {
            Some(i) => i < rows.len() && rows[i as int].key == key,
            None => !has_key(rows@, key),
        },
    ensures
        amount == if table_of(rows@).dom().contains(key) {
            table_of(rows@)[key]
        } else {
            0
        },
{
    match slot {
        Some(i) => {
            proof {
                lemma_table_row(rows@, i as int);
            }
            rows[i].amount
        },
        None => 0,
    }
}

/// Writes `amount` into the row at `slot`, or into a new row for `key` where
/// there is none yet.
fn store_amount<K: Copy>(rows: &mut Vec<Entry<K>>, slot: Option<usize>, key: K, amount: i128)
    requires
        keys_are_distinct(old(rows)@),
        match slot {
            Some(i) => i < old(rows).len() && old(rows)[i as int].key == key,
            None => !has_key(old(rows)@, key),
        },
    ensures
        keys_are_distinct(final(rows)@),
        table_of(final(rows)@) == table_of(old(rows)@).insert(key, amount as int),
        amount >= 0 && amounts_are_not_negative(old(rows)@) ==> amounts_are_not_negative(
            final(rows)@,
        ),
{
    let row = Entry { key, amount };
    match slot {
        Some(i) => {
            proof {
                lemma_table_after_update(rows@, i as int, row);
            }
            rows.set(i, row);
        },
        None => {
            proof {
                lemma_table_after_push(rows@, row);
            }
            rows.push(row);
        },
    }
}

/// The sum of the amounts in all rows.
pub open spec fn rows_total<K>(rows: Seq<Entry<K>>) -> int
    decreases rows.len(),
{
    if rows.len() == 0 {
        0
    } else {
        rows_total(rows.drop_last()) + rows.last().amount
    }
}

/// Whether a ledger can be made of these rows: no account and no pair of
/// owner and spender occurs twice, no amount is negative, and the balances
/// add up to a supply that fits in an `i128`.
pub open spec fn ledger_parts_are_valid(
    balances: Seq<Entry<Address>>,
    allowances: Seq<Entry<(Address, Address)>>,
) -> bool {
    &&& keys_are_distinct(balances)
    &&& amounts_are_not_negative(balances)
    &&& keys_are_distinct(allowances)
    &&& amounts_are_not_negative(allowances)
    &&& rows_total(balances) <= i128::MAX
}

/// The ledger that is made of these rows.
pub open spec fn view_of_ledger_parts(
    balances: Seq<Entry<Address>>,
    allowances: Seq<Entry<(Address, Address)>>,
) -> LedgerView {
    LedgerView {
        total_supply: rows_total(balances),
        balances: table_of(balances),
        allowances: table_of(allowances),
    }
}

proof fn lemma_prefix_keeps_rules<K>(rows: Seq<Entry<K>>, n: int)
    requires
        0 <= n <= rows.len(),
    ensures
        keys_are_distinct(rows) ==> keys_are_distinct(rows.take(n)),
        amounts_are_not_negative(rows) ==> amounts_are_not_negative(rows.take(n)),
        keys_are_distinct(rows) && n < rows.len() ==> !has_key(rows.take(n), rows[n].key),
{
    let front = rows.take(n);
    if keys_are_distinct(rows) {
        assert forall|i: int, j: int|
            0 <= i < front.len() && 0 <= j < front.len() && i != j implies (#[trigger] front[i]).key
            != (#[trigger] front[j]).key by {
            assert(front[i] == rows[i] && front[j] == rows[j]);
        }
        if n < rows.len() && has_key(front, rows[n].key) {
            let i = position_of(front, rows[n].key);
            assert(front[i] == rows[i]);
            assert(rows[i].key == rows[n].key);
        }
    }
    if amounts_are_not_negative(rows) {
        assert forall|i: int| 0 <= i < front.len() implies (#[trigger] front[i]).amount >= 0 by {
            assert(front[i] == rows[i]);
        }
    }
}

proof fn lemma_rows_total_step<K>(rows: Seq<Entry<K>>, n: int)
    requires
        0 <= n < rows.len(),
    ensures
        rows_total(rows.take(n + 1)) == rows_total(rows.take(n)) + rows[n].amount,
{
    assert(rows.take(n + 1).drop_last() =~= rows.take(n));
}

proof fn lemma_rows_total_grows<K>(rows: Seq<Entry<K>>, n: int)
    requires
        amounts_are_not_negative(rows),
        0 <= n <= rows.len(),
    ensures
        0 <= rows_total(rows.take(n)) <= rows_total(rows),
    decreases rows.len() - n,
{
    if n == rows.len() {
        assert(rows.take(n) =~= rows);
        lemma_rows_total_is_not_negative(rows);
    } else {
        lemma_rows_total_grows(rows, n + 1);
        lemma_rows_total_step(rows, n);
        lemma_prefix_keeps_rules(rows, n);
        lemma_rows_total_is_not_negative(rows.take(n));
    }
}

proof fn lemma_rows_total_is_not_negative<K>(rows: Seq<Entry<K>>)
    requires
        amounts_are_not_negative(rows),
    ensures
        rows_total(rows) >= 0,
    decreases rows.len(),
{
    if rows.len() > 0 {
        let front = rows.drop_last();
        assert forall|i: int| 0 <= i < front.len() implies (#[trigger] front[i]).amount >= 0 by {
            assert(front[i] == rows[i]);
        }
        lemma_rows_total_is_not_negative(front);
    }
}

/// Where every account has one row, the amounts of the rows add up to the
/// sum of the balance map.
proof fn lemma_rows_total_is_sum_of_balances(rows: Seq<Entry<Address>>)
    requires
        keys_are_distinct(rows),
    ensures
        rows_total(rows) == sum_of_balances(table_of(rows)),
    decreases rows.len(),
{
    if rows.len() == 0 {
        assert(table_of(rows).dom() =~= Set::empty());
        lemma_fold_empty(0int, add_balance_of(table_of(rows)));
    } else {
        let front = rows.drop_last();
        let last = rows.last();
        assert(front =~= rows.take(rows.len() - 1));
        lemma_prefix_keeps_rules(rows, rows.len() - 1);
        lemma_rows_total_is_sum_of_balances(front);
        lemma_table_is_finite(front);
        lemma_table_after_push(front, last);
        assert(front.push(last) =~= rows);
        lemma_sum_after_insert(table_of(front), last.key, last.amount as int);
    }
}

/// The ledger of one pool's shares.
///
/// Every value of this type is well formed: no balance and no allowance is
/// negative, and the total supply is the sum of all balances.
#[derive(Debug)]
pub struct ShareLedger {
    balances: Vec<Entry<Address>>,
    allowances: Vec<Entry<(Address, Address)>>,
    total_supply: i128,
}

impl View for ShareLedger {
    type V = LedgerView;

    closed spec fn view(&self) -> LedgerView {
        LedgerView {
            total_supply: self.total_supply as int,
            balances: table_of(self.balances@),
            allowances: table_of(self.allowances@),
        }
    }
}

/// How the result and the effect of a ledger operation relate to what is
/// expected of it: on success the ledger holds the expected view, and on
/// failure the expected error is returned and the ledger is unchanged.
pub open spec fn ledger_outcome(
    result: Result<(), AstroSwapError>,
    before: ShareLedger,
    after: ShareLedger,
    expected: Result<LedgerView, AstroSwapError>,
) -> bool {
    match expected {
        Ok(view) => result == Ok::<(), AstroSwapError>(()) && after@ == view,
        Err(e) => result == Err::<(), AstroSwapError>(e) && after == before,
    }
}

/// The balances after `amount` has moved from `from` to `to`.
pub open spec fn balances_after_transfer(
    balances: Map<Address, int>,
    from: Address,
    to: Address,
    amount: int,
) -> Map<Address, int> {
    let debited = balances.insert(from, balance_at(balances, from) - amount);
    debited.insert(to, balance_at(debited, to) + amount)
}

/// What `mint` does to a ledger.
pub open spec fn spec_mint(
    before: LedgerView,
    to: Address,
    amount: int,
) -> Result<LedgerView, AstroSwapError> {
    if amount <= 0 {
        Err(AstroSwapError::InvalidAmount)
    } else if before.total_supply + amount > i128::MAX {
        Err(AstroSwapError::Overflow)
    } else {
        Ok(
            LedgerView {
                total_supply: before.total_supply + amount,
                balances: before.balances.insert(to, balance_at(before.balances, to) + amount),
                allowances: before.allowances,
            },
        )
    }
}

/// What `burn` does to a ledger.
pub open spec fn spec_burn(
    before: LedgerView,
    from: Address,
    amount: int,
) -> Result<LedgerView, AstroSwapError> {
    if amount <= 0 {
        Err(AstroSwapError::InvalidAmount)
    } else if balance_at(before.balances, from) < amount {
        Err(AstroSwapError::InsufficientBalance)
    } else {
        Ok(
            LedgerView {
                total_supply: before.total_supply - amount,
                balances: before.balances.insert(from, balance_at(before.balances, from) - amount),
                allowances: before.allowances,
            },
        )
    }
}

/// What `transfer` does to a ledger.
pub open spec fn spec_transfer(
    before: LedgerView,
    from: Address,
    to: Address,
    amount: int,
) -> Result<LedgerView, AstroSwapError> {
    if amount <= 0 {
        Err(AstroSwapError::InvalidAmount)
    } else if balance_at(before.balances, from) < amount {
        Err(AstroSwapError::InsufficientBalance)
    } else {
        Ok(
            LedgerView {
                total_supply: before.total_supply,
                balances: balances_after_transfer(before.balances, from, to, amount),
                allowances: before.allowances,
            },
        )
    }
}

/// What `transfer_from` does to a ledger.
pub open spec fn spec_transfer_from(
    before: LedgerView,
    spender: Address,
    from: Address,
    to: Address,
    amount: int,
) -> Result<LedgerView, AstroSwapError> {
    if amount <= 0 {
        Err(AstroSwapError::InvalidAmount)
    } else if allowance_at(before.allowances, from, spender) < amount {
        Err(AstroSwapError::InsufficientAllowance)
    } else if balance_at(before.balances, from) < amount {
        Err(AstroSwapError::InsufficientBalance)
    } else {
        Ok(
            LedgerView {
                total_supply: before.total_supply,
                balances: balances_after_transfer(before.balances, from, to, amount),
                allowances: before.allowances.insert(
                    (from, spender),
                    allowance_at(before.allowances, from, spender) - amount,
                ),
            },
        )
    }
}

/// What `approve` does to a ledger.
pub open spec fn spec_approve(
    before: LedgerView,
    owner: Address,
    spender: Address,
    amount: int,
) -> Result<LedgerView, AstroSwapError> {
    if amount < 0 {
        Err(AstroSwapError::InvalidAmount)
    } else {
        Ok(
            LedgerView {
                total_supply: before.total_supply,
                balances: before.balances,
                allowances: before.allowances.insert((owner, spender), amount),
            },
        )
    }
}

/// What `burn_from` does to a ledger.
pub open spec fn spec_burn_from(
    before: LedgerView,
    spender: Address,
    from: Address,
    amount: int,
) -> Result<LedgerView, AstroSwapError> {
    if amount <= 0 {
        Err(AstroSwapError::InvalidAmount)
    } else if allowance_at(before.allowances, from, spender) < amount {
        Err(AstroSwapError::InsufficientAllowance)
    } else if balance_at(before.balances, from) < amount {
        Err(AstroSwapError::InsufficientBalance)
    } else {
        Ok(
            LedgerView {
                total_supply: before.total_supply - amount,
                balances: before.balances.insert(from, balance_at(before.balances, from) - amount),
                allowances: before.allowances.insert(
                    (from, spender),
                    allowance_at(before.allowances, from, spender) - amount,
                ),
            },
        )
    }
}

impl ShareLedger {
    /// The invariant of the type. What it means for the view is stated by
    /// `lemma_supply_is_sum_of_balances`.
    #[verifier::type_invariant]
    pub closed spec fn well_formed(&self) -> bool {
        &&& keys_are_distinct(self.balances@)
        &&& amounts_are_not_negative(self.balances@)
        &&& keys_are_distinct(self.allowances@)
        &&& amounts_are_not_negative(self.allowances@)
        &&& self.total_supply == sum_of_balances(table_of(self.balances@))
    }

    /// A ledger with no shares, no holders and no allowances.
    pub fn new() -> (ledger: ShareLedger)
        ensures
            ledger.well_formed(),
            ledger@ == (LedgerView {
                total_supply: 0,
                balances: Map::empty(),
                allowances: Map::empty(),
            }),
    {
        let balances: Vec<Entry<Address>> = Vec::new();
        let allowances: Vec<Entry<(Address, Address)>> = Vec::new();
        proof {
            assert(table_of(balances@) =~= Map::<Address, int>::empty());
            assert(table_of(allowances@) =~= Map::<(Address, Address), int>::empty());
            lemma_fold_empty(0int, add_balance_of(table_of(balances@)));
        }
        ShareLedger { balances, allowances, total_supply: 0 }
    }

    /// The ledger made of the given rows, one per account and one per pair
    /// of owner and spender, or `InvalidArgument` where no ledger can be
    /// made of them: where an account or a pair occurs twice, an amount is
    /// negative, or the balances add up to more than an `i128` holds.
    pub fn from_parts(
        balances: Vec<Entry<Address>>,
        allowances: Vec<Entry<(Address, Address)>>,
    ) -> (r: Result<ShareLedger, AstroSwapError>)
        ensures
            match r {
                Ok(ledger) => ledger_parts_are_valid(balances@, allowances@) && ledger.well_formed()
                    && ledger@ == view_of_ledger_parts(balances@, allowances@),
                Err(e) => e == AstroSwapError::InvalidArgument && !ledger_parts_are_valid(
                    balances@,
                    allowances@,
                ),
            },
    {
        let mut total: i128 = 0;
        let mut i: usize = 0;
        while i < balances.len()
            invariant
                i <= balances.len(),
                keys_are_distinct(balances@.take(i as int)),
                amounts_are_not_negative(balances@.take(i as int)),
                total == rows_total(balances@.take(i as int)),
                0 <= total,
            decreases balances.len() - i,
        {
            let amount = balances[i].amount;
            let ghost front = balances@.take(i as int);
            proof {
                lemma_rows_total_step(balances@, i as int);
                assert(balances@.take(i + 1) =~= front.push(balances@[i as int]));
            }
            if amount < 0 {
                return Err(AstroSwapError::InvalidArgument);
            }
            match find_holder(&balances, &balances[i].key) {
                Some(first) => {
                    if first != i {
                        return Err(AstroSwapError::InvalidArgument);
                    }
                },
                None => {
                    return Err(AstroSwapError::InvalidArgument);
                },
            }
            proof {
                assert(!has_key(front, balances@[i as int].key)) by {
                    if has_key(front, balances@[i as int].key) {
                        let j = position_of(front, balances@[i as int].key);
                        assert(front[j] == balances@[j]);
                    }
                }
                lemma_table_after_push(front, balances@[i as int]);
                assert forall|j: int| 0 <= j < i + 1 implies (#[trigger] balances@.take(
                    i + 1,
                )[j]).amount >= 0 by {
                    if j < i {
                        assert(balances@.take(i + 1)[j] == front[j]);
                    }
                }
            }
            total = match total.checked_add(amount) {
                Some(v) => v,
                None => {
                    proof {
                        if amounts_are_not_negative(balances@) {
                            lemma_rows_total_grows(balances@, i + 1);
                        }
                    }
                    return Err(AstroSwapError::InvalidArgument);
                },
            };
            i = i + 1;
        }
        let mut j: usize = 0;
        while j < allowances.len()
            invariant
                j <= allowances.len(),
                keys_are_distinct(allowances@.take(j as int)),
                amounts_are_not_negative(allowances@.take(j as int)),
            decreases allowances.len() - j,
        {
            let ghost front = allowances@.take(j as int);
            proof {
                assert(allowances@.take(j + 1) =~= front.push(allowances@[j as int]));
            }
            if allowances[j].amount < 0 {
                return Err(AstroSwapError::InvalidArgument);
            }
            match find_approval(&allowances, &allowances[j].key.0, &allowances[j].key.1) {
                Some(first) => {
                    if first != j {
                        return Err(AstroSwapError::InvalidArgument);
                    }
                },
                None => {
                    return Err(AstroSwapError::InvalidArgument);
                },
            }
            proof {
                assert(!has_key(front, allowances@[j as int].key)) by {
                    if has_key(front, allowances@[j as int].key) {
                        let k = position_of(front, allowances@[j as int].key);
                        assert(front[k] == allowances@[k]);
                    }
                }
                lemma_table_after_push(front, allowances@[j as int]);
                assert forall|k: int| 0 <= k < j + 1 implies (#[trigger] allowances@.take(
                    j + 1,
                )[k]).amount >= 0 by {
                    if k < j {
                        assert(allowances@.take(j + 1)[k] == front[k]);
                    }
                }
            }
            j = j + 1;
        }
        proof {
            assert(balances@.take(balances.len() as int) =~= balances@);
            assert(allowances@.take(allowances.len() as int) =~= allowances@);
            lemma_rows_total_is_sum_of_balances(balances@);
        }
        Ok(ShareLedger { balances, allowances, total_supply: total })
    }

    /// The rows that the ledger is made of, and its supply. A ledger made
    /// of these rows again is the same ledger.
    pub fn into_parts(self) -> (parts: (Vec<Entry<Address>>, Vec<Entry<(Address, Address)>>, i128))
        ensures
            ledger_parts_are_valid(parts.0@, parts.1@),
            view_of_ledger_parts(parts.0@, parts.1@) == self@,
            parts.2 == self@.total_supply,
    {
        proof {
            use_type_invariant(&self);
            lemma_rows_total_is_sum_of_balances(self.balances@);
        }
        let ShareLedger { balances, allowances, total_supply } = self;
        (balances, allowances, total_supply)
    }

    /// Whether `owner` has granted no allowance to anyone.
    pub fn grants_nothing(&self, owner: &Address) -> (nothing: bool)
        ensures
            nothing == forall|spender: Address| #[trigger]
                allowance_at(self@.allowances, *owner, spender) == 0,
    {
        proof {
            use_type_invariant(self);
        }
        let mut i: usize = 0;
        while i < self.allowances.len()
            invariant
                i <= self.allowances.len(),
                keys_are_distinct(self.allowances@),
                forall|j: int|
                    0 <= j < i && (#[trigger] self.allowances@[j]).key.0 == *owner
                        ==> self.allowances@[j].amount == 0,
            decreases self.allowances.len() - i,
        {
            if self.allowances[i].key.0 == *owner && self.allowances[i].amount != 0 {
                proof {
                    lemma_table_row(self.allowances@, i as int);
                    let spender = self.allowances@[i as int].key.1;
                    assert(allowance_at(self@.allowances, *owner, spender) != 0);
                }
                return false;
            }
            i = i + 1;
        }
        proof {
            assert forall|spender: Address| #[trigger]
                allowance_at(self@.allowances, *owner, spender) == 0 by {
                if self@.allowances.dom().contains((*owner, spender)) {
                    let j = position_of(self.allowances@, (*owner, spender));
                    assert(self.allowances@[j].key.0 == *owner);
                }
            }
        }
        true
    }

    /// Replaces the ledger's contents in one step.
    fn replace(
        &mut self,
        balances: Vec<Entry<Address>>,
        allowances: Vec<Entry<(Address, Address)>>,
        total_supply: i128,
    )
        requires
            keys_are_distinct(balances@),
            amounts_are_not_negative(balances@),
            keys_are_distinct(allowances@),
            amounts_are_not_negative(allowances@),
            total_supply == sum_of_balances(table_of(balances@)),
        ensures
            final(self).well_formed(),
            final(self)@ == (LedgerView {
                total_supply: total_supply as int,
                balances: table_of(balances@),
                allowances: table_of(allowances@),
            }),
    {
        *self = ShareLedger { balances, allowances, total_supply };
    }

    /// Takes the ledger's contents out, leaving an empty ledger behind.
    fn take(&mut self) -> (parts: (Vec<Entry<Address>>, Vec<Entry<(Address, Address)>>, i128))
        ensures
            keys_are_distinct(parts.0@),
            amounts_are_not_negative(parts.0@),
            keys_are_distinct(parts.1@),
            amounts_are_not_negative(parts.1@),
            parts.2 == sum_of_balances(table_of(parts.0@)),
            old(self)@ == (LedgerView {
                total_supply: parts.2 as int,
                balances: table_of(parts.0@),
                allowances: table_of(parts.1@),
            }),
            parts.0 == old(self).balances,
            parts.1 == old(self).allowances,
            parts.2 == old(self).total_supply,
    {
        proof {
            use_type_invariant(&*self);
        }
        let mut taken = ShareLedger::new();
        std::mem::swap(self, &mut taken);
        let ShareLedger { balances, allowances, total_supply } = taken;
        (balances, allowances, total_supply)
    }
}

/// The supply of a ledger is the sum of its balances, its balance map is
/// finite, and no balance or allowance is negative or beyond the supply's
/// range.
pub proof fn lemma_supply_is_sum_of_balances(ledger: ShareLedger)
    requires
        ledger.well_formed(),
    ensures
        ledger@.total_supply == sum_of_balances(ledger@.balances),
        ledger@.balances.dom().finite(),
        no_negative_balance(ledger@.balances),
        0 <= ledger@.total_supply <= i128::MAX,
        forall|who: Address| 0 <= #[trigger] balance_at(ledger@.balances, who) <= ledger@.total_supply,
        forall|owner: Address, spender: Address|
            0 <= #[trigger] allowance_at(ledger@.allowances, owner, spender) <= i128::MAX,
{
    lemma_table_is_finite(ledger.balances@);
    lemma_table_amounts(ledger.balances@);
    lemma_table_amounts(ledger.allowances@);
    assert forall|who: Address| 0 <= #[trigger] balance_at(ledger@.balances, who)
        <= ledger@.total_supply by {
        lemma_balances_bounded_by_sum(ledger@.balances, who, who);
    }
    lemma_sum_is_not_negative(ledger@.balances.dom(), ledger@.balances);
}

/// The name of the share token.
pub fn name() -> (r: String)
    ensures
        r@ == "AstroSwap LP Token"@,
{
    "AstroSwap LP Token".to_owned()
}

/// The ticker symbol of the share token.
pub fn symbol() -> (r: String)
    ensures
        r@ == "ASTRO-LP"@,
{
    "ASTRO-LP".to_owned()
}

/// The number of decimal places in which share amounts are displayed.
pub fn decimals() -> (r: u32)
    ensures
        r == 7,
{
    7
}

/// The number of shares in existence.
pub fn total_supply(ledger: &ShareLedger) -> (r: i128)
    ensures
        r == ledger@.total_supply,
        r == sum_of_balances(ledger@.balances),
        r >= 0,
{
    proof {
        use_type_invariant(ledger);
        lemma_supply_is_sum_of_balances(*ledger);
    }
    ledger.total_supply
}

/// The number of shares that `owner` holds.
pub fn balance_of(ledger: &ShareLedger, owner: &Address) -> (r: i128)
    ensures
        r == balance_at(ledger@.balances, *owner),
        0 <= r <= ledger@.total_supply,
{
    proof {
        use_type_invariant(ledger);
        lemma_supply_is_sum_of_balances(*ledger);
        assert(0 <= balance_at(ledger@.balances, *owner) <= ledger@.total_supply);
    }
    let slot = find_holder(&ledger.balances, owner);
    amount_at(&ledger.balances, slot, Ghost(*owner))
}

/// The number of shares that `spender` may still move out of `owner`'s balance.
pub fn allowance(ledger: &ShareLedger, owner: &Address, spender: &Address) -> (r: i128)
    ensures
        r == allowance_at(ledger@.allowances, *owner, *spender),
        r >= 0,
{
    proof {
        use_type_invariant(ledger);
        lemma_supply_is_sum_of_balances(*ledger);
    }
    let slot = find_approval(&ledger.allowances, owner, spender);
    amount_at(&ledger.allowances, slot, Ghost((*owner, *spender)))
}

/// Creates `amount` new shares and credits them to `to`.
///
/// A non-positive `amount` is `InvalidAmount`; a supply that would leave the
/// `i128` range is `Overflow`.
pub fn mint(ledger: &mut ShareLedger, to: &Address, amount: i128) -> (r: Result<(), AstroSwapError>)
    ensures
        final(ledger).well_formed(),
        ledger_outcome(
            r,
            *old(ledger),
            *final(ledger),
            spec_mint(old(ledger)@, *to, amount as int),
        ),
{
    proof {
        use_type_invariant(&*ledger);
        lemma_supply_is_sum_of_balances(*ledger);
    }
    if amount <= 0 {
        return Err(AstroSwapError::InvalidAmount);
    }
    let new_supply = match ledger.total_supply.checked_add(amount) {
        Some(v) => v,
        None => {
            return Err(AstroSwapError::Overflow);
        },
    };
    let (mut balances, allowances, _supply) = ledger.take();
    let slot = find_holder(&balances, to);
    let held = amount_at(&balances, slot, Ghost(*to));
    proof {
        lemma_table_is_finite(balances@);
        lemma_sum_after_insert(table_of(balances@), *to, held + amount);
    }
    store_amount(&mut balances, slot, *to, held + amount);
    ledger.replace(balances, allowances, new_supply);
    Ok(())
}

/// Destroys `amount` of the shares that `from` holds.
///
/// A non-positive `amount` is `InvalidAmount`; a balance below `amount` is
/// `InsufficientBalance`.
pub fn burn(
    ledger: &mut ShareLedger,
    from: &Address,
    amount: i128,
) -> (r: Result<(), AstroSwapError>)
    ensures
        final(ledger).well_formed(),
        ledger_outcome(
            r,
            *old(ledger),
            *final(ledger),
            spec_burn(old(ledger)@, *from, amount as int),
        ),
{
    proof {
        use_type_invariant(&*ledger);
        lemma_supply_is_sum_of_balances(*ledger);
    }
    if amount <= 0 {
        return Err(AstroSwapError::InvalidAmount);
    }
    let slot = find_holder(&ledger.balances, from);
    let held = amount_at(&ledger.balances, slot, Ghost(*from));
    if held < amount {
        return Err(AstroSwapError::InsufficientBalance);
    }
    let (mut balances, allowances, supply) = ledger.take();
    proof {
        lemma_table_is_finite(balances@);
        lemma_sum_after_insert(table_of(balances@), *from, held - amount);
    }
    store_amount(&mut balances, slot, *from, held - amount);
    ledger.replace(balances, allowances, supply - amount);
    Ok(())
}

/// Moves `amount` within `balances` from `from` to `to`.
fn move_shares(balances: &mut Vec<Entry<Address>>, from: &Address, to: &Address, amount: i128)
    requires
        keys_are_distinct(old(balances)@),
        amounts_are_not_negative(old(balances)@),
        0 < amount <= balance_at(table_of(old(balances)@), *from),
        sum_of_balances(table_of(old(balances)@)) <= i128::MAX,
    ensures
        keys_are_distinct(final(balances)@),
        amounts_are_not_negative(final(balances)@),
        table_of(final(balances)@) == balances_after_transfer(
            table_of(old(balances)@),
            *from,
            *to,
            amount as int,
        ),
        sum_of_balances(table_of(final(balances)@)) == sum_of_balances(table_of(old(balances)@)),
{
    let ghost before = table_of(balances@);
    let from_slot = find_holder(balances, from);
    let from_held = amount_at(balances, from_slot, Ghost(*from));
    proof {
        lemma_table_is_finite(balances@);
        lemma_table_amounts(balances@);
        lemma_sum_after_insert(before, *from, from_held - amount);
        lemma_balances_bounded_by_sum(before, *from, *to);
    }
    store_amount(balances, from_slot, *from, from_held - amount);
    let ghost debited = table_of(balances@);
    let to_slot = find_holder(balances, to);
    let to_held = amount_at(balances, to_slot, Ghost(*to));
    proof {
        lemma_table_is_finite(balances@);
        lemma_sum_after_insert(debited, *to, to_held + amount);
        assert(to_held + amount <= sum_of_balances(before));
    }
    store_amount(balances, to_slot, *to, to_held + amount);
}

/// Moves `amount` shares from `from` to `to`. The caller has established
/// that `from` consents.
///
/// A non-positive `amount` is `InvalidAmount`; a balance of `from` below
/// `amount` is `InsufficientBalance`.
pub fn transfer(
    ledger: &mut ShareLedger,
    from: &Address,
    to: &Address,
    amount: i128,
) -> (r: Result<(), AstroSwapError>)
    ensures
        final(ledger).well_formed(),
        ledger_outcome(
            r,
            *old(ledger),
            *final(ledger),
            spec_transfer(old(ledger)@, *from, *to, amount as int),
        ),
{
    proof {
        use_type_invariant(&*ledger);
        lemma_supply_is_sum_of_balances(*ledger);
    }
    if amount <= 0 {
        return Err(AstroSwapError::InvalidAmount);
    }
    let from_balance = balance_of(ledger, from);
    if from_balance < amount {
        return Err(AstroSwapError::InsufficientBalance);
    }
    let (mut balances, allowances, supply) = ledger.take();
    move_shares(&mut balances, from, to, amount);
    ledger.replace(balances, allowances, supply);
    Ok(())
}

/// Moves `amount` shares from `from` to `to` on the strength of the
/// allowance that `from` gave to `spender`, and lowers that allowance by
/// `amount`. The caller has established that `spender` consents.
///
/// A non-positive `amount` is `InvalidAmount`; an allowance below `amount` is
/// `InsufficientAllowance`; a balance of `from` below `amount` is
/// `InsufficientBalance`.
pub fn transfer_from(
    ledger: &mut ShareLedger,
    spender: &Address,
    from: &Address,
    to: &Address,
    amount: i128,
) -> (r: Result<(), AstroSwapError>)
    ensures
        final(ledger).well_formed(),
        ledger_outcome(
            r,
            *old(ledger),
            *final(ledger),
            spec_transfer_from(old(ledger)@, *spender, *from, *to, amount as int),
        ),
{
    proof {
        use_type_invariant(&*ledger);
        lemma_supply_is_sum_of_balances(*ledger);
    }
    if amount <= 0 {
        return Err(AstroSwapError::InvalidAmount);
    }
    let slot = find_approval(&ledger.allowances, from, spender);
    let current_allowance = amount_at(&ledger.allowances, slot, Ghost((*from, *spender)));
    if current_allowance < amount {
        return Err(AstroSwapError::InsufficientAllowance);
    }
    let from_balance = balance_of(ledger, from);
    if from_balance < amount {
        return Err(AstroSwapError::InsufficientBalance);
    }
    let (mut balances, mut allowances, supply) = ledger.take();
    store_amount(&mut allowances, slot, (*from, *spender), current_allowance - amount);
    move_shares(&mut balances, from, to, amount);
    ledger.replace(balances, allowances, supply);
    Ok(())
}

/// Sets what `spender` may move out of `owner`'s balance to `amount`. The
/// caller has established that `owner` consents.
///
/// A negative `amount` is `InvalidAmount`.
pub fn approve(
    ledger: &mut ShareLedger,
    owner: &Address,
    spender: &Address,
    amount: i128,
) -> (r: Result<(), AstroSwapError>)
    ensures
        final(ledger).well_formed(),
        ledger_outcome(
            r,
            *old(ledger),
            *final(ledger),
            spec_approve(old(ledger)@, *owner, *spender, amount as int),
        ),
{
    proof {
        use_type_invariant(&*ledger);
    }
    if amount < 0 {
        return Err(AstroSwapError::InvalidAmount);
    }
    let (balances, mut allowances, supply) = ledger.take();
    let slot = find_approval(&allowances, owner, spender);
    store_amount(&mut allowances, slot, (*owner, *spender), amount);
    ledger.replace(balances, allowances, supply);
    Ok(())
}

/// Destroys `amount` of the shares that `from` holds on the strength of the
/// allowance that `from` gave to `spender`, and lowers that allowance by
/// `amount`. The caller has established that `spender` consents.
///
/// A non-positive `amount` is `InvalidAmount`; an allowance below `amount` is
/// `InsufficientAllowance`; a balance of `from` below `amount` is
/// `InsufficientBalance`.
pub fn burn_from(
    ledger: &mut ShareLedger,
    spender: &Address,
    from: &Address,
    amount: i128,
) -> (r: Result<(), AstroSwapError>)
    ensures
        final(ledger).well_formed(),
        ledger_outcome(
            r,
            *old(ledger),
            *final(ledger),
            spec_burn_from(old(ledger)@, *spender, *from, amount as int),
        ),
{
    proof {
        use_type_invariant(&*ledger);
        lemma_supply_is_sum_of_balances(*ledger);
    }
    if amount <= 0 {
        return Err(AstroSwapError::InvalidAmount);
    }
    let approval_slot = find_approval(&ledger.allowances, from, spender);
    let current_allowance = amount_at(
        &ledger.allowances,
        approval_slot,
        Ghost((*from, *spender)),
    );
    if current_allowance < amount {
        return Err(AstroSwapError::InsufficientAllowance);
    }
    let slot = find_holder(&ledger.balances, from);
    let held = amount_at(&ledger.balances, slot, Ghost(*from));
    if held < amount {
        return Err(AstroSwapError::InsufficientBalance);
    }
    let (mut balances, mut allowances, supply) = ledger.take();
    proof {
        lemma_table_is_finite(balances@);
        lemma_sum_after_insert(table_of(balances@), *from, held - amount);
    }
    store_amount(&mut allowances, approval_slot, (*from, *spender), current_allowance - amount);
    store_amount(&mut balances, slot, *from, held - amount);
    ledger.replace(balances, allowances, supply - amount);
    Ok(())
}

} // verus!
