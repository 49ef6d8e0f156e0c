use vstd::prelude::*;

use crate::address::Address;
use crate::keyed_map::{entries_map, keys_distinct, lemma_entries_map_keys};

verus! {

/// The sum of all balances of a finite ledger.
pub open spec fn map_total(m: Map<Address, i128>) -> int
    decreases m.dom().len(),
{
    if m.dom().finite() && m.dom().len() > 0 {
        let k = m.dom().choose();
        proof {
            assert(m.remove(k).dom() =~= m.dom().remove(k));
        }
        m[k] + map_total(m.remove(k))
    } else {
        0
    }
}

/// The balance held in a ledger, zero for an address it does not hold.
pub open spec fn ledger_balance(m: Map<Address, i128>, a: Address) -> int {
    if m.contains_key(a) {
        m[a] as int
    } else {
        0
    }
}

/// Taking any one entry out of a finite ledger lowers its total by that entry.
pub proof fn lemma_total_remove(m: Map<Address, i128>, k: Address)
    requires
        m.dom().finite(),
        m.contains_key(k),
    ensures
        map_total(m) == m[k] + map_total(m.remove(k)),
    decreases m.dom().len(),
{
    let c = m.dom().choose();
    assert(m.remove(c).dom() =~= m.dom().remove(c));
    if c != k {
        assert(m.remove(k).dom() =~= m.dom().remove(k));
        lemma_total_remove(m.remove(c), k);
        lemma_total_remove(m.remove(k), c);
        assert(m.remove(c).remove(k) =~= m.remove(k).remove(c));
    }
}

/// Storing `v` under `k` changes the total by `v` less the old balance of `k`.
pub proof fn lemma_total_insert(m: Map<Address, i128>, k: Address, v: i128)
    requires
        m.dom().finite(),
    ensures
        m.insert(k, v).dom().finite(),
        map_total(m.insert(k, v)) == map_total(m) - ledger_balance(m, k) + v,
{
    let n = m.insert(k, v);
    assert(n.dom() =~= m.dom().insert(k));
    lemma_total_remove(n, k);
    if m.contains_key(k) {
        lemma_total_remove(m, k);
        assert(n.remove(k) =~= m.remove(k));
    } else {
        assert(n.remove(k) =~= m);
    }
}

/// A ledger with no negative balance has a total at least as large as any one balance.
pub proof fn lemma_total_bounds(m: Map<Address, i128>, k: Address)
    requires
        m.dom().finite(),
        forall|a: Address| m.contains_key(a) ==> m[a] >= 0,
    ensures
        0 <= ledger_balance(m, k) <= map_total(m),
    decreases m.dom().len(),
{
    lemma_total_nonneg(m);
    if m.contains_key(k) {
        lemma_total_remove(m, k);
        assert(m.remove(k).dom() =~= m.dom().remove(k));
        lemma_total_nonneg(m.remove(k));
    }
}

/// A ledger with no negative balance has a total of at least zero.
pub proof fn lemma_total_nonneg(m: Map<Address, i128>)
    requires
        m.dom().finite(),
        forall|a: Address| m.contains_key(a) ==> m[a] >= 0,
    ensures
        map_total(m) >= 0,
    decreases m.dom().len(),
{
    if m.dom().len() > 0 {
        let k = m.dom().choose();
        assert(m.remove(k).dom() =~= m.dom().remove(k));
        lemma_total_nonneg(m.remove(k));
    }
}

/// Two distinct balances of a ledger with no negative balance sum to at most its total.
pub proof fn lemma_total_bounds_pair(m: Map<Address, i128>, a: Address, b: Address)
    requires
        m.dom().finite(),
        forall|x: Address| m.contains_key(x) ==> m[x] >= 0,
        a != b,
    ensures
        ledger_balance(m, a) + ledger_balance(m, b) <= map_total(m),
{
    if m.contains_key(a) {
        lemma_total_remove(m, a);
        assert(m.remove(a).dom() =~= m.dom().remove(a));
        lemma_total_bounds(m.remove(a), b);
    } else {
        lemma_total_bounds(m, b);
    }
}

/// The sum of the balances of a sequence of ledger entries.
pub open spec fn seq_total(s: Seq<(Address, i128)>) -> int
    decreases s.len(),
{
    if s.len() == 0 {
        0
    } else {
        seq_total(s.drop_last()) + s.last().1
    }
}

/// A ledger given by entries with distinct addresses totals the sum of the entries.
pub proof fn lemma_seq_total_map(s: Seq<(Address, i128)>)
    requires
        keys_distinct(s),
    ensures
        entries_map(s).dom().finite(),
        map_total(entries_map(s)) == seq_total(s),
    decreases s.len(),
{
    lemma_entries_map_keys(s);
    if s.len() > 0 {
        let t = s.drop_last();
        assert(keys_distinct(t)) by {
            assert forall|i: int, j: int| 0 <= i < j < t.len() implies #[trigger] t[i].0 != #[trigger] t[j].0 by {
                assert(t[i] == s[i] && t[j] == s[j]);
            }
        }
        lemma_seq_total_map(t);
        lemma_entries_map_keys(t);
        assert(!entries_map(t).contains_key(s.last().0)) by {
            if entries_map(t).contains_key(s.last().0) {
                let j = choose|j: int| 0 <= j < t.len() && t[j].0 == s.last().0;
                assert(s[j].0 == s[s.len() - 1].0);
            }
        }
        lemma_total_insert(entries_map(t), s.last().0, s.last().1);
    }
}

/// With no negative entry, a prefix of a sequence of entries totals no more than the whole.
pub proof fn lemma_seq_total_prefix(s: Seq<(Address, i128)>, k: int)
    requires
        0 <= k <= s.len(),
        forall|j: int| 0 <= j < s.len() ==> #[trigger] s[j].1 >= 0,
    ensures
        seq_total(s.take(k)) <= seq_total(s),
    decreases s.len(),
{
    if k < s.len() {
        let t = s.drop_last();
        assert forall|j: int| 0 <= j < t.len() implies #[trigger] t[j].1 >= 0 by {
            assert(t[j] == s[j]);
        }
        lemma_seq_total_prefix(t, k);
        assert(t.take(k) =~= s.take(k));
        assert(s[s.len() - 1].1 >= 0);
    } else {
        assert(s.take(k) =~= s);
    }
}

/// The sum of the balances that a ledger holds for the given holders.
pub open spec fn holdings(m: Map<Address, i128>, holders: Seq<Address>) -> int
    decreases holders.len(),
{
    if holders.len() == 0 {
        0
    } else {
        holdings(m, holders.drop_last()) + ledger_balance(m, holders.last())
    }
}

/// Two ledgers that agree on every holder give the holders the same holdings.
proof fn lemma_holdings_agree(m: Map<Address, i128>, n: Map<Address, i128>, holders: Seq<Address>)
    requires
        forall|i: int| 0 <= i < holders.len() ==> ledger_balance(m, #[trigger] holders[i]) == ledger_balance(n, holders[i]),
    ensures
        holdings(m, holders) == holdings(n, holders),
    decreases holders.len(),
{
    if holders.len() > 0 {
        let init = holders.drop_last();
        assert forall|i: int| 0 <= i < init.len() implies ledger_balance(m, #[trigger] init[i]) == ledger_balance(n, init[i]) by {
            assert(init[i] == holders[i]);
        }
        lemma_holdings_agree(m, n, init);
        assert(ledger_balance(m, holders[holders.len() - 1]) == ledger_balance(n, holders[holders.len() - 1]));
    }
}

/// With no negative balance, distinct holders together hold at most the ledger's total.
pub proof fn lemma_holdings_within_total(m: Map<Address, i128>, holders: Seq<Address>)
    requires
        m.dom().finite(),
        forall|a: Address| m.contains_key(a) ==> m[a] >= 0,
        holders.no_duplicates(),
    ensures
        0 <= holdings(m, holders) <= map_total(m),
    decreases holders.len(),
{
    if holders.len() == 0 {
        lemma_total_nonneg(m);
    } else {
        let init = holders.drop_last();
        let last = holders.last();
        let rest = m.remove(last);
        assert(rest.dom() =~= m.dom().remove(last));
        assert(init.no_duplicates()) by {
            assert forall|i: int, j: int| 0 <= i < init.len() && 0 <= j < init.len() && i != j implies init[i] != init[j] by {
                assert(init[i] == holders[i] && init[j] == holders[j]);
            }
        }
        assert forall|i: int| 0 <= i < init.len() implies ledger_balance(m, #[trigger] init[i]) == ledger_balance(rest, init[i]) by {
            assert(init[i] == holders[i]);
            assert(holders[i] != holders[holders.len() - 1]);
        }
        lemma_holdings_agree(m, rest, init);
        lemma_holdings_within_total(rest, init);
        if m.contains_key(last) {
            lemma_total_remove(m, last);
        } else {
            assert(rest =~= m);
        }
    }
}

} // verus!
