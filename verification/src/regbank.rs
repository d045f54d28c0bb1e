//! A register bank held as an association list from numeric register
//! identifiers to values. Reads of an identifier the bank has never seen
//! yield zero, matching an engine whose registers start cleared.

use vstd::prelude::*;

verus! {

/// The value a bank associates with `id`: the first entry with a matching
/// identifier wins, and an absent identifier reads as zero.
pub open spec fn reg_val(bank: Seq<(i32, u64)>, id: i32) -> u64
    decreases bank.len(),
{
    if bank.len() == 0 {
        0
    } else if bank[0].0 == id {
        bank[0].1
    } else {
        reg_val(bank.drop_first(), id)
    }
}

/// The bank after a store: the first entry matching `id` is replaced, and a
/// bank without `id` gains a fresh entry at the end.
pub open spec fn reg_store(bank: Seq<(i32, u64)>, id: i32, value: u64) -> Seq<(i32, u64)>
    decreases bank.len(),
{
    if bank.len() == 0 {
        seq![(id, value)]
    } else if bank[0].0 == id {
        seq![(id, value)] + bank.drop_first()
    } else {
        seq![bank[0]] + reg_store(bank.drop_first(), id, value)
    }
}

/// A store is read back exactly: the stored identifier yields the stored
/// value, and every other identifier is untouched.
pub proof fn lemma_reg_store_val(bank: Seq<(i32, u64)>, id: i32, value: u64)
    ensures
        reg_val(reg_store(bank, id, value), id) == value,
        forall|other: i32|
            other != id ==> reg_val(reg_store(bank, id, value), other) == reg_val(bank, other),
    decreases bank.len(),
{
    let stored = reg_store(bank, id, value);
    if bank.len() == 0 {
        assert(stored =~= seq![(id, value)]);
        assert(stored.drop_first() =~= Seq::<(i32, u64)>::empty());
        assert forall|other: i32| other != id implies reg_val(stored, other) == reg_val(
            bank,
            other,
        ) by {
            assert(reg_val(stored, other) == reg_val(stored.drop_first(), other));
        }
    } else if bank[0].0 == id {
        assert(stored =~= seq![(id, value)] + bank.drop_first());
        assert(stored[0] == (id, value));
        assert(stored.drop_first() =~= bank.drop_first());
        assert forall|other: i32| other != id implies reg_val(stored, other) == reg_val(
            bank,
            other,
        ) by {
            assert(reg_val(stored, other) == reg_val(bank.drop_first(), other));
        }
    } else {
        lemma_reg_store_val(bank.drop_first(), id, value);
        assert(stored =~= seq![bank[0]] + reg_store(bank.drop_first(), id, value));
        assert(stored[0] == bank[0]);
        assert(stored.drop_first() =~= reg_store(bank.drop_first(), id, value));
        assert forall|other: i32| other != id implies reg_val(stored, other) == reg_val(
            bank,
            other,
        ) by {
            if bank[0].0 != other {
                assert(reg_val(stored, other) == reg_val(stored.drop_first(), other));
                assert(reg_val(bank, other) == reg_val(bank.drop_first(), other));
            }
        }
    }
}

/// Replacing the first entry holding `id` realises the store.
proof fn lemma_reg_store_update(bank: Seq<(i32, u64)>, i: int, id: i32, value: u64)
    requires
        0 <= i < bank.len(),
        bank[i].0 == id,
        forall|j: int| 0 <= j < i ==> bank[j].0 != id,
    ensures
        reg_store(bank, id, value) == bank.update(i, (id, value)),
    decreases i,
{
    if i == 0 {
        assert(reg_store(bank, id, value) =~= bank.update(0, (id, value)));
    } else {
        lemma_reg_store_update(bank.drop_first(), i - 1, id, value);
        assert(bank.drop_first()[i - 1].0 == id);
        assert(reg_store(bank, id, value) =~= bank.update(i, (id, value)));
    }
}

/// Appending a fresh entry realises a store of an absent identifier.
proof fn lemma_reg_store_absent(bank: Seq<(i32, u64)>, id: i32, value: u64)
    requires
        forall|j: int| 0 <= j < bank.len() ==> bank[j].0 != id,
    ensures
        reg_store(bank, id, value) == bank.push((id, value)),
    decreases bank.len(),
{
    if bank.len() == 0 {
        assert(reg_store(bank, id, value) =~= bank.push((id, value)));
    } else {
        lemma_reg_store_absent(bank.drop_first(), id, value);
        assert(reg_store(bank, id, value) =~= bank.push((id, value)));
    }
}

/// The first entry holding `id` carries the bank's value for it.
proof fn lemma_reg_val_at(bank: Seq<(i32, u64)>, i: int, id: i32)
    requires
        0 <= i < bank.len(),
        bank[i].0 == id,
        forall|j: int| 0 <= j < i ==> bank[j].0 != id,
    ensures
        reg_val(bank, id) == bank[i].1,
    decreases i,
{
    if i > 0 {
        lemma_reg_val_at(bank.drop_first(), i - 1, id);
    }
}

/// A bank without `id` reads as zero for it.
proof fn lemma_reg_val_absent(bank: Seq<(i32, u64)>, id: i32)
    requires
        forall|j: int| 0 <= j < bank.len() ==> bank[j].0 != id,
    ensures
        reg_val(bank, id) == 0,
    decreases bank.len(),
{
    if bank.len() > 0 {
        lemma_reg_val_absent(bank.drop_first(), id);
    }
}

/// Store `value` under `id`, replacing an existing entry or appending one.
pub fn bank_write(bank: &mut Vec<(i32, u64)>, id: i32, value: u64)
    ensures
        final(bank)@ == reg_store(old(bank)@, id, value),
{
    let n = bank.len();
    let mut i: usize = 0;
    while i < n
        invariant
            i <= n,
            n == bank.len(),
            bank@ == old(bank)@,
            forall|j: int| 0 <= j < i ==> bank@[j].0 != id,
        decreases n - i,
    {
        if bank[i].0 == id {
            proof {
                lemma_reg_store_update(bank@, i as int, id, value);
            }
            bank.set(i, (id, value));
            return ;
        }
        i += 1;
    }
    proof {
        lemma_reg_store_absent(bank@, id, value);
    }
    bank.push((id, value));
}

/// Read the value stored under `id`, zero when the bank has none.
pub fn bank_read(bank: &Vec<(i32, u64)>, id: i32) -> (r: u64)
    ensures
        r == reg_val(bank@, id),
{
    let n = bank.len();
    let mut i: usize = 0;
    while i < n
        invariant
            i <= n,
            n == bank.len(),
            forall|j: int| 0 <= j < i ==> bank@[j].0 != id,
        decreases n - i,
    {
        if bank[i].0 == id {
            proof {
                lemma_reg_val_at(bank@, i as int, id);
            }
            return bank[i].1;
        }
        i += 1;
    }
    proof {
        lemma_reg_val_absent(bank@, id);
    }
    0
}

} // verus!
