//! The outputs that a block may spend, and the check that it spends each at most once.

use vstd::prelude::*;

use crate::error::{ScriptError, TransactionError};
use crate::primitives::{script_verdict, transaction_bytes, transaction_views};
use crate::primitives::{OutPoint, Transaction, TransactionView, TxOut, TxOutView};

verus! {

/// Outputs by what refers to them. Of two entries for one reference the later one counts.
#[derive(Debug)]
pub struct UtxoMap {
    entries: Vec<(OutPoint, TxOut)>,
}

/// What a list of entries holds.
spec fn mapped(entries: Seq<(OutPoint, TxOut)>) -> Map<OutPoint, TxOutView>
    decreases entries.len(),
{
    if entries.len() == 0 {
        Map::empty()
    } else {
        mapped(entries.drop_last()).insert(entries.last().0, entries.last().1@)
    }
}

impl View for UtxoMap {
    type V = Map<OutPoint, TxOutView>;

    closed spec fn view(&self) -> Map<OutPoint, TxOutView> {
        mapped(self.entries@)
    }
}

/// A reference that no entry is for is not known.
proof fn lemma_mapped_absent(entries: Seq<(OutPoint, TxOut)>, key: OutPoint)
    requires
        forall|k: int| 0 <= k < entries.len() ==> #[trigger] entries[k].0 != key,
    ensures
        !mapped(entries).contains_key(key),
    decreases entries.len(),
{
    if entries.len() > 0 {
        let front = entries.drop_last();
        assert forall|k: int| 0 <= k < front.len() implies #[trigger] front[k].0 != key by {
            assert(entries[k].0 != key);
        }
        lemma_mapped_absent(front, key);
        assert(entries[entries.len() - 1].0 != key);
    }
}

/// The last entry for a reference says what is known of it.
proof fn lemma_mapped_last(entries: Seq<(OutPoint, TxOut)>, at: int)
    requires
        0 <= at < entries.len(),
        forall|k: int| at < k < entries.len() ==> #[trigger] entries[k].0 != entries[at].0,
    ensures
        mapped(entries).contains_key(entries[at].0),
        mapped(entries)[entries[at].0] == entries[at].1@,
    decreases entries.len(),
{
    if at < entries.len() - 1 {
        let front = entries.drop_last();
        assert forall|k: int| at < k < front.len() implies #[trigger] front[k].0 != front[at].0 by {
            assert(entries[k].0 != entries[at].0);
        }
        lemma_mapped_last(front, at);
        assert(entries[entries.len() - 1].0 != entries[at].0);
    }
}

/// Taking out an entry that a later one overrides, or the only one for its reference, changes what
/// is known of that reference alone.
proof fn lemma_mapped_remove(entries: Seq<(OutPoint, TxOut)>, at: int)
    requires
        0 <= at < entries.len(),
    ensures
        mapped(entries.remove(at)).remove(entries[at].0) == mapped(entries).remove(entries[at].0),
    decreases entries.len(),
{
    let key = entries[at].0;
    let rest = entries.remove(at);
    if at == entries.len() - 1 {
        assert(rest =~= entries.drop_last());
        assert(mapped(rest).remove(key) =~= mapped(entries).remove(key));
    } else {
        lemma_mapped_remove(entries.drop_last(), at);
        assert(rest.drop_last() =~= entries.drop_last().remove(at));
        assert(rest.last() == entries.last());
        let last = entries.last().0;
        let value = entries.last().1@;
        let a = mapped(rest.drop_last());
        let b = mapped(entries.drop_last());
        assert(a.remove(key) == b.remove(key));
        assert forall|other: OutPoint| a.insert(last, value).remove(key).contains_key(other)
            == b.insert(last, value).remove(key).contains_key(other) by {
            assert(a.remove(key).contains_key(other) == b.remove(key).contains_key(other));
        }
        assert forall|other: OutPoint| #[trigger]
            a.insert(last, value).remove(key).contains_key(other) implies a.insert(
            last,
            value,
        ).remove(key)[other] == b.insert(last, value).remove(key)[other] by {
            if other != last {
                assert(a.remove(key)[other] == b.remove(key)[other]);
            }
        }
        assert(a.insert(last, value).remove(key) =~= b.insert(last, value).remove(key));
    }
}

impl UtxoMap {
    /// No outputs.
    pub fn new() -> (utxos: UtxoMap)
        ensures
            utxos@ == Map::<OutPoint, TxOutView>::empty(),
    {
        UtxoMap { entries: Vec::new() }
    }

    /// Makes `out_point` refer to `output`.
    pub fn insert(&mut self, out_point: OutPoint, output: TxOut)
        ensures
            final(self)@ == old(self)@.insert(out_point, output@),
    {
        let ghost before = self.entries@;
        self.entries.push((out_point, output));
        assert(self.entries@.drop_last() =~= before);
    }

    /// Takes out the output that `out_point` refers to.
    pub fn remove(&mut self, out_point: &OutPoint) -> (output: Option<TxOut>)
        ensures
            final(self)@ == old(self)@.remove(*out_point),
            output is Some <==> old(self)@.contains_key(*out_point),
            output matches Some(output) ==> output@ == old(self)@[*out_point],
    {
        let mut found: Option<TxOut> = None;
        let mut i: usize = self.entries.len();
        while i > 0
            invariant
                i <= self.entries@.len(),
                mapped(self.entries@).remove(*out_point) == old(self)@.remove(*out_point),
                forall|j: int|
                    i <= j < self.entries@.len() ==> #[trigger] self.entries@[j].0 != *out_point,
                found is None ==> self.entries@ == old(self).entries@,
                found matches Some(output) ==> old(self)@.contains_key(*out_point) && output@
                    == old(self)@[*out_point],
            decreases i,
        {
            i -= 1;
            if self.entries[i].0 == *out_point {
                let ghost before = self.entries@;
                proof {
                    lemma_mapped_last(before, i as int);
                    lemma_mapped_remove(before, i as int);
                }
                let (_, output) = self.entries.remove(i);
                if found.is_none() {
                    found = Some(output);
                }
                assert forall|j: int| i <= j < self.entries@.len() implies #[trigger] self.entries@[j].0
                    != *out_point by {
                    assert(before[j + 1].0 != *out_point);
                }
            }
        }
        proof {
            lemma_mapped_absent(self.entries@, *out_point);
            assert(mapped(self.entries@) =~= mapped(self.entries@).remove(*out_point));
        }
        found
    }
}

/// What is left of `utxos` after the first `count` inputs of `transaction` took what they spend,
/// or why they may not.
pub open spec fn spend_inputs(
    transaction: TransactionView,
    utxos: Map<OutPoint, TxOutView>,
    count: nat,
) -> Result<Map<OutPoint, TxOutView>, TransactionError>
    decreases count,
{
    if count == 0 {
        Ok(utxos)
    } else {
        match spend_inputs(transaction, utxos, (count - 1) as nat) {
            Err(error) => Err(error),
            Ok(left) => {
                let out_point = transaction.input[count - 1].previous_output;
                if !left.contains_key(out_point) {
                    Err(TransactionError::UnknownSpentOutput(out_point))
                } else {
                    match transaction.spend_verdict(count - 1, left[out_point]) {
                        Err(error) => Err(TransactionError::ScriptRefused(error)),
                        Ok(()) => Ok(left.remove(out_point)),
                    }
                }
            },
        }
    }
}

/// What is left of `utxos` after `transaction`. A coinbase takes nothing.
pub open spec fn spend_transaction(
    transaction: TransactionView,
    utxos: Map<OutPoint, TxOutView>,
) -> Result<Map<OutPoint, TxOutView>, TransactionError> {
    if transaction.coin_base() {
        Ok(utxos)
    } else {
        spend_inputs(transaction, utxos, transaction.input.len())
    }
}

/// What is left of `utxos` after the first `count` transactions, or why they may not.
pub open spec fn spend_transactions(
    transactions: Seq<TransactionView>,
    utxos: Map<OutPoint, TxOutView>,
    count: nat,
) -> Result<Map<OutPoint, TxOutView>, TransactionError>
    decreases count,
{
    if count == 0 {
        Ok(utxos)
    } else {
        match spend_transactions(transactions, utxos, (count - 1) as nat) {
            Err(error) => Err(error),
            Ok(left) => spend_transaction(transactions[count - 1], left),
        }
    }
}

/// What checking that `transactions` may spend what they spend ends in.
pub open spec fn transactions_checked(
    transactions: Seq<TransactionView>,
    utxos: Map<OutPoint, TxOutView>,
) -> Result<bool, TransactionError> {
    match spend_transactions(transactions, utxos, transactions.len()) {
        Ok(_) => Ok(true),
        Err(error) => Err(error),
    }
}

proof fn lemma_first_refusal_stands(
    transaction: TransactionView,
    utxos: Map<OutPoint, TxOutView>,
    count: nat,
    total: nat,
)
    requires
        count <= total,
        spend_inputs(transaction, utxos, count) is Err,
    ensures
        spend_inputs(transaction, utxos, total) == spend_inputs(transaction, utxos, count),
    decreases total,
{
    if count < total {
        lemma_first_refusal_stands(transaction, utxos, count, (total - 1) as nat);
    }
}

proof fn lemma_first_refused_transaction_stands(
    transactions: Seq<TransactionView>,
    utxos: Map<OutPoint, TxOutView>,
    count: nat,
    total: nat,
)
    requires
        count <= total,
        spend_transactions(transactions, utxos, count) is Err,
    ensures
        spend_transactions(transactions, utxos, total) == spend_transactions(
            transactions,
            utxos,
            count,
        ),
    decreases total,
{
    if count < total {
        lemma_first_refused_transaction_stands(transactions, utxos, count, (total - 1) as nat);
    }
}

/// Takes what the inputs of `transaction` spend out of `utxos`, each after the script that guards
/// it was asked.
fn verify_transaction(transaction: &Transaction, utxos: &mut UtxoMap) -> (result: Result<
    (),
    TransactionError,
>)
    ensures
        match spend_inputs(transaction@, old(utxos)@, transaction@.input.len()) {
            Ok(left) => result is Ok && final(utxos)@ == left,
            Err(error) => result == Err::<(), TransactionError>(error),
        },
{
    let spending = transaction.serialize();
    let mut i: usize = 0;
    while i < transaction.input.len()
        invariant
            i <= transaction.input@.len(),
            spending@ == transaction_bytes(transaction@),
            spend_inputs(transaction@, old(utxos)@, i as nat) == Ok::<_, TransactionError>(utxos@),
        decreases transaction.input@.len() - i,
    {
        let out_point = transaction.input[i].previous_output;
        assert(transaction@.input[i as int].previous_output == out_point);
        let spent = utxos.remove(&out_point);
        match spent {
            None => {
                proof {
                    lemma_first_refusal_stands(
                        transaction@,
                        old(utxos)@,
                        (i + 1) as nat,
                        transaction@.input.len(),
                    );
                }
                return Err(TransactionError::UnknownSpentOutput(out_point));
            },
            Some(output) => {
                if let Err(error) = transaction.spend_verdict(i, &output, &spending) {
                    proof {
                        lemma_first_refusal_stands(
                            transaction@,
                            old(utxos)@,
                            (i + 1) as nat,
                            transaction@.input.len(),
                        );
                    }
                    return Err(TransactionError::ScriptRefused(error));
                }
            },
        }
        i += 1;
    }
    Ok(())
}

/// Checks that every input of every transaction but a coinbase spends an output of `utxos` whose
/// script accepts it, and that no output is spent twice.
pub fn verify_transactions(utxos: UtxoMap, transactions: &Vec<Transaction>) -> (result: Result<
    bool,
    TransactionError,
>)
    ensures
        result == transactions_checked(transaction_views(transactions@), utxos@),
{
    let ghost all = transaction_views(transactions@);
    let mut left = utxos;
    let mut t: usize = 0;
    while t < transactions.len()
        invariant
            t <= transactions@.len(),
            all == transaction_views(transactions@),
            spend_transactions(all, utxos@, t as nat) == Ok::<_, TransactionError>(left@),
        decreases transactions@.len() - t,
    {
        let transaction = &transactions[t];
        assert(all[t as int] == transaction@);
        if !transaction.is_coin_base() {
            match verify_transaction(transaction, &mut left) {
                Ok(()) => {},
                Err(error) => {
                    proof {
                        lemma_first_refused_transaction_stands(
                            all,
                            utxos@,
                            (t + 1) as nat,
                            all.len(),
                        );
                    }
                    return Err(error);
                },
            }
        }
        t += 1;
    }
    Ok(true)
}

/// Input `i` of transaction `t` spends something: there is such an input, and it is not the only
/// one of a transaction whose one input refers to the hash of zeros at the highest position.
pub open spec fn is_spender(transactions: Seq<TransactionView>, t: int, i: int) -> bool {
    &&& 0 <= t < transactions.len()
    &&& 0 <= i < transactions[t].input.len()
    &&& transactions[t].input.len() == 1 ==> {
        ||| transactions[t].input[0].previous_output.vout != 0xffff_ffff
        ||| exists|k: int|
            0 <= k < 32 && #[trigger] transactions[t].input[0].previous_output.txid.0@[k] != 0
    }
}

/// What is a spender here is an input of a transaction that the checks do not pass over.
proof fn lemma_spenders(transactions: Seq<TransactionView>, t: int, i: int)
    requires
        0 <= t < transactions.len(),
        0 <= i < transactions[t].input.len(),
    ensures
        is_spender(transactions, t, i) <==> !transactions[t].coin_base(),
{
    let transaction = transactions[t];
    if transaction.input.len() == 1 {
        let txid = transaction.input[0].previous_output.txid;
        if !txid.zero() {
            let k = choose|k: int| 0 <= k < 32 && txid.0@[k] != 0;
            assert(transactions[t].input[0].previous_output.txid.0@[k] != 0);
        }
    }
}

/// What input `i` of transaction `t` spends.
pub open spec fn spent_by(transactions: Seq<TransactionView>, t: int, i: int) -> OutPoint {
    transactions[t].input[i].previous_output
}

/// Input `i` of transaction `t` spends an output of `utxos` whose script accepts it.
pub open spec fn spends_known(
    transactions: Seq<TransactionView>,
    utxos: Map<OutPoint, TxOutView>,
    t: int,
    i: int,
) -> bool {
    let out_point = transactions[t].input[i].previous_output;
    utxos.contains_key(out_point) && script_verdict(
        utxos[out_point].script_pubkey,
        i as usize,
        utxos[out_point].value,
        transaction_bytes(transactions[t]),
    ) is Ok
}

/// Input `i` of transaction `t` comes before input `end_input` of transaction `end`.
spec fn comes_before(t: int, i: int, end: int, end_input: int) -> bool {
    t < end || (t == end && i < end_input)
}

/// The inputs before input `end_input` of transaction `end` spend known outputs that accept them,
/// and no two of them the same one.
spec fn sound_before(
    transactions: Seq<TransactionView>,
    utxos: Map<OutPoint, TxOutView>,
    end: int,
    end_input: int,
) -> bool {
    &&& forall|t: int, i: int| #[trigger]
        is_spender(transactions, t, i) && comes_before(t, i, end, end_input) ==> spends_known(
            transactions,
            utxos,
            t,
            i,
        )
    &&& forall|t: int, i: int, u: int, j: int| #[trigger]
        is_spender(transactions, t, i) && comes_before(t, i, end, end_input) && #[trigger] is_spender(
            transactions,
            u,
            j,
        ) && comes_before(u, j, end, end_input) && spent_by(transactions, t, i) == spent_by(
            transactions,
            u,
            j,
        ) ==> t == u && i == j
}

/// `left` is what `utxos` hold but for what the inputs before input `end_input` of transaction
/// `end` spend.
spec fn left_before(
    transactions: Seq<TransactionView>,
    utxos: Map<OutPoint, TxOutView>,
    left: Map<OutPoint, TxOutView>,
    end: int,
    end_input: int,
) -> bool {
    forall|out_point: OutPoint|
        {
            &&& #[trigger] left.contains_key(out_point) ==> utxos.contains_key(out_point)
                && left[out_point] == utxos[out_point]
            &&& left.contains_key(out_point) <==> utxos.contains_key(out_point) && !exists|
                t: int,
                i: int,
            | #[trigger]
                is_spender(transactions, t, i) && comes_before(t, i, end, end_input) && spent_by(
                    transactions,
                    t,
                    i,
                ) == out_point
        }
}

/// One more input keeps everything sound exactly where what it spends is left and accepts it.
proof fn lemma_one_more_input(
    transactions: Seq<TransactionView>,
    utxos: Map<OutPoint, TxOutView>,
    left: Map<OutPoint, TxOutView>,
    t: int,
    i: int,
)
    requires
        is_spender(transactions, t, i),
        sound_before(transactions, utxos, t, i),
        left_before(transactions, utxos, left, t, i),
    ensures
        ({
            let out_point = spent_by(transactions, t, i);
            let accepted = left.contains_key(out_point) && transactions[t].may_spend(
                i,
                left[out_point],
            );
            &&& sound_before(transactions, utxos, t, i + 1) <==> accepted
            &&& left_before(transactions, utxos, left.remove(out_point), t, i + 1)
        }),
{
    let out_point = spent_by(transactions, t, i);
    let accepted = left.contains_key(out_point) && transactions[t].may_spend(i, left[out_point]);
    assert(left.contains_key(out_point) ==> transactions[t].spend_verdict(i, left[out_point])
        == script_verdict(
        left[out_point].script_pubkey,
        i as usize,
        left[out_point].value,
        transaction_bytes(transactions[t]),
    ));
    if accepted {
        assert forall|u: int, j: int| #[trigger]
            is_spender(transactions, u, j) && comes_before(u, j, t, i + 1) implies spends_known(
            transactions,
            utxos,
            u,
            j,
        ) by {
            assert(comes_before(u, j, t, i) || (u == t && j == i));
        }
        assert forall|a: int, b: int, u: int, j: int| #[trigger]
            is_spender(transactions, a, b) && comes_before(a, b, t, i + 1)
                && #[trigger] is_spender(transactions, u, j) && comes_before(u, j, t, i + 1)
                && spent_by(transactions, a, b) == spent_by(transactions, u, j) implies a == u && b
            == j by {
            assert(comes_before(a, b, t, i) || (a == t && b == i));
            assert(comes_before(u, j, t, i) || (u == t && j == i));
        }
    } else if sound_before(transactions, utxos, t, i + 1) {
        assert(comes_before(t, i, t, i + 1));
        assert(spends_known(transactions, utxos, t, i));
        if !left.contains_key(out_point) {
            let (u, j) = choose|u: int, j: int| #[trigger]
                is_spender(transactions, u, j) && comes_before(u, j, t, i) && spent_by(
                    transactions,
                    u,
                    j,
                ) == out_point;
            assert(comes_before(u, j, t, i + 1));
            assert(u == t && i == j);
        }
        assert(false);
    }
    let rest = left.remove(out_point);
    assert forall|other: OutPoint|
        {
            &&& #[trigger] rest.contains_key(other) ==> utxos.contains_key(other) && rest[other]
                == utxos[other]
            &&& rest.contains_key(other) <==> utxos.contains_key(other) && !exists|
                u: int,
                j: int,
            | #[trigger]
                is_spender(transactions, u, j) && comes_before(u, j, t, i + 1) && spent_by(
                    transactions,
                    u,
                    j,
                ) == other
        } by {
        assert(left.contains_key(other) == left.contains_key(other));
        if other == out_point {
            assert(is_spender(transactions, t, i) && comes_before(t, i, t, i + 1));
        } else if exists|u: int, j: int| #[trigger]
            is_spender(transactions, u, j) && comes_before(u, j, t, i + 1) && spent_by(
                transactions,
                u,
                j,
            ) == other {
            let (u, j) = choose|u: int, j: int| #[trigger]
                is_spender(transactions, u, j) && comes_before(u, j, t, i + 1) && spent_by(
                    transactions,
                    u,
                    j,
                ) == other;
            assert(comes_before(u, j, t, i));
        } else if left.contains_key(other) || utxos.contains_key(other) {
            if exists|u: int, j: int| #[trigger]
                is_spender(transactions, u, j) && comes_before(u, j, t, i) && spent_by(
                    transactions,
                    u,
                    j,
                ) == other {
                let (u, j) = choose|u: int, j: int| #[trigger]
                    is_spender(transactions, u, j) && comes_before(u, j, t, i) && spent_by(
                        transactions,
                        u,
                        j,
                    ) == other;
                assert(comes_before(u, j, t, i + 1));
                assert(false);
            }
        }
    }
}

/// What is not sound up to some input is not sound further on.
proof fn lemma_unsound_stays(
    transactions: Seq<TransactionView>,
    utxos: Map<OutPoint, TxOutView>,
    t: int,
    i: int,
    u: int,
    j: int,
)
    requires
        sound_before(transactions, utxos, u, j),
        t < u || (t == u && i <= j),
    ensures
        sound_before(transactions, utxos, t, i),
{
    assert forall|a: int, b: int| comes_before(a, b, t, i) implies comes_before(a, b, u, j) by {}
}

proof fn lemma_inputs_sound(
    transactions: Seq<TransactionView>,
    utxos: Map<OutPoint, TxOutView>,
    start: Map<OutPoint, TxOutView>,
    t: int,
    count: nat,
)
    requires
        0 <= t < transactions.len(),
        !transactions[t].coin_base(),
        count <= transactions[t].input.len(),
        sound_before(transactions, utxos, t, 0),
        left_before(transactions, utxos, start, t, 0),
    ensures
        match spend_inputs(transactions[t], start, count) {
            Ok(left) => sound_before(transactions, utxos, t, count as int) && left_before(
                transactions,
                utxos,
                left,
                t,
                count as int,
            ),
            Err(_) => !sound_before(transactions, utxos, t, count as int),
        },
    decreases count,
{
    if count > 0 {
        let i = count - 1;
        lemma_inputs_sound(transactions, utxos, start, t, i as nat);
        match spend_inputs(transactions[t], start, i as nat) {
            Ok(left) => {
                lemma_spenders(transactions, t, i);
                lemma_one_more_input(transactions, utxos, left, t, i);
            },
            Err(_) => {
                if sound_before(transactions, utxos, t, count as int) {
                    lemma_unsound_stays(transactions, utxos, t, i, t, count as int);
                }
            },
        }
    }
}

/// Between two transactions it does not matter which of them the end is counted from.
proof fn lemma_next_transaction(
    transactions: Seq<TransactionView>,
    utxos: Map<OutPoint, TxOutView>,
    left: Map<OutPoint, TxOutView>,
    t: int,
    count: int,
)
    requires
        0 <= t < transactions.len(),
        if transactions[t].coin_base() {
            count == 0
        } else {
            count == transactions[t].input.len()
        },
    ensures
        sound_before(transactions, utxos, t, count) <==> sound_before(
            transactions,
            utxos,
            t + 1,
            0,
        ),
        left_before(transactions, utxos, left, t, count) <==> left_before(
            transactions,
            utxos,
            left,
            t + 1,
            0,
        ),
{
    assert forall|a: int, b: int| #[trigger] is_spender(transactions, a, b) implies comes_before(
        a,
        b,
        t,
        count,
    ) == comes_before(a, b, t + 1, 0) by {
        lemma_spenders(transactions, a, b);
    }
}

proof fn lemma_transactions_sound(
    transactions: Seq<TransactionView>,
    utxos: Map<OutPoint, TxOutView>,
    count: nat,
)
    requires
        count <= transactions.len(),
    ensures
        match spend_transactions(transactions, utxos, count) {
            Ok(left) => sound_before(transactions, utxos, count as int, 0) && left_before(
                transactions,
                utxos,
                left,
                count as int,
                0,
            ),
            Err(_) => !sound_before(transactions, utxos, count as int, 0),
        },
    decreases count,
{
    if count > 0 {
        let t = count - 1;
        lemma_transactions_sound(transactions, utxos, t as nat);
        match spend_transactions(transactions, utxos, t as nat) {
            Ok(left) => {
                let total: nat = if transactions[t].coin_base() {
                    0
                } else {
                    transactions[t].input.len()
                };
                if !transactions[t].coin_base() {
                    lemma_inputs_sound(transactions, utxos, left, t, total);
                }
                match spend_transaction(transactions[t], left) {
                    Ok(rest) => {
                        lemma_next_transaction(transactions, utxos, rest, t, total as int);
                    },
                    Err(_) => {
                        lemma_next_transaction(transactions, utxos, left, t, total as int);
                    },
                }
            },
            Err(_) => {
                if sound_before(transactions, utxos, count as int, 0) {
                    lemma_unsound_stays(transactions, utxos, t, 0, count as int, 0);
                }
            },
        }
    }
}

/// Transactions are accepted exactly where every input that spends something spends a known output,
/// the script of that output, asked with its value, the index of the input and the bytes of the
/// transaction, accepts it, and no two inputs spend the same output.
pub proof fn law_transactions_accepted(
    transactions: Seq<TransactionView>,
    utxos: Map<OutPoint, TxOutView>,
)
    ensures
        transactions_checked(transactions, utxos) is Ok <==> {
            &&& forall|t: int, i: int| #[trigger]
                is_spender(transactions, t, i) ==> {
                    let out_point = transactions[t].input[i].previous_output;
                    &&& utxos.contains_key(out_point)
                    &&& script_verdict(
                        utxos[out_point].script_pubkey,
                        i as usize,
                        utxos[out_point].value,
                        transaction_bytes(transactions[t]),
                    ) is Ok
                }
            &&& forall|t: int, i: int, u: int, j: int| #[trigger]
                is_spender(transactions, t, i) && #[trigger] is_spender(transactions, u, j)
                    && transactions[t].input[i].previous_output
                    == transactions[u].input[j].previous_output ==> t == u && i == j
        },
        transactions_checked(transactions, utxos) matches Ok(answer) ==> answer,
{
    let end = transactions.len() as int;
    lemma_transactions_sound(transactions, utxos, transactions.len());
    assert forall|t: int, i: int| #[trigger] is_spender(transactions, t, i) implies comes_before(
        t,
        i,
        end,
        0,
    ) && spends_known(transactions, utxos, t, i) == ({
        let out_point = transactions[t].input[i].previous_output;
        utxos.contains_key(out_point) && script_verdict(
            utxos[out_point].script_pubkey,
            i as usize,
            utxos[out_point].value,
            transaction_bytes(transactions[t]),
        ) is Ok
    }) by {}
}

/// Input `i` of transaction `t` is the first that is refused, for `error`: what comes before it is
/// in order, and what it spends is unknown or spent already, or its script says `error`.
spec fn refused_at(
    transactions: Seq<TransactionView>,
    utxos: Map<OutPoint, TxOutView>,
    t: int,
    i: int,
    error: TransactionError,
) -> bool {
    let out_point = spent_by(transactions, t, i);
    let taken = exists|u: int, j: int| #[trigger]
        is_spender(transactions, u, j) && comes_before(u, j, t, i) && spent_by(transactions, u, j)
            == out_point;
    &&& is_spender(transactions, t, i)
    &&& sound_before(transactions, utxos, t, i)
    &&& match error {
        TransactionError::UnknownSpentOutput(unknown) => unknown == out_point && (
        !utxos.contains_key(out_point) || taken),
        TransactionError::ScriptRefused(reason) => utxos.contains_key(out_point) && !taken
            && script_verdict(
            utxos[out_point].script_pubkey,
            i as usize,
            utxos[out_point].value,
            transaction_bytes(transactions[t]),
        ) == Err::<(), ScriptError>(reason),
    }
}

proof fn lemma_inputs_refused(
    transactions: Seq<TransactionView>,
    utxos: Map<OutPoint, TxOutView>,
    start: Map<OutPoint, TxOutView>,
    t: int,
    count: nat,
)
    requires
        0 <= t < transactions.len(),
        !transactions[t].coin_base(),
        count <= transactions[t].input.len(),
        sound_before(transactions, utxos, t, 0),
        left_before(transactions, utxos, start, t, 0),
        spend_inputs(transactions[t], start, count) is Err,
    ensures
        exists|i: int| #[trigger]
            refused_at(
                transactions,
                utxos,
                t,
                i,
                spend_inputs(transactions[t], start, count)->Err_0,
            ),
    decreases count,
{
    let i = count - 1;
    match spend_inputs(transactions[t], start, i as nat) {
        Err(_) => {
            lemma_inputs_refused(transactions, utxos, start, t, i as nat);
        },
        Ok(left) => {
            lemma_inputs_sound(transactions, utxos, start, t, i as nat);
            lemma_spenders(transactions, t, i);
            let out_point = spent_by(transactions, t, i);
            assert(left.contains_key(out_point) == left.contains_key(out_point));
            assert(refused_at(
                transactions,
                utxos,
                t,
                i,
                spend_inputs(transactions[t], start, count)->Err_0,
            ));
        },
    }
}

proof fn lemma_transactions_refused(
    transactions: Seq<TransactionView>,
    utxos: Map<OutPoint, TxOutView>,
    count: nat,
)
    requires
        count <= transactions.len(),
        spend_transactions(transactions, utxos, count) is Err,
    ensures
        exists|t: int, i: int| #[trigger]
            refused_at(
                transactions,
                utxos,
                t,
                i,
                spend_transactions(transactions, utxos, count)->Err_0,
            ),
    decreases count,
{
    let t = count - 1;
    match spend_transactions(transactions, utxos, t as nat) {
        Err(_) => {
            lemma_transactions_refused(transactions, utxos, t as nat);
        },
        Ok(left) => {
            lemma_transactions_sound(transactions, utxos, t as nat);
            lemma_inputs_refused(
                transactions,
                utxos,
                left,
                t,
                transactions[t].input.len(),
            );
        },
    }
}

/// Where transactions are refused, one input is the first to blame: all that come before it spend
/// known outputs that accept them, and no two the same. It spends what is unknown or was spent by
/// one of them, and the error names that, or else its script refuses it, and the error is the
/// script's.
pub proof fn law_first_bad_input_is_named(
    transactions: Seq<TransactionView>,
    utxos: Map<OutPoint, TxOutView>,
    error: TransactionError,
)
    requires
        transactions_checked(transactions, utxos) == Err::<bool, TransactionError>(error),
    ensures
        exists|t: int, i: int| #[trigger]
            is_spender(transactions, t, i) && {
                let out_point = transactions[t].input[i].previous_output;
                let taken = exists|u: int, j: int| #[trigger]
                    is_spender(transactions, u, j) && (u < t || (u == t && j < i))
                        && transactions[u].input[j].previous_output == out_point;
                &&& forall|u: int, j: int| #[trigger]
                    is_spender(transactions, u, j) && (u < t || (u == t && j < i)) ==> {
                        let other = transactions[u].input[j].previous_output;
                        &&& utxos.contains_key(other)
                        &&& script_verdict(
                            utxos[other].script_pubkey,
                            j as usize,
                            utxos[other].value,
                            transaction_bytes(transactions[u]),
                        ) is Ok
                    }
                &&& match error {
                    TransactionError::UnknownSpentOutput(unknown) => unknown == out_point && (
                    !utxos.contains_key(out_point) || taken),
                    TransactionError::ScriptRefused(reason) => utxos.contains_key(out_point)
                        && !taken && script_verdict(
                        utxos[out_point].script_pubkey,
                        i as usize,
                        utxos[out_point].value,
                        transaction_bytes(transactions[t]),
                    ) == Err::<(), ScriptError>(reason),
                }
            },
{
    lemma_transactions_refused(transactions, utxos, transactions.len());
    let (t, i) = choose|t: int, i: int| #[trigger] refused_at(transactions, utxos, t, i, error);
    assert(is_spender(transactions, t, i));
    assert forall|u: int, j: int| #[trigger]
        is_spender(transactions, u, j) && (u < t || (u == t && j < i)) implies spends_known(
        transactions,
        utxos,
        u,
        j,
    ) by {
        assert(comes_before(u, j, t, i));
    }
    let out_point = spent_by(transactions, t, i);
    let taken = exists|u: int, j: int| #[trigger]
        is_spender(transactions, u, j) && comes_before(u, j, t, i) && spent_by(transactions, u, j)
            == out_point;
    let written = exists|u: int, j: int| #[trigger]
        is_spender(transactions, u, j) && (u < t || (u == t && j < i))
            && transactions[u].input[j].previous_output == out_point;
    assert(taken == written);
}

/// Of two outputs for one reference the later one counts, and it is there to be taken out once.
/// Other references keep what they refer to.
pub proof fn law_later_output_counts(
    utxos: &mut UtxoMap,
    filled: &mut UtxoMap,
    emptied: &mut UtxoMap,
    out_point: OutPoint,
    output: TxOut,
    first: Option<TxOut>,
    second: Option<TxOut>,
    other: OutPoint,
)
    requires
        call_ensures(UtxoMap::insert, (utxos, out_point, output), ()),
        *old(filled) == *final(utxos),
        call_ensures(UtxoMap::remove, (filled, &out_point), first),
        *old(emptied) == *final(filled),
        call_ensures(UtxoMap::remove, (emptied, &out_point), second),
        other != out_point,
    ensures
        first is Some,
        first->Some_0.value == output.value,
        first->Some_0.script_pubkey@ == output.script_pubkey@,
        second is None,
        final(emptied)@.contains_key(other) <==> old(utxos)@.contains_key(other),
        old(utxos)@.contains_key(other) ==> final(emptied)@[other] == old(utxos)@[other],
{
    assert(first->Some_0@ == output@);
}

} // verus!
