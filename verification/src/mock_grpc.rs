//! Reply shaping of the mock upstream server: given a canned corpus of
//! responses, it answers one `get_transactions` call with a single response
//! collected gap-free from the corpus. The gRPC transport serving this logic
//! lives outside the crate.
use vstd::prelude::*;

verus! {

/// A transaction as the mock needs it: the monotone version it bears. The
/// full record is opaque to the reply shaping, which only reads versions.
#[derive(Clone, Copy, PartialEq, Eq, Structural, Debug)]
pub struct Transaction {
    pub version: u64,
}

/// One element of the upstream stream: a run of transactions and the chain
/// they belong to.
#[derive(Clone, PartialEq, Eq, Debug)]
pub struct TransactionsResponse {
    pub transactions: Vec<Transaction>,
    pub chain_id: Option<u64>,
}

/// The corpus a mock server is loaded with, scanned in order on every call.
pub struct MockGrpcServer {
    pub transactions_response: Vec<TransactionsResponse>,
    pub chain_id: u64,
}

/// The corpus's transactions in scan order.
pub open spec fn flatten_responses(responses: Seq<TransactionsResponse>) -> Seq<Transaction>
    decreases responses.len(),
{
    if responses.len() == 0 {
        Seq::empty()
    } else {
        responses[0].transactions@ + flatten_responses(responses.skip(1))
    }
}

/// The gap-free collection scan: walk the transactions in order, accept one
/// whenever its version is at least the expected version, then expect one
/// more than before — independently of the accepted version — until
/// `remaining` transactions are taken.
pub open spec fn collect_from(transactions: Seq<Transaction>, expected: int, remaining: int) -> Seq<
    Transaction,
>
    decreases transactions.len(),
{
    if transactions.len() == 0 || remaining <= 0 {
        Seq::empty()
    } else if transactions[0].version >= expected {
        seq![transactions[0]] + collect_from(transactions.skip(1), expected + 1, remaining - 1)
    } else {
        collect_from(transactions.skip(1), expected, remaining)
    }
}

proof fn lemma_flatten_take_succ(responses: Seq<TransactionsResponse>, i: int)
    requires
        0 <= i < responses.len(),
    ensures
        flatten_responses(responses.take(i + 1)) == flatten_responses(responses.take(i))
            + responses[i].transactions@,
    decreases i,
{
    if i == 0 {
        assert(responses.take(1).len() == 1);
        assert(responses.take(1)[0] == responses[0]);
        assert(responses.take(1).skip(1) =~= Seq::<TransactionsResponse>::empty());
        assert(responses.take(0) =~= Seq::<TransactionsResponse>::empty());
        assert(flatten_responses(Seq::<TransactionsResponse>::empty()) == Seq::<
            Transaction,
        >::empty());
        assert(flatten_responses(responses.take(1)) == responses[0].transactions@
            + Seq::<Transaction>::empty());
        assert(responses[0].transactions@ + Seq::<Transaction>::empty()
            =~= responses[0].transactions@);
        assert(Seq::<Transaction>::empty() + responses[0].transactions@
            =~= responses[0].transactions@);
    } else {
        lemma_flatten_take_succ(responses.skip(1), i - 1);
        assert(responses.take(i + 1)[0] == responses[0]);
        assert(responses.take(i)[0] == responses[0]);
        assert(responses.take(i + 1).skip(1) =~= responses.skip(1).take(i));
        assert(responses.take(i).skip(1) =~= responses.skip(1).take(i - 1));
        assert(responses.skip(1)[i - 1] == responses[i]);
        assert(flatten_responses(responses.take(i + 1)) == responses[0].transactions@
            + flatten_responses(responses.skip(1).take(i)));
        assert(flatten_responses(responses.take(i)) == responses[0].transactions@
            + flatten_responses(responses.skip(1).take(i - 1)));
        assert(responses[0].transactions@ + (flatten_responses(responses.skip(1).take(i - 1))
            + responses[i].transactions@) =~= (responses[0].transactions@ + flatten_responses(
            responses.skip(1).take(i - 1),
        )) + responses[i].transactions@);
    }
}

impl MockGrpcServer {
    /// The corpus's transactions in scan order, materialized.
    fn flatten(&self) -> (r: Vec<Transaction>)
        ensures
            r@ == flatten_responses(self.transactions_response@),
    {
        let mut flat: Vec<Transaction> = Vec::new();
        let mut i: usize = 0;
        proof {
            assert(self.transactions_response@.take(0) =~= Seq::<TransactionsResponse>::empty());
        }
        while i < self.transactions_response.len()
            invariant
                0 <= i <= self.transactions_response.len(),
                flat@ == flatten_responses(self.transactions_response@.take(i as int)),
            decreases self.transactions_response.len() - i,
        {
            let response = &self.transactions_response[i];
            let mut j: usize = 0;
            while j < response.transactions.len()
                invariant
                    0 <= j <= response.transactions.len(),
                    response == &self.transactions_response@[i as int],
                    0 <= i < self.transactions_response.len(),
                    flat@ == flatten_responses(self.transactions_response@.take(i as int))
                        + response.transactions@.take(j as int),
                decreases response.transactions.len() - j,
            {
                let tx = response.transactions[j];
                flat.push(tx);
                proof {
                    assert(response.transactions@.take(j as int).push(tx)
                        =~= response.transactions@.take(j as int + 1));
                    assert((flatten_responses(self.transactions_response@.take(i as int))
                        + response.transactions@.take(j as int)).push(tx)
                        =~= flatten_responses(self.transactions_response@.take(i as int))
                        + response.transactions@.take(j as int + 1));
                }
                j = j + 1;
            }
            proof {
                lemma_flatten_take_succ(self.transactions_response@, i as int);
                assert(response.transactions@.take(response.transactions@.len() as int)
                    =~= response.transactions@);
            }
            i = i + 1;
        }
        proof {
            assert(self.transactions_response@.take(self.transactions_response@.len() as int)
                =~= self.transactions_response@);
        }
        flat
    }

    /// Scans the corpus and collects up to `transactions_count` transactions
    /// gap-free, starting at `starting_version`.
    fn collect_transactions(&self, starting_version: u64, transactions_count: u64) -> (r: Vec<
        Transaction,
    >)
        requires
            starting_version as int + flatten_responses(self.transactions_response@).len()
                <= u64::MAX as int,
        ensures
            r@ == collect_from(
                flatten_responses(self.transactions_response@),
                starting_version as int,
                transactions_count as int,
            ),
    {
        let flat = self.flatten();
        let ghost target = collect_from(
            flat@,
            starting_version as int,
            transactions_count as int,
        );
        let mut collected: Vec<Transaction> = Vec::new();
        let mut current_version: u64 = starting_version;
        let mut idx: usize = 0;
        proof {
            assert(flat@.skip(0) =~= flat@);
        }
        while idx < flat.len()
            invariant
                0 <= idx <= flat.len(),
                starting_version as int + flat@.len() <= u64::MAX as int,
                collected@.len() <= idx,
                current_version as int == starting_version as int + collected@.len(),
                collected@.len() <= transactions_count as int,
                collected@ + collect_from(
                    flat@.skip(idx as int),
                    current_version as int,
                    transactions_count as int - collected@.len(),
                ) == target,
            decreases flat.len() - idx,
        {
            let ghost pre_collected = collected@;
            let tx = flat[idx];
            if tx.version >= current_version && (collected.len() as u64) < transactions_count {
                collected.push(tx);
                current_version = current_version + 1;
            }
            proof {
                assert(flat@.skip(idx as int)[0] == tx);
                assert(flat@.skip(idx as int).skip(1) =~= flat@.skip(idx as int + 1));
                if tx.version >= current_version as int - (collected@.len()
                    - pre_collected.len()) && pre_collected.len() < transactions_count as int {
                    assert(collected@ == pre_collected.push(tx));
                    assert(pre_collected + (seq![tx] + collect_from(
                        flat@.skip(idx as int + 1),
                        current_version as int,
                        transactions_count as int - collected@.len(),
                    )) =~= collected@ + collect_from(
                        flat@.skip(idx as int + 1),
                        current_version as int,
                        transactions_count as int - collected@.len(),
                    ));
                }
            }
            idx = idx + 1;
        }
        proof {
            assert(flat@.skip(flat@.len() as int) =~= Seq::<Transaction>::empty());
            assert(collected@ + Seq::<Transaction>::empty() =~= collected@);
        }
        collected
    }

    /// Answers one `get_transactions` call: the collected gap-free run with
    /// the configured chain id, or — when nothing was collected — the first
    /// stored response with its chain id overwritten, so a caller probing
    /// for the chain id always gets a reply.
    pub fn get_transactions(&self, starting_version: u64, transactions_count: Option<u64>) -> (r:
        TransactionsResponse)
        requires
            self.transactions_response.len() > 0,
            starting_version as int + flatten_responses(self.transactions_response@).len()
                <= u64::MAX as int,
        ensures
            ({
                let picked = collect_from(
                    flatten_responses(self.transactions_response@),
                    starting_version as int,
                    match transactions_count {
                        Some(c) => c as int,
                        None => 1,
                    },
                );
                &&& r.chain_id == Some(self.chain_id)
                &&& picked.len() > 0 ==> r.transactions@ == picked
                &&& picked.len() == 0 ==> r.transactions@
                    == self.transactions_response@[0].transactions@
            }),
    {
        let count = match transactions_count {
            Some(c) => c,
            None => 1,
        };
        let collected = self.collect_transactions(starting_version, count);
        if collected.len() > 0 {
            TransactionsResponse { transactions: collected, chain_id: Some(self.chain_id) }
        } else {
            let first = &self.transactions_response[0];
            let mut transactions: Vec<Transaction> = Vec::new();
            let mut i: usize = 0;
            while i < first.transactions.len()
                invariant
                    0 <= i <= first.transactions.len(),
                    first == &self.transactions_response@[0],
                    self.transactions_response.len() > 0,
                    transactions@ == first.transactions@.take(i as int),
                decreases first.transactions.len() - i,
            {
                let tx = first.transactions[i];
                transactions.push(tx);
                proof {
                    assert(first.transactions@.take(i as int).push(tx) =~= first.transactions@.take(
                        i as int + 1,
                    ));
                }
                i = i + 1;
            }
            proof {
                assert(first.transactions@.take(first.transactions@.len() as int)
                    =~= first.transactions@);
            }
            TransactionsResponse { transactions, chain_id: Some(self.chain_id) }
        }
    }
}

} // verus!
