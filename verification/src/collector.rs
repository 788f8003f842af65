//! The database side of the collector: the buffer of collected values that a
//! bulk copy drains, the round-robin hand-out of polled attributes to the
//! sender pairs, and the queries that select what to poll.

use vstd::prelude::*;
use crate::decimal::{push_decimal, spec_decimal};
use crate::reading::ValuePair;

verus! {

/// What the database server keeps between messages: the values received since
/// the last bulk copy, in arrival order, and the number of sender pairs that
/// polled attributes are spread over.
pub struct DbServer {
    data: Vec<ValuePair>,
    count: usize,
}

/// One message that the database server sends while handing out a round of
/// polled attributes.
#[derive(Debug, Clone, Copy, PartialEq, Eq)]
pub enum Dispatch {
    /// The attribute on query row `row` goes to sender `sender`.
    Attribute { row: usize, sender: usize },
    /// Sender `sender` is told that the round's attributes have all been sent.
    Count { sender: usize },
}

/// The messages of a round with `n_rows` rows and `count` senders: row `i`
/// goes to sender `i % count`, in row order; then every sender, in order, gets
/// the end-of-round message.
pub open spec fn spec_dispatch_plan(n_rows: nat, count: nat) -> Seq<Dispatch> {
    Seq::new(n_rows + count, |k: int|
        if k < n_rows {
            Dispatch::Attribute { row: k as usize, sender: (k % (count as int)) as usize }
        } else {
            Dispatch::Count { sender: (k - n_rows) as usize }
        })
}

impl DbServer {
    /// The values received since the last bulk copy, oldest first.
    pub closed spec fn buffered(&self) -> Seq<ValuePair> {
        self.data@
    }

    /// The number of sender pairs.
    pub closed spec fn sender_count(&self) -> nat {
        self.count as nat
    }

    /// A server with an empty buffer that spreads attributes over `count`
    /// senders.
    pub fn new(count: usize) -> (r: DbServer)
        ensures
            r.buffered() == Seq::<ValuePair>::empty(),
            r.sender_count() == count,
    {
        DbServer { data: Vec::new(), count }
    }

    /// The number of sender pairs.
    pub fn count(&self) -> (r: usize)
        ensures
            r == self.sender_count(),
    {
        self.count
    }

    /// The number of values waiting for the next bulk copy.
    pub fn pending(&self) -> (r: usize)
        ensures
            r == self.buffered().len(),
    {
        self.data.len()
    }

    /// A received value joins the end of the buffer.
    pub fn record(&mut self, vp: ValuePair)
        ensures
            final(self).buffered() == old(self).buffered().push(vp),
            final(self).sender_count() == old(self).sender_count(),
    {
        self.data.push(vp);
    }

    /// Bulk copy, first half: the rows to write to the database, all the
    /// buffered values in arrival order, or `None` when there is nothing to
    /// write. The buffer is left as it is, so that a write that fails loses
    /// nothing; `copied` empties it once the write has succeeded.
    pub fn bulk_copy(&self) -> (r: Option<&[ValuePair]>)
        ensures
            r is None <==> self.buffered().len() == 0,
            r matches Some(rows) ==> rows@ == self.buffered(),
    {
        if self.data.len() > 0 {
            Some(self.data.as_slice())
        } else {
            None
        }
    }

    /// Bulk copy, second half: the rows handed out by `bulk_copy` are in the
    /// database; the buffer is emptied.
    pub fn copied(&mut self)
        ensures
            final(self).buffered() == Seq::<ValuePair>::empty(),
            final(self).sender_count() == old(self).sender_count(),
    {
        self.data.clear();
    }

    /// The messages that hand out a round of `n_rows` polled attributes:
    /// round-robin over the senders, then an end-of-round message to each.
    /// A round with rows needs at least one sender.
    pub fn dispatch_plan(&self, n_rows: usize) -> (r: Vec<Dispatch>)
        requires
            n_rows > 0 ==> self.sender_count() > 0,
            n_rows + self.sender_count() <= usize::MAX,
        ensures
            r@ == spec_dispatch_plan(n_rows as nat, self.sender_count()),
    {
        let mut r: Vec<Dispatch> = Vec::new();
        let count = self.count;
        for i in 0..n_rows
            invariant
                count == self.sender_count(),
                n_rows > 0 ==> count > 0,
                r@ =~= spec_dispatch_plan(n_rows as nat, count as nat).take(i as int),
        {
            r.push(Dispatch::Attribute { row: i, sender: i % count });
        }
        for j in 0..count
            invariant
                count == self.sender_count(),
                n_rows + count <= usize::MAX,
                r@ =~= spec_dispatch_plan(n_rows as nat, count as nat).take(n_rows + j),
        {
            r.push(Dispatch::Count { sender: j });
        }
        assert(r@ =~= spec_dispatch_plan(n_rows as nat, count as nat));
        r
    }
}

/// Every attribute row of a round goes to exactly one sender, and that sender
/// is one of the `count` senders; the round ends with one end-of-round
/// message per sender.
pub proof fn lemma_dispatch_covers_rows(n_rows: nat, count: nat)
    requires
        n_rows > 0 ==> count > 0,
        n_rows + count <= usize::MAX,
    ensures
        spec_dispatch_plan(n_rows, count).len() == n_rows + count,
        forall|i: int| 0 <= i < n_rows ==> {
            let d = #[trigger] spec_dispatch_plan(n_rows, count)[i];
            &&& d matches Dispatch::Attribute { row, sender }
            &&& row == i
            &&& sender < count
        },
        forall|j: int| 0 <= j < count ==>
            #[trigger] spec_dispatch_plan(n_rows, count)[n_rows + j] == (Dispatch::Count { sender: j as usize }),
{
    assert forall|i: int| 0 <= i < n_rows implies {
        let d = #[trigger] spec_dispatch_plan(n_rows, count)[i];
        &&& d matches Dispatch::Attribute { row, sender }
        &&& row == i
        &&& sender < count
    } by {
        assert(0 <= i % (count as int) < count as int) by (nonlinear_arith)
            requires count > 0;
    }
}

/// Whether `d` hands a row to sender `k`.
pub open spec fn is_row_for(d: Dispatch, k: nat) -> bool {
    d matches Dispatch::Attribute { sender, .. } && sender == k
}

/// The number of rows that the plan of a round of `n` rows over `c` senders
/// hands to sender `k`.
pub open spec fn rows_to_sender(n: nat, c: nat, k: nat) -> nat
    decreases n,
{
    if n == 0 {
        0
    } else {
        rows_to_sender((n - 1) as nat, c, k) + if is_row_for(spec_dispatch_plan(n, c)[n - 1], k) {
            1nat
        } else {
            0nat
        }
    }
}

/// Round-robin spreads a round evenly: of `n` rows over `c` senders, sender
/// `k` gets `n / c` rows, plus one more when `k < n % c`; so any two senders'
/// shares differ by at most one.
pub proof fn lemma_dispatch_balanced(n: nat, c: nat, k: nat)
    requires
        c > 0,
        k < c,
        n + c <= usize::MAX,
    ensures
        rows_to_sender(n, c, k) == n / c + if k < n % c { 1nat } else { 0nat },
    decreases n,
{
    if n > 0 {
        let m = (n - 1) as nat;
        lemma_dispatch_balanced(m, c, k);
        let q = (m as int) / (c as int);
        let r = (m as int) % (c as int);
        vstd::arithmetic::div_mod::lemma_fundamental_div_mod(m as int, c as int);
        assert(0 <= r < c) by {
            vstd::arithmetic::div_mod::lemma_mod_bound(m as int, c as int);
        }
        assert(m as int == q * (c as int) + r) by (nonlinear_arith)
            requires m as int == (c as int) * q + r;
        if r + 1 < c {
            vstd::arithmetic::div_mod::lemma_fundamental_div_mod_converse(n as int, c as int, q, r + 1);
        } else {
            assert(n as int == (q + 1) * (c as int) + 0) by (nonlinear_arith)
                requires m as int == q * (c as int) + r, r + 1 == c, n == m + 1;
            vstd::arithmetic::div_mod::lemma_fundamental_div_mod_converse(n as int, c as int, q + 1, 0);
        }
        assert(is_row_for(spec_dispatch_plan(n, c)[n - 1], k) == (r == k as int));
        assert(rows_to_sender(n, c, k) == rows_to_sender(m, c, k) + if r == k as int { 1nat } else { 0nat });
    } else {
        vstd::arithmetic::div_mod::lemma_fundamental_div_mod_converse(0, c as int, 0, 0);
    }
}

/// One event at the database server's buffer.
pub enum BufferEvent {
    /// A value arrives and is recorded.
    Record(ValuePair),
    /// A bulk copy whose write to the database succeeds.
    CopySucceeded,
    /// A bulk copy whose write to the database fails.
    CopyFailed,
}

/// The values stored in the database and the buffer after `e`, from `stored`
/// and `buffer` before it: what `record`, `bulk_copy` and, after a
/// successful write, `copied` do.
pub open spec fn buffer_step(stored: Seq<ValuePair>, buffer: Seq<ValuePair>, e: BufferEvent) -> (Seq<ValuePair>, Seq<ValuePair>) {
    match e {
        BufferEvent::Record(v) => (stored, buffer.push(v)),
        BufferEvent::CopySucceeded => if buffer.len() == 0 {
            (stored, buffer)
        } else {
            (stored + buffer, Seq::<ValuePair>::empty())
        },
        BufferEvent::CopyFailed => (stored, buffer),
    }
}

/// The stored values and the buffer after the events `es`, from a new server.
pub open spec fn buffer_run(es: Seq<BufferEvent>) -> (Seq<ValuePair>, Seq<ValuePair>)
    decreases es.len(),
{
    if es.len() == 0 {
        (Seq::<ValuePair>::empty(), Seq::<ValuePair>::empty())
    } else {
        let prev = buffer_run(es.drop_last());
        buffer_step(prev.0, prev.1, es.last())
    }
}

/// The values recorded by the events `es`, in order.
pub open spec fn recorded(es: Seq<BufferEvent>) -> Seq<ValuePair>
    decreases es.len(),
{
    if es.len() == 0 {
        Seq::<ValuePair>::empty()
    } else {
        let prev = recorded(es.drop_last());
        match es.last() {
            BufferEvent::Record(v) => prev.push(v),
            _ => prev,
        }
    }
}

/// Nothing is lost, duplicated or reordered: whatever records and bulk
/// copies (successful or failed) the server sees, the values stored in the
/// database followed by those still buffered are exactly the values
/// received, in the order they arrived.
pub proof fn lemma_no_value_lost(es: Seq<BufferEvent>)
    ensures
        buffer_run(es).0 + buffer_run(es).1 == recorded(es),
    decreases es.len(),
{
    if es.len() > 0 {
        lemma_no_value_lost(es.drop_last());
        let prev = buffer_run(es.drop_last());
        match es.last() {
            BufferEvent::Record(v) => {
                assert(prev.0 + prev.1.push(v) =~= (prev.0 + prev.1).push(v));
            },
            BufferEvent::CopySucceeded => {
                if prev.1.len() > 0 {
                    assert((prev.0 + prev.1) + Seq::<ValuePair>::empty() =~= prev.0 + prev.1);
                }
            },
            BufferEvent::CopyFailed => {},
        }
    } else {
        assert(Seq::<ValuePair>::empty() + Seq::<ValuePair>::empty() =~= Seq::<ValuePair>::empty());
    }
}

/// The query that starts a data collection: every polled attribute, by id.
pub fn start_collection_query() -> (r: String)
    ensures
        r@ == "SELECT * FROM POLLEDDATA ORDER BY ID"@,
{
    String::from_str("SELECT * FROM POLLEDDATA ORDER BY ID")
}

/// The query of a repeated round: the polled attributes that have no value
/// stored after the collection started at `ts` (seconds since the epoch), by
/// id.
pub fn repeat_collection_query(ts: u64) -> (r: String)
    ensures
        r@ == "select * from polleddata where id not in (select distinct(id) from statsdata where EXTRACT(epoch FROM timestamp) > "@
            + spec_decimal(ts as nat) + ") ORDER BY ID"@,
{
    let mut q = String::from_str(
        "select * from polleddata where id not in (select distinct(id) from statsdata where EXTRACT(epoch FROM timestamp) > ",
    );
    push_decimal(&mut q, ts);
    q.append(") ORDER BY ID");
    q
}

} // verus!
