use vstd::prelude::*;
use crate::activity::{ActivityStore, RecordKind, page_of, page_end, page_start};

verus! {

/// `log` newest first.
pub open spec fn newest_first(log: Seq<Seq<u8>>) -> Seq<Seq<u8>> {
    Seq::new(log.len(), |i: int| log[log.len() - 1 - i])
}

/// Pages `0..n` of `log`, each of `page_size` records, one after another.
pub open spec fn pages_through(log: Seq<Seq<u8>>, page_size: nat, n: nat) -> Seq<Seq<u8>>
    decreases n,
{
    if n == 0 {
        Seq::empty()
    } else {
        pages_through(log, page_size, (n - 1) as nat) + page_of(log, (n - 1) as nat, page_size)
    }
}

/// The number of pages of `page_size` records that a log of `total` records
/// fills, the last one possibly in part.
pub open spec fn page_count(total: nat, page_size: nat) -> nat
    recommends
        page_size > 0,
{
    ((total + page_size - 1) / page_size as int) as nat
}

/// A page that starts at or beyond the oldest record is empty.
pub proof fn lemma_page_past_end(log: Seq<Seq<u8>>, page: nat, page_size: nat)
    requires
        page * page_size >= log.len(),
    ensures
        page_of(log, page, page_size) == Seq::<Seq<u8>>::empty(),
{
    assert(page_of(log, page, page_size) =~= Seq::<Seq<u8>>::empty());
}

/// Page zero of the size of the whole log holds every record, newest first.
pub proof fn lemma_first_page_whole_log(log: Seq<Seq<u8>>)
    ensures
        page_of(log, 0, log.len()) == newest_first(log),
{
    assert(0 * log.len() == 0);
    assert(page_of(log, 0, log.len()) =~= newest_first(log));
}

proof fn lemma_appends_prefix(
    stores: Seq<ActivityStore>,
    address: Seq<u8>,
    kind: RecordKind,
    records: Seq<Seq<u8>>,
    n: nat,
)
    requires
        n <= records.len(),
        stores.len() == records.len() + 1,
        stores[0].log_of(address, kind) == Seq::<Seq<u8>>::empty(),
        forall|i: int|
            0 <= i < records.len() ==> #[trigger] stores[i + 1].log_of(address, kind)
                == stores[i].log_of(address, kind).push(records[i]),
    ensures
        stores[n as int].log_of(address, kind) == records.subrange(0, n as int),
    decreases n,
{
    if n == 0 {
        assert(records.subrange(0, 0) =~= Seq::<Seq<u8>>::empty());
    } else {
        let m = (n - 1) as nat;
        lemma_appends_prefix(stores, address, kind, records, m);
        assert(stores[m as int + 1].log_of(address, kind) == stores[m as int].log_of(
            address,
            kind,
        ).push(records[m as int]));
        assert(records.subrange(0, n as int) =~= records.subrange(0, m as int).push(
            records[m as int],
        ));
    }
}

/// After `records` are appended one by one, in order, to the empty log of
/// `address` and `kind` (store `i + 1` being store `i` after the `i`-th
/// append), the log holds them in order, its count is their number, and page
/// zero of that size lists them newest first.
pub proof fn lemma_appends(
    stores: Seq<ActivityStore>,
    address: Seq<u8>,
    kind: RecordKind,
    records: Seq<Seq<u8>>,
)
    requires
        stores.len() == records.len() + 1,
        stores[0].log_of(address, kind) == Seq::<Seq<u8>>::empty(),
        forall|i: int|
            0 <= i < records.len() ==> #[trigger] stores[i + 1].log_of(address, kind)
                == stores[i].log_of(address, kind).push(records[i]),
    ensures
        stores.last().log_of(address, kind) == records,
        stores.last().log_of(address, kind).len() == records.len(),
        page_of(stores.last().log_of(address, kind), 0, records.len()) == newest_first(records),
{
    lemma_appends_prefix(stores, address, kind, records, records.len());
    assert(records.subrange(0, records.len() as int) =~= records);
    lemma_first_page_whole_log(records);
}

proof fn lemma_pages_through_prefix(log: Seq<Seq<u8>>, page_size: nat, n: nat)
    requires
        page_size > 0,
    ensures
        n * page_size <= log.len() ==> pages_through(log, page_size, n) == newest_first(log).take(
            (n * page_size) as int,
        ),
        n * page_size > log.len() ==> pages_through(log, page_size, n) == newest_first(log),
    decreases n,
{
    let len = log.len() as int;
    let k = page_size as int;
    if n == 0 {
        assert(0 * page_size == 0);
        assert(pages_through(log, page_size, n) =~= newest_first(log).take(0));
    } else {
        let m = (n - 1) as nat;
        lemma_pages_through_prefix(log, page_size, m);
        assert(n * page_size == m * page_size + page_size) by (nonlinear_arith)
            requires
                m == n - 1,
        ;
        let mk = (m * page_size) as int;
        let prev = pages_through(log, page_size, m);
        let page = page_of(log, m, page_size);
        if mk >= len {
            lemma_page_past_end(log, m, page_size);
            assert(prev == newest_first(log) || mk == len);
            if mk == len {
                assert(newest_first(log).take(len) =~= newest_first(log));
            }
            assert(pages_through(log, page_size, n) =~= prev);
        } else {
            assert(prev == newest_first(log).take(mk));
            let end = page_end(log.len(), m, page_size) as int;
            let start = page_start(log.len(), m, page_size) as int;
            assert(end == len - mk);
            if n * page_size <= log.len() {
                assert(start == end - k);
                assert(pages_through(log, page_size, n) =~= newest_first(log).take(mk + k));
            } else {
                assert(start == 0);
                assert(pages_through(log, page_size, n) =~= newest_first(log));
            }
        }
    }
}

/// Reading pages `0, 1, 2, ...` of any positive size until the first empty
/// page gives every record exactly once, newest first: pages before
/// `page_count` are not empty, the page at `page_count` is, and the pages
/// before it together are the whole log in reverse.
pub proof fn lemma_pages_cover_log(log: Seq<Seq<u8>>, page_size: nat)
    requires
        page_size > 0,
    ensures
        forall|p: nat| p < page_count(log.len(), page_size) ==> #[trigger] page_of(log, p, page_size).len() > 0,
        page_of(log, page_count(log.len(), page_size), page_size) == Seq::<Seq<u8>>::empty(),
        pages_through(log, page_size, page_count(log.len(), page_size)) == newest_first(log),
{
    let n = page_count(log.len(), page_size);
    let len = log.len() as int;
    let k = page_size as int;
    assert(n * k >= len && (n == 0 || (n - 1) * k < len)) by (nonlinear_arith)
        requires
            k > 0,
            len >= 0,
            n == (len + k - 1) / k,
    {
        vstd::arithmetic::div_mod::lemma_fundamental_div_mod(len + k - 1, k);
    }
    assert forall|p: nat| p < n implies #[trigger] page_of(log, p, page_size).len() > 0 by {
        assert(p * k <= (n - 1) * k) by (nonlinear_arith)
            requires
                p < n,
                k > 0,
        ;
    }
    lemma_page_past_end(log, n, page_size);
    lemma_pages_through_prefix(log, page_size, n);
    if n * k == len {
        assert(newest_first(log).take(len) =~= newest_first(log));
    }
}

} // verus!
