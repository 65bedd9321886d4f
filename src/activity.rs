use vstd::prelude::*;
use crate::bytes::{bytes_eq, copy_bytes};

verus! {

/// The kinds of activity that each address has a log of.
#[derive(Clone, Copy, PartialEq, Eq, Structural, Debug)]
pub enum RecordKind {
    Orders,
    CancelRecords,
    FillRecords,
}

/// A storage namespace: the records of one kind, or the counter of one kind.
#[derive(Clone, Copy, PartialEq, Eq, Structural, Debug)]
pub enum Namespace {
    Records(RecordKind),
    Count(RecordKind),
}

/// The kind that a namespace belongs to.
pub open spec fn namespace_kind(ns: Namespace) -> RecordKind {
    match ns {
        Namespace::Records(k) => k,
        Namespace::Count(k) => k,
    }
}

/// The counter namespace that goes with a namespace of records.
pub fn prefix_activity_records_count(activity_records_storage_prefix: Namespace) -> (r: Namespace)
    ensures
        r == Namespace::Count(namespace_kind(activity_records_storage_prefix)),
{
    match activity_records_storage_prefix {
        Namespace::Records(k) => Namespace::Count(k),
        Namespace::Count(k) => Namespace::Count(k),
    }
}

/// The byte payloads of a sequence of stored records.
pub open spec fn payloads(records: Seq<Vec<u8>>) -> Seq<Seq<u8>> {
    records.map_values(|r: Vec<u8>| r@)
}

/// Index one past the newest record of a page: `total - page * page_size`,
/// or zero once the page lies beyond the log.
pub open spec fn page_end(total: nat, page: nat, page_size: nat) -> nat {
    if page * page_size >= total {
        0
    } else {
        (total - page * page_size) as nat
    }
}

/// Index of the oldest record of a page.
pub open spec fn page_start(total: nat, page: nat, page_size: nat) -> nat {
    let end = page_end(total, page, page_size);
    if end >= page_size {
        (end - page_size) as nat
    } else {
        0
    }
}

/// The records of a page of `log`, newest first: indices `start..end` in
/// descending order.
pub open spec fn page_of(log: Seq<Seq<u8>>, page: nat, page_size: nat) -> Seq<Seq<u8>> {
    let end = page_end(log.len(), page, page_size);
    let start = page_start(log.len(), page, page_size);
    Seq::new((end - start) as nat, |i: int| log[end - 1 - i])
}

/// The log of one address for one kind of record.
pub struct AddressLog {
    pub address: Vec<u8>,
    pub kind: RecordKind,
    pub records: Vec<Vec<u8>>,
}

/// Append-only activity logs, one per address and kind. The count of a log
/// is the number of its records and the index at which the next one goes.
pub struct ActivityStore {
    logs: Vec<AddressLog>,
}

impl ActivityStore {
    /// Whether entry `i` holds the log of `address` for `kind`.
    pub closed spec fn holds(self, i: int, address: Seq<u8>, kind: RecordKind) -> bool {
        0 <= i < self.logs@.len() && self.logs@[i].address@ == address && self.logs@[i].kind
            == kind
    }

    /// No two entries hold the log of the same address and kind.
    pub closed spec fn wf(self) -> bool {
        forall|i: int, j: int|
            0 <= i < self.logs@.len() && 0 <= j < self.logs@.len() && i != j
                ==> !(#[trigger] self.logs@[i].address@ == #[trigger] self.logs@[j].address@
                && self.logs@[i].kind == self.logs@[j].kind)
    }

    /// The records written for `address` and `kind`, oldest first.
    pub closed spec fn log_of(self, address: Seq<u8>, kind: RecordKind) -> Seq<Seq<u8>> {
        if exists|i: int| self.holds(i, address, kind) {
            let i = choose|i: int| self.holds(i, address, kind);
            payloads(self.logs@[i].records@)
        } else {
            Seq::empty()
        }
    }

    proof fn lemma_log_at(self, j: int, address: Seq<u8>, kind: RecordKind)
        requires
            self.wf(),
            self.holds(j, address, kind),
        ensures
            self.log_of(address, kind) == payloads(self.logs@[j].records@),
    {
        let i = choose|i: int| self.holds(i, address, kind);
        if i != j {
            assert(self.logs@[i].address@ == self.logs@[j].address@);
        }
    }

    /// An empty store.
    pub fn new() -> (r: Self)
        ensures
            r.wf(),
            forall|a: Seq<u8>, k: RecordKind| r.log_of(a, k) == Seq::<Seq<u8>>::empty(),
    {
        ActivityStore { logs: Vec::new() }
    }

    fn find(&self, address: &Vec<u8>, kind: RecordKind) -> (r: Option<usize>)
        ensures
            match r {
                Some(i) => self.holds(i as int, address@, kind),
                None => forall|i: int| !self.holds(i, address@, kind),
            },
    {
        let mut i: usize = 0;
        while i < self.logs.len()
            invariant
                i <= self.logs@.len(),
                forall|j: int| 0 <= j < i ==> !self.holds(j, address@, kind),
            decreases self.logs@.len() - i,
        {
            if self.logs[i].kind == kind && bytes_eq(&self.logs[i].address, address) {
                return Some(i);
            }
            i = i + 1;
        }
        None
    }

    /// Number of records written for `address` and `kind`; zero when none were.
    pub fn get_count(&self, address: &Vec<u8>, kind: RecordKind) -> (r: u128)
        requires
            self.wf(),
        ensures
            r as int == self.log_of(address@, kind).len(),
    {
        match self.find(address, kind) {
            Some(i) => {
                proof {
                    self.lemma_log_at(i as int, address@, kind);
                }
                self.logs[i].records.len() as u128
            },
            None => 0,
        }
    }

    /// Writes `record` at the index given by the current count of `address`
    /// and `kind`, and moves the count on by one, as a single step.
    pub fn append(&mut self, address: &Vec<u8>, kind: RecordKind, record: Vec<u8>)
        requires
            old(self).wf(),
            old(self).log_of(address@, kind).len() < usize::MAX,
        ensures
            final(self).wf(),
            final(self).log_of(address@, kind) == old(self).log_of(address@, kind).push(record@),
            forall|a: Seq<u8>, k: RecordKind|
                !(a == address@ && k == kind) ==> final(self).log_of(a, k) == old(self).log_of(
                    a,
                    k,
                ),
    {
        let ghost pre = *self;
        match self.find(address, kind) {
            Some(i) => {
                proof {
                    pre.lemma_log_at(i as int, address@, kind);
                }
                let mut entry = AddressLog { address: Vec::new(), kind, records: Vec::new() };
                self.logs.set_and_swap(i, &mut entry);
                entry.records.push(record);
                self.logs.set(i, entry);
                proof {
                    assert(self.holds(i as int, address@, kind));
                    assert(payloads(self.logs@[i as int].records@) =~= payloads(
                        pre.logs@[i as int].records@,
                    ).push(record@));
                    assert(self.wf()) by {
                        assert forall|x: int, y: int|
                            0 <= x < self.logs@.len() && 0 <= y < self.logs@.len() && x != y
                                implies !(#[trigger] self.logs@[x].address@
                            == #[trigger] self.logs@[y].address@ && self.logs@[x].kind
                            == self.logs@[y].kind) by {
                            assert(pre.logs@[x].address@ == pre.logs@[y].address@ ==> pre.logs@[x].kind != pre.logs@[y].kind);
                        }
                    }
                    self.lemma_log_at(i as int, address@, kind);
                    assert forall|a: Seq<u8>, k: RecordKind|
                        !(a == address@ && k == kind) implies self.log_of(a, k) == pre.log_of(
                            a,
                            k,
                        ) by {
                        if exists|j: int| pre.holds(j, a, k) {
                            let j = choose|j: int| pre.holds(j, a, k);
                            pre.lemma_log_at(j, a, k);
                            assert(self.holds(j, a, k));
                            self.lemma_log_at(j, a, k);
                        } else {
                            assert forall|j: int| !self.holds(j, a, k) by {
                                if self.holds(j, a, k) {
                                    assert(pre.holds(j, a, k));
                                }
                            }
                        }
                    }
                }
            },
            None => {
                let mut records: Vec<Vec<u8>> = Vec::new();
                records.push(record);
                let entry = AddressLog { address: copy_bytes(address), kind, records };
                self.logs.push(entry);
                proof {
                    let n = pre.logs@.len() as int;
                    assert(self.holds(n, address@, kind));
                    assert(payloads(self.logs@[n].records@) =~= Seq::<Seq<u8>>::empty().push(
                        record@,
                    ));
                    assert(self.wf()) by {
                        assert forall|x: int, y: int|
                            0 <= x < self.logs@.len() && 0 <= y < self.logs@.len() && x != y
                                implies !(#[trigger] self.logs@[x].address@
                            == #[trigger] self.logs@[y].address@ && self.logs@[x].kind
                            == self.logs@[y].kind) by {
                            if x == n {
                                assert(!pre.holds(y, address@, kind));
                            } else if y == n {
                                assert(!pre.holds(x, address@, kind));
                            } else {
                                assert(pre.logs@[x].address@ == pre.logs@[y].address@ ==> pre.logs@[x].kind != pre.logs@[y].kind);
                            }
                        }
                    }
                    self.lemma_log_at(n, address@, kind);
                    assert forall|a: Seq<u8>, k: RecordKind|
                        !(a == address@ && k == kind) implies self.log_of(a, k) == pre.log_of(
                            a,
                            k,
                        ) by {
                        if exists|j: int| pre.holds(j, a, k) {
                            let j = choose|j: int| pre.holds(j, a, k);
                            pre.lemma_log_at(j, a, k);
                            assert(self.holds(j, a, k));
                            self.lemma_log_at(j, a, k);
                        } else {
                            assert forall|j: int| !self.holds(j, a, k) by {
                                if self.holds(j, a, k) {
                                    assert(pre.holds(j, a, k));
                                }
                            }
                        }
                    }
                }
            },
        }
    }

    /// A page of the log of `for_address` for `kind`, newest first, with the
    /// log's total count. Page `page` holds the indices from
    /// `total - page * page_size - page_size` (or zero) up to, not including,
    /// `total - page * page_size`; a page beyond the log is empty.
    pub fn get_activity_records(
        &self,
        for_address: &Vec<u8>,
        page: u128,
        page_size: u128,
        kind: RecordKind,
    ) -> (r: (Vec<Vec<u8>>, u128))
        requires
            self.wf(),
        ensures
            payloads(r.0@) == page_of(self.log_of(for_address@, kind), page as nat, page_size as nat),
            r.1 as int == self.log_of(for_address@, kind).len(),
    {
        let mut activity_records: Vec<Vec<u8>> = Vec::new();
        let ghost log = self.log_of(for_address@, kind);
        let found = self.find(for_address, kind);
        let i: usize = match found {
            Some(i) => i,
            None => {
                proof {
                    assert(log =~= Seq::<Seq<u8>>::empty());
                    assert(payloads(activity_records@) =~= page_of(log, page as nat, page_size as nat));
                }
                return (activity_records, 0);
            },
        };
        proof {
            self.lemma_log_at(i as int, for_address@, kind);
        }
        let records = &self.logs[i].records;
        let total: u128 = records.len() as u128;
        let end: u128 = if page_size == 0 || page > total / page_size {
            proof {
                if page_size > 0 {
                    let (p, s, t) = (page as int, page_size as int, total as int);
                    assert(p * s >= t) by (nonlinear_arith)
                        requires
                            s > 0,
                            p > t / s,
                    {
                        assert(t < (t / s + 1) * s);
                        assert((t / s + 1) * s <= p * s);
                    }
                }
            }
            proof {
                if page_size == 0 {
                    assert(page as nat * page_size as nat == 0) by (nonlinear_arith)
                        requires
                            page_size == 0,
                    ;
                }
            }
            if page_size == 0 { total } else { 0 }
        } else {
            proof {
                let (p, s, t) = (page as int, page_size as int, total as int);
                assert(p * s <= t) by (nonlinear_arith)
                    requires
                        s > 0,
                        p <= t / s,
                {
                    assert(p * s <= (t / s) * s);
                }
            }
            total - page * page_size
        };
        let start: u128 = if end >= page_size { end - page_size } else { 0 };
        assert(end as nat == page_end(total as nat, page as nat, page_size as nat));
        assert(start as nat == page_start(total as nat, page as nat, page_size as nat));
        let end_index: usize = end as usize;
        let start_index: usize = start as usize;
        let mut position: usize = end_index;
        while position > start_index
            invariant
                start_index <= position <= end_index,
                end_index as int <= records@.len(),
                log == payloads(records@),
                payloads(activity_records@) == Seq::new(
                    (end_index - position) as nat,
                    |j: int| log[end_index - 1 - j],
                ),
            decreases position,
        {
            position = position - 1;
            let ghost before = activity_records@;
            activity_records.push(copy_bytes(&records[position]));
            assert(log[position as int] == records@[position as int]@);
            assert(payloads(activity_records@) =~= payloads(before).push(log[position as int]));
            assert(payloads(activity_records@) =~= Seq::new(
                (end_index - position) as nat,
                |j: int| log[end_index - 1 - j],
            ));
        }
        assert(payloads(activity_records@) =~= page_of(log, page as nat, page_size as nat));
        (activity_records, total)
    }
}

} // verus!
