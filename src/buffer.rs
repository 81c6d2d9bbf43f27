//! The bounded buffer of the most recent matches, with the live counters of a
//! search. Overflow is normal: the oldest record leaves.
use vstd::prelude::*;
use circular_buffer::CircularBuffer;
use core::cmp::Ordering;
use rayon::slice::ParallelSliceMut;
use crate::ast::{Direction, Order, OrderBy};
use crate::record::KafkaRecord;
use crate::text::chars_of;

verus! {

/// How many records the buffer holds.
pub const BUFFER_SIZE: usize = 500;

#[verifier::external_type_specification]
#[verifier::external_body]
#[verifier::reject_recursive_types(T)]
pub struct ExCircularBuffer<const N: usize, T>(CircularBuffer<N, T>);

/// The records that the ring holds, front (oldest) first.
pub uninterp spec fn ring_items(b: CircularBuffer<500, KafkaRecord>) -> Seq<KafkaRecord>;

/// Relies on `CircularBuffer::new`: an empty buffer.
#[verifier::external_body]
fn ring_new() -> (r: CircularBuffer<500, KafkaRecord>)
    ensures
        ring_items(r) == Seq::<KafkaRecord>::empty(),
{
    CircularBuffer::new()
}

/// Relies on `CircularBuffer::len`: the number of records held.
#[verifier::external_body]
fn ring_len(b: &CircularBuffer<500, KafkaRecord>) -> (r: usize)
    ensures
        r == ring_items(*b).len(),
{
    b.len()
}

/// Relies on `CircularBuffer::get`: the record at an index from the front, if any.
#[verifier::external_body]
fn ring_get(b: &CircularBuffer<500, KafkaRecord>, i: usize) -> (r: Option<&KafkaRecord>)
    ensures
        i < ring_items(*b).len() ==> r == Some(&ring_items(*b)[i as int]),
        i >= ring_items(*b).len() ==> r is None,
{
    b.get(i)
}

/// Relies on `CircularBuffer::push_back`: appends at the back; when the buffer
/// is full, the front record is dropped first.
#[verifier::external_body]
fn ring_push_back(b: &mut CircularBuffer<500, KafkaRecord>, item: KafkaRecord)
    ensures
        ring_items(*final(b)) == (if ring_items(*old(b)).len() < 500 {
            ring_items(*old(b)).push(item)
        } else {
            ring_items(*old(b)).drop_first().push(item)
        }),
{
    let _ = b.push_back(item);
}

/// Relies on `CircularBuffer::pop_front`: removes and returns the front record.
#[verifier::external_body]
fn ring_pop_front(b: &mut CircularBuffer<500, KafkaRecord>) -> (r: Option<KafkaRecord>)
    ensures
        ring_items(*old(b)).len() == 0 ==> r is None && ring_items(*final(b)) == ring_items(*old(b)),
        ring_items(*old(b)).len() > 0 ==> r == Some(ring_items(*old(b))[0]) && ring_items(*final(b))
            == ring_items(*old(b)).drop_first(),
{
    b.pop_front()
}

/// Relies on `CircularBuffer::clear`: drops every record.
#[verifier::external_body]
fn ring_clear(b: &mut CircularBuffer<500, KafkaRecord>)
    ensures
        ring_items(*final(b)) == Seq::<KafkaRecord>::empty(),
{
    b.clear()
}

/// The records after one push onto `s`.
pub open spec fn pushed(s: Seq<KafkaRecord>, r: KafkaRecord) -> Seq<KafkaRecord> {
    if s.len() < BUFFER_SIZE {
        s.push(r)
    } else {
        s.drop_first().push(r)
    }
}

/// The records after pushing `rs` in order onto `s`.
pub open spec fn pushed_all(s: Seq<KafkaRecord>, rs: Seq<KafkaRecord>) -> Seq<KafkaRecord>
    decreases rs.len(),
{
    if rs.len() == 0 {
        s
    } else {
        pushed(pushed_all(s, rs.drop_last()), rs.last())
    }
}

/// The last `n` elements of `s`, or all of them.
pub open spec fn last_n(s: Seq<KafkaRecord>, n: int) -> Seq<KafkaRecord> {
    if s.len() <= n {
        s
    } else {
        s.subrange(s.len() - n, s.len() as int)
    }
}

/// Lexicographic comparison by character code: negative, zero or positive.
pub open spec fn text_cmp(a: Seq<char>, b: Seq<char>) -> int
    decreases a.len(),
{
    if a.len() == 0 {
        if b.len() == 0 { 0 } else { -1 }
    } else if b.len() == 0 {
        1
    } else if (a[0] as u32) < (b[0] as u32) {
        -1
    } else if (a[0] as u32) > (b[0] as u32) {
        1
    } else {
        text_cmp(a.drop_first(), b.drop_first())
    }
}

pub open spec fn int_cmp(a: int, b: int) -> int {
    if a < b { -1 } else if a > b { 1 } else { 0 }
}

/// A record without a timestamp comes before any record with one.
pub open spec fn time_cmp(a: Option<i64>, b: Option<i64>) -> int {
    match (a, b) {
        (None, None) => 0,
        (None, Some(_)) => -1,
        (Some(_), None) => 1,
        (Some(x), Some(y)) => int_cmp(x as int, y as int),
    }
}

pub open spec fn field_cmp(a: KafkaRecord, b: KafkaRecord, o: Order) -> int {
    match o {
        Order::Timestamp => time_cmp(a.timestamp, b.timestamp),
        Order::Key => text_cmp(a.key_as_string@, b.key_as_string@),
        Order::Value => text_cmp(a.value_as_string@, b.value_as_string@),
        Order::Partition => int_cmp(a.partition as int, b.partition as int),
        Order::Offset => int_cmp(a.offset as int, b.offset as int),
        Order::Size => int_cmp(a.size as int, b.size as int),
        Order::Topic => text_cmp(a.topic@, b.topic@),
    }
}

/// The comparison that an `order by` clause asks for.
pub open spec fn record_cmp(a: KafkaRecord, b: KafkaRecord, ob: OrderBy) -> int {
    match ob.direction {
        Direction::Asc => field_cmp(a, b, ob.order),
        Direction::Desc => -field_cmp(a, b, ob.order),
    }
}

/// Inserts `x` after every element of `t` that does not come after it.
pub open spec fn insert_stable(x: KafkaRecord, t: Seq<KafkaRecord>, ob: OrderBy) -> Seq<KafkaRecord>
    decreases t.len(),
{
    if t.len() == 0 {
        seq![x]
    } else if record_cmp(t.last(), x, ob) <= 0 {
        t.push(x)
    } else {
        insert_stable(x, t.drop_last(), ob).push(t.last())
    }
}

/// The stable sort of `s` by the order: equal records keep their order.
pub open spec fn sorted_by(s: Seq<KafkaRecord>, ob: OrderBy) -> Seq<KafkaRecord>
    decreases s.len(),
{
    if s.len() == 0 {
        s
    } else {
        insert_stable(s.last(), sorted_by(s.drop_last(), ob), ob)
    }
}

pub open spec fn is_sorted(s: Seq<KafkaRecord>, ob: OrderBy) -> bool {
    forall|i: int, j: int| 0 <= i < j < s.len() ==> record_cmp(#[trigger] s[i], #[trigger] s[j], ob) <= 0
}

fn text_compare(a: &String, b: &String) -> (r: i8)
    ensures
        r as int == text_cmp(a@, b@),
        -1 <= r <= 1,
{
    let av = chars_of(a.as_str());
    let bv = chars_of(b.as_str());
    assert(av@.subrange(0, av@.len() as int) == av@);
    assert(bv@.subrange(0, bv@.len() as int) == bv@);
    let mut i: usize = 0;
    while i < av.len() && i < bv.len()
        invariant
            0 <= i <= av@.len(),
            i <= bv@.len(),
            text_cmp(a@, b@) == text_cmp(av@.subrange(i as int, av@.len() as int), bv@.subrange(
                i as int,
                bv@.len() as int,
            )),
            av@ == a@,
            bv@ == b@,
        decreases av.len() - i,
    {
        let x = av[i];
        let y = bv[i];
        let ghost sa = av@.subrange(i as int, av@.len() as int);
        let ghost sb = bv@.subrange(i as int, bv@.len() as int);
        assert(sa[0] == x && sb[0] == y);
        if (x as u32) < (y as u32) {
            return -1;
        }
        if (x as u32) > (y as u32) {
            return 1;
        }
        assert(sa.drop_first() == av@.subrange(i + 1, av@.len() as int));
        assert(sb.drop_first() == bv@.subrange(i + 1, bv@.len() as int));
        i = i + 1;
    }
    if i < av.len() {
        1
    } else if i < bv.len() {
        -1
    } else {
        0
    }
}

fn int_compare(a: i128, b: i128) -> (r: i8)
    ensures
        r as int == int_cmp(a as int, b as int),
        -1 <= r <= 1,
{
    if a < b {
        -1
    } else if a > b {
        1
    } else {
        0
    }
}

fn field_compare(a: &KafkaRecord, b: &KafkaRecord, o: Order) -> (r: i8)
    ensures
        r as int == field_cmp(*a, *b, o),
        -1 <= r <= 1,
{
    match o {
        Order::Timestamp => match (a.timestamp, b.timestamp) {
            (None, None) => 0,
            (None, Some(_)) => -1,
            (Some(_), None) => 1,
            (Some(x), Some(y)) => int_compare(x as i128, y as i128),
        },
        Order::Key => text_compare(&a.key_as_string, &b.key_as_string),
        Order::Value => text_compare(&a.value_as_string, &b.value_as_string),
        Order::Partition => int_compare(a.partition as i128, b.partition as i128),
        Order::Offset => int_compare(a.offset as i128, b.offset as i128),
        Order::Size => int_compare(a.size as i128, b.size as i128),
        Order::Topic => text_compare(&a.topic, &b.topic),
    }
}

pub open spec fn ordering_of(c: int) -> Ordering {
    if c < 0 {
        Ordering::Less
    } else if c > 0 {
        Ordering::Greater
    } else {
        Ordering::Equal
    }
}

/// How two records compare under an `order by` clause.
pub fn compare_records(a: &KafkaRecord, b: &KafkaRecord, ob: OrderBy) -> (r: Ordering)
    ensures
        r == ordering_of(record_cmp(*a, *b, ob)),
{
    let c = field_compare(a, b, ob.order);
    let c = match ob.direction {
        Direction::Asc => c,
        Direction::Desc => -c,
    };
    if c < 0 {
        Ordering::Less
    } else if c > 0 {
        Ordering::Greater
    } else {
        Ordering::Equal
    }
}

/// Relies on rayon's `par_sort_by`, a stable sort by the comparator, which
/// `compare_records` makes a total order.
#[verifier::external_body]
fn par_sort_records(v: &mut Vec<KafkaRecord>, ob: OrderBy)
    ensures
        final(v)@ == sorted_by(old(v)@, ob),
{
    v.par_sort_by(|a, b| compare_records(a, b, ob))
}

/// Live counters of a search.
#[derive(Debug, Clone, Copy, PartialEq, Eq, Structural, Default)]
pub struct Stats {
    pub matched: usize,
    pub read: usize,
    pub total_to_read: usize,
    pub buffer_size: usize,
}

/// The most recent matches of a search, at most `BUFFER_SIZE` of them, and its counters.
pub struct RecordsBuffer {
    buffer: CircularBuffer<500, KafkaRecord>,
    stats: Stats,
    last_time_sorted: usize,
}

pub open spec fn bumped(n: usize) -> usize {
    if n < usize::MAX {
        (n + 1) as usize
    } else {
        n
    }
}

impl RecordsBuffer {
    /// The records held, oldest first.
    pub closed spec fn items(&self) -> Seq<KafkaRecord> {
        ring_items(self.buffer)
    }

    pub closed spec fn counters(&self) -> Stats {
        self.stats
    }

    /// The value of the read counter at the last sort.
    pub closed spec fn sorted_at(&self) -> usize {
        self.last_time_sorted
    }

    pub open spec fn wf(&self) -> bool {
        self.items().len() <= BUFFER_SIZE
    }

    pub fn new() -> (r: RecordsBuffer)
        ensures
            r.wf(),
            r.items() == Seq::<KafkaRecord>::empty(),
            r.counters() == (Stats { matched: 0, read: 0, total_to_read: 0, buffer_size: 0 }),
            r.sorted_at() == 0,
    {
        RecordsBuffer {
            buffer: ring_new(),
            stats: Stats { matched: 0, read: 0, total_to_read: 0, buffer_size: 0 },
            last_time_sorted: 0,
        }
    }

    /// Empties the buffer and zeroes the counters.
    pub fn reset(&mut self)
        ensures
            final(self).wf(),
            final(self).items() == Seq::<KafkaRecord>::empty(),
            final(self).counters() == (Stats { matched: 0, read: 0, total_to_read: 0, buffer_size: 0 }),
            final(self).sorted_at() == 0,
    {
        ring_clear(&mut self.buffer);
        self.stats = Stats { matched: 0, read: 0, total_to_read: 0, buffer_size: 0 };
        self.last_time_sorted = 0;
    }

    /// A snapshot of the counters, with the number of records held.
    pub fn stats(&self) -> (r: Stats)
        ensures
            r == (Stats { buffer_size: self.items().len() as usize, ..self.counters() }),
    {
        Stats {
            matched: self.stats.matched,
            read: self.stats.read,
            total_to_read: self.stats.total_to_read,
            buffer_size: ring_len(&self.buffer),
        }
    }

    /// Counts one record read from the source, matched or not. The counter stops at `usize::MAX`.
    pub fn new_record_read(&mut self)
        ensures
            final(self).items() == old(self).items(),
            final(self).counters() == (Stats { read: bumped(old(self).counters().read), ..old(self).counters() }),
            final(self).sorted_at() == old(self).sorted_at(),
    {
        self.stats.read = if self.stats.read < usize::MAX { self.stats.read + 1 } else { self.stats.read };
    }

    /// Records the estimate of how many records the search will read.
    pub fn set_total_to_read(&mut self, total: usize)
        ensures
            final(self).items() == old(self).items(),
            final(self).counters() == (Stats { total_to_read: total, ..old(self).counters() }),
            final(self).sorted_at() == old(self).sorted_at(),
    {
        self.stats.total_to_read = total;
    }

    pub fn len(&self) -> (r: usize)
        ensures
            r == self.items().len(),
    {
        ring_len(&self.buffer)
    }

    /// The record at `index` from the oldest, if there is one.
    pub fn get(&self, index: usize) -> (r: Option<&KafkaRecord>)
        ensures
            index < self.items().len() ==> r == Some(&self.items()[index as int]),
            index >= self.items().len() ==> r is None,
    {
        ring_get(&self.buffer, index)
    }

    /// Appends a match, dropping the oldest record when the buffer is full, and
    /// returns the new number of matches.
    pub fn push(&mut self, record: KafkaRecord) -> (r: usize)
        ensures
            old(self).wf() ==> final(self).wf(),
            final(self).items() == pushed(old(self).items(), record),
            final(self).items().last() == record,
            r == bumped(old(self).counters().matched),
            final(self).counters() == (Stats { matched: r, ..old(self).counters() }),
            final(self).sorted_at() == old(self).sorted_at(),
    {
        ring_push_back(&mut self.buffer, record);
        self.stats.matched = if self.stats.matched < usize::MAX { self.stats.matched + 1 } else { self.stats.matched };
        self.stats.matched
    }

    /// Orders the records by the clause, stably. Nothing changes when no record
    /// has been read since the last sort.
    pub fn sort(&mut self, order_by: &OrderBy)
        requires
            old(self).wf(),
        ensures
            final(self).wf(),
            final(self).counters() == old(self).counters(),
            old(self).counters().read == old(self).sorted_at() ==> final(self).items() == old(self).items()
                && final(self).sorted_at() == old(self).sorted_at(),
            old(self).counters().read != old(self).sorted_at() ==> final(self).items() == sorted_by(
                old(self).items(),
                *order_by,
            ) && final(self).sorted_at() == old(self).counters().read,
            final(self).sorted_at() == final(self).counters().read,
    {
        if self.stats.read == self.last_time_sorted {
            return;
        }
        let ghost start = ring_items(self.buffer);
        let mut unsorted: Vec<KafkaRecord> = Vec::new();
        while ring_len(&self.buffer) > 0
            invariant
                start == unsorted@ + ring_items(self.buffer),
                start.len() <= BUFFER_SIZE,
                self.stats == old(self).stats,
                self.last_time_sorted == old(self).last_time_sorted,
            decreases ring_items(self.buffer).len(),
        {
            let ghost rest = ring_items(self.buffer);
            match ring_pop_front(&mut self.buffer) {
                Some(r) => {
                    unsorted.push(r);
                    assert(start == unsorted@ + ring_items(self.buffer)) by {
                        assert(rest == seq![rest[0]] + rest.drop_first());
                    }
                },
                None => {},
            }
        }
        assert(start == unsorted@);
        par_sort_records(&mut unsorted, *order_by);
        let ghost sorted = unsorted@;
        proof {
            lemma_sorted_len(start, *order_by);
        }
        let mut k: usize = 0;
        while unsorted.len() > 0
            invariant
                sorted.len() == start.len() <= BUFFER_SIZE,
                0 <= k <= sorted.len(),
                unsorted@ == sorted.subrange(k as int, sorted.len() as int),
                ring_items(self.buffer) == sorted.subrange(0, k as int),
                self.stats == old(self).stats,
            decreases unsorted@.len(),
        {
            let r = unsorted.remove(0);
            ring_push_back(&mut self.buffer, r);
            k = k + 1;
            assert(ring_items(self.buffer) == sorted.subrange(0, k as int));
            assert(unsorted@ == sorted.subrange(k as int, sorted.len() as int));
        }
        assert(sorted.subrange(0, sorted.len() as int) == sorted);
        self.last_time_sorted = self.stats.read;
    }
}

pub proof fn lemma_insert_len(x: KafkaRecord, t: Seq<KafkaRecord>, ob: OrderBy)
    ensures
        insert_stable(x, t, ob).len() == t.len() + 1,
    decreases t.len(),
{
    if t.len() > 0 && record_cmp(t.last(), x, ob) > 0 {
        lemma_insert_len(x, t.drop_last(), ob);
    }
}

pub proof fn lemma_sorted_len(s: Seq<KafkaRecord>, ob: OrderBy)
    ensures
        sorted_by(s, ob).len() == s.len(),
    decreases s.len(),
{
    if s.len() > 0 {
        lemma_sorted_len(s.drop_last(), ob);
        lemma_insert_len(s.last(), sorted_by(s.drop_last(), ob), ob);
    }
}

/// Pushing records one after the other keeps at most `BUFFER_SIZE` of them:
/// the newest ones, in the order they came, so the oldest leave first and the
/// last record pushed is always held.
pub proof fn lemma_pushes_keep_newest(s: Seq<KafkaRecord>, rs: Seq<KafkaRecord>)
    requires
        s.len() <= BUFFER_SIZE,
    ensures
        pushed_all(s, rs) == last_n(s + rs, BUFFER_SIZE as int),
        pushed_all(s, rs).len() <= BUFFER_SIZE,
        rs.len() > 0 ==> pushed_all(s, rs).last() == rs.last(),
    decreases rs.len(),
{
    if rs.len() > 0 {
        let rest = rs.drop_last();
        let x = rs.last();
        lemma_pushes_keep_newest(s, rest);
        let p = pushed_all(s, rest);
        let all = s + rs;
        let before = s + rest;
        assert(all == before.push(x));
        if before.len() < BUFFER_SIZE {
            assert(p == before);
            assert(pushed(p, x) == all);
        } else {
            let n = BUFFER_SIZE as int;
            assert(p == before.subrange(before.len() - n, before.len() as int));
            if before.len() == n {
                assert(p == before);
            }
            assert(pushed(p, x) =~= all.subrange(all.len() - n, all.len() as int));
        }
    }
}

/// Records that are already in order are left as they are by a sort.
pub proof fn lemma_sorted_unchanged(s: Seq<KafkaRecord>, ob: OrderBy)
    requires
        is_sorted(s, ob),
    ensures
        sorted_by(s, ob) == s,
    decreases s.len(),
{
    if s.len() > 0 {
        let t = s.drop_last();
        assert(is_sorted(t, ob)) by {
            assert forall|i: int, j: int| 0 <= i < j < t.len() implies record_cmp(
                #[trigger] t[i],
                #[trigger] t[j],
                ob,
            ) <= 0 by {
                assert(t[i] == s[i] && t[j] == s[j]);
            }
        }
        lemma_sorted_unchanged(t, ob);
        if t.len() > 0 {
            assert(t.last() == s[s.len() - 2]);
            assert(record_cmp(s[s.len() - 2], s[s.len() - 1], ob) <= 0);
        }
        assert(insert_stable(s.last(), t, ob) =~= s);
    }
}

} // verus!
