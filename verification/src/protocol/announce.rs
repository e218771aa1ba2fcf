//! The announcement: a node tells its identity, its address and its records,
//! one record for each class of service that it offers.

use crate::protocol::address::{parse_ip, spec_ip, IpAddress};
use crate::protocol::class_id::{lemma_class_round_trip, ClassID};
use crate::protocol::error::DecodeError;
use crate::protocol::wire::{
    be_u8, lemma_field_read, lemma_field_round_trip, lemma_str_read, lemma_str_round_trip,
    lemma_u8_round_trip, parse_str, parsed_view, put_bytes, put_field, spec_field,
    spec_field_bytes, spec_str, spec_u8, take_field, Parsed,
};
use vstd::prelude::*;
use vstd::slice::slice_to_vec;
use vstd::utf8::encode_utf8;

verus! {

/// A key and its value, as the characters of the two strings.
pub type Entry = (Seq<char>, Seq<char>);

/// What is said of one class of service: the class, and a mapping from keys
/// to values. `data` holds one pair for each key, in the order in which the
/// keys first came.
#[derive(Debug, Clone, PartialEq, Eq)]
pub struct AnnounceRecord {
    pub cid: ClassID,
    pub data: Vec<(String, String)>,
}

/// What an [`AnnounceRecord`] holds.
pub struct AnnounceRecordView {
    pub cid: ClassID,
    pub data: Seq<Entry>,
}

/// The pairs of a record as characters.
pub open spec fn entries_view(data: Seq<(String, String)>) -> Seq<Entry> {
    Seq::new(data.len(), |i: int| (data[i].0@, data[i].1@))
}

impl View for AnnounceRecord {
    type V = AnnounceRecordView;

    open spec fn view(&self) -> AnnounceRecordView {
        AnnounceRecordView { cid: self.cid, data: entries_view(self.data@) }
    }
}

/// The place of the first pair with the given key, or the number of pairs
/// where no pair has it.
pub open spec fn spec_find(entries: Seq<Entry>, key: Seq<char>) -> int
    decreases entries.len(),
{
    if entries.len() == 0 {
        0
    } else if entries.first().0 == key {
        0
    } else {
        1 + spec_find(entries.drop_first(), key)
    }
}

/// The value that the pairs give to a key.
pub open spec fn spec_get(entries: Seq<Entry>, key: Seq<char>) -> Option<Seq<char>> {
    if spec_find(entries, key) < entries.len() {
        Some(entries[spec_find(entries, key)].1)
    } else {
        None
    }
}

/// The pairs after `key` was given `value`: the pair of that key holds the
/// new value, and where there was none, the new pair stands at the end.
pub open spec fn spec_insert(entries: Seq<Entry>, key: Seq<char>, value: Seq<char>) -> Seq<Entry> {
    if spec_find(entries, key) < entries.len() {
        entries.update(spec_find(entries, key), (key, value))
    } else {
        entries.push((key, value))
    }
}

/// No two pairs have the same key.
pub open spec fn distinct_keys(entries: Seq<Entry>) -> bool {
    forall|i: int, j: int| 0 <= i < j < entries.len() ==> entries[i].0 != entries[j].0
}

/// What [`spec_find`] finds: no pair before that place has the key, and the
/// pair at that place, if there is one, has it.
pub proof fn lemma_find(entries: Seq<Entry>, key: Seq<char>)
    ensures
        0 <= spec_find(entries, key) <= entries.len(),
        forall|i: int| 0 <= i < spec_find(entries, key) ==> (#[trigger] entries[i]).0 != key,
        spec_find(entries, key) < entries.len() ==> entries[spec_find(entries, key)].0 == key,
    decreases entries.len(),
{
    if entries.len() != 0 && entries.first().0 != key {
        let tail = entries.drop_first();
        lemma_find(tail, key);
        assert forall|i: int| 0 <= i < spec_find(entries, key) implies (#[trigger] entries[i]).0
            != key by {
            if i > 0 {
                assert(entries[i] == tail[i - 1]);
            }
        }
    }
}

/// `n` pairs of a key and a value, each a string field, given one after the
/// other to the mapping `acc`.
pub open spec fn spec_entries(s: Seq<u8>, n: nat, acc: Seq<Entry>) -> Parsed<Seq<Entry>>
    decreases n,
{
    if n == 0 {
        Ok((s, acc))
    } else {
        match spec_str(s) {
            Ok((after_key, key)) => match spec_str(after_key) {
                Ok((rest, value)) => spec_entries(
                    rest,
                    (n - 1) as nat,
                    spec_insert(acc, key, value),
                ),
                Err(e) => Err(e),
            },
            Err(e) => Err(e),
        }
    }
}

/// The bytes of one pair: the field of the key, then the field of the value.
pub open spec fn spec_entry_bytes(entry: Entry) -> Seq<u8> {
    spec_field_bytes(encode_utf8(entry.0)) + spec_field_bytes(encode_utf8(entry.1))
}

/// The bytes of some pairs, one after the other.
pub open spec fn spec_entries_bytes(entries: Seq<Entry>) -> Seq<u8>
    decreases entries.len(),
{
    if entries.len() == 0 {
        Seq::empty()
    } else {
        spec_entry_bytes(entries.first()) + spec_entries_bytes(entries.drop_first())
    }
}

/// Writing one more pair adds its bytes at the end.
pub proof fn lemma_entries_bytes_push(entries: Seq<Entry>, entry: Entry)
    ensures
        spec_entries_bytes(entries.push(entry)) == spec_entries_bytes(entries) + spec_entry_bytes(
            entry,
        ),
    decreases entries.len(),
{
    if entries.len() == 0 {
        assert(entries.push(entry).drop_first() =~= Seq::<Entry>::empty());
        assert(spec_entries_bytes(Seq::<Entry>::empty()) =~= Seq::<u8>::empty());
        assert(spec_entries_bytes(entries.push(entry)) =~= spec_entry_bytes(entry));
    } else {
        lemma_entries_bytes_push(entries.drop_first(), entry);
        assert(entries.push(entry).drop_first() =~= entries.drop_first().push(entry));
        assert(spec_entries_bytes(entries.push(entry)) =~= spec_entries_bytes(entries)
            + spec_entry_bytes(entry));
    }
}

/// The key and the value of a pair have at most 255 bytes each in UTF-8, so
/// that each fits the field it is written in.
pub open spec fn entry_fits(entry: Entry) -> bool {
    encode_utf8(entry.0).len() <= 255 && encode_utf8(entry.1).len() <= 255
}

/// The pairs can stand in a record: at most 255 of them, no key twice, and
/// each of them fits.
pub open spec fn entries_wf(entries: Seq<Entry>) -> bool {
    &&& entries.len() <= 255
    &&& distinct_keys(entries)
    &&& forall|i: int| 0 <= i < entries.len() ==> entry_fits(#[trigger] entries[i])
}

impl AnnounceRecordView {
    /// The record is one that the wire can carry and that comes back from it
    /// as it is.
    pub open spec fn wf(self) -> bool {
        entries_wf(self.data)
    }
}

/// Giving a key a value keeps the keys distinct and the pairs fitting, and
/// adds at most one pair.
pub proof fn lemma_insert_keeps(entries: Seq<Entry>, key: Seq<char>, value: Seq<char>)
    requires
        distinct_keys(entries),
        forall|i: int| 0 <= i < entries.len() ==> entry_fits(#[trigger] entries[i]),
        entry_fits((key, value)),
    ensures
        distinct_keys(spec_insert(entries, key, value)),
        forall|i: int|
            0 <= i < spec_insert(entries, key, value).len() ==> entry_fits(
                #[trigger] spec_insert(entries, key, value)[i],
            ),
        entries.len() <= spec_insert(entries, key, value).len() <= entries.len() + 1,
        spec_get(spec_insert(entries, key, value), key) == Some(value),
{
    lemma_find(entries, key);
    let after = spec_insert(entries, key, value);
    let at = spec_find(entries, key);
    assert forall|i: int, j: int| 0 <= i < j < after.len() implies after[i].0 != after[j].0 by {
        if at < entries.len() {
            assert(entries[i].0 != entries[j].0);
        } else if j < entries.len() {
            assert(entries[i].0 != entries[j].0);
        } else {
            assert(entries[i].0 != key);
        }
    }
    assert forall|i: int| 0 <= i < after.len() implies entry_fits(#[trigger] after[i]) by {
        if i != at {
            assert(entry_fits(entries[i]));
        }
    }
    lemma_find(after, key);
    assert(after[at].0 == key);
    if spec_find(after, key) < at {
        assert(entries[spec_find(after, key)].0 != key);
    }
}

/// Pairs that were read are distinct in their keys and fit, where those
/// they were added to did.
pub proof fn lemma_entries_read(s: Seq<u8>, n: nat, acc: Seq<Entry>)
    requires
        distinct_keys(acc),
        forall|i: int| 0 <= i < acc.len() ==> entry_fits(#[trigger] acc[i]),
    ensures
        spec_entries(s, n, acc) matches Ok((_, data)) ==> {
            &&& distinct_keys(data)
            &&& forall|i: int| 0 <= i < data.len() ==> entry_fits(#[trigger] data[i])
            &&& data.len() <= acc.len() + n
        },
    decreases n,
{
    if n > 0 {
        if let Ok((after_key, key)) = spec_str(s) {
            if let Ok((rest, value)) = spec_str(after_key) {
                lemma_str_read(s);
                lemma_str_read(after_key);
                lemma_insert_keeps(acc, key, value);
                lemma_entries_read(rest, (n - 1) as nat, spec_insert(acc, key, value));
            }
        }
    }
}

/// Pairs with distinct keys are read back from their bytes, whatever follows
/// them.
pub proof fn lemma_entries_round_trip(entries: Seq<Entry>, tail: Seq<u8>, acc: Seq<Entry>)
    requires
        distinct_keys(acc + entries),
        forall|i: int| 0 <= i < entries.len() ==> entry_fits(#[trigger] entries[i]),
    ensures
        spec_entries(spec_entries_bytes(entries) + tail, entries.len(), acc) == Ok::<
            (Seq<u8>, Seq<Entry>),
            DecodeError,
        >((tail, acc + entries)),
    decreases entries.len(),
{
    if entries.len() == 0 {
        assert(spec_entries_bytes(entries) + tail =~= tail);
        assert(acc + entries =~= acc);
    } else {
        let first = entries.first();
        let others = entries.drop_first();
        let after = spec_entries_bytes(others) + tail;
        let after_key = spec_field_bytes(encode_utf8(first.1)) + after;
        assert(spec_entries_bytes(entries) + tail =~= spec_field_bytes(encode_utf8(first.0))
            + after_key);
        assert(entry_fits(entries[0]));
        lemma_str_round_trip(first.0, after_key);
        lemma_str_round_trip(first.1, after);
        lemma_find(acc, first.0);
        let at = spec_find(acc, first.0);
        if at < acc.len() {
            assert((acc + entries)[at].0 == first.0);
            assert((acc + entries)[acc.len() as int].0 == first.0);
        }
        assert(spec_insert(acc, first.0, first.1) == acc.push(first));
        assert(acc.push(first) + others =~= acc + entries);
        assert forall|i: int| 0 <= i < others.len() implies entry_fits(#[trigger] others[i]) by {
            assert(others[i] == entries[i + 1]);
        }
        lemma_entries_round_trip(others, tail, acc.push(first));
    }
}

/// A record that was read is well-formed.
pub proof fn lemma_record_read(s: Seq<u8>)
    ensures
        AnnounceRecord::spec_decode(s) matches Ok((_, record)) ==> record.wf(),
{
    if let Ok((after_class, cid)) = ClassID::spec_decode(s) {
        if let Ok((after_count, count)) = spec_u8(after_class) {
            lemma_entries_read(after_count, count as nat, Seq::empty());
        }
    }
}

/// A well-formed record is read back from its bytes, whatever follows them.
pub proof fn lemma_record_round_trip(record: AnnounceRecordView, tail: Seq<u8>)
    requires
        record.wf(),
    ensures
        AnnounceRecord::spec_decode(AnnounceRecord::spec_bytes(record) + tail) == Ok::<
            (Seq<u8>, AnnounceRecordView),
            DecodeError,
        >((tail, record)),
{
    let count = (record.data.len() % 256) as u8;
    let after_count = spec_entries_bytes(record.data) + tail;
    let after_class = seq![count] + after_count;
    assert(AnnounceRecord::spec_bytes(record) + tail =~= record.cid.spec_bytes() + after_class);
    lemma_class_round_trip(record.cid, after_class);
    lemma_u8_round_trip(count, after_count);
    assert(Seq::<Entry>::empty() + record.data =~= record.data);
    lemma_entries_round_trip(record.data, tail, Seq::empty());
}

impl AnnounceRecord {
    /// A record at the front of `s`: a class, one byte that counts the pairs,
    /// then the pairs. A key that comes again replaces the value it had.
    pub open spec fn spec_decode(s: Seq<u8>) -> Parsed<AnnounceRecordView> {
        match ClassID::spec_decode(s) {
            Ok((after_class, cid)) => match spec_u8(after_class) {
                Ok((after_count, count)) => match spec_entries(
                    after_count,
                    count as nat,
                    Seq::empty(),
                ) {
                    Ok((rest, data)) => Ok((rest, AnnounceRecordView { cid, data })),
                    Err(e) => Err(e),
                },
                Err(e) => Err(e),
            },
            Err(e) => Err(e),
        }
    }

    /// The bytes of a record: the class, the low eight bits of the number of
    /// pairs, then the pairs in their order.
    pub open spec fn spec_bytes(record: AnnounceRecordView) -> Seq<u8> {
        record.cid.spec_bytes() + seq![(record.data.len() % 256) as u8] + spec_entries_bytes(
            record.data,
        )
    }

    /// Gives `key` the value `value`: the pair of that key gets the new
    /// value, and where there is none, the new pair is added at the end.
    pub fn insert(&mut self, key: String, value: String)
        ensures
            final(self)@.cid == old(self)@.cid,
            final(self)@.data == spec_insert(old(self)@.data, key@, value@),
    {
        let mut i: usize = 0;
        while i < self.data.len()
            invariant
                i <= self.data.len(),
                *self == *old(self),
                forall|j: int| 0 <= j < i ==> (#[trigger] self@.data[j]).0 != key@,
            decreases self.data.len() - i,
        {
            if self.data[i].0 == key {
                proof {
                    lemma_find(self@.data, key@);
                    assert(self@.data[i as int].0 == key@);
                    assert(spec_find(self@.data, key@) == i);
                }
                self.data[i] = (key, value);
                assert(self@.data =~= old(self)@.data.update(i as int, (key@, value@)));
                return ;
            }
            assert(self@.data[i as int].0 != key@);
            i += 1;
        }
        proof {
            lemma_find(self@.data, key@);
            assert(spec_find(self@.data, key@) == self@.data.len());
        }
        self.data.push((key, value));
        assert(self@.data =~= old(self)@.data.push((key@, value@)));
    }

    /// The value of `key` in this record, if the record has that key.
    pub fn get(&self, key: &str) -> (r: Option<&String>)
        ensures
            match r {
                Some(value) => spec_get(self@.data, key@) == Some(value@),
                None => spec_get(self@.data, key@) is None,
            },
    {
        let wanted: String = key.to_owned();
        let mut i: usize = 0;
        while i < self.data.len()
            invariant
                i <= self.data.len(),
                wanted@ == key@,
                forall|j: int| 0 <= j < i ==> (#[trigger] self@.data[j]).0 != key@,
            decreases self.data.len() - i,
        {
            if self.data[i].0 == wanted {
                proof {
                    lemma_find(self@.data, key@);
                    assert(self@.data[i as int].0 == key@);
                    assert(spec_find(self@.data, key@) == i);
                }
                return Some(&self.data[i].1);
            }
            assert(self@.data[i as int].0 != key@);
            i += 1;
        }
        proof {
            lemma_find(self@.data, key@);
            assert(spec_find(self@.data, key@) == self@.data.len());
        }
        None
    }

    /// Reads a record. The first pair that cannot be read ends the reading,
    /// and nothing is returned but the reason.
    #[verifier::loop_isolation(false)]
    pub fn decode(input: &[u8]) -> (r: Result<(&[u8], AnnounceRecord), DecodeError>)
        ensures
            parsed_view(r) == AnnounceRecord::spec_decode(input@),
    {
        let (after_class, cid) = match ClassID::decode(input) {
            Ok(found) => found,
            Err(e) => { return Err(e); },
        };
        let (after_count, count) = match be_u8(after_class) {
            Ok(found) => found,
            Err(e) => { return Err(e); },
        };
        let mut rest: &[u8] = after_count;
        let mut record = AnnounceRecord { cid, data: Vec::new() };
        assert(record@.data =~= Seq::<Entry>::empty());
        let mut read: u8 = 0;
        while read < count
            invariant
                read <= count,
                record@.cid == cid,
                spec_entries(after_count@, count as nat, Seq::empty()) == spec_entries(
                    rest@,
                    (count - read) as nat,
                    record@.data,
                ),
            decreases count - read,
        {
            let (after_key, key) = match parse_str(rest) {
                Ok(found) => found,
                Err(e) => { return Err(e); },
            };
            let (after_value, value) = match parse_str(after_key) {
                Ok(found) => found,
                Err(e) => { return Err(e); },
            };
            rest = after_value;
            record.insert(key, value);
            read += 1;
        }
        Ok((rest, record))
    }

    /// Appends to `out` the bytes of this record.
    pub fn put(&self, out: &mut Vec<u8>)
        ensures
            final(out)@ == old(out)@ + AnnounceRecord::spec_bytes(self@),
    {
        let class = self.cid.bytes();
        put_bytes(out, class.as_slice());
        out.push((self.data.len() % 256) as u8);
        let ghost head = out@;
        let mut i: usize = 0;
        while i < self.data.len()
            invariant
                i <= self.data.len(),
                head == old(out)@ + self.cid.spec_bytes() + seq![(self@.data.len() % 256) as u8],
                out@ == head + spec_entries_bytes(self@.data.take(i as int)),
            decreases self.data.len() - i,
        {
            proof {
                lemma_entries_bytes_push(self@.data.take(i as int), self@.data[i as int]);
                assert(self@.data.take(i as int).push(self@.data[i as int]) =~= self@.data.take(
                    i + 1,
                ));
            }
            put_field(out, self.data[i].0.as_str().as_bytes());
            put_field(out, self.data[i].1.as_str().as_bytes());
            i += 1;
        }
        proof {
            assert(self@.data.take(self@.data.len() as int) =~= self@.data);
        }
    }

    /// The bytes of this record.
    pub fn bytes(self) -> (r: Vec<u8>)
        ensures
            r@ == AnnounceRecord::spec_bytes(self@),
    {
        let mut r: Vec<u8> = Vec::new();
        self.put(&mut r);
        r
    }
}

/// An announcement: the identity of a node, its address, and its records.
#[derive(Debug, Clone, PartialEq, Eq)]
pub struct AnnounceMessage {
    pub node_id: Vec<u8>,
    pub addr: IpAddress,
    pub records: Vec<AnnounceRecord>,
}

/// What an [`AnnounceMessage`] holds. The address is given by its octets.
pub struct AnnounceMessageView {
    pub node_id: Seq<u8>,
    pub addr: Seq<u8>,
    pub records: Seq<AnnounceRecordView>,
}

/// What some records hold.
pub open spec fn records_view(records: Seq<AnnounceRecord>) -> Seq<AnnounceRecordView> {
    Seq::new(records.len(), |i: int| records[i]@)
}

impl View for AnnounceMessage {
    type V = AnnounceMessageView;

    open spec fn view(&self) -> AnnounceMessageView {
        AnnounceMessageView {
            node_id: self.node_id@,
            addr: self.addr@,
            records: records_view(self.records@),
        }
    }
}

/// `n` records, one after the other, appended to `acc`.
pub open spec fn spec_records(s: Seq<u8>, n: nat, acc: Seq<AnnounceRecordView>) -> Parsed<
    Seq<AnnounceRecordView>,
>
    decreases n,
{
    if n == 0 {
        Ok((s, acc))
    } else {
        match AnnounceRecord::spec_decode(s) {
            Ok((rest, record)) => spec_records(rest, (n - 1) as nat, acc.push(record)),
            Err(e) => Err(e),
        }
    }
}

/// The bytes of some records, one after the other.
pub open spec fn spec_records_bytes(records: Seq<AnnounceRecordView>) -> Seq<u8>
    decreases records.len(),
{
    if records.len() == 0 {
        Seq::empty()
    } else {
        AnnounceRecord::spec_bytes(records.first()) + spec_records_bytes(records.drop_first())
    }
}

/// Writing one more record adds its bytes at the end.
pub proof fn lemma_records_bytes_push(records: Seq<AnnounceRecordView>, record: AnnounceRecordView)
    ensures
        spec_records_bytes(records.push(record)) == spec_records_bytes(records)
            + AnnounceRecord::spec_bytes(record),
    decreases records.len(),
{
    if records.len() == 0 {
        assert(records.push(record).drop_first() =~= Seq::<AnnounceRecordView>::empty());
        assert(spec_records_bytes(Seq::<AnnounceRecordView>::empty()) =~= Seq::<u8>::empty());
        assert(spec_records_bytes(records.push(record)) =~= AnnounceRecord::spec_bytes(record));
    } else {
        lemma_records_bytes_push(records.drop_first(), record);
        assert(records.push(record).drop_first() =~= records.drop_first().push(record));
        assert(spec_records_bytes(records.push(record)) =~= spec_records_bytes(records)
            + AnnounceRecord::spec_bytes(record));
    }
}

impl AnnounceMessageView {
    /// The announcement is one that the wire can carry and that comes back
    /// from it as it is: an identity of at most 255 bytes, an address of 4 or
    /// of 16 octets, and at most 255 records, each well-formed.
    pub open spec fn wf(self) -> bool {
        &&& self.node_id.len() <= 255
        &&& (self.addr.len() == 4 || self.addr.len() == 16)
        &&& self.records.len() <= 255
        &&& forall|i: int| 0 <= i < self.records.len() ==> (#[trigger] self.records[i]).wf()
    }
}

/// Records that were read are well-formed, where those they were added to
/// were, and there are `n` more of them.
pub proof fn lemma_records_read(s: Seq<u8>, n: nat, acc: Seq<AnnounceRecordView>)
    requires
        forall|i: int| 0 <= i < acc.len() ==> (#[trigger] acc[i]).wf(),
    ensures
        spec_records(s, n, acc) matches Ok((_, records)) ==> {
            &&& records.len() == acc.len() + n
            &&& forall|i: int| 0 <= i < records.len() ==> (#[trigger] records[i]).wf()
        },
    decreases n,
{
    if n > 0 {
        if let Ok((rest, record)) = AnnounceRecord::spec_decode(s) {
            lemma_record_read(s);
            lemma_records_read(rest, (n - 1) as nat, acc.push(record));
        }
    }
}

/// Well-formed records are read back from their bytes, whatever follows
/// them.
pub proof fn lemma_records_round_trip(
    records: Seq<AnnounceRecordView>,
    tail: Seq<u8>,
    acc: Seq<AnnounceRecordView>,
)
    requires
        forall|i: int| 0 <= i < records.len() ==> (#[trigger] records[i]).wf(),
    ensures
        spec_records(spec_records_bytes(records) + tail, records.len(), acc) == Ok::<
            (Seq<u8>, Seq<AnnounceRecordView>),
            DecodeError,
        >((tail, acc + records)),
    decreases records.len(),
{
    if records.len() == 0 {
        assert(spec_records_bytes(records) + tail =~= tail);
        assert(acc + records =~= acc);
    } else {
        let first = records.first();
        let others = records.drop_first();
        let after = spec_records_bytes(others) + tail;
        assert(spec_records_bytes(records) + tail =~= AnnounceRecord::spec_bytes(first) + after);
        assert(records[0].wf());
        lemma_record_round_trip(first, after);
        assert forall|i: int| 0 <= i < others.len() implies (#[trigger] others[i]).wf() by {
            assert(others[i] == records[i + 1]);
        }
        lemma_records_round_trip(others, tail, acc.push(first));
        assert(acc.push(first) + others =~= acc + records);
    }
}

/// An announcement that was read is well-formed.
pub proof fn lemma_announce_read(s: Seq<u8>)
    ensures
        AnnounceMessage::spec_decode(s) matches Ok((_, message)) ==> message.wf(),
{
    if let Ok((after_id, node_id)) = spec_field(s) {
        lemma_field_read(s);
        if let Ok((after_addr, addr)) = spec_ip(after_id) {
            if let Ok((after_count, count)) = spec_u8(after_addr) {
                lemma_records_read(after_count, count as nat, Seq::empty());
            }
        }
    }
}

/// A well-formed announcement is read back from its bytes, whatever follows
/// them.
pub proof fn lemma_announce_round_trip(message: AnnounceMessageView, tail: Seq<u8>)
    requires
        message.wf(),
    ensures
        AnnounceMessage::spec_decode(AnnounceMessage::spec_bytes(message) + tail) == Ok::<
            (Seq<u8>, AnnounceMessageView),
            DecodeError,
        >((tail, message)),
{
    let count = (message.records.len() % 256) as u8;
    let after_count = spec_records_bytes(message.records) + tail;
    let after_addr = seq![count] + after_count;
    let after_id = spec_field_bytes(message.addr) + after_addr;
    assert(AnnounceMessage::spec_bytes(message) + tail =~= spec_field_bytes(message.node_id)
        + after_id);
    lemma_field_round_trip(message.node_id, after_id);
    lemma_field_round_trip(message.addr, after_addr);
    lemma_u8_round_trip(count, after_count);
    lemma_records_round_trip(message.records, tail, Seq::empty());
    assert(Seq::<AnnounceRecordView>::empty() + message.records =~= message.records);
}

impl AnnounceMessage {
    /// An announcement at the front of `s`: the field of the node's identity,
    /// the address field, one byte that counts the records, then the records.
    pub open spec fn spec_decode(s: Seq<u8>) -> Parsed<AnnounceMessageView> {
        match spec_field(s) {
            Ok((after_id, node_id)) => match spec_ip(after_id) {
                Ok((after_addr, addr)) => match spec_u8(after_addr) {
                    Ok((after_count, count)) => match spec_records(
                        after_count,
                        count as nat,
                        Seq::empty(),
                    ) {
                        Ok((rest, records)) => Ok(
                            (rest, AnnounceMessageView { node_id, addr, records }),
                        ),
                        Err(e) => Err(e),
                    },
                    Err(e) => Err(e),
                },
                Err(e) => Err(e),
            },
            Err(e) => Err(e),
        }
    }

    /// The bytes of an announcement: the field of the identity, the field of
    /// the address, the low eight bits of the number of records, then the
    /// records in their order.
    pub open spec fn spec_bytes(message: AnnounceMessageView) -> Seq<u8> {
        spec_field_bytes(message.node_id) + spec_field_bytes(message.addr) + seq![
            (message.records.len() % 256) as u8,
        ] + spec_records_bytes(message.records)
    }

    /// Reads an announcement. The first record that cannot be read ends the
    /// reading, and nothing is returned but the reason.
    #[verifier::loop_isolation(false)]
    pub fn decode(input: &[u8]) -> (r: Result<(&[u8], AnnounceMessage), DecodeError>)
        ensures
            parsed_view(r) == AnnounceMessage::spec_decode(input@),
    {
        let (after_id, node_id) = match take_field(input) {
            Ok(found) => found,
            Err(e) => { return Err(e); },
        };
        let (after_addr, addr) = match parse_ip(after_id) {
            Ok(found) => found,
            Err(e) => { return Err(e); },
        };
        let (after_count, count) = match be_u8(after_addr) {
            Ok(found) => found,
            Err(e) => { return Err(e); },
        };
        let mut rest: &[u8] = after_count;
        let mut records: Vec<AnnounceRecord> = Vec::new();
        assert(records_view(records@) =~= Seq::<AnnounceRecordView>::empty());
        let mut read: u8 = 0;
        while read < count
            invariant
                read <= count,
                spec_records(after_count@, count as nat, Seq::empty()) == spec_records(
                    rest@,
                    (count - read) as nat,
                    records_view(records@),
                ),
            decreases count - read,
        {
            let ghost before = records@;
            match AnnounceRecord::decode(rest) {
                Ok((after, record)) => {
                    rest = after;
                    records.push(record);
                    assert(records_view(records@) =~= records_view(before).push(record@));
                },
                Err(e) => { return Err(e); },
            }
            read += 1;
        }
        Ok((rest, AnnounceMessage { node_id: slice_to_vec(node_id), addr, records }))
    }

    /// Appends to `out` the bytes of this announcement.
    pub fn put(&self, out: &mut Vec<u8>)
        ensures
            final(out)@ == old(out)@ + AnnounceMessage::spec_bytes(self@),
    {
        put_field(out, self.node_id.as_slice());
        let octets = self.addr.octets();
        put_field(out, octets.as_slice());
        out.push((self.records.len() % 256) as u8);
        let ghost head = out@;
        let mut i: usize = 0;
        while i < self.records.len()
            invariant
                i <= self.records.len(),
                head == old(out)@ + spec_field_bytes(self@.node_id) + spec_field_bytes(self@.addr)
                    + seq![(self@.records.len() % 256) as u8],
                out@ == head + spec_records_bytes(self@.records.take(i as int)),
            decreases self.records.len() - i,
        {
            proof {
                lemma_records_bytes_push(self@.records.take(i as int), self@.records[i as int]);
                assert(self@.records.take(i as int).push(self@.records[i as int])
                    =~= self@.records.take(i + 1));
            }
            self.records[i].put(out);
            i += 1;
        }
        proof {
            assert(self@.records.take(self@.records.len() as int) =~= self@.records);
        }
    }

    /// The bytes of this announcement.
    pub fn bytes(self) -> (r: Vec<u8>)
        ensures
            r@ == AnnounceMessage::spec_bytes(self@),
    {
        let mut r: Vec<u8> = Vec::new();
        self.put(&mut r);
        r
    }
}

} // verus!
