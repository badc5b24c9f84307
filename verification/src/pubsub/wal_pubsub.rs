//! Framing of the pub/sub write-ahead log, event identifiers, and the
//! tracker of events already seen.
//!
//! An entry is laid out as: LSN (8 bytes, little-endian), timestamp
//! (8 bytes), event type (1 byte), event ID (32 bytes), channel length
//! (4 bytes) and channel (UTF-8), payload length (4 bytes) and payload.

use vstd::prelude::*;
use vstd::utf8::{decode_utf8, encode_utf8, valid_utf8};
use crate::codec::{
    from_le32, from_le64, le32, le64, lemma_le_roundtrips, push_all, push_le32, push_le64,
    read_le32, read_le64, copy_range,
};
use crate::digest::{sha256, sha256_digest};
use crate::pubsub::event_bus::{PubSubEventType, event_type_byte, event_type_of_byte};
use crate::text::string_from_utf8;
use crate::keyorder::bytes_equal;

verus! {

broadcast use vstd::utf8::encode_utf8_valid_utf8, vstd::utf8::encode_utf8_decode_utf8;

/// Entry written to the log for pub/sub.
#[derive(Debug, Clone)]
pub struct WalPubSubEntry {
    /// Channel name for routing
    pub channel: String,
    /// Serialized event payload
    pub payload: Vec<u8>,
    /// Event type for routing
    pub event_type: PubSubEventType,
    /// Unique identifier for idempotency
    pub event_id: [u8; 32],
    /// Timestamp for TTL/decay tracking (epoch millis)
    pub timestamp: i64,
    /// Log Sequence Number
    pub lsn: u64,
}

/// The contents of a log entry.
pub struct WalPubSubEntryView {
    pub channel: Seq<char>,
    pub payload: Seq<u8>,
    pub event_type: PubSubEventType,
    pub event_id: Seq<u8>,
    pub timestamp: i64,
    pub lsn: u64,
}

impl View for WalPubSubEntry {
    type V = WalPubSubEntryView;

    open spec fn view(&self) -> WalPubSubEntryView {
        WalPubSubEntryView {
            channel: self.channel@,
            payload: self.payload@,
            event_type: self.event_type,
            event_id: self.event_id@,
            timestamp: self.timestamp,
            lsn: self.lsn,
        }
    }
}

/// Number of bytes before an entry's channel.
pub const ENTRY_HEADER_LEN: usize = 53;

/// The bytes of an entry written at position `lsn`.
pub open spec fn entry_bytes(e: WalPubSubEntryView, lsn: u64) -> Seq<u8> {
    let cb = encode_utf8(e.channel);
    le64(lsn) + le64(e.timestamp as u64) + seq![event_type_byte(e.event_type)] + e.event_id + le32(
        cb.len() as u32,
    ) + cb + le32(e.payload.len() as u32) + e.payload
}

/// What reading a log buffer gives: the entries read, or the reason the
/// buffer is rejected.
pub enum WalParse {
    /// The entries, in log order.
    Entries(Seq<WalPubSubEntryView>),
    /// An entry has an unknown event type or a channel that is not UTF-8.
    Invalid,
    /// An entry's channel or payload runs past the end of the buffer.
    Truncated,
}

/// `es` followed by what `p` reads.
pub open spec fn wal_prepend(es: Seq<WalPubSubEntryView>, p: WalParse) -> WalParse {
    match p {
        WalParse::Entries(rest) => WalParse::Entries(es + rest),
        other => other,
    }
}

/// Reads the entries of `b` whose LSN is at least `start`. Reading stops
/// before the first entry with a smaller LSN and when fewer than a header's
/// bytes are left.
pub open spec fn parse_wal(b: Seq<u8>, start: u64) -> WalParse
    decreases b.len(),
{
    if b.len() < 53 {
        WalParse::Entries(Seq::empty())
    } else {
        let lsn = from_le64(b.subrange(0, 8));
        if lsn < start {
            WalParse::Entries(Seq::empty())
        } else {
            match event_type_of_byte(b[16]) {
                None => WalParse::Invalid,
                Some(et) => {
                    let clen = from_le32(b.subrange(49, 53)) as int;
                    if 53 + clen > b.len() {
                        WalParse::Truncated
                    } else if !valid_utf8(b.subrange(53, 53 + clen)) {
                        WalParse::Invalid
                    } else if 57 + clen > b.len() {
                        WalParse::Truncated
                    } else {
                        let plen = from_le32(b.subrange(53 + clen, 57 + clen)) as int;
                        if 57 + clen + plen > b.len() {
                            WalParse::Truncated
                        } else {
                            let e = WalPubSubEntryView {
                                channel: decode_utf8(b.subrange(53, 53 + clen)),
                                payload: b.subrange(57 + clen, 57 + clen + plen),
                                event_type: et,
                                event_id: b.subrange(17, 49),
                                timestamp: from_le64(b.subrange(8, 16)) as i64,
                                lsn,
                            };
                            wal_prepend(seq![e], parse_wal(b.skip(57 + clen + plen), start))
                        }
                    }
                }
            }
        }
    }
}

/// Serializes `entry` as written at position `lsn` (the entry's own LSN
/// field is not written). Lengths are written as their low 32 bits.
pub fn serialize_entry(entry: &WalPubSubEntry, lsn: u64) -> (r: Vec<u8>)
    ensures
        r@ == entry_bytes(entry@, lsn),
{
    let mut data: Vec<u8> = Vec::new();
    push_le64(&mut data, lsn);
    push_le64(&mut data, entry.timestamp as u64);
    data.push(entry.event_type.to_u8());
    push_all(&mut data, entry.event_id.as_slice());
    let cb = entry.channel.as_str().as_bytes();
    push_le32(&mut data, cb.len() as u32);
    push_all(&mut data, cb);
    push_le32(&mut data, entry.payload.len() as u32);
    push_all(&mut data, entry.payload.as_slice());
    proof {
        let e = entry@;
        let ce = encode_utf8(e.channel);
        assert(data@ =~= entry_bytes(e, lsn));
    }
    data
}

/// An entry as read back from position `lsn`.
pub open spec fn at_lsn(e: WalPubSubEntryView, lsn: u64) -> WalPubSubEntryView {
    WalPubSubEntryView {
        channel: e.channel,
        payload: e.payload,
        event_type: e.event_type,
        event_id: e.event_id,
        timestamp: e.timestamp,
        lsn,
    }
}

/// Reading back what was written: an entry serialized at position `lsn`
/// and followed by `rest` reads as that entry, with `lsn` as its LSN,
/// followed by what `rest` reads, when `lsn` is at least `start`; when it
/// is smaller, reading stops there.
pub proof fn lemma_read_after_write(e: WalPubSubEntryView, lsn: u64, start: u64, rest: Seq<u8>)
    requires
        e.event_id.len() == 32,
        encode_utf8(e.channel).len() <= u32::MAX,
        e.payload.len() <= u32::MAX,
    ensures
        parse_wal(entry_bytes(e, lsn) + rest, start) == if lsn >= start {
            wal_prepend(seq![at_lsn(e, lsn)], parse_wal(rest, start))
        } else {
            WalParse::Entries(Seq::empty())
        },
{
    let cb = encode_utf8(e.channel);
    let clen = cb.len() as int;
    let plen = e.payload.len() as int;
    let ts = e.timestamp;
    let tsu = ts as u64;
    lemma_le_roundtrips(lsn, clen as u32, 0);
    lemma_le_roundtrips(tsu, plen as u32, 0);
    crate::pubsub::event_bus::lemma_event_type_byte_roundtrip(e.event_type, 0);
    let b = entry_bytes(e, lsn) + rest;
    let h1 = le64(lsn);
    let h2 = le64(tsu);
    let h3 = seq![event_type_byte(e.event_type)];
    let h4 = e.event_id;
    let h5 = le32(clen as u32);
    let h7 = le32(plen as u32);
    assert(b =~= h1 + h2 + h3 + h4 + h5 + cb + h7 + e.payload + rest);
    assert(b.subrange(0, 8) =~= h1);
    assert(b.subrange(8, 16) =~= h2);
    assert(b[16] == event_type_byte(e.event_type));
    assert(b.subrange(17, 49) =~= h4);
    assert(b.subrange(49, 53) =~= h5);
    assert(b.subrange(53, 53 + clen) =~= cb);
    assert(b.subrange(53 + clen, 57 + clen) =~= h7);
    assert(b.subrange(57 + clen, 57 + clen + plen) =~= e.payload);
    assert(b.skip(57 + clen + plen) =~= rest);
    assert((tsu as i64) == ts) by (bit_vector)
        requires
            tsu == ts as u64,
    ;
}

/// The outcome of reading a log buffer.
pub enum WalScan {
    /// The entries, in log order.
    Entries(Vec<WalPubSubEntry>),
    /// An entry has an unknown event type or a channel that is not UTF-8.
    Invalid,
    /// An entry's channel or payload runs past the end of the buffer.
    Truncated,
}

/// The contents of each entry.
pub open spec fn entry_views(v: Seq<WalPubSubEntry>) -> Seq<WalPubSubEntryView> {
    v.map_values(|x: WalPubSubEntry| x@)
}

proof fn lemma_prepend_push(es: Seq<WalPubSubEntryView>, e: WalPubSubEntryView, p: WalParse)
    ensures
        wal_prepend(es.push(e), p) == wal_prepend(es, wal_prepend(seq![e], p)),
{
    if let WalParse::Entries(rest) = p {
        assert(es.push(e) + rest =~= es + (seq![e] + rest));
    }
}

proof fn lemma_prepend_empty(es: Seq<WalPubSubEntryView>)
    ensures
        wal_prepend(es, WalParse::Entries(Seq::empty())) == WalParse::Entries(es),
{
    assert(es + Seq::<WalPubSubEntryView>::empty() =~= es);
}

/// Reads the entries of `buffer` whose LSN is at least `start_lsn`,
/// or says why the buffer is rejected.
pub fn scan_entries(buffer: &[u8], start_lsn: u64) -> (r: WalScan)
    ensures
        match parse_wal(buffer@, start_lsn) {
            WalParse::Entries(es) => r matches WalScan::Entries(v) && entry_views(v@) == es,
            WalParse::Invalid => r is Invalid,
            WalParse::Truncated => r is Truncated,
        },
{
    let n = buffer.len();
    let mut entries: Vec<WalPubSubEntry> = Vec::new();
    let mut offset: usize = 0;
    proof {
        assert(buffer@.skip(0) =~= buffer@);
        assert(Seq::<WalPubSubEntryView>::empty() + Seq::<WalPubSubEntryView>::empty() =~= Seq::<
            WalPubSubEntryView,
        >::empty());
        let p = parse_wal(buffer@, start_lsn);
        if let WalParse::Entries(rest) = p {
            assert(Seq::<WalPubSubEntryView>::empty() + rest =~= rest);
        }
        assert(entry_views(entries@) =~= Seq::<WalPubSubEntryView>::empty());
    }
    while n - offset >= 53
        invariant
            n == buffer@.len(),
            offset <= n,
            wal_prepend(entry_views(entries@), parse_wal(buffer@.skip(offset as int), start_lsn))
                == parse_wal(buffer@, start_lsn),
        decreases n - offset,
    {
        let ghost t = buffer@.skip(offset as int);
        let ghost es = entry_views(entries@);
        assert(t.subrange(0, 8) =~= buffer@.subrange(offset as int, offset + 8));
        let lsn = read_le64(buffer, offset);
        if lsn < start_lsn {
            proof { lemma_prepend_empty(es); }
            return WalScan::Entries(entries);
        }
        assert(t.subrange(8, 16) =~= buffer@.subrange(offset + 8, offset + 16));
        let timestamp = read_le64(buffer, offset + 8) as i64;
        let event_type = match PubSubEventType::from_u8(buffer[offset + 16]) {
            Some(et) => et,
            None => {
                return WalScan::Invalid;
            },
        };
        assert(t.subrange(17, 49) =~= buffer@.subrange(offset + 17, offset + 49));
        let mut event_id = [0u8; 32];
        let mut k: usize = 0;
        while k < 32
            invariant
                n == buffer@.len(),
                offset + 53 <= n,
                k <= 32,
                forall|j: int| 0 <= j < k ==> event_id@[j] == buffer@[offset + 17 + j],
            decreases 32 - k,
        {
            event_id[k] = buffer[offset + 17 + k];
            k = k + 1;
        }
        assert(event_id@ =~= t.subrange(17, 49));
        assert(t.subrange(49, 53) =~= buffer@.subrange(offset + 49, offset + 53));
        let clen = read_le32(buffer, offset + 49) as usize;
        let cstart = offset + 53;
        if clen > n - cstart {
            return WalScan::Truncated;
        }
        assert(t.subrange(53, 53 + clen) =~= buffer@.subrange(cstart as int, cstart + clen));
        let channel = match string_from_utf8(copy_range(buffer, cstart, clen)) {
            Ok(s) => s,
            Err(_) => {
                return WalScan::Invalid;
            },
        };
        let pstart = cstart + clen;
        if n - pstart < 4 {
            return WalScan::Truncated;
        }
        assert(t.subrange(53 + clen, 57 + clen) =~= buffer@.subrange(pstart as int, pstart + 4));
        let plen = read_le32(buffer, pstart) as usize;
        let body = pstart + 4;
        if plen > n - body {
            return WalScan::Truncated;
        }
        assert(t.subrange(57 + clen, 57 + clen + plen) =~= buffer@.subrange(
            body as int,
            body + plen,
        ));
        let payload = copy_range(buffer, body, plen);
        let entry = WalPubSubEntry { channel, payload, event_type, event_id, timestamp, lsn };
        let ghost e = entry@;
        proof {
            assert(t.skip(57 + clen + plen) =~= buffer@.skip(body + plen));
            assert(parse_wal(t, start_lsn) == wal_prepend(
                seq![e],
                parse_wal(buffer@.skip(body + plen), start_lsn),
            ));
            lemma_prepend_push(es, e, parse_wal(buffer@.skip(body + plen), start_lsn));
        }
        entries.push(entry);
        assert(entry_views(entries@) =~= es.push(e));
        offset = body + plen;
    }
    proof {
        let es = entry_views(entries@);
        if n - offset < 53 {
            assert(parse_wal(buffer@.skip(offset as int), start_lsn) == WalParse::Entries(
                Seq::<WalPubSubEntryView>::empty(),
            ));
        }
        lemma_prepend_empty(es);
    }
    WalScan::Entries(entries)
}

/// Reads the entries of `buffer` whose LSN is at least `start_lsn`;
/// `None` when an entry has an unknown event type or a channel that is
/// not UTF-8.
pub fn parse_entries(buffer: &[u8], start_lsn: u64) -> (r: Option<Vec<WalPubSubEntry>>)
    requires
        !(parse_wal(buffer@, start_lsn) is Truncated),
    ensures
        match parse_wal(buffer@, start_lsn) {
            WalParse::Entries(es) => r matches Some(v) && entry_views(v@) == es,
            _ => r is None,
        },
{
    match scan_entries(buffer, start_lsn) {
        WalScan::Entries(v) => Some(v),
        _ => None,
    }
}

/// The IDs seen after marking `id`: when `max_size` or more are tracked,
/// the `max_size / 2` seen first are dropped; then `id` is added unless
/// already there.
pub open spec fn after_mark(seen: Seq<Seq<u8>>, max_size: usize, id: Seq<u8>) -> Seq<Seq<u8>> {
    let kept = if seen.len() >= max_size {
        seen.skip((max_size / 2) as int)
    } else {
        seen
    };
    if kept.contains(id) {
        kept
    } else {
        kept.push(id)
    }
}

/// Tracker of the event IDs already seen, for deduplication.
pub struct IdempotencyTracker {
    seen: Vec<[u8; 32]>,
    max_size: usize,
}

impl IdempotencyTracker {
    #[verifier::type_invariant]
    closed spec fn ids_distinct(self) -> bool {
        self.seen().no_duplicates()
    }

    /// The tracked IDs, in the order they were first seen.
    pub closed spec fn seen(self) -> Seq<Seq<u8>> {
        self.seen@.map_values(|a: [u8; 32]| a@)
    }

    /// The number of IDs at which marking another evicts half of them.
    pub closed spec fn max_size(self) -> usize {
        self.max_size
    }

    /// A tracker with nothing seen.
    pub fn new(max_size: usize) -> (r: Self)
        ensures
            r.seen() == Seq::<Seq<u8>>::empty(),
            r.max_size() == max_size,
    {
        let r = IdempotencyTracker { seen: Vec::new(), max_size };
        assert(r.seen() =~= Seq::<Seq<u8>>::empty());
        r
    }

    fn position(&self, event_id: &[u8; 32]) -> (r: Option<usize>)
        ensures
            match r {
                Some(i) => i < self.seen().len() && self.seen()[i as int] == event_id@,
                None => !self.seen().contains(event_id@),
            },
    {
        let mut i: usize = 0;
        while i < self.seen.len()
            invariant
                i <= self.seen@.len(),
                forall|j: int| 0 <= j < i ==> self.seen()[j] != event_id@,
            decreases self.seen@.len() - i,
        {
            if bytes_equal(self.seen[i].as_slice(), event_id.as_slice()) {
                return Some(i);
            }
            i = i + 1;
        }
        None
    }

    /// Whether the event ID has been seen.
    pub fn is_duplicate(&self, event_id: [u8; 32]) -> (r: bool)
        ensures
            r == self.seen().contains(event_id@),
    {
        self.position(&event_id).is_some()
    }

    /// Marks an event ID as seen, first evicting the older half of the
    /// IDs when the tracker is full.
    pub fn mark_seen(&mut self, event_id: [u8; 32])
        ensures
            final(self).seen() == after_mark(old(self).seen(), old(self).max_size(), event_id@),
            final(self).max_size() == old(self).max_size(),
    {
        proof { use_type_invariant(&*self); }
        if self.seen.len() >= self.max_size {
            let skip = self.max_size / 2;
            let mut kept: Vec<[u8; 32]> = Vec::new();
            let mut i: usize = skip;
            while i < self.seen.len()
                invariant
                    skip <= i <= self.seen@.len(),
                    kept@.map_values(|a: [u8; 32]| a@) == self.seen().subrange(skip as int, i as int),
                decreases self.seen@.len() - i,
            {
                let ghost before = kept@;
                kept.push(self.seen[i]);
                assert(kept@.map_values(|a: [u8; 32]| a@) =~= before.map_values(|a: [u8; 32]| a@).push(self.seen()[i as int]));
                assert(self.seen().subrange(skip as int, i + 1) =~= self.seen().subrange(skip as int, i as int).push(self.seen()[i as int]));
                i = i + 1;
            }
            proof {
                assert(self.seen().subrange(skip as int, i as int) =~= self.seen().skip(skip as int));
                let old_seen = self.seen();
                let new_seen = old_seen.skip(skip as int);
                assert forall|a: int, b: int| 0 <= a < b < new_seen.len() implies new_seen[a] != new_seen[b] by {
                    assert(new_seen[a] == old_seen[a + skip]);
                    assert(new_seen[b] == old_seen[b + skip]);
                }
            }
            self.seen = kept;
        }
        match self.position(&event_id) {
            Some(_) => {},
            None => {
                let ghost before = self.seen@;
                let mut seen = Vec::new();
                std::mem::swap(&mut seen, &mut self.seen);
                seen.push(event_id);
                proof {
                    assert(seen@.map_values(|a: [u8; 32]| a@) =~= before.map_values(|a: [u8; 32]| a@).push(event_id@));
                }
                self.seen = seen;
            },
        }
    }

    /// The number of tracked event IDs.
    pub fn len(&self) -> (r: usize)
        ensures
            r == self.seen().len(),
    {
        self.seen.len()
    }
}

impl Default for IdempotencyTracker {
    /// A tracker that evicts when ten thousand IDs are tracked.
    fn default() -> (r: Self)
        ensures
            r.seen() == Seq::<Seq<u8>>::empty(),
            r.max_size() == 10000,
    {
        Self::new(10000)
    }
}

/// A marked ID is then seen.
pub proof fn lemma_marked_is_seen(seen: Seq<Seq<u8>>, max_size: usize, id: Seq<u8>)
    ensures
        after_mark(seen, max_size, id).contains(id),
{
    let kept = if seen.len() >= max_size {
        seen.skip((max_size / 2) as int)
    } else {
        seen
    };
    if !kept.contains(id) {
        assert(kept.push(id)[kept.len() as int] == id);
    }
}

/// With room for at least two IDs, a tracker that holds at most
/// `max_size` IDs still does after marking one.
pub proof fn lemma_mark_keeps_bound(seen: Seq<Seq<u8>>, max_size: usize, id: Seq<u8>)
    requires
        max_size >= 2,
        seen.len() <= max_size,
    ensures
        after_mark(seen, max_size, id).len() <= max_size,
{
}

/// The event ID of `payload` published at `millis` milliseconds after the
/// Unix epoch: the SHA-256 digest of the payload followed by the
/// little-endian bytes of the time.
pub fn event_id_at(payload: &[u8], millis: i64) -> (r: [u8; 32])
    ensures
        r@ == sha256(payload@ + le64(millis as u64)),
{
    let mut data: Vec<u8> = Vec::new();
    push_all(&mut data, payload);
    push_le64(&mut data, millis as u64);
    sha256_digest(data.as_slice())
}

} // verus!
