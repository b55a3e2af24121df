//! Firmware of several processors, in order of their names, and the form in
//! which it is kept between runs.

use vstd::prelude::*;
use vstd::utf8::*;
use crate::bytes;
use crate::compiler::cache;
use crate::compiler::cache::{CacheReader, Part};
use crate::compiler::elf;
use crate::compiler::elf::{Load, PTLoad};
use crate::compiler::{CompiledFirmware, Firmware};
use crate::error;
use crate::error::{Error, ErrorKind};
use crate::text;

verus! {

/// Whether one list of bytes comes before another in the order of dictionaries.
pub open spec fn bytes_before(a: Seq<u8>, b: Seq<u8>) -> bool
    decreases a.len(),
{
    if b.len() == 0 {
        false
    } else if a.len() == 0 {
        true
    } else if a[0] != b[0] {
        a[0] < b[0]
    } else {
        bytes_before(a.skip(1), b.skip(1))
    }
}

/// Whether one name comes before another.
pub open spec fn name_before(a: Seq<char>, b: Seq<char>) -> bool {
    bytes_before(encode_utf8(a), encode_utf8(b))
}

proof fn lemma_bytes_before(a: Seq<u8>, b: Seq<u8>, c: Seq<u8>)
    ensures
        !bytes_before(a, a),
        bytes_before(a, b) || bytes_before(b, a) || a == b,
        bytes_before(a, b) && bytes_before(b, c) ==> bytes_before(a, c),
    decreases a.len() + b.len() + c.len(),
{
    if a.len() > 0 && b.len() > 0 && c.len() > 0 {
        lemma_bytes_before(a.skip(1), b.skip(1), c.skip(1));
        if a[0] == b[0] && a.skip(1) == b.skip(1) {
            assert(a =~= seq![a[0]] + a.skip(1));
            assert(b =~= seq![b[0]] + b.skip(1));
        }
    } else if a.len() > 0 && b.len() > 0 {
        lemma_bytes_before(a.skip(1), b.skip(1), c);
        if a[0] == b[0] && a.skip(1) == b.skip(1) {
            assert(a =~= seq![a[0]] + a.skip(1));
            assert(b =~= seq![b[0]] + b.skip(1));
        }
    } else if a.len() == 0 && b.len() == 0 {
        assert(a =~= b);
    }
    if a.len() > 0 && (b.len() == 0 || c.len() == 0) {
        if b.len() == 0 {
            lemma_bytes_before(a.skip(1), b, c);
        }
    }
}

proof fn lemma_name_before(a: Seq<char>, b: Seq<char>, c: Seq<char>)
    ensures
        !name_before(a, a),
        name_before(a, b) || name_before(b, a) || a == b,
        name_before(a, b) && name_before(b, c) ==> name_before(a, c),
{
    lemma_bytes_before(encode_utf8(a), encode_utf8(b), encode_utf8(c));
    encode_utf8_decode_utf8(a);
    encode_utf8_decode_utf8(b);
}

fn is_before(a: &str, b: &str) -> (r: bool)
    ensures
        r == name_before(a@, b@),
{
    let x = a.as_bytes();
    let y = b.as_bytes();
    let n: usize = x.len();
    let m: usize = y.len();
    let mut i: usize = 0;
    assert(x@.skip(0) =~= x@);
    assert(y@.skip(0) =~= y@);
    while i < n && i < m && x[i] == y[i]
        invariant
            i <= n,
            i <= m,
            n == x@.len(),
            m == y@.len(),
            bytes_before(x@, y@) == bytes_before(x@.skip(i as int), y@.skip(i as int)),
        decreases n - i,
    {
        proof {
            assert(x@.skip(i as int).skip(1) =~= x@.skip(i + 1));
            assert(y@.skip(i as int).skip(1) =~= y@.skip(i + 1));
        }
        i = i + 1;
    }
    if i >= m {
        false
    } else if i >= n {
        true
    } else {
        x[i] < y[i]
    }
}

/// The firmware of one processor, under its name.
#[derive(Clone, Debug, PartialEq, Eq)]
pub struct FirmwareEntry {
    pub target: String,
    pub firmware: CompiledFirmware,
}

/// What a contract says of an entry.
pub type Entry = (Seq<char>, Firmware);

pub open spec fn entries_view(entries: Seq<FirmwareEntry>) -> Seq<Entry> {
    entries.map_values(|e: FirmwareEntry| (e.target@, e.firmware@))
}

/// The firmware of several processors, each named once.
#[derive(Clone, Debug, PartialEq, Eq)]
pub struct FirmwareSet {
    pub entries: Vec<FirmwareEntry>,
}

impl View for FirmwareSet {
    type V = Seq<Entry>;

    open spec fn view(&self) -> Seq<Entry> {
        entries_view(self.entries@)
    }
}

/// Whether entries are in order of their names, each name once.
pub open spec fn in_order(s: Seq<Entry>) -> bool {
    forall|i: int, j: int| 0 <= i < j < s.len() ==> name_before(s[i].0, s[j].0)
}

/// A set with one more entry, which takes the place of one of the same name.
pub open spec fn stored(s: Seq<Entry>, name: Seq<char>, f: Firmware) -> Seq<Entry>
    decreases s.len(),
{
    if s.len() == 0 || name_before(s.last().0, name) {
        s.push((name, f))
    } else if s.last().0 == name {
        s.drop_last().push((name, f))
    } else {
        stored(s.drop_last(), name, f).push(s.last())
    }
}

/// Storing an entry keeps the order.
proof fn lemma_stored(s: Seq<Entry>, name: Seq<char>, f: Firmware)
    requires
        in_order(s),
    ensures
        in_order(stored(s, name, f)),
        forall|i: int|
            0 <= i < stored(s, name, f).len() ==> (#[trigger] stored(s, name, f)[i]).0 == name
                || exists|j: int| 0 <= j < s.len() && #[trigger] s[j] == stored(s, name, f)[i],
    decreases s.len(),
{
    let r = stored(s, name, f);
    if s.len() == 0 {
    } else {
        let last = s.last();
        lemma_name_before(last.0, name, name);
        let front = s.drop_last();
        if name_before(last.0, name) {
            assert forall|i: int, j: int| 0 <= i < j < r.len() implies name_before(
                r[i].0,
                r[j].0,
            ) by {
                if j == r.len() - 1 && i < s.len() - 1 {
                    assert(name_before(s[i].0, s[s.len() - 1].0));
                    lemma_name_before(s[i].0, last.0, name);
                }
            }
            assert forall|i: int| 0 <= i < r.len() implies (#[trigger] r[i]).0 == name || exists|
                j: int,
            |
                0 <= j < s.len() && #[trigger] s[j] == r[i] by {
                if i < s.len() {
                    assert(s[i] == r[i]);
                }
            }
        } else if last.0 == name {
            assert forall|i: int| 0 <= i < r.len() implies (#[trigger] r[i]).0 == name || exists|
                j: int,
            |
                0 <= j < s.len() && #[trigger] s[j] == r[i] by {
                if i < s.len() - 1 {
                    assert(s[i] == r[i]);
                }
            }
        } else {
            lemma_stored(front, name, f);
            let inner = stored(front, name, f);
            assert forall|i: int, j: int| 0 <= i < j < r.len() implies name_before(
                r[i].0,
                r[j].0,
            ) by {
                if j == r.len() - 1 {
                    assert(r[i] == inner[i]);
                    if inner[i].0 != name {
                        let b = choose|b: int| 0 <= b < front.len() && #[trigger] front[b] == inner[i];
                        assert(front[b] == s[b]);
                        assert(name_before(s[b].0, s[s.len() - 1].0));
                    }
                }
            }
            assert forall|i: int| 0 <= i < r.len() implies (#[trigger] r[i]).0 == name || exists|
                j: int,
            |
                0 <= j < s.len() && #[trigger] s[j] == r[i] by {
                if i < inner.len() {
                    assert(r[i] == inner[i]);
                    if inner[i].0 != name {
                        let b = choose|b: int| 0 <= b < front.len() && #[trigger] front[b] == inner[i];
                        assert(s[b] == r[i]);
                    }
                } else {
                    assert(s[s.len() - 1] == r[i]);
                }
            }
        }
    }
}

/// The firmware of a name.
pub open spec fn found(s: Seq<Entry>, name: Seq<char>) -> Option<Firmware>
    decreases s.len(),
{
    if s.len() == 0 {
        None
    } else if s.last().0 == name {
        Some(s.last().1)
    } else {
        found(s.drop_last(), name)
    }
}

/// What was stored under a name is found under it, and the other names keep theirs.
pub proof fn lemma_found_stored(s: Seq<Entry>, name: Seq<char>, f: Firmware, other: Seq<char>)
    requires
        in_order(s),
    ensures
        found(stored(s, name, f), other) == if other == name {
            Some(f)
        } else {
            found(s, other)
        },
    decreases s.len(),
{
    if s.len() > 0 {
        let last = s.last();
        let front = s.drop_last();
        lemma_name_before(last.0, name, name);
        if name_before(last.0, name) {
            assert(s.push((name, f)).drop_last() =~= s);
        } else if last.0 == name {
            assert(front.push((name, f)).drop_last() =~= front);
        } else {
            lemma_found_stored(front, name, f, other);
            assert(stored(front, name, f).push(last).drop_last() =~= stored(front, name, f));
        }
    } else {
        assert(s.push((name, f)).drop_last() =~= s);
    }
}

/// What is found under a name is an entry of that name.
proof fn lemma_found_entry(s: Seq<Entry>, name: Seq<char>) -> (i: int)
    requires
        found(s, name) is Some,
    ensures
        0 <= i < s.len(),
        s[i].0 == name,
        found(s, name) == Some(s[i].1),
    decreases s.len(),
{
    if s.last().0 == name {
        s.len() - 1
    } else {
        lemma_found_entry(s.drop_last(), name)
    }
}

/// The name of the last entry is found nowhere before it, and no name behind it.
proof fn lemma_last_name(s: Seq<Entry>, name: Seq<char>)
    requires
        in_order(s),
        s.len() > 0,
    ensures
        found(s.drop_last(), s.last().0) is None,
        found(s, name) is Some ==> !name_before(s.last().0, name),
{
    let last = s.last().0;
    let front = s.drop_last();
    if found(front, last) is Some {
        let i = lemma_found_entry(front, last);
        assert(name_before(s[i].0, s[s.len() - 1].0));
        lemma_name_before(last, last, last);
    }
    if found(s, name) is Some && name_before(last, name) {
        let i = lemma_found_entry(s, name);
        if i < s.len() - 1 {
            assert(name_before(s[i].0, s[s.len() - 1].0));
        }
        lemma_name_before(last, name, last);
    }
}

/// Sets in which the same firmware is found under each name are the same list, and are
/// kept as the same bytes.
pub proof fn lemma_set_unique(a: Seq<Entry>, b: Seq<Entry>)
    requires
        in_order(a),
        in_order(b),
        forall|name: Seq<char>| #[trigger] found(a, name) == found(b, name),
    ensures
        a == b,
        firmware_bytes(a) == firmware_bytes(b),
    decreases a.len(),
{
    if a.len() == 0 {
        if b.len() > 0 {
            assert(found(a, b.last().0) == found(b, b.last().0));
        }
        assert(a =~= b);
    } else if b.len() == 0 {
        assert(found(a, a.last().0) == found(b, a.last().0));
    } else {
        let (la, lb) = (a.last(), b.last());
        let (fa, fb) = (a.drop_last(), b.drop_last());
        assert(found(a, la.0) == found(b, la.0));
        assert(found(a, lb.0) == found(b, lb.0));
        lemma_last_name(a, lb.0);
        lemma_last_name(b, la.0);
        lemma_name_before(la.0, lb.0, lb.0);
        assert(la == lb);
        assert forall|name: Seq<char>| #[trigger] found(fa, name) == found(fb, name) by {
            assert(found(a, name) == found(b, name));
        }
        lemma_set_unique(fa, fb);
        assert(a =~= fa.push(la));
        assert(b =~= fb.push(lb));
    }
}

/// The order in which firmware of different names is stored does not matter.
pub proof fn lemma_order_of_storing(
    s: Seq<Entry>,
    name: Seq<char>,
    f: Firmware,
    other: Seq<char>,
    g: Firmware,
)
    requires
        in_order(s),
        name != other,
    ensures
        stored(stored(s, name, f), other, g) == stored(stored(s, other, g), name, f),
{
    let (s1, s2) = (stored(s, name, f), stored(s, other, g));
    let (a, b) = (stored(s1, other, g), stored(s2, name, f));
    lemma_stored(s, name, f);
    lemma_stored(s, other, g);
    lemma_stored(s1, other, g);
    lemma_stored(s2, name, f);
    assert forall|n: Seq<char>| #[trigger] found(a, n) == found(b, n) by {
        lemma_found_stored(s, name, f, n);
        lemma_found_stored(s, other, g, n);
        lemma_found_stored(s1, other, g, n);
        lemma_found_stored(s2, name, f, n);
    }
    lemma_set_unique(a, b);
}

impl FirmwareSet {
    pub open spec fn wf(&self) -> bool {
        in_order(self@)
    }

    pub fn new() -> (r: FirmwareSet)
        ensures
            r@ == Seq::<Entry>::empty(),
            r.wf(),
    {
        let r = FirmwareSet { entries: Vec::new() };
        assert(r@ =~= Seq::<Entry>::empty());
        r
    }

    /// Stores the firmware of a processor.
    pub fn insert(&mut self, target: String, firmware: CompiledFirmware)
        requires
            old(self).wf(),
        ensures
            final(self)@ == stored(old(self)@, target@, firmware@),
            final(self).wf(),
    {
        let ghost all = self@;
        let ghost name = target@;
        let ghost value = firmware@;
        proof {
            lemma_stored(all, name, value);
        }
        let mut at: usize = self.entries.len();
        assert(all.take(at as int) =~= all);
        assert(stored(all, name, value) =~= stored(all.take(at as int), name, value) + all.skip(
            at as int,
        ));
        while at > 0 && !is_before(self.entries[at - 1].target.as_str(), target.as_str())
            && !text::same_text(self.entries[at - 1].target.as_str(), target.as_str())
            invariant
                at <= self.entries@.len(),
                all == self@,
                *self == *old(self),
                name == target@,
                value == firmware@,
                stored(all, name, value) == stored(all.take(at as int), name, value) + all.skip(
                    at as int,
                ),
            decreases at,
        {
            proof {
                let front = all.take(at as int);
                assert(front.last() == all[at - 1]);
                assert(front.drop_last() =~= all.take(at - 1));
                let rest = stored(all.take(at - 1), name, value);
                assert(rest.push(all[at - 1]) + all.skip(at as int) =~= rest + all.skip(at - 1));
            }
            at = at - 1;
        }
        let ghost front = all.take(at as int);
        let ghost behind = all.skip(at as int);
        if at > 0 && text::same_text(self.entries[at - 1].target.as_str(), target.as_str()) {
            proof {
                assert(front.last() == all[at - 1]);
                lemma_name_before(name, name, name);
            }
            self.entries.set(at - 1, FirmwareEntry { target, firmware });
            assert(self@ =~= front.drop_last().push((name, value)) + behind);
        } else {
            proof {
                if at > 0 {
                    assert(front.last() == all[at - 1]);
                }
            }
            self.entries.insert(at, FirmwareEntry { target, firmware });
            assert(self@ =~= front.push((name, value)) + behind);
        }
    }

    /// Finds the firmware of a processor.
    pub fn get(&self, target: &str) -> (r: Option<&CompiledFirmware>)
        ensures
            match r {
                Some(f) => found(self@, target@) == Some(f@),
                None => found(self@, target@) is None,
            },
    {
        let ghost all = self@;
        let mut at: usize = self.entries.len();
        assert(all.take(at as int) =~= all);
        while at > 0
            invariant
                at <= self.entries@.len(),
                all == self@,
                found(all, target@) == found(all.take(at as int), target@),
            decreases at,
        {
            proof {
                assert(all.take(at as int).last() == all[at - 1]);
                assert(all.take(at as int).drop_last() =~= all.take(at - 1));
            }
            if text::same_text(self.entries[at - 1].target.as_str(), target) {
                return Some(&self.entries[at - 1].firmware);
            }
            at = at - 1;
        }
        None
    }
}

/// The bytes of a segment.
pub open spec fn segment_bytes(l: Load) -> Seq<u8> {
    bytes::le4(l.paddr as int) + bytes::le4(l.memsz as int) + bytes::le4(l.flags as int)
        + cache::sized(l.data)
}

/// The bytes of the first `n` segments.
pub open spec fn segments_bytes(s: Seq<Load>, n: int) -> Seq<u8>
    decreases n,
{
    if n <= 0 {
        Seq::empty()
    } else {
        segments_bytes(s, n - 1) + segment_bytes(s[n - 1])
    }
}

/// The bytes of an entry.
pub open spec fn entry_bytes(e: Entry) -> Seq<u8> {
    cache::sized(encode_utf8(e.0)) + cache::sized(e.1.elf) + bytes::le4(e.1.scratch_base as int)
        + bytes::le4(e.1.segments.len() as int) + segments_bytes(
        e.1.segments,
        e.1.segments.len() as int,
    )
}

/// The bytes of the first `n` entries.
pub open spec fn entries_bytes(s: Seq<Entry>, n: int) -> Seq<u8>
    decreases n,
{
    if n <= 0 {
        Seq::empty()
    } else {
        entries_bytes(s, n - 1) + entry_bytes(s[n - 1])
    }
}

/// The form in which a set is kept.
pub open spec fn firmware_bytes(s: Seq<Entry>) -> Seq<u8> {
    cache::firmware_magic() + bytes::le4(s.len() as int) + entries_bytes(s, s.len() as int)
}

fn push_count(out: &mut Vec<u8>, n: usize)
    ensures
        final(out)@ == old(out)@ + bytes::le4(n as int),
{
    proof {
        bytes::lemma_le4_wraps(n as int);
    }
    bytes::push_u32(out, (n as u64 % 0x1_0000_0000) as u32);
}

fn push_segments(out: &mut Vec<u8>, segments: &Vec<PTLoad>)
    ensures
        final(out)@ == old(out)@ + segments_bytes(
            elf::loads_view(segments@),
            segments@.len() as int,
        ),
{
    let ghost views = elf::loads_view(segments@);
    let ghost start = out@;
    for i in 0..segments.len()
        invariant
            views == elf::loads_view(segments@),
            out@ == start + segments_bytes(views, i as int),
    {
        let s = &segments[i];
        assert(views[i as int] == s@);
        let ghost before = out@;
        bytes::push_u32(out, s.paddr);
        bytes::push_u32(out, s.memsz);
        bytes::push_u32(out, s.flags);
        cache::push_bytes(out, s.data.as_slice());
        assert(out@ =~= before + segment_bytes(s@));
        assert(out@ =~= start + segments_bytes(views, i + 1));
    }
    assert(out@ =~= start + segments_bytes(views, segments@.len() as int));
}

fn push_entry(out: &mut Vec<u8>, e: &FirmwareEntry)
    ensures
        final(out)@ == old(out)@ + entry_bytes((e.target@, e.firmware@)),
{
    let ghost start = out@;
    cache::push_bytes(out, e.target.as_str().as_bytes());
    cache::push_bytes(out, e.firmware.elf_bytes.as_slice());
    bytes::push_u32(out, e.firmware.scratch_base);
    push_count(out, e.firmware.segments.len());
    push_segments(out, &e.firmware.segments);
    assert(out@ =~= start + entry_bytes((e.target@, e.firmware@)));
}

/// Encodes a set of firmware.
pub fn encode_firmware_cache(set: &FirmwareSet) -> (r: Vec<u8>)
    ensures
        r@ == firmware_bytes(set@),
{
    let mut out: Vec<u8> = vec![76u8, 84u8, 84u8, 70u8, 73u8, 82u8, 77u8, 49u8];
    assert(out@ =~= cache::firmware_magic());
    push_count(&mut out, set.entries.len());
    let ghost start = out@;
    let ghost all = set@;
    assert(out@ =~= start + entries_bytes(all, 0));
    for i in 0..set.entries.len()
        invariant
            all == set@,
            out@ == start + entries_bytes(all, i as int),
    {
        let ghost before = out@;
        push_entry(&mut out, &set.entries[i]);
        assert(out@ =~= start + entries_bytes(all, i + 1));
    }
    out
}

/// What the standard library says of bytes that are no text.
pub uninterp spec fn utf8_complaint(b: Seq<u8>) -> Seq<char>;

/// `String::from_utf8` of the standard library: the text of well-formed bytes, or
/// the message of the error, whose wording is left to the library.
#[verifier::external_body]
pub(crate) fn utf8_text(b: Vec<u8>) -> (r: Result<String, String>)
    ensures
        match r {
            Ok(s) => valid_utf8(b@) && s@ == decode_utf8(b@),
            Err(m) => !valid_utf8(b@) && m@ == utf8_complaint(b@),
        },
{
    match String::from_utf8(b) {
        Ok(s) => Ok(s),
        Err(e) => Err(format!("{e}")),
    }
}

/// The next segment.
#[verifier::opaque]
pub open spec fn take_segment(data: Seq<u8>, at: int) -> Part<Load> {
    match cache::take_u32(data, at) {
        Err(e) => Err(e),
        Ok((paddr, a)) => match cache::take_u32(data, a) {
            Err(e) => Err(e),
            Ok((memsz, b)) => match cache::take_u32(data, b) {
                Err(e) => Err(e),
                Ok((flags, c)) => match cache::take_bytes(data, c) {
                    Err(e) => Err(e),
                    Ok((bytes, d)) => Ok(
                        (
                            Load {
                                paddr: paddr as u32,
                                data: bytes,
                                memsz: memsz as u32,
                                flags: flags as u32,
                            },
                            d,
                        ),
                    ),
                },
            },
        },
    }
}

/// The next `n` segments.
pub open spec fn take_segments(data: Seq<u8>, at: int, n: int) -> Part<Seq<Load>>
    decreases n,
{
    if n <= 0 {
        Ok((Seq::empty(), at))
    } else {
        match take_segments(data, at, n - 1) {
            Err(e) => Err(e),
            Ok((s, next)) => match take_segment(data, next) {
                Err(e) => Err(e),
                Ok((l, end)) => Ok((s.push(l), end)),
            },
        }
    }
}

/// The next name.
#[verifier::opaque]
pub open spec fn take_name(data: Seq<u8>, at: int) -> Part<Seq<char>> {
    match cache::take_bytes(data, at) {
        Err(e) => Err(e),
        Ok((b, next)) => if valid_utf8(b) {
            Ok((decode_utf8(b), next))
        } else {
            Err(elf::bad_data("invalid target name: "@ + utf8_complaint(b)))
        },
    }
}

/// The next firmware.
#[verifier::opaque]
pub open spec fn take_firmware(data: Seq<u8>, at: int) -> Part<Firmware> {
    match cache::take_bytes(data, at) {
        Err(e) => Err(e),
        Ok((elf, a)) => match cache::take_u32(data, a) {
            Err(e) => Err(e),
            Ok((scratch_base, b)) => match cache::take_u32(data, b) {
                Err(e) => Err(e),
                Ok((n, c)) => match take_segments(data, c, n) {
                    Err(e) => Err(e),
                    Ok((segments, d)) => Ok(
                        (Firmware { elf, segments, scratch_base: scratch_base as u32 }, d),
                    ),
                },
            },
        },
    }
}

/// The next `n` entries, as a set.
pub open spec fn take_entries(data: Seq<u8>, at: int, n: int) -> Part<Seq<Entry>>
    decreases n,
{
    if n <= 0 {
        Ok((Seq::empty(), at))
    } else {
        match take_entries(data, at, n - 1) {
            Err(e) => Err(e),
            Ok((s, a)) => match take_name(data, a) {
                Err(e) => Err(e),
                Ok((name, b)) => match take_firmware(data, b) {
                    Err(e) => Err(e),
                    Ok((f, c)) => Ok((stored(s, name, f), c)),
                },
            },
        }
    }
}

/// The set of an entry.
pub open spec fn firmware_of(data: Seq<u8>) -> Result<Seq<Entry>, error::Refusal> {
    if cache::magic_refusal(data, cache::firmware_magic()) is Some {
        Err(cache::magic_refusal(data, cache::firmware_magic())->0)
    } else {
        match cache::take_u32(data, 8) {
            Err(e) => Err(e),
            Ok((n, a)) => match take_entries(data, a, n) {
                Err(e) => Err(e),
                Ok((s, end)) => if end != data.len() {
                    Err(elf::bad_data("cache entry has trailing data"@))
                } else {
                    Ok(s)
                },
            },
        }
    }
}

/// What failed once fails later.
proof fn lemma_segments_failed(data: Seq<u8>, at: int, a: int, b: int)
    requires
        0 <= a <= b,
        take_segments(data, at, a) is Err,
    ensures
        take_segments(data, at, b) == take_segments(data, at, a),
    decreases b - a,
{
    if a < b {
        lemma_segments_failed(data, at, a, b - 1);
    }
}

proof fn lemma_entries_failed(data: Seq<u8>, at: int, a: int, b: int)
    requires
        0 <= a <= b,
        take_entries(data, at, a) is Err,
    ensures
        take_entries(data, at, b) == take_entries(data, at, a),
    decreases b - a,
{
    if a < b {
        lemma_entries_failed(data, at, a, b - 1);
    }
}

fn read_segment(reader: &mut CacheReader<'_>) -> (r: Result<PTLoad, Error>)
    requires
        old(reader).offset <= old(reader).data@.len(),
    ensures
        final(reader).data == old(reader).data,
        match r {
            Ok(s) => {
                &&& take_segment(old(reader).data@, old(reader).offset as int) == Ok::<
                    (Load, int),
                    error::Refusal,
                >((s@, final(reader).offset as int))
                &&& final(reader).offset <= final(reader).data@.len()
            },
            Err(e) => take_segment(old(reader).data@, old(reader).offset as int) == Err::<
                (Load, int),
                error::Refusal,
            >(e@),
        },
{
    proof {
        reveal(take_segment);
    }
    let paddr: u32 = reader.read_u32()?;
    let memsz: u32 = reader.read_u32()?;
    let flags: u32 = reader.read_u32()?;
    let data = reader.read_bytes()?;
    Ok(PTLoad { paddr, data, memsz, flags })
}

fn read_segments(reader: &mut CacheReader<'_>, n: u32) -> (r: Result<Vec<PTLoad>, Error>)
    requires
        old(reader).offset <= old(reader).data@.len(),
    ensures
        final(reader).data == old(reader).data,
        match r {
            Ok(s) => {
                &&& take_segments(old(reader).data@, old(reader).offset as int, n as int) == Ok::<
                    (Seq<Load>, int),
                    error::Refusal,
                >((elf::loads_view(s@), final(reader).offset as int))
                &&& final(reader).offset <= final(reader).data@.len()
            },
            Err(e) => take_segments(old(reader).data@, old(reader).offset as int, n as int) == Err::<
                (Seq<Load>, int),
                error::Refusal,
            >(e@),
        },
{
    let ghost data = reader.data@;
    let ghost at = reader.offset as int;
    let mut out: Vec<PTLoad> = Vec::new();
    assert(elf::loads_view(out@) =~= Seq::<Load>::empty());
    for i in 0..n
        invariant
            reader.data == old(reader).data,
            data == reader.data@,
            at == old(reader).offset,
            reader.offset <= data.len(),
            take_segments(data, at, i as int) == Ok::<(Seq<Load>, int), error::Refusal>(
                (elf::loads_view(out@), reader.offset as int),
            ),
    {
        let ghost before = elf::loads_view(out@);
        let ghost next = reader.offset as int;
        proof {
            if take_segment(data, next) is Err {
                lemma_segments_failed(data, at, i + 1, n as int);
            }
        }
        let s = read_segment(reader)?;
        out.push(s);
        assert(elf::loads_view(out@) =~= before.push(s@));
    }
    Ok(out)
}

fn read_name(reader: &mut CacheReader<'_>) -> (r: Result<String, Error>)
    requires
        old(reader).offset <= old(reader).data@.len(),
    ensures
        final(reader).data == old(reader).data,
        match r {
            Ok(s) => {
                &&& take_name(old(reader).data@, old(reader).offset as int) == Ok::<
                    (Seq<char>, int),
                    error::Refusal,
                >((s@, final(reader).offset as int))
                &&& final(reader).offset <= final(reader).data@.len()
            },
            Err(e) => take_name(old(reader).data@, old(reader).offset as int) == Err::<
                (Seq<char>, int),
                error::Refusal,
            >(e@),
        },
{
    proof {
        reveal(take_name);
    }
    let b = reader.read_bytes()?;
    match utf8_text(b) {
        Ok(s) => Ok(s),
        Err(m) => Err(
            Error::new(ErrorKind::InvalidData, text::cat2("invalid target name: ", m.as_str())),
        ),
    }
}

fn read_firmware(reader: &mut CacheReader<'_>) -> (r: Result<CompiledFirmware, Error>)
    requires
        old(reader).offset <= old(reader).data@.len(),
    ensures
        final(reader).data == old(reader).data,
        match r {
            Ok(f) => {
                &&& take_firmware(old(reader).data@, old(reader).offset as int) == Ok::<
                    (Firmware, int),
                    error::Refusal,
                >((f@, final(reader).offset as int))
                &&& final(reader).offset <= final(reader).data@.len()
            },
            Err(e) => take_firmware(old(reader).data@, old(reader).offset as int) == Err::<
                (Firmware, int),
                error::Refusal,
            >(e@),
        },
{
    proof {
        reveal(take_firmware);
    }
    let elf_bytes = reader.read_bytes()?;
    let scratch_base: u32 = reader.read_u32()?;
    let n: u32 = reader.read_u32()?;
    let segments = read_segments(reader, n)?;
    Ok(CompiledFirmware { elf_bytes, segments, scratch_base })
}

/// Decodes a set of firmware.
pub fn decode_firmware_cache(data: &[u8]) -> (r: Result<FirmwareSet, Error>)
    ensures
        match r {
            Ok(s) => firmware_of(data@) == Ok::<Seq<Entry>, error::Refusal>(s@) && s.wf(),
            Err(e) => firmware_of(data@) == Err::<Seq<Entry>, error::Refusal>(e@),
        },
{
    let magic: Vec<u8> = vec![76u8, 84u8, 84u8, 70u8, 73u8, 82u8, 77u8, 49u8];
    assert(magic@ =~= cache::firmware_magic());
    let total: usize = data.len();
    let mut reader = cache::expect_magic(data, &magic)?;
    let n: u32 = reader.read_u32()?;
    let ghost at = reader.offset as int;
    let mut set = FirmwareSet::new();
    for i in 0..n
        invariant
            reader.data@ == data@,
            reader.offset <= data@.len(),
            set.wf(),
            cache::magic_refusal(data@, cache::firmware_magic()) is None,
            cache::take_u32(data@, 8) == Ok::<(int, int), error::Refusal>((n as int, at)),
            take_entries(data@, at, i as int) == Ok::<(Seq<Entry>, int), error::Refusal>(
                (set@, reader.offset as int),
            ),
    {
        let ghost next = reader.offset as int;
        proof {
            if take_entries(data@, at, i + 1) is Err {
                lemma_entries_failed(data@, at, i + 1, n as int);
            }
        }
        let target = read_name(&mut reader)?;
        let firmware = read_firmware(&mut reader)?;
        set.insert(target, firmware);
    }
    if reader.offset != total {
        return Err(elf::invalid_data("cache entry has trailing data"));
    }
    Ok(set)
}

/// Whether the counts of a set can be written.
pub open spec fn countable(s: Seq<Entry>) -> bool {
    &&& s.len() <= u32::MAX
    &&& forall|i: int| 0 <= i < s.len() ==> (#[trigger] s[i]).1.segments.len() <= u32::MAX
}

/// Parts of a part are parts of the whole.
proof fn lemma_inner(data: Seq<u8>, at: int, whole: Seq<u8>, from: int, part: Seq<u8>)
    requires
        0 <= at,
        0 <= from,
        from + part.len() <= whole.len(),
        at + whole.len() <= data.len(),
        data.subrange(at, at + whole.len()) == whole,
        whole.subrange(from, from + part.len()) == part,
    ensures
        data.subrange(at + from, at + from + part.len()) == part,
{
    assert(data.subrange(at + from, at + from + part.len()) =~= whole.subrange(
        from,
        from + part.len(),
    ));
}

proof fn lemma_take_segment(data: Seq<u8>, at: int, l: Load)
    requires
        0 <= at,
        at + segment_bytes(l).len() <= data.len() <= usize::MAX,
        data.subrange(at, at + segment_bytes(l).len()) == segment_bytes(l),
    ensures
        take_segment(data, at) == Ok::<(Load, int), error::Refusal>(
            (l, at + segment_bytes(l).len()),
        ),
{
    reveal(take_segment);
    let whole = segment_bytes(l);
    let a = bytes::le4(l.paddr as int);
    let b = bytes::le4(l.memsz as int);
    let c = bytes::le4(l.flags as int);
    let d = cache::sized(l.data);
    cache::lemma_parts(a, b, c, d);
    assert(bytes::le8(l.data.len() as int).len() == 8);
    lemma_inner(data, at, whole, 0, a);
    lemma_inner(data, at, whole, 4, b);
    lemma_inner(data, at, whole, 8, c);
    lemma_inner(data, at, whole, 12, d);
    cache::lemma_take_u32(data, at, l.paddr);
    cache::lemma_take_u32(data, at + 4, l.memsz);
    cache::lemma_take_u32(data, at + 8, l.flags);
    cache::lemma_take_bytes(data, at + 12, l.data);
}

proof fn lemma_take_segments(data: Seq<u8>, at: int, s: Seq<Load>, n: int)
    requires
        0 <= at,
        0 <= n <= s.len(),
        at + segments_bytes(s, n).len() <= data.len() <= usize::MAX,
        data.subrange(at, at + segments_bytes(s, n).len()) == segments_bytes(s, n),
    ensures
        take_segments(data, at, n) == Ok::<(Seq<Load>, int), error::Refusal>(
            (s.take(n), at + segments_bytes(s, n).len()),
        ),
    decreases n,
{
    if n > 0 {
        let whole = segments_bytes(s, n);
        let front = segments_bytes(s, n - 1);
        let last = segment_bytes(s[n - 1]);
        assert(whole.subrange(0, front.len() as int) =~= front);
        assert(whole.subrange(front.len() as int, front.len() as int + last.len()) =~= last);
        lemma_inner(data, at, whole, 0, front);
        lemma_inner(data, at, whole, front.len() as int, last);
        lemma_take_segments(data, at, s, n - 1);
        lemma_take_segment(data, at + front.len(), s[n - 1]);
        assert(s.take(n - 1).push(s[n - 1]) =~= s.take(n));
    } else {
        assert(s.take(0) =~= Seq::<Load>::empty());
    }
}

/// The parts of an entry stand one after the other.
proof fn lemma_entry_parts(data: Seq<u8>, at: int, e: Entry)
    requires
        0 <= at,
        at + entry_bytes(e).len() <= data.len(),
        data.subrange(at, at + entry_bytes(e).len()) == entry_bytes(e),
    ensures
        ({
            let name = encode_utf8(e.0);
            let n = e.1.segments.len() as int;
            let f = segments_bytes(e.1.segments, n);
            let p = at + 8 + name.len();
            let q = p + 8 + e.1.elf.len();
            &&& at + entry_bytes(e).len() == q + 8 + f.len()
            &&& data.subrange(at, p) == cache::sized(name)
            &&& data.subrange(p, q) == cache::sized(e.1.elf)
            &&& data.subrange(q, q + 4) == bytes::le4(e.1.scratch_base as int)
            &&& data.subrange(q + 4, q + 8) == bytes::le4(n)
            &&& data.subrange(q + 8, q + 8 + f.len()) == f
        }),
{
    let whole = entry_bytes(e);
    let name = encode_utf8(e.0);
    let n = e.1.segments.len() as int;
    let a = cache::sized(name);
    let b = cache::sized(e.1.elf);
    let c = bytes::le4(e.1.scratch_base as int);
    let d = bytes::le4(n);
    let f = segments_bytes(e.1.segments, n);
    cache::lemma_parts(a, b, c, d);
    let head = a + b + c + d;
    assert(whole == head + f);
    assert(bytes::le8(name.len() as int).len() == 8);
    assert(bytes::le8(e.1.elf.len() as int).len() == 8);
    assert(whole.subrange(0, head.len() as int) =~= head);
    assert(whole.subrange(head.len() as int, head.len() as int + f.len()) =~= f);
    lemma_inner(data, at, whole, 0, head);
    lemma_inner(data, at, whole, head.len() as int, f);
    lemma_inner(data, at, head, 0, a);
    lemma_inner(data, at, head, a.len() as int, b);
    lemma_inner(data, at, head, (a.len() + b.len()) as int, c);
    lemma_inner(data, at, head, (a.len() + b.len() + c.len()) as int, d);
}

proof fn lemma_take_entry(data: Seq<u8>, at: int, e: Entry)
    requires
        0 <= at,
        at + entry_bytes(e).len() <= data.len() <= usize::MAX,
        data.subrange(at, at + entry_bytes(e).len()) == entry_bytes(e),
        e.1.segments.len() <= u32::MAX,
    ensures
        take_name(data, at) == Ok::<(Seq<char>, int), error::Refusal>(
            (e.0, at + 8 + encode_utf8(e.0).len()),
        ),
        take_firmware(data, at + 8 + encode_utf8(e.0).len()) == Ok::<
            (Firmware, int),
            error::Refusal,
        >((e.1, at + entry_bytes(e).len())),
{
    lemma_entry_parts(data, at, e);
    let name = encode_utf8(e.0);
    let n = e.1.segments.len() as int;
    let p = at + 8 + name.len();
    let q = p + 8 + e.1.elf.len();
    cache::lemma_take_bytes(data, at, name);
    cache::lemma_take_bytes(data, p, e.1.elf);
    cache::lemma_take_u32(data, q, e.1.scratch_base);
    cache::lemma_take_u32(data, q + 4, n as u32);
    lemma_take_segments(data, q + 8, e.1.segments, n);
    assert(e.1.segments.take(n) =~= e.1.segments);
    encode_utf8_valid_utf8(e.0);
    encode_utf8_decode_utf8(e.0);
    reveal(take_name);
    reveal(take_firmware);
}

proof fn lemma_take_entries(data: Seq<u8>, at: int, s: Seq<Entry>, n: int)
    requires
        0 <= at,
        0 <= n <= s.len(),
        in_order(s),
        countable(s),
        at + entries_bytes(s, n).len() <= data.len() <= usize::MAX,
        data.subrange(at, at + entries_bytes(s, n).len()) == entries_bytes(s, n),
    ensures
        take_entries(data, at, n) == Ok::<(Seq<Entry>, int), error::Refusal>(
            (s.take(n), at + entries_bytes(s, n).len()),
        ),
    decreases n,
{
    if n > 0 {
        let whole = entries_bytes(s, n);
        let front = entries_bytes(s, n - 1);
        let last = entry_bytes(s[n - 1]);
        assert(whole.subrange(0, front.len() as int) =~= front);
        assert(whole.subrange(front.len() as int, front.len() as int + last.len()) =~= last);
        lemma_inner(data, at, whole, 0, front);
        lemma_inner(data, at, whole, front.len() as int, last);
        lemma_take_entries(data, at, s, n - 1);
        lemma_take_entry(data, at + front.len(), s[n - 1]);
        if n > 1 {
            assert(s.take(n - 1).last() == s[n - 2]);
            assert(name_before(s[n - 2].0, s[n - 1].0));
        }
        assert(s.take(n - 1).push(s[n - 1]) =~= s.take(n));
    } else {
        assert(s.take(0) =~= Seq::<Entry>::empty());
    }
}

/// A set of firmware comes out of its entry as it went in.
pub proof fn lemma_firmware_roundtrip(s: Seq<Entry>)
    requires
        in_order(s),
        countable(s),
        firmware_bytes(s).len() <= usize::MAX,
    ensures
        firmware_of(firmware_bytes(s)) == Ok::<Seq<Entry>, error::Refusal>(s),
{
    let data = firmware_bytes(s);
    let n = s.len() as int;
    let a = cache::firmware_magic();
    let b = bytes::le4(n);
    let c = entries_bytes(s, n);
    cache::lemma_parts(a, b, c, Seq::empty());
    assert(a + b + c + Seq::<u8>::empty() =~= data);
    cache::lemma_take(data, 0, a);
    cache::lemma_take_u32(data, 8, n as u32);
    lemma_take_entries(data, 12, s, n);
    assert(s.take(n) =~= s);
}

proof fn lemma_segment_longer(a: Seq<u8>, b: Seq<u8>, at: int)
    requires
        a.is_prefix_of(b),
        b.len() <= usize::MAX,
        at >= 0,
        take_segment(a, at) is Ok,
    ensures
        take_segment(b, at) == take_segment(a, at),
        at <= (take_segment(a, at)->Ok_0).1,
{
    reveal(take_segment);
    cache::lemma_take_u32_longer(a, b, at);
    cache::lemma_take_u32_longer(a, b, at + 4);
    cache::lemma_take_u32_longer(a, b, at + 8);
    cache::lemma_take_bytes_longer(a, b, at + 12);
}

proof fn lemma_segments_longer(a: Seq<u8>, b: Seq<u8>, at: int, n: int)
    requires
        a.is_prefix_of(b),
        b.len() <= usize::MAX,
        at >= 0,
        take_segments(a, at, n) is Ok,
    ensures
        take_segments(b, at, n) == take_segments(a, at, n),
        at <= (take_segments(a, at, n)->Ok_0).1,
    decreases n,
{
    if n > 0 {
        lemma_segments_longer(a, b, at, n - 1);
        lemma_segment_longer(a, b, (take_segments(a, at, n - 1)->Ok_0).1);
    }
}

proof fn lemma_firmware_longer(a: Seq<u8>, b: Seq<u8>, at: int)
    requires
        a.is_prefix_of(b),
        b.len() <= usize::MAX,
        at >= 0,
        take_firmware(a, at) is Ok,
    ensures
        take_firmware(b, at) == take_firmware(a, at),
        at <= (take_firmware(a, at)->Ok_0).1,
{
    reveal(take_firmware);
    cache::lemma_take_bytes_longer(a, b, at);
    let p = (cache::take_bytes(a, at)->Ok_0).1;
    cache::lemma_take_u32_longer(a, b, p);
    cache::lemma_take_u32_longer(a, b, p + 4);
    let n = (cache::take_u32(a, p + 4)->Ok_0).0;
    lemma_segments_longer(a, b, p + 8, n);
}

proof fn lemma_entries_longer(a: Seq<u8>, b: Seq<u8>, at: int, n: int)
    requires
        a.is_prefix_of(b),
        b.len() <= usize::MAX,
        at >= 0,
        take_entries(a, at, n) is Ok,
    ensures
        take_entries(b, at, n) == take_entries(a, at, n),
        at <= (take_entries(a, at, n)->Ok_0).1,
    decreases n,
{
    if n > 0 {
        reveal(take_name);
        lemma_entries_longer(a, b, at, n - 1);
        let p = (take_entries(a, at, n - 1)->Ok_0).1;
        cache::lemma_take_bytes_longer(a, b, p);
        lemma_firmware_longer(a, b, (take_name(a, p)->Ok_0).1);
    }
}

/// A kept set with anything behind it is refused.
pub proof fn lemma_extended_firmware(kept: Seq<u8>, longer: Seq<u8>)
    requires
        firmware_of(kept) is Ok,
        kept.is_prefix_of(longer),
        kept.len() < longer.len() <= usize::MAX,
    ensures
        firmware_of(longer) == Err::<Seq<Entry>, error::Refusal>(
            elf::bad_data("cache entry has trailing data"@),
        ),
{
    cache::lemma_take_longer(kept, longer, 0, 8);
    cache::lemma_take_u32_longer(kept, longer, 8);
    lemma_entries_longer(kept, longer, 12, (cache::take_u32(kept, 8)->Ok_0).0);
}

/// A kept set that was cut short is refused.
pub proof fn lemma_cut_firmware(kept: Seq<u8>, n: int)
    requires
        firmware_of(kept) is Ok,
        kept.len() <= usize::MAX,
        0 <= n < kept.len(),
    ensures
        firmware_of(kept.take(n)) is Err,
{
    if firmware_of(kept.take(n)) is Ok {
        assert(kept.take(n).is_prefix_of(kept));
        lemma_extended_firmware(kept.take(n), kept);
    }
}

} // verus!
