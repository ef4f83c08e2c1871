//! The names of directory entries: short names of eight and three bytes,
//! and long names that are spread over several entries.

use vstd::prelude::*;
use crate::fat32::dir::{VFatLfnDirEntry, is_space};
use crate::fat32::text::string_push;

verus! {

/// A byte of a short name is padding.
pub open spec fn space(ch: u8) -> bool {
    ch == 0x00 || ch == 0x20
}

/// The bytes of `field` before its first padding byte.
pub open spec fn until_space(field: Seq<u8>) -> Seq<u8>
    decreases field.len(),
{
    if field.len() == 0 || space(field[0]) {
        Seq::empty()
    } else {
        seq![field[0]] + until_space(field.drop_first())
    }
}

/// The characters with the numbers of `bytes`.
pub open spec fn as_chars(bytes: Seq<u8>) -> Seq<char> {
    Seq::new(bytes.len(), |i: int| bytes[i] as char)
}

/// The short name of an entry: the name without padding, and, unless the
/// extension begins with padding, a dot and the extension without padding.
pub open spec fn short_name(name: Seq<u8>, ext: Seq<u8>) -> Seq<char> {
    if ext.len() == 0 || space(ext[0]) {
        as_chars(until_space(name))
    } else {
        as_chars(until_space(name)) + seq!['.'] + as_chars(until_space(ext))
    }
}

/// A character of a long name ends the name.
pub open spec fn terminator(unit: u16) -> bool {
    unit == 0x0000 || unit == 0xFFFF
}

/// The characters of `units` before the first that ends the name.
pub open spec fn until_end(units: Seq<u16>) -> Seq<u16>
    decreases units.len(),
{
    if units.len() == 0 || terminator(units[0]) {
        Seq::empty()
    } else {
        seq![units[0]] + until_end(units.drop_first())
    }
}

/// The part of a long name that one entry holds.
pub struct LongPart {
    /// The sequence number of the entry.
    pub seq: u8,
    /// The thirteen characters of the entry.
    pub units: Seq<u16>,
}

impl LongPart {
    /// The place of the part in its name: the low five bits of the
    /// sequence number.
    pub open spec fn order(self) -> int {
        self.seq as int % 32
    }
}

/// `sorted` with `part` put behind the last part whose place is not after
/// its own.
pub open spec fn inserted(sorted: Seq<LongPart>, part: LongPart) -> Seq<LongPart>
    decreases sorted.len(),
{
    if sorted.len() == 0 {
        seq![part]
    } else if sorted.last().order() <= part.order() {
        sorted.push(part)
    } else {
        inserted(sorted.drop_last(), part).push(sorted.last())
    }
}

/// The parts in the order of their places; parts with the same place keep
/// their order.
pub open spec fn in_order(parts: Seq<LongPart>) -> Seq<LongPart>
    decreases parts.len(),
{
    if parts.len() == 0 {
        Seq::empty()
    } else {
        inserted(in_order(parts.drop_last()), parts.last())
    }
}

/// The places of `parts` never go down.
pub open spec fn ordered(parts: Seq<LongPart>) -> bool {
    forall|i: int, j: int| 0 <= i <= j < parts.len() ==> parts[i].order() <= parts[j].order()
}

/// The characters of `parts`, part after part, each up to its end.
pub open spec fn joined(parts: Seq<LongPart>) -> Seq<u16>
    decreases parts.len(),
{
    if parts.len() == 0 {
        Seq::empty()
    } else {
        joined(parts.drop_last()) + until_end(parts.last().units)
    }
}

/// The position behind the last part of `sorted` whose place is not after
/// `order`.
pub open spec fn place_for(sorted: Seq<LongPart>, order: int) -> int
    decreases sorted.len(),
{
    if sorted.len() == 0 || sorted.last().order() <= order {
        sorted.len() as int
    } else {
        place_for(sorted.drop_last(), order)
    }
}

/// `inserted` puts the part at `place_for`.
pub proof fn lemma_inserted(sorted: Seq<LongPart>, part: LongPart)
    ensures
        0 <= place_for(sorted, part.order()) <= sorted.len(),
        inserted(sorted, part) == sorted.insert(place_for(sorted, part.order()), part),
    decreases sorted.len(),
{
    if sorted.len() == 0 {
        assert(seq![part] =~= sorted.insert(0, part));
    } else if sorted.last().order() <= part.order() {
        assert(sorted.push(part) =~= sorted.insert(sorted.len() as int, part));
    } else {
        let rest = sorted.drop_last();
        lemma_inserted(rest, part);
        let p = place_for(rest, part.order());
        assert(rest.insert(p, part).push(sorted.last()) =~= sorted.insert(p, part));
    }
}

/// Between `place_for` and the end every place is after `order`, and
/// before it no place is after `order` if the places never go down.
pub proof fn lemma_place_for(sorted: Seq<LongPart>, order: int)
    ensures
        0 <= place_for(sorted, order) <= sorted.len(),
        forall|i: int| place_for(sorted, order) <= i < sorted.len() ==> sorted[i].order() > order,
        place_for(sorted, order) > 0 ==> sorted[place_for(sorted, order) - 1].order() <= order,
    decreases sorted.len(),
{
    if sorted.len() > 0 && sorted.last().order() > order {
        let rest = sorted.drop_last();
        lemma_place_for(rest, order);
        assert forall|i: int| place_for(sorted, order) <= i < sorted.len() implies sorted[i].order()
            > order by {
            if i < rest.len() {
                assert(rest[i] == sorted[i]);
            }
        }
        if place_for(sorted, order) > 0 {
            assert(rest[place_for(sorted, order) - 1] == sorted[place_for(sorted, order) - 1]);
        }
    }
}

/// Putting a part in its place keeps the places from going down.
pub proof fn lemma_inserted_ordered(sorted: Seq<LongPart>, part: LongPart)
    requires
        ordered(sorted),
    ensures
        ordered(inserted(sorted, part)),
        inserted(sorted, part).len() == sorted.len() + 1,
        inserted(sorted, part).to_multiset() == sorted.to_multiset().insert(part),
{
    lemma_inserted(sorted, part);
    lemma_place_for(sorted, part.order());
    let p = place_for(sorted, part.order());
    let out = inserted(sorted, part);
    assert forall|i: int, j: int| 0 <= i <= j < out.len() implies out[i].order() <= out[j].order() by {
        if i < p && j > p {
            assert(sorted[i].order() <= sorted[p - 1].order());
        } else if i < p && j == p {
            assert(sorted[i].order() <= sorted[p - 1].order());
        } else if i < p && j < p {
            assert(sorted[i].order() <= sorted[j].order());
        } else if i == p && j > p {
            assert(sorted[j - 1].order() > part.order());
        } else if i > p {
            assert(sorted[i - 1].order() <= sorted[j - 1].order());
        }
    }
    vstd::seq_lib::to_multiset_insert(sorted, p, part);
}

/// Bringing parts in order keeps every part, as often as it occurs, and
/// leaves the places never going down.
pub proof fn lemma_in_order(parts: Seq<LongPart>)
    ensures
        ordered(in_order(parts)),
        in_order(parts).len() == parts.len(),
        in_order(parts).to_multiset() == parts.to_multiset(),
    decreases parts.len(),
{
    broadcast use vstd::seq_lib::group_to_multiset_ensures;

    if parts.len() > 0 {
        lemma_in_order(parts.drop_last());
        lemma_inserted_ordered(in_order(parts.drop_last()), parts.last());
        assert(parts.drop_last().push(parts.last()) =~= parts);
    }
}

/// What `String::from_utf16_lossy` makes of a sequence of UTF-16 code
/// units.
pub uninterp spec fn utf16_lossy(units: Seq<u16>) -> Seq<char>;

/// The long name that `parts` spell: their characters, in the order of
/// their places, decoded from UTF-16.
pub open spec fn long_name(parts: Seq<LongPart>) -> Seq<char> {
    utf16_lossy(joined(in_order(parts)))
}

/// The name of an entry: its long name if it has parts of one, and its
/// short name otherwise.
pub open spec fn name_of(name: Seq<u8>, ext: Seq<u8>, parts: Seq<LongPart>) -> Seq<char> {
    if parts.len() == 0 {
        short_name(name, ext)
    } else {
        long_name(parts)
    }
}

/// `String::from_utf16_lossy`: the string that the code units decode to,
/// with the replacement character for what is not valid UTF-16.
#[verifier::external_body]
fn string_from_utf16_lossy(units: &Vec<u16>) -> (r: String)
    ensures
        r@ == utf16_lossy(units@),
{
    String::from_utf16_lossy(units)
}

/// Appends the bytes of `field` before its first padding byte to `s`, as
/// characters.
fn push_until_space(s: &mut String, field: &[u8])
    ensures
        final(s)@ == old(s)@ + as_chars(until_space(field@)),
{
    let n = field.len();
    let mut i: usize = 0;
    proof {
        assert(s@ =~= old(s)@ + as_chars(until_space(field@.subrange(0, 0))));
    }
    while i < n && !is_space(field[i])
        invariant
            i <= n,
            n == field@.len(),
            forall|j: int| 0 <= j < i ==> !space(#[trigger] field@[j]),
            s@ == old(s)@ + as_chars(field@.subrange(0, i as int)),
        decreases n - i,
    {
        string_push(s, field[i] as char);
        i = i + 1;
        assert(s@ =~= old(s)@ + as_chars(field@.subrange(0, i as int)));
    }
    proof {
        lemma_until_space(field@, i as int);
    }
}

/// The bytes before the first padding byte are the bytes before position
/// `i`, if `i` is the position of the first padding byte or the length.
pub proof fn lemma_until_space(field: Seq<u8>, i: int)
    requires
        0 <= i <= field.len(),
        forall|j: int| 0 <= j < i ==> !space(#[trigger] field[j]),
        i < field.len() ==> space(field[i]),
    ensures
        until_space(field) == field.subrange(0, i),
    decreases i,
{
    if i == 0 {
        assert(field.subrange(0, 0) =~= Seq::<u8>::empty());
    } else {
        let rest = field.drop_first();
        assert forall|j: int| 0 <= j < i - 1 implies !space(#[trigger] rest[j]) by {
            assert(rest[j] == field[j + 1]);
        }
        lemma_until_space(rest, i - 1);
        assert(seq![field[0]] + rest.subrange(0, i - 1) =~= field.subrange(0, i));
    }
}

/// The characters before the first that ends the name are the characters
/// before position `i`, if `i` is the position of the first such character
/// or the length.
pub proof fn lemma_until_end(units: Seq<u16>, i: int)
    requires
        0 <= i <= units.len(),
        forall|j: int| 0 <= j < i ==> !terminator(#[trigger] units[j]),
        i < units.len() ==> terminator(units[i]),
    ensures
        until_end(units) == units.subrange(0, i),
    decreases i,
{
    if i == 0 {
        assert(units.subrange(0, 0) =~= Seq::<u16>::empty());
    } else {
        let rest = units.drop_first();
        assert forall|j: int| 0 <= j < i - 1 implies !terminator(#[trigger] rest[j]) by {
            assert(rest[j] == units[j + 1]);
        }
        lemma_until_end(rest, i - 1);
        assert(seq![units[0]] + rest.subrange(0, i - 1) =~= units.subrange(0, i));
    }
}

/// The parts that the entries hold.
pub open spec fn parts_of(entries: Seq<VFatLfnDirEntry>) -> Seq<LongPart> {
    Seq::new(entries.len(), |i: int| entries[i]@)
}

/// Brings the entries in the order of their places; entries with the same
/// place keep their order.
pub fn sort_parts(entries: &Vec<VFatLfnDirEntry>) -> (r: Vec<VFatLfnDirEntry>)
    ensures
        parts_of(r@) == in_order(parts_of(entries@)),
{
    let mut sorted: Vec<VFatLfnDirEntry> = Vec::new();
    let n = entries.len();
    let mut i: usize = 0;
    proof {
        assert(parts_of(entries@).subrange(0, 0) =~= Seq::<LongPart>::empty());
        assert(parts_of(sorted@) =~= Seq::<LongPart>::empty());
    }
    while i < n
        invariant
            i <= n,
            n == entries@.len(),
            sorted@.len() == i,
            parts_of(sorted@) == in_order(parts_of(entries@).subrange(0, i as int)),
        decreases n - i,
    {
        let entry = entries[i];
        let key = entry.seq & 0x1F;
        let seq = entry.seq;
        assert(seq & 0x1F == seq % 32) by (bit_vector);
        let mut p: usize = sorted.len();
        let ghost before = parts_of(sorted@);
        assert(before.subrange(0, p as int) =~= before);
        while p > 0 && (sorted[p - 1].seq & 0x1F) > key
            invariant
                p <= sorted@.len(),
                key == entry@.order(),
                before == parts_of(sorted@),
                place_for(before, key as int) == place_for(before.subrange(0, p as int), key as int),
            decreases p,
        {
            let other = sorted[p - 1].seq;
            assert(other & 0x1F == other % 32) by (bit_vector);
            proof {
                let head = before.subrange(0, p as int);
                assert(head.last() == before[p - 1]);
                assert(head.drop_last() =~= before.subrange(0, p - 1));
            }
            p = p - 1;
        }
        proof {
            if p > 0 {
                let other = sorted[p - 1].seq;
                assert(other & 0x1F == other % 32) by (bit_vector);
                let head = before.subrange(0, p as int);
                assert(head.last() == before[p - 1]);
            }
            assert(place_for(before, key as int) == p);
            lemma_inserted(before, entry@);
            let prefix = parts_of(entries@).subrange(0, i as int + 1);
            assert(prefix.drop_last() =~= parts_of(entries@).subrange(0, i as int));
            assert(prefix.last() == entry@);
        }
        sorted.insert(p, entry);
        assert(parts_of(sorted@) =~= before.insert(p as int, entry@));
        i = i + 1;
    }
    assert(parts_of(entries@).subrange(0, n as int) =~= parts_of(entries@));
    sorted
}

/// The name of an entry with the short name `name` and `ext`, and with
/// the parts of a long name in `long_name_entries`, which need not be in
/// order.
pub fn make_name(name: &[u8], ext: &[u8], long_name_entries: &Vec<VFatLfnDirEntry>) -> (r: String)
    requires
        ext@.len() > 0,
    ensures
        r@ == name_of(name@, ext@, parts_of(long_name_entries@)),
{
    if long_name_entries.len() == 0 {
        let mut s = String::new();
        push_until_space(&mut s, name);
        if !is_space(ext[0]) {
            string_push(&mut s, '.');
            push_until_space(&mut s, ext);
        }
        assert(s@ =~= short_name(name@, ext@));
        s
    } else {
        let sorted = sort_parts(long_name_entries);
        let mut units: Vec<u16> = Vec::new();
        let n = sorted.len();
        let mut i: usize = 0;
        proof {
            assert(parts_of(sorted@).subrange(0, 0) =~= Seq::<LongPart>::empty());
        }
        while i < n
            invariant
                i <= n,
                n == sorted@.len(),
                units@ == joined(parts_of(sorted@).subrange(0, i as int)),
            decreases n - i,
        {
            let entry = sorted[i];
            let ghost before = units@;
            let mut k: usize = 0;
            while k < 13 && entry.unit_at(k) != 0x0000 && entry.unit_at(k) != 0xFFFF
                invariant
                    k <= 13,
                    forall|j: int| 0 <= j < k ==> !terminator(#[trigger] entry@.units[j]),
                    units@ == before + entry@.units.subrange(0, k as int),
                decreases 13 - k,
            {
                units.push(entry.unit_at(k));
                k = k + 1;
                assert(units@ =~= before + entry@.units.subrange(0, k as int));
            }
            proof {
                lemma_until_end(entry@.units, k as int);
                let prefix = parts_of(sorted@).subrange(0, i as int + 1);
                assert(prefix.drop_last() =~= parts_of(sorted@).subrange(0, i as int));
                assert(prefix.last() == entry@);
            }
            i = i + 1;
        }
        assert(parts_of(sorted@).subrange(0, n as int) =~= parts_of(sorted@));
        string_from_utf16_lossy(&units)
    }
}

} // verus!
