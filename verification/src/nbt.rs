//! Recursive-descent decoder for the tagged, length-prefixed binary tree
//! format of the save. Each node begins with a one-byte tag id; tag 0 ends a
//! compound. Primitive tags are captured as raw leaf byte spans; compound
//! (10) and list (9) tags recurse. The grammar is written down as a spec
//! parse relation, and the decoder is proved to return exactly the trees
//! that relation admits.

use vstd::prelude::*;
use crate::bytes::{spec_be2, spec_be4, read_two_byte_size, read_four_byte_size};
use crate::error::Error;

verus! {

/// One name/value pair of a compound node.
pub struct NbtEntry {
    pub name: Vec<u8>,
    pub value: Nbt,
}

/// A decoded tree node. Leaf spans do not preserve tag ids because the
/// consumer already knows each field's expected type from the save format's
/// schema.
pub enum Nbt {
    NbtCompound(Vec<NbtEntry>),
    NbtList(Vec<Nbt>),
    NbtData(Vec<u8>),
}

/// The tag header at `i`: tag id, name bytes and payload start. Tag 0 has no
/// name. `None` means the header runs outside the data.
pub open spec fn spec_read_tag(data: Seq<u8>, i: int) -> Option<(u8, Seq<u8>, int)> {
    if !(0 <= i < data.len()) {
        None
    } else if data[i] == 0 {
        Some((0u8, Seq::<u8>::empty(), i + 1))
    } else if i + 3 > data.len() {
        None
    } else {
        let p = i + 3 + spec_be2(data, i + 1);
        if p > data.len() {
            None
        } else {
            Some((data[i], data.subrange(i + 3, p), p))
        }
    }
}

/// Whether a tag id is a primitive whose payload is a leaf byte span.
pub open spec fn spec_is_data_tag(id: u8) -> bool {
    1 <= id <= 8 || id == 11 || id == 12
}

/// Payload length and length-prefix offset of a primitive tag at `i`:
/// integers of width 1/2/4/8, floating point of width 4/8, and byte/int/long
/// arrays and strings with their own length prefix. `None` means the length
/// prefix runs outside the data.
pub open spec fn spec_data_len_off(id: u8, data: Seq<u8>, i: int) -> Option<(int, int)> {
    if id == 1 {
        Some((1int, 0int))
    } else if id == 2 {
        Some((2int, 0int))
    } else if id == 3 {
        Some((4int, 0int))
    } else if id == 4 {
        Some((8int, 0int))
    } else if id == 5 {
        Some((4int, 0int))
    } else if id == 6 {
        Some((8int, 0int))
    } else if id == 7 {
        if 0 <= i && i + 4 <= data.len() {
            Some((spec_be4(data, i), 4int))
        } else {
            None
        }
    } else if id == 8 {
        if 0 <= i && i + 2 <= data.len() {
            Some((spec_be2(data, i), 2int))
        } else {
            None
        }
    } else if id == 11 {
        if 0 <= i && i + 4 <= data.len() {
            Some((4 * spec_be4(data, i), 4int))
        } else {
            None
        }
    } else if id == 12 {
        if 0 <= i && i + 4 <= data.len() {
            Some((8 * spec_be4(data, i), 4int))
        } else {
            None
        }
    } else {
        None
    }
}

/// The position just past the encoding of node `n` with tag `id` at `i`.
/// Meaningful only where the matching `ok` predicate holds.
pub open spec fn spec_child_end(id: u8, data: Seq<u8>, i: int, n: Nbt) -> int
    decreases n, 2int,
{
    if spec_is_data_tag(id) {
        match spec_data_len_off(id, data, i) {
            None => i,
            Some((len, off)) => i + off + len,
        }
    } else {
        match n {
            Nbt::NbtList(items) => spec_children_end(
                if 0 <= i < data.len() {
                    data[i]
                } else {
                    0
                },
                data,
                i + 5,
                items@,
            ),
            Nbt::NbtCompound(entries) => spec_entries_end(data, i, entries@) + 1,
            Nbt::NbtData(_) => i,
        }
    }
}

/// The position just past `items` decoded back-to-back at `i` with tag `id`.
pub open spec fn spec_children_end(id: u8, data: Seq<u8>, i: int, items: Seq<Nbt>) -> int
    decreases items, 0int,
{
    if items.len() == 0 {
        i
    } else {
        spec_children_end(id, data, spec_child_end(id, data, i, items[0]), items.drop_first())
    }
}

/// The position of the compound terminator after the named tag/child pairs
/// `entries` decoded back-to-back from `i`.
pub open spec fn spec_entries_end(data: Seq<u8>, i: int, entries: Seq<NbtEntry>) -> int
    decreases entries, 0int,
{
    if entries.len() == 0 {
        i
    } else {
        match spec_read_tag(data, i) {
            None => i,
            Some((id, name, p)) => spec_entries_end(
                data,
                spec_child_end(id, data, p, entries[0].value),
                entries.drop_first(),
            ),
        }
    }
}

/// The node `n` is the decoding of tag id `id`'s payload at `i`.
pub open spec fn spec_child_ok(id: u8, data: Seq<u8>, i: int, n: Nbt) -> bool
    decreases n, 2int,
{
    if spec_is_data_tag(id) {
        match spec_data_len_off(id, data, i) {
            None => false,
            Some((len, off)) => match n {
                Nbt::NbtData(bytes) => {
                    &&& 0 <= i
                    &&& i + off + len <= data.len()
                    &&& bytes@ == data.subrange(i + off, i + off + len)
                },
                _ => false,
            },
        }
    } else if id == 9 {
        match n {
            Nbt::NbtList(items) => spec_list_ok(data, i, items@),
            _ => false,
        }
    } else if id == 10 {
        match n {
            Nbt::NbtCompound(entries) => spec_compound_ok(data, i, entries@),
            _ => false,
        }
    } else {
        false
    }
}

/// A list payload at `i`: a shared child tag id, a four-byte count, then
/// that many children of that tag decoded back-to-back.
pub open spec fn spec_list_ok(data: Seq<u8>, i: int, items: Seq<Nbt>) -> bool
    decreases items, 1int,
{
    &&& 0 <= i
    &&& i + 5 <= data.len()
    &&& items.len() == spec_be4(data, i + 1)
    &&& spec_children_ok(data[i], data, i + 5, items)
}

/// The sequence `items` decodes back-to-back at `i`, all with tag `id`.
pub open spec fn spec_children_ok(id: u8, data: Seq<u8>, i: int, items: Seq<Nbt>) -> bool
    decreases items, 0int,
{
    if items.len() == 0 {
        true
    } else {
        &&& spec_child_ok(id, data, i, items[0])
        &&& spec_children_ok(id, data, spec_child_end(id, data, i, items[0]), items.drop_first())
    }
}

/// The sequence `entries` decodes back-to-back as named tag/child pairs
/// starting at `i`, with no terminator consumed.
pub open spec fn spec_entries_ok(data: Seq<u8>, i: int, entries: Seq<NbtEntry>) -> bool
    decreases entries, 1int,
{
    if entries.len() == 0 {
        true
    } else {
        match spec_read_tag(data, i) {
            None => false,
            Some((id, name, p)) => {
                &&& id != 0
                &&& entries[0].name@ == name
                &&& spec_child_ok(id, data, p, entries[0].value)
                &&& spec_entries_ok(
                    data,
                    spec_child_end(id, data, p, entries[0].value),
                    entries.drop_first(),
                )
            },
        }
    }
}

/// A compound payload at `i`: named tag/child pairs up to a terminating
/// tag 0.
pub open spec fn spec_compound_ok(data: Seq<u8>, i: int, entries: Seq<NbtEntry>) -> bool
    decreases entries, 2int,
{
    let t = spec_entries_end(data, i, entries);
    &&& spec_entries_ok(data, i, entries)
    &&& 0 <= t < data.len()
    &&& data[t] == 0
}

/// The node `n` is the decoding of tag id `id`'s payload at `i`, consuming
/// bytes up to exactly `j`.
pub open spec fn spec_child_parses(id: u8, data: Seq<u8>, i: int, n: Nbt, j: int) -> bool {
    spec_child_ok(id, data, i, n) && j == spec_child_end(id, data, i, n)
}

/// A whole chunk payload: one outer tag header whose payload is the root
/// compound.
pub open spec fn spec_chunk_parses(data: Seq<u8>, entries: Seq<NbtEntry>) -> bool {
    match spec_read_tag(data, 0) {
        None => false,
        Some((id, name, p)) => spec_compound_ok(data, p, entries),
    }
}

/// Copies the byte range `[a, b)` out of `data`.
fn subrange_vec(data: &Vec<u8>, a: usize, b: usize) -> (r: Vec<u8>)
    requires
        a <= b <= data@.len(),
    ensures
        r@ == data@.subrange(a as int, b as int),
{
    let mut out: Vec<u8> = Vec::new();
    let mut i: usize = a;
    while i < b
        invariant
            a <= i <= b <= data@.len(),
            out@.len() == i - a,
            forall|k: int| 0 <= k < out@.len() ==> out@[k] == data@[a + k],
        decreases b - i,
    {
        out.push(data[i]);
        i = i + 1;
    }
    proof {
        assert(out@ =~= data@.subrange(a as int, b as int));
    }
    out
}

/// Reads the tag header at `index`: tag id, name bytes and payload start.
fn read_nbt_tag(data: &Vec<u8>, index: usize) -> (r: Result<(u8, Vec<u8>, usize), Error>)
    ensures
        match r {
            Ok((id, name, p)) => {
                &&& spec_read_tag(data@, index as int) == Some((id, name@, p as int))
                &&& index < p <= data@.len()
            },
            Err(e) => spec_read_tag(data@, index as int) is None && e == Error::MalformedInput,
        },
{
    let n = data.len();
    if index >= n {
        return Err(Error::MalformedInput);
    }
    let tag_id = data[index];
    if tag_id == 0 {
        let name: Vec<u8> = Vec::new();
        proof {
            assert(name@ =~= Seq::<u8>::empty());
        }
        return Ok((0, name, index + 1));
    }
    if n - index < 3 {
        return Err(Error::MalformedInput);
    }
    let name_length = read_two_byte_size(data, index + 1);
    if name_length > n - (index + 3) {
        return Err(Error::MalformedInput);
    }
    let payload_start = index + 3 + name_length;
    let name = subrange_vec(data, index + 3, payload_start);
    Ok((tag_id, name, payload_start))
}

/// Payload length and prefix offset of a primitive tag at `index`.
/// `Ok(None)` means the id is not a primitive tag; a primitive payload that
/// cannot fit inside the data is a failure.
fn get_nbt_data_length_and_offset(id: u8, data: &Vec<u8>, index: usize) -> (r: Result<
    Option<(usize, usize)>,
    Error,
>)
    requires
        index <= data@.len(),
    ensures
        match r {
            Ok(Some((len, off))) => spec_is_data_tag(id) && spec_data_len_off(
                id,
                data@,
                index as int,
            ) == Some((len as int, off as int)),
            Ok(None) => !spec_is_data_tag(id),
            Err(e) => {
                &&& spec_is_data_tag(id)
                &&& e == Error::MalformedInput
                &&& match spec_data_len_off(id, data@, index as int) {
                    None => true,
                    Some((len, off)) => index + off + len > data@.len(),
                }
            },
        },
{
    let n = data.len();
    match id {
        1 => Ok(Some((1, 0))),
        2 => Ok(Some((2, 0))),
        3 => Ok(Some((4, 0))),
        4 => Ok(Some((8, 0))),
        5 => Ok(Some((4, 0))),
        6 => Ok(Some((8, 0))),
        7 => {
            if n - index >= 4 {
                Ok(Some((read_four_byte_size(data, index), 4)))
            } else {
                Err(Error::MalformedInput)
            }
        },
        8 => {
            if n - index >= 2 {
                Ok(Some((read_two_byte_size(data, index), 2)))
            } else {
                Err(Error::MalformedInput)
            }
        },
        11 => {
            if n - index >= 4 {
                let len4 = read_four_byte_size(data, index);
                if len4 <= (n - index) / 4 {
                    Ok(Some((4 * len4, 4)))
                } else {
                    Err(Error::MalformedInput)
                }
            } else {
                Err(Error::MalformedInput)
            }
        },
        12 => {
            if n - index >= 4 {
                let len8 = read_four_byte_size(data, index);
                if len8 <= (n - index) / 8 {
                    Ok(Some((8 * len8, 4)))
                } else {
                    Err(Error::MalformedInput)
                }
            } else {
                Err(Error::MalformedInput)
            }
        },
        _ => Ok(None),
    }
}

/// Any two decodings of one tag's payload at one position consume the
/// same number of bytes: the format is length-determined.
proof fn lemma_child_end_unique(id: u8, data: Seq<u8>, i: int, n1: Nbt, n2: Nbt)
    requires
        spec_child_ok(id, data, i, n1),
        spec_child_ok(id, data, i, n2),
    ensures
        spec_child_end(id, data, i, n1) == spec_child_end(id, data, i, n2),
    decreases n1, 2int,
{
    if spec_is_data_tag(id) {
    } else if id == 9 {
        match (n1, n2) {
            (Nbt::NbtList(v1), Nbt::NbtList(v2)) => {
                lemma_children_end_unique(data[i], data, i + 5, v1@, v2@);
            },
            _ => {},
        }
    } else if id == 10 {
        match (n1, n2) {
            (Nbt::NbtCompound(e1), Nbt::NbtCompound(e2)) => {
                lemma_compound_end_unique(data, i, e1@, e2@);
            },
            _ => {},
        }
    }
}

/// Two equally long child runs at one position end at the same byte.
proof fn lemma_children_end_unique(id: u8, data: Seq<u8>, i: int, s1: Seq<Nbt>, s2: Seq<Nbt>)
    requires
        spec_children_ok(id, data, i, s1),
        spec_children_ok(id, data, i, s2),
        s1.len() == s2.len(),
    ensures
        spec_children_end(id, data, i, s1) == spec_children_end(id, data, i, s2),
    decreases s1, 0int,
{
    if s1.len() > 0 {
        lemma_child_end_unique(id, data, i, s1[0], s2[0]);
        let m = spec_child_end(id, data, i, s1[0]);
        lemma_children_end_unique(id, data, m, s1.drop_first(), s2.drop_first());
    }
}

/// Two compound decodings at one position place the terminator at the same
/// byte.
proof fn lemma_compound_end_unique(data: Seq<u8>, i: int, es1: Seq<NbtEntry>, es2: Seq<NbtEntry>)
    requires
        spec_compound_ok(data, i, es1),
        spec_compound_ok(data, i, es2),
    ensures
        spec_entries_end(data, i, es1) == spec_entries_end(data, i, es2),
    decreases es1, 1int,
{
    if es1.len() == 0 {
        let t = spec_entries_end(data, i, es1);
        assert(t == i);
        if es2.len() > 0 {
            assert(spec_read_tag(data, i).unwrap().0 != 0);
        }
    } else {
        if es2.len() == 0 {
            assert(spec_entries_end(data, i, es2) == i);
            assert(data[i] == 0);
            assert(spec_read_tag(data, i).unwrap().0 != 0);
        } else {
            let (id, name, p) = spec_read_tag(data, i).unwrap();
            lemma_child_end_unique(id, data, p, es1[0].value, es2[0].value);
            let m = spec_child_end(id, data, p, es1[0].value);
            lemma_compound_end_unique(data, m, es1.drop_first(), es2.drop_first());
        }
    }
}

/// The position `t` admits no further entry: either no tag header can be
/// read there, or the header names a tag whose payload decodes to nothing.
spec fn spec_stuck(data: Seq<u8>, t: int) -> bool {
    match spec_read_tag(data, t) {
        None => true,
        Some((id, name, p)) => id != 0 && forall|n: Nbt| !spec_child_ok(id, data, p, n),
    }
}

/// No compound decoding exists once the walk from its start runs into a
/// stuck position.
proof fn lemma_no_compound_extension(data: Seq<u8>, i: int, acc: Seq<NbtEntry>, es: Seq<NbtEntry>)
    requires
        spec_entries_ok(data, i, acc),
        spec_stuck(data, spec_entries_end(data, i, acc)),
    ensures
        !spec_compound_ok(data, i, es),
    decreases acc.len(),
{
    if spec_compound_ok(data, i, es) {
        if acc.len() == 0 {
            if es.len() == 0 {
                assert(data[i] == 0);
                assert(spec_read_tag(data, i) == Some((0u8, Seq::<u8>::empty(), i + 1)));
            } else {
                let (id, name, p) = spec_read_tag(data, i).unwrap();
                assert(spec_child_ok(id, data, p, es[0].value));
            }
        } else {
            let (ida, namea, pa) = spec_read_tag(data, i).unwrap();
            if es.len() == 0 {
                assert(data[i] == 0);
            } else {
                lemma_child_end_unique(ida, data, pa, acc[0].value, es[0].value);
                let m = spec_child_end(ida, data, pa, acc[0].value);
                assert(spec_compound_ok(data, m, es.drop_first()));
                lemma_no_compound_extension(data, m, acc.drop_first(), es.drop_first());
            }
        }
    }
}

/// No child run longer than the walked prefix exists once the walk runs
/// into a position where no child of the tag decodes.
proof fn lemma_no_children_extension(
    id: u8,
    data: Seq<u8>,
    i: int,
    acc: Seq<Nbt>,
    items: Seq<Nbt>,
)
    requires
        spec_children_ok(id, data, i, acc),
        items.len() > acc.len(),
        forall|n: Nbt| !spec_child_ok(id, data, spec_children_end(id, data, i, acc), n),
    ensures
        !spec_children_ok(id, data, i, items),
    decreases acc.len(),
{
    if spec_children_ok(id, data, i, items) {
        if acc.len() == 0 {
            assert(spec_children_end(id, data, i, acc) == i);
            assert(spec_child_ok(id, data, i, items[0]));
        } else {
            lemma_child_end_unique(id, data, i, acc[0], items[0]);
            let m = spec_child_end(id, data, i, acc[0]);
            assert(spec_children_end(id, data, i, acc) == spec_children_end(
                id,
                data,
                m,
                acc.drop_first(),
            ));
            lemma_no_children_extension(id, data, m, acc.drop_first(), items.drop_first());
        }
    }
}

/// Extending a back-to-back entry parse by one more parsed entry.
proof fn lemma_entries_snoc(
    data: Seq<u8>,
    i: int,
    entries: Seq<NbtEntry>,
    e: NbtEntry,
    id: u8,
    name: Seq<u8>,
    p: int,
)
    requires
        spec_entries_ok(data, i, entries),
        spec_read_tag(data, spec_entries_end(data, i, entries)) == Some((id, name, p)),
        id != 0,
        e.name@ == name,
        spec_child_ok(id, data, p, e.value),
    ensures
        spec_entries_ok(data, i, entries.push(e)),
        spec_entries_end(data, i, entries.push(e)) == spec_child_end(id, data, p, e.value),
    decreases entries.len(),
{
    if entries.len() == 0 {
        let single = entries.push(e);
        assert(single[0] == e);
        assert(single.drop_first() =~= Seq::<NbtEntry>::empty());
        let m = spec_child_end(id, data, p, e.value);
        assert(spec_entries_ok(data, m, single.drop_first()));
        assert(spec_entries_end(data, m, single.drop_first()) == m);
    } else {
        let (id0, name0, p0) = spec_read_tag(data, i).unwrap();
        let m0 = spec_child_end(id0, data, p0, entries[0].value);
        lemma_entries_snoc(data, m0, entries.drop_first(), e, id, name, p);
        assert(entries.drop_first().push(e) =~= entries.push(e).drop_first());
        assert(entries.push(e)[0] == entries[0]);
    }
}

/// Extending a back-to-back list-children parse by one more parsed child.
proof fn lemma_children_snoc(id: u8, data: Seq<u8>, i: int, items: Seq<Nbt>, n: Nbt)
    requires
        spec_children_ok(id, data, i, items),
        spec_child_ok(id, data, spec_children_end(id, data, i, items), n),
    ensures
        spec_children_ok(id, data, i, items.push(n)),
        spec_children_end(id, data, i, items.push(n)) == spec_child_end(
            id,
            data,
            spec_children_end(id, data, i, items),
            n,
        ),
    decreases items.len(),
{
    if items.len() == 0 {
        let single = items.push(n);
        assert(single[0] == n);
        assert(single.drop_first() =~= Seq::<Nbt>::empty());
        let m = spec_child_end(id, data, i, n);
        assert(spec_children_ok(id, data, m, single.drop_first()));
        assert(spec_children_end(id, data, m, single.drop_first()) == m);
    } else {
        let m0 = spec_child_end(id, data, i, items[0]);
        lemma_children_snoc(id, data, m0, items.drop_first(), n);
        assert(items.drop_first().push(n) =~= items.push(n).drop_first());
        assert(items.push(n)[0] == items[0]);
    }
}

/// Decodes the payload of a compound tag starting at `payload_start`:
/// decoding fails exactly when no compound decoding of that payload exists.
fn read_nbt_compound(data: &Vec<u8>, payload_start: usize) -> (r: Result<(Nbt, usize), Error>)
    requires
        payload_start <= data@.len(),
    ensures
        match r {
            Ok((n, j)) => {
                &&& n matches Nbt::NbtCompound(entries)
                &&& spec_child_parses(10u8, data@, payload_start as int, n, j as int)
                &&& payload_start < j <= data@.len()
            },
            Err(e) => e == Error::MalformedInput && forall|es: Seq<NbtEntry>|
                !spec_compound_ok(data@, payload_start as int, es),
        },
    decreases data@.len() - payload_start, 0int,
{
    let ghost data_view = data@;
    let mut entries: Vec<NbtEntry> = Vec::new();
    let mut cur: usize = payload_start;
    loop
        invariant
            payload_start <= cur <= data_view.len(),
            data_view == data@,
            spec_entries_ok(data_view, payload_start as int, entries@),
            spec_entries_end(data_view, payload_start as int, entries@) == cur as int,
        decreases data_view.len() - cur,
    {
        let (id, name, p) = match read_nbt_tag(data, cur) {
            Ok(v) => v,
            Err(e) => {
                proof {
                    assert(spec_stuck(data_view, cur as int));
                    assert forall|es: Seq<NbtEntry>| !spec_compound_ok(
                        data_view,
                        payload_start as int,
                        es,
                    ) by {
                        lemma_no_compound_extension(
                            data_view,
                            payload_start as int,
                            entries@,
                            es,
                        );
                    }
                }
                return Err(e);
            },
        };
        if id == 0 {
            let result = Nbt::NbtCompound(entries);
            proof {
                assert(spec_compound_ok(data_view, payload_start as int, entries@));
                assert(spec_child_end(10u8, data_view, payload_start as int, result) == p as int);
            }
            return Ok((result, p));
        }
        let (child, next) = match get_nbt_child(id, data, p) {
            Ok(v) => v,
            Err(e) => {
                proof {
                    assert(spec_stuck(data_view, cur as int));
                    assert forall|es: Seq<NbtEntry>| !spec_compound_ok(
                        data_view,
                        payload_start as int,
                        es,
                    ) by {
                        lemma_no_compound_extension(
                            data_view,
                            payload_start as int,
                            entries@,
                            es,
                        );
                    }
                }
                return Err(e);
            },
        };
        proof {
            lemma_entries_snoc(
                data_view,
                payload_start as int,
                entries@,
                NbtEntry { name: name, value: child },
                id,
                name@,
                p as int,
            );
        }
        let entry = NbtEntry { name, value: child };
        entries.push(entry);
        cur = next;
    }
}

/// Decodes the payload of a list tag starting at `payload_start`: decoding
/// fails exactly when no list decoding of that payload exists.
fn read_nbt_list(data: &Vec<u8>, payload_start: usize) -> (r: Result<(Nbt, usize), Error>)
    requires
        payload_start <= data@.len(),
    ensures
        match r {
            Ok((n, j)) => {
                &&& n matches Nbt::NbtList(items)
                &&& spec_child_parses(9u8, data@, payload_start as int, n, j as int)
                &&& payload_start < j <= data@.len()
            },
            Err(e) => e == Error::MalformedInput && forall|items: Seq<Nbt>|
                !spec_list_ok(data@, payload_start as int, items),
        },
    decreases data@.len() - payload_start, 0int,
{
    let ghost data_view = data@;
    let n = data.len();
    if n - payload_start < 5 {
        return Err(Error::MalformedInput);
    }
    let id = data[payload_start];
    let count = read_four_byte_size(data, payload_start + 1);
    let mut items: Vec<Nbt> = Vec::new();
    let mut cur: usize = payload_start + 5;
    let mut k: usize = 0;
    while k < count
        invariant
            payload_start + 5 <= cur <= data_view.len(),
            data_view == data@,
            k <= count,
            id == data_view[payload_start as int],
            count == spec_be4(data_view, payload_start + 1),
            items@.len() == k,
            spec_children_ok(id, data_view, payload_start + 5, items@),
            spec_children_end(id, data_view, payload_start + 5, items@) == cur as int,
        decreases count - k,
    {
        let (child, next) = match get_nbt_child(id, data, cur) {
            Ok(v) => v,
            Err(e) => {
                proof {
                    assert forall|hyp: Seq<Nbt>| !spec_list_ok(
                        data_view,
                        payload_start as int,
                        hyp,
                    ) by {
                        if spec_list_ok(data_view, payload_start as int, hyp) {
                            lemma_no_children_extension(
                                id,
                                data_view,
                                payload_start + 5,
                                items@,
                                hyp,
                            );
                        }
                    }
                }
                return Err(e);
            },
        };
        proof {
            lemma_children_snoc(id, data_view, payload_start + 5, items@, child);
        }
        items.push(child);
        cur = next;
        k = k + 1;
    }
    let result = Nbt::NbtList(items);
    proof {
        assert(spec_child_ok(9u8, data_view, payload_start as int, result));
        assert(spec_child_end(9u8, data_view, payload_start as int, result) == cur as int);
    }
    Ok((result, cur))
}

/// Decodes the payload of tag `id` starting at `index`: a leaf byte span for
/// the primitive tags, recursion for lists and compounds, and a failure for
/// unknown or unsupported ids.
fn get_nbt_child(id: u8, data: &Vec<u8>, index: usize) -> (r: Result<(Nbt, usize), Error>)
    requires
        index <= data@.len(),
    ensures
        match r {
            Ok((n, j)) => {
                &&& spec_child_parses(id, data@, index as int, n, j as int)
                &&& index < j <= data@.len()
            },
            Err(e) => e == Error::MalformedInput && forall|n: Nbt|
                !spec_child_ok(id, data@, index as int, n),
        },
    decreases data@.len() - index, 1int,
{
    let n = data.len();
    let len_off = match get_nbt_data_length_and_offset(id, data, index) {
        Ok(v) => v,
        Err(e) => {
            proof {
                assert forall|hyp: Nbt| !spec_child_ok(id, data@, index as int, hyp) by {
                    match spec_data_len_off(id, data@, index as int) {
                        None => {},
                        Some((l, o)) => {
                            assert(index + o + l > data@.len());
                        },
                    }
                }
            }
            return Err(e);
        },
    };
    match len_off {
        Some((len, off)) => {
            if len > n - index || off > n - index - len {
                proof {
                    assert(index + off + len > data@.len());
                    assert forall|hyp: Nbt| !spec_child_ok(id, data@, index as int, hyp) by {}
                }
                return Err(Error::MalformedInput);
            }
            let start = index + off;
            let end = start + len;
            let bytes = subrange_vec(data, start, end);
            if end == index {
                // a zero-width payload cannot happen: every primitive tag
                // either has positive fixed width or a length prefix
                proof {
                    assert(false);
                }
            }
            Ok((Nbt::NbtData(bytes), end))
        },
        None => {
            if id == 9 {
                let r = read_nbt_list(data, index);
                proof {
                    if r is Err {
                        assert forall|hyp: Nbt| !spec_child_ok(id, data@, index as int, hyp) by {
                            if let Nbt::NbtList(items) = hyp {
                                assert(!spec_list_ok(data@, index as int, items@));
                            }
                        }
                    }
                }
                r
            } else if id == 10 {
                let r = read_nbt_compound(data, index);
                proof {
                    if r is Err {
                        assert forall|hyp: Nbt| !spec_child_ok(id, data@, index as int, hyp) by {
                            if let Nbt::NbtCompound(es) = hyp {
                                assert(!spec_compound_ok(data@, index as int, es@));
                            }
                        }
                    }
                }
                r
            } else {
                Err(Error::MalformedInput)
            }
        },
    }
}

/// Decodes a whole chunk payload: skips the outer tag header and returns
/// the root compound. Decoding fails exactly on payloads that no tree
/// decodes: every well-formed payload is decoded, and nothing else is.
pub fn read_chunk_nbt(data: &Vec<u8>) -> (r: Result<Nbt, Error>)
    ensures
        match r {
            Ok(n) => n matches Nbt::NbtCompound(entries) && spec_chunk_parses(data@, entries@),
            Err(e) => e == Error::MalformedInput && forall|root: Seq<NbtEntry>|
                !spec_chunk_parses(data@, root),
        },
{
    let (_, _, payload_start) = match read_nbt_tag(data, 0) {
        Ok(v) => v,
        Err(e) => {
            return Err(e);
        },
    };
    let (nbt_compound, _) = match read_nbt_compound(data, payload_start) {
        Ok(v) => v,
        Err(e) => {
            return Err(e);
        },
    };
    proof {
        if let Nbt::NbtCompound(entries) = &nbt_compound {
            assert(spec_compound_ok(data@, payload_start as int, entries@));
            assert(spec_chunk_parses(data@, entries@));
        }
    }
    Ok(nbt_compound)
}

/// The last child of a compound registered under `name`: a later entry for
/// one name overrides an earlier one.
pub open spec fn spec_nbt_lookup(entries: Seq<NbtEntry>, name: Seq<u8>) -> Option<Nbt>
    decreases entries.len(),
{
    if entries.len() == 0 {
        None
    } else if entries.last().name@ == name {
        Some(entries.last().value)
    } else {
        spec_nbt_lookup(entries.drop_last(), name)
    }
}

/// Looks up the last child of a compound registered under `name`.
pub fn nbt_lookup<'a>(entries: &'a Vec<NbtEntry>, name: &[u8]) -> (r: Option<&'a Nbt>)
    ensures
        match r {
            Some(n) => spec_nbt_lookup(entries@, name@) == Some(*n),
            None => spec_nbt_lookup(entries@, name@) is None,
        },
{
    proof {
        assert(entries@.subrange(0, entries@.len() as int) =~= entries@);
    }
    let mut i: usize = entries.len();
    while i > 0
        invariant
            i <= entries@.len(),
            spec_nbt_lookup(entries@, name@) == spec_nbt_lookup(
                entries@.subrange(0, i as int),
                name@,
            ),
        decreases i,
    {
        proof {
            let part = entries@.subrange(0, i as int);
            assert(part.last() == entries@[i - 1]);
            assert(part.drop_last() =~= entries@.subrange(0, i - 1));
        }
        i = i - 1;
        if crate::strutil::bytes_eq(entries[i].name.as_slice(), name) {
            return Some(&entries[i].value);
        }
    }
    proof {
        assert(entries@.subrange(0, 0) =~= Seq::<NbtEntry>::empty());
    }
    None
}

} // verus!
