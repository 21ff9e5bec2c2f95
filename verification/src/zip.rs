//! Minimal deterministic ZIP writer (STORE method, no compression): local
//! file headers with data, a central directory and the end record.

use crate::bytes::{le16, le32, push_bytes, push_le16, push_le32};
use crate::crc::{crc32, crc32_of, crc32_table};
use vstd::prelude::*;
use vstd::string::*;

verus! {

/// The fixed thirty bytes of a member's local file header.
pub open spec fn local_head(name: Seq<u8>, data: Seq<u8>) -> Seq<u8> {
    le32(0x04034b50) + le16(20) + le16(0x0800) + le16(0) + le16(0) + le16(0x21)
        + le32(crc32_of(data)) + le32(data.len() as u32) + le32(data.len() as u32)
        + le16(name.len() as u16) + le16(0)
}

/// Local file header of one member, followed by its name and stored data.
pub open spec fn local_entry(name: Seq<u8>, data: Seq<u8>) -> Seq<u8> {
    local_head(name, data) + name + data
}

/// The fixed forty-six bytes of a member's central directory record.
pub open spec fn central_head(name: Seq<u8>, data: Seq<u8>, offset: u32) -> Seq<u8> {
    le32(0x02014b50) + le16(20) + le16(20) + le16(0x0800) + le16(0) + le16(0) + le16(0x21)
        + le32(crc32_of(data)) + le32(data.len() as u32) + le32(data.len() as u32)
        + le16(name.len() as u16) + le16(0) + le16(0) + le16(0) + le16(0) + le32(0)
        + le32(offset)
}

/// Central directory record of one member whose local header is at `offset`.
pub open spec fn central_entry(name: Seq<u8>, data: Seq<u8>, offset: u32) -> Seq<u8> {
    central_head(name, data, offset) + name
}

/// The local headers and data of all members, in order.
pub open spec fn zip_locals(es: Seq<(Seq<u8>, Seq<u8>)>) -> Seq<u8>
    decreases es.len(),
{
    if es.len() == 0 {
        seq![]
    } else {
        zip_locals(es.drop_last()) + local_entry(es.last().0, es.last().1)
    }
}

/// The central directory of all members, in order.
pub open spec fn zip_central(es: Seq<(Seq<u8>, Seq<u8>)>) -> Seq<u8>
    decreases es.len(),
{
    if es.len() == 0 {
        seq![]
    } else {
        zip_central(es.drop_last())
            + central_entry(es.last().0, es.last().1, zip_locals(es.drop_last()).len() as u32)
    }
}

/// The end-of-central-directory record.
pub open spec fn zip_end(count: nat, cd_size: nat, cd_offset: nat) -> Seq<u8> {
    le32(0x06054b50) + le16(0) + le16(0) + le16(count as u16) + le16(count as u16)
        + le32(cd_size as u32) + le32(cd_offset as u32) + le16(0)
}

/// The whole archive for members given as (name bytes, data).
pub open spec fn zip_archive(es: Seq<(Seq<u8>, Seq<u8>)>) -> Seq<u8> {
    let l = zip_locals(es);
    let c = zip_central(es);
    l + c + zip_end(es.len(), c.len(), l.len())
}

/// Members as (UTF-8 name bytes, data).
pub open spec fn member_bytes(entries: Seq<(&str, &[u8])>) -> Seq<(Seq<u8>, Seq<u8>)> {
    entries.map_values(|e: (&str, &[u8])| (e.0.spec_bytes(), e.1@))
}

fn push_local_entry(out: &mut Vec<u8>, name: &[u8], data: &[u8], crc: u32)
    requires
        crc == crc32_of(data@),
    ensures
        final(out)@ == old(out)@ + local_entry(name@, data@),
{
    let ghost out0 = out@;
    push_le32(out, 0x04034b50);
    push_le16(out, 20);
    push_le16(out, 0x0800);
    push_le16(out, 0);
    push_le16(out, 0);
    push_le16(out, 0x21);
    push_le32(out, crc);
    push_le32(out, data.len() as u32);
    push_le32(out, data.len() as u32);
    push_le16(out, name.len() as u16);
    push_le16(out, 0);
    push_bytes(out, name);
    push_bytes(out, data);
    assert(out@ =~= out0 + local_entry(name@, data@));
}

fn push_central_entry(central: &mut Vec<u8>, name: &[u8], data: &[u8], crc: u32, offset: u32)
    requires
        crc == crc32_of(data@),
    ensures
        final(central)@ == old(central)@ + central_entry(name@, data@, offset),
{
    let ghost c0 = central@;
    push_le32(central, 0x02014b50);
    push_le16(central, 20);
    push_le16(central, 20);
    push_le16(central, 0x0800);
    push_le16(central, 0);
    push_le16(central, 0);
    push_le16(central, 0x21);
    push_le32(central, crc);
    push_le32(central, data.len() as u32);
    push_le32(central, data.len() as u32);
    push_le16(central, name.len() as u16);
    push_le16(central, 0);
    push_le16(central, 0);
    push_le16(central, 0);
    push_le16(central, 0);
    push_le32(central, 0);
    push_le32(central, offset);
    push_bytes(central, name);
    assert(central@ =~= c0 + central_entry(name@, data@, offset));
}

/// Packs `entries` (name, data) into a ZIP archive, stored uncompressed.
#[verifier::spinoff_prover]
#[verifier::rlimit(40)]
pub fn zip_package(entries: &[(&str, &[u8])]) -> (z: Vec<u8>)
    ensures
        z@ == zip_archive(member_bytes(entries@)),
{
    let crc_table = crc32_table();
    let mut out: Vec<u8> = Vec::new();
    let mut central: Vec<u8> = Vec::new();
    let ghost es = member_bytes(entries@);

    let mut i: usize = 0;
    while i < entries.len()
        invariant
            i <= entries.len(),
            es == member_bytes(entries@),
            crate::crc::is_crc_table(crc_table),
            out@ == zip_locals(es.take(i as int)),
            central@ == zip_central(es.take(i as int)),
        decreases entries.len() - i,
    {
        let (name, data) = entries[i];
        let offset = out.len() as u32;
        let name_bytes = name.as_bytes();
        let crc = crc32(&crc_table, data);
        let ghost prev = es.take(i as int);
        assert(es.take(i + 1).drop_last() == prev);
        assert(es.take(i + 1).last() == (name_bytes@, data@));

        push_local_entry(&mut out, name_bytes, data, crc);
        push_central_entry(&mut central, name_bytes, data, crc, offset);
        i = i + 1;
    }
    assert(es.take(entries.len() as int) == es);

    let cd_offset = out.len() as u32;
    push_bytes(&mut out, central.as_slice());
    let cd_size = central.len() as u32;

    let ghost body = out@;
    push_le32(&mut out, 0x06054b50);
    push_le16(&mut out, 0);
    push_le16(&mut out, 0);
    push_le16(&mut out, entries.len() as u16);
    push_le16(&mut out, entries.len() as u16);
    push_le32(&mut out, cd_size);
    push_le32(&mut out, cd_offset);
    push_le16(&mut out, 0);
    assert(out@ =~= body + zip_end(es.len(), central@.len(), zip_locals(es).len()));
    out
}


proof fn lemma_locals_prefix(es: Seq<(Seq<u8>, Seq<u8>)>, k: int)
    requires
        0 <= k <= es.len(),
    ensures
        zip_locals(es.take(k)).len() <= zip_locals(es).len(),
        zip_locals(es).take(zip_locals(es.take(k)).len() as int) == zip_locals(es.take(k)),
    decreases es.len() - k,
{
    if k == es.len() {
        assert(es.take(k) == es);
    } else {
        lemma_locals_prefix(es, k + 1);
        assert(es.take(k + 1).drop_last() == es.take(k));
        let a = zip_locals(es.take(k));
        let b = zip_locals(es.take(k + 1));
        assert(b == a + local_entry(es[k].0, es[k].1));
        assert(zip_locals(es).take(a.len() as int) =~= b.take(a.len() as int));
        assert(b.take(a.len() as int) =~= a);
    }
}

/// Where member `k`'s local header starts: after the local entries of the
/// members before it.
pub open spec fn member_offset(es: Seq<(Seq<u8>, Seq<u8>)>, k: int) -> nat {
    zip_locals(es.take(k)).len()
}

/// Every member's local header, name and data stand in the archive at the
/// offset that its central-directory record gives.
pub proof fn lemma_member_at_offset(es: Seq<(Seq<u8>, Seq<u8>)>, k: int)
    requires
        0 <= k < es.len(),
    ensures
        member_offset(es, k) + local_entry(es[k].0, es[k].1).len() <= zip_archive(es).len(),
        zip_archive(es).subrange(member_offset(es, k) as int, (member_offset(es, k) + local_entry(es[k].0, es[k].1).len()) as int)
            == local_entry(es[k].0, es[k].1),
        zip_central(es.take(k + 1)) == zip_central(es.take(k)) + central_entry(es[k].0, es[k].1, member_offset(es, k) as u32),
{
    lemma_locals_prefix(es, k + 1);
    assert(es.take(k + 1).drop_last() == es.take(k));
    assert(es.take(k + 1).last() == es[k]);
    let a = zip_locals(es.take(k));
    let e = local_entry(es[k].0, es[k].1);
    let l = zip_locals(es);
    assert(zip_locals(es.take(k + 1)) == a + e);
    assert(l.take((a + e).len() as int) == a + e);
    assert(zip_archive(es).subrange(a.len() as int, (a.len() + e.len()) as int) =~= (a + e).subrange(a.len() as int, (a.len() + e.len()) as int));
    assert((a + e).subrange(a.len() as int, (a.len() + e.len()) as int) =~= e);
}

/// The little-endian 16-bit number at byte `i` of `z`.
pub open spec fn u16_at(z: Seq<u8>, i: int) -> nat {
    (z[i] + 256 * z[i + 1]) as nat
}

/// The little-endian 32-bit number at byte `i` of `z`.
pub open spec fn u32_at(z: Seq<u8>, i: int) -> nat {
    (z[i] + 256 * z[i + 1] + 65536 * z[i + 2] + 16777216 * z[i + 3]) as nat
}

/// The member that a reader finds at local-header offset `off`: the name of
/// the length its header records at byte 26, then the data of the size it
/// records at byte 18.
pub open spec fn read_member(z: Seq<u8>, off: int) -> (Seq<u8>, Seq<u8>) {
    let nl = u16_at(z, off + 26);
    let dl = u32_at(z, off + 18);
    (z.subrange(off + 30, off + 30 + nl), z.subrange(off + 30 + nl, off + 30 + nl + dl))
}

proof fn lemma_le16_value(x: u16)
    ensures
        le16(x)[0] + 256 * le16(x)[1] == x,
{
}

proof fn lemma_le32_value(x: u32)
    ensures
        le32(x)[0] + 256 * le32(x)[1] + 65536 * le32(x)[2] + 16777216 * le32(x)[3] == x,
{
    assert((x % 256) + 256 * ((x / 256) % 256) + 65536 * ((x / 65536) % 256) + 16777216 * (x / 16777216) == x) by (bit_vector);
}

/// Where the fields of a local header stand.
proof fn lemma_local_head(name: Seq<u8>, data: Seq<u8>)
    ensures
        local_head(name, data).len() == 30,
        local_head(name, data).subrange(14, 18) == le32(crc32_of(data)),
        local_head(name, data).subrange(18, 22) == le32(data.len() as u32),
        local_head(name, data).subrange(26, 28) == le16(name.len() as u16),
{
    let h = local_head(name, data);
    assert(h.subrange(14, 18) =~= le32(crc32_of(data)));
    assert(h.subrange(18, 22) =~= le32(data.len() as u32));
    assert(h.subrange(26, 28) =~= le16(name.len() as u16));
}

/// A reader finds a local entry's name, data and checksum where the entry
/// stands.
#[verifier::spinoff_prover]
proof fn lemma_read_entry(z: Seq<u8>, off: int, name: Seq<u8>, data: Seq<u8>)
    requires
        0 <= off,
        off + local_entry(name, data).len() <= z.len(),
        z.subrange(off, off + local_entry(name, data).len()) == local_entry(name, data),
        name.len() <= 0xFFFF,
        data.len() <= 0xFFFF_FFFF,
    ensures
        u16_at(z, off + 26) == name.len(),
        u32_at(z, off + 18) == data.len(),
        u32_at(z, off + 14) == crc32_of(data),
{
    let h = local_head(name, data);
    let e = local_entry(name, data);
    let c = crc32_of(data);
    let nl = name.len() as u16;
    let dl = data.len() as u32;
    lemma_local_head(name, data);
    lemma_le16_value(nl);
    lemma_le32_value(dl);
    lemma_le32_value(c);
    let w = z.subrange(off, off + e.len());
    assert(e.subrange(0, 30) =~= h);
    let hz = z.subrange(off, off + 30);
    assert(hz =~= h) by {
        assert(hz =~= w.subrange(0, 30));
    }
    assert(hz.subrange(14, 18) == le32(c));
    assert(hz.subrange(18, 22) == le32(dl));
    assert(hz.subrange(26, 28) == le16(nl));
    assert(z[off + 14] == hz.subrange(14, 18)[0] && z[off + 15] == hz.subrange(14, 18)[1]
        && z[off + 16] == hz.subrange(14, 18)[2] && z[off + 17] == hz.subrange(14, 18)[3]);
    assert(z[off + 18] == hz.subrange(18, 22)[0] && z[off + 19] == hz.subrange(18, 22)[1]
        && z[off + 20] == hz.subrange(18, 22)[2] && z[off + 21] == hz.subrange(18, 22)[3]);
    assert(z[off + 26] == hz.subrange(26, 28)[0] && z[off + 27] == hz.subrange(26, 28)[1]);
    assert(u16_at(z, off + 26) == name.len());
    assert(u32_at(z, off + 18) == data.len());
}

/// Where a placed local entry's name and data stand.
proof fn lemma_read_parts(z: Seq<u8>, off: int, name: Seq<u8>, data: Seq<u8>)
    requires
        0 <= off,
        off + local_entry(name, data).len() <= z.len(),
        z.subrange(off, off + local_entry(name, data).len()) == local_entry(name, data),
    ensures
        z.subrange(off + 30, off + 30 + name.len()) == name,
        z.subrange(off + 30 + name.len(), off + 30 + name.len() + data.len()) == data,
{
    let h = local_head(name, data);
    let e = local_entry(name, data);
    lemma_local_head(name, data);
    let nn = name.len() as int;
    let dd = data.len() as int;
    lemma_sub_in(z, off, e, 30, 30 + nn);
    lemma_sub_in(z, off, e, 30 + nn, 30 + nn + dd);
    lemma_concat3(h, name, data);
}

/// A run inside a placed sequence is the same run of the placement.
proof fn lemma_sub_in(z: Seq<u8>, off: int, e: Seq<u8>, a: int, b: int)
    requires
        0 <= off,
        off + e.len() <= z.len(),
        z.subrange(off, off + e.len()) == e,
        0 <= a <= b <= e.len(),
    ensures
        z.subrange(off + a, off + b) == e.subrange(a, b),
{
    assert forall|j: int| 0 <= j < b - a implies z.subrange(off + a, off + b)[j] == e.subrange(a, b)[j] by {
        assert(z.subrange(off, off + e.len())[a + j] == z[off + a + j]);
    }
    assert(z.subrange(off + a, off + b) =~= e.subrange(a, b));
}

/// The middle and last parts of a concatenation of three.
proof fn lemma_concat3(h: Seq<u8>, n: Seq<u8>, d: Seq<u8>)
    ensures
        (h + n + d).subrange(h.len() as int, (h.len() + n.len()) as int) == n,
        (h + n + d).subrange((h.len() + n.len()) as int, (h.len() + n.len() + d.len()) as int) == d,
{
    assert((h + n + d).subrange(h.len() as int, (h.len() + n.len()) as int) =~= n);
    assert((h + n + d).subrange((h.len() + n.len()) as int, (h.len() + n.len() + d.len()) as int) =~= d);
}


/// Reading the archive back gives every member as it was written: at the
/// offset its central-directory record gives, the reader finds the member's
/// name and data, and the checksum field holds the CRC-32 of the data.
#[verifier::spinoff_prover]
#[verifier::rlimit(60)]
pub proof fn lemma_read_back(es: Seq<(Seq<u8>, Seq<u8>)>, k: int)
    requires
        0 <= k < es.len(),
        es[k].0.len() <= 0xFFFF,
        es[k].1.len() <= 0xFFFF_FFFF,
    ensures
        read_member(zip_archive(es), member_offset(es, k) as int) == es[k],
        u32_at(zip_archive(es), member_offset(es, k) + 14int) == crc32_of(es[k].1),
{
    lemma_member_at_offset(es, k);
    let z = zip_archive(es);
    let off = member_offset(es, k) as int;
    lemma_read_entry(z, off, es[k].0, es[k].1);
    lemma_read_parts(z, off, es[k].0, es[k].1);
}

proof fn lemma_local_signature(name: Seq<u8>, data: Seq<u8>)
    ensures
        local_entry(name, data).len() >= 4,
        local_entry(name, data).take(4) == seq![0x50u8, 0x4bu8, 0x03u8, 0x04u8],
{
    let sig = le32(0x04034b50);
    assert(sig =~= seq![0x50u8, 0x4bu8, 0x03u8, 0x04u8]);
    let rest = le16(20) + le16(0x0800) + le16(0) + le16(0) + le16(0x21)
        + le32(crc32_of(data)) + le32(data.len() as u32) + le32(data.len() as u32)
        + le16(name.len() as u16) + le16(0) + name + data;
    assert(local_entry(name, data) =~= sig + rest);
    assert((sig + rest).take(4) =~= sig);
}

/// An archive with a member starts with the local-header signature `PK\3\4`.
pub proof fn lemma_archive_signature(es: Seq<(Seq<u8>, Seq<u8>)>)
    requires
        es.len() > 0,
    ensures
        zip_archive(es).take(4) == seq![0x50u8, 0x4bu8, 0x03u8, 0x04u8],
{
    lemma_member_at_offset(es, 0);
    assert(es.take(0) =~= Seq::<(Seq<u8>, Seq<u8>)>::empty());
    assert(member_offset(es, 0) == 0);
    let e = local_entry(es[0].0, es[0].1);
    lemma_local_signature(es[0].0, es[0].1);
    let z = zip_archive(es);
    assert(z.subrange(0, e.len() as int) == e);
    assert forall|i: int| 0 <= i < 4 implies z[i] == e[i] by {
        assert(z.subrange(0, e.len() as int)[i] == z[i]);
    }
    assert(z.take(4) =~= e.take(4));
}

/// A 16-bit field of a placed piece reads back as its value.
proof fn lemma_u16_field(z: Seq<u8>, p: int, w: Seq<u8>, i: int, x: u16)
    requires
        0 <= p,
        p + w.len() <= z.len(),
        z.subrange(p, p + w.len()) == w,
        0 <= i,
        i + 2 <= w.len(),
        w.subrange(i, i + 2) == le16(x),
    ensures
        u16_at(z, p + i) == x,
{
    lemma_le16_value(x);
    assert(z[p + i] == z.subrange(p, p + w.len())[i]);
    assert(z[p + i + 1] == z.subrange(p, p + w.len())[i + 1]);
    assert(w[i] == w.subrange(i, i + 2)[0]);
    assert(w[i + 1] == w.subrange(i, i + 2)[1]);
}

/// A 32-bit field of a placed piece reads back as its value.
proof fn lemma_u32_field(z: Seq<u8>, p: int, w: Seq<u8>, i: int, x: u32)
    requires
        0 <= p,
        p + w.len() <= z.len(),
        z.subrange(p, p + w.len()) == w,
        0 <= i,
        i + 4 <= w.len(),
        w.subrange(i, i + 4) == le32(x),
    ensures
        u32_at(z, p + i) == x,
{
    lemma_le32_value(x);
    assert(z[p + i] == z.subrange(p, p + w.len())[i]);
    assert(z[p + i + 1] == z.subrange(p, p + w.len())[i + 1]);
    assert(z[p + i + 2] == z.subrange(p, p + w.len())[i + 2]);
    assert(z[p + i + 3] == z.subrange(p, p + w.len())[i + 3]);
    assert(w[i] == w.subrange(i, i + 4)[0]);
    assert(w[i + 1] == w.subrange(i, i + 4)[1]);
    assert(w[i + 2] == w.subrange(i, i + 4)[2]);
    assert(w[i + 3] == w.subrange(i, i + 4)[3]);
}

/// Where the fields of a central record stand.
proof fn lemma_central_fields(name: Seq<u8>, data: Seq<u8>, offset: u32)
    ensures
        central_head(name, data, offset).len() == 46,
        central_entry(name, data, offset).len() == 46 + name.len(),
        central_entry(name, data, offset).subrange(16, 20) == le32(crc32_of(data)),
        central_entry(name, data, offset).subrange(28, 30) == le16(name.len() as u16),
        central_entry(name, data, offset).subrange(42, 46) == le32(offset),
{
    let e = central_entry(name, data, offset);
    assert(e.subrange(16, 20) =~= le32(crc32_of(data)));
    assert(e.subrange(28, 30) =~= le16(name.len() as u16));
    assert(e.subrange(42, 46) =~= le32(offset));
}

/// Where the fields of the end record stand.
proof fn lemma_end_fields(n: nat, c: nat, l: nat)
    ensures
        zip_end(n, c, l).len() == 22,
        zip_end(n, c, l).subrange(0, 4) == le32(0x06054b50),
        zip_end(n, c, l).subrange(10, 12) == le16(n as u16),
        zip_end(n, c, l).subrange(12, 16) == le32(c as u32),
        zip_end(n, c, l).subrange(16, 20) == le32(l as u32),
{
    let e = zip_end(n, c, l);
    assert(e.subrange(0, 4) =~= le32(0x06054b50));
    assert(e.subrange(10, 12) =~= le16(n as u16));
    assert(e.subrange(12, 16) =~= le32(c as u32));
    assert(e.subrange(16, 20) =~= le32(l as u32));
}

proof fn lemma_central_prefix(es: Seq<(Seq<u8>, Seq<u8>)>, k: int)
    requires
        0 <= k <= es.len(),
    ensures
        zip_central(es.take(k)).len() <= zip_central(es).len(),
        zip_central(es).take(zip_central(es.take(k)).len() as int) == zip_central(es.take(k)),
    decreases es.len() - k,
{
    if k == es.len() {
        assert(es.take(k) == es);
    } else {
        lemma_central_prefix(es, k + 1);
        assert(es.take(k + 1).drop_last() == es.take(k));
        let a = zip_central(es.take(k));
        let b = zip_central(es.take(k + 1));
        assert(b.take(a.len() as int) =~= a);
        assert(zip_central(es).take(a.len() as int) =~= b.take(a.len() as int));
    }
}

/// The position of the `k`-th central record, walking the records from
/// `start`: each record is 46 bytes and the name length it records.
pub open spec fn central_pos(z: Seq<u8>, start: int, k: nat) -> int
    decreases k,
{
    if k == 0 {
        start
    } else {
        let p = central_pos(z, start, (k - 1) as nat);
        p + 46 + u16_at(z, p + 28)
    }
}

/// The members a reader finds in an archive: the end record (the last 22
/// bytes) gives the member count and the central directory's offset; each
/// central record gives its member's local-header offset, where the member
/// is read.
pub open spec fn read_archive(z: Seq<u8>) -> Seq<(Seq<u8>, Seq<u8>)> {
    let e = z.len() - 22;
    let start = u32_at(z, e + 16) as int;
    Seq::new(u16_at(z, e + 10), |k: int| read_member(z, u32_at(z, central_pos(z, start, k as nat) + 42) as int))
}

/// Archives whose fields all fit: fewer than 65536 members with names
/// shorter than 65536 bytes and data under 4 GiB, and the local part and the
/// central directory each under 4 GiB.
pub open spec fn zip_fits(es: Seq<(Seq<u8>, Seq<u8>)>) -> bool {
    &&& es.len() <= 0xFFFF
    &&& forall|k: int| 0 <= k < es.len() ==> #[trigger] es[k].0.len() <= 0xFFFF && es[k].1.len() <= 0xFFFF_FFFF
    &&& zip_locals(es).len() <= 0xFFFF_FFFF
    &&& zip_central(es).len() <= 0xFFFF_FFFF
}

/// A piece placed inside the middle part of a concatenation stands in the
/// whole at the middle part's offset plus its own.
proof fn lemma_inner_place(l: Seq<u8>, c: Seq<u8>, t: Seq<u8>, a: Seq<u8>, ce: Seq<u8>)
    requires
        (a + ce).len() <= c.len(),
        c.take((a + ce).len() as int) == a + ce,
    ensures
        (l + c + t).subrange((l.len() + a.len()) as int, (l.len() + a.len() + ce.len()) as int) == ce,
{
    let z = l + c + t;
    assert forall|j: int| 0 <= j < ce.len() implies z[l.len() + a.len() + j] == ce[j] by {
        assert(z[l.len() + a.len() + j] == c[a.len() + j]);
        assert(c[a.len() + j] == c.take((a + ce).len() as int)[a.len() + j]);
        assert((a + ce)[a.len() + j] == ce[j]);
    }
    assert(z.subrange((l.len() + a.len()) as int, (l.len() + a.len() + ce.len()) as int) =~= ce);
}

/// The `k`-th central record stands after the records before it.
#[verifier::spinoff_prover]
proof fn lemma_central_at(es: Seq<(Seq<u8>, Seq<u8>)>, k: int)
    requires
        0 <= k < es.len(),
    ensures
        ({
            let z = zip_archive(es);
            let p = zip_locals(es).len() + zip_central(es.take(k)).len();
            let ce = central_entry(es[k].0, es[k].1, member_offset(es, k) as u32);
            &&& p + ce.len() <= z.len()
            &&& z.subrange(p as int, (p + ce.len()) as int) == ce
            &&& zip_central(es.take(k + 1)).len() == zip_central(es.take(k)).len() + ce.len()
        }),
{
    lemma_member_at_offset(es, k);
    lemma_central_prefix(es, k + 1);
    let l = zip_locals(es);
    let c = zip_central(es);
    let en = zip_end(es.len(), c.len(), l.len());
    let a = zip_central(es.take(k));
    let ce = central_entry(es[k].0, es[k].1, member_offset(es, k) as u32);
    assert(zip_central(es.take(k + 1)) == a + ce);
    lemma_inner_place(l, c, en, a, ce);
    assert(zip_archive(es) == l + c + en);
}

/// Walking the central records from the directory's start reaches the
/// `k`-th record where it stands.
proof fn lemma_central_walk(es: Seq<(Seq<u8>, Seq<u8>)>, k: nat)
    requires
        k <= es.len(),
        zip_fits(es),
    ensures
        central_pos(zip_archive(es), zip_locals(es).len() as int, k) == zip_locals(es).len() + zip_central(es.take(k as int)).len(),
    decreases k,
{
    if k > 0 {
        let j = (k - 1) as int;
        lemma_central_walk(es, (k - 1) as nat);
        lemma_central_at(es, j);
        let z = zip_archive(es);
        let p = zip_locals(es).len() + zip_central(es.take(j)).len();
        let ce = central_entry(es[j].0, es[j].1, member_offset(es, j) as u32);
        lemma_central_fields(es[j].0, es[j].1, member_offset(es, j) as u32);
        assert(es[j].0.len() <= 0xFFFF);
        lemma_u16_field(z, p as int, ce, 28, es[j].0.len() as u16);
    }
}

/// Reading the archive back gives exactly the members, in order: the end
/// record holds the signature `PK\5\6`, the member count, the central
/// directory's true size and offset; walking the central records and
/// reading each member at the offset its record gives yields every member's
/// name and data, and both its local and central checksum fields hold the
/// CRC-32 of its data.
#[verifier::spinoff_prover]
pub proof fn lemma_read_archive(es: Seq<(Seq<u8>, Seq<u8>)>)
    requires
        zip_fits(es),
    ensures
        ({
            let z = zip_archive(es);
            let e = z.len() - 22;
            &&& z.len() >= 22
            &&& z.subrange(e, e + 4) == le32(0x06054b50)
            &&& u16_at(z, e + 10) == es.len()
            &&& u32_at(z, e + 12) == zip_central(es).len()
            &&& u32_at(z, e + 16) == zip_locals(es).len()
            &&& read_archive(z) == es
            &&& forall|k: int| 0 <= k < es.len() ==> #[trigger] u32_at(z, member_offset(es, k) + 14int) == crc32_of(es[k].1)
                && u32_at(z, central_pos(z, zip_locals(es).len() as int, k as nat) + 16) == crc32_of(es[k].1)
        }),
{
    let z = zip_archive(es);
    let l = zip_locals(es);
    let c = zip_central(es);
    let en = zip_end(es.len(), c.len(), l.len());
    lemma_end_fields(es.len(), c.len(), l.len());
    let e = z.len() - 22;
    assert(z.subrange(e, e + 22) =~= en);
    assert(z.subrange(e, e + 4) =~= en.subrange(0, 4));
    lemma_u16_field(z, e, en, 10, es.len() as u16);
    lemma_u32_field(z, e, en, 12, c.len() as u32);
    lemma_u32_field(z, e, en, 16, l.len() as u32);
    let start = l.len() as int;
    assert forall|k: int| 0 <= k < es.len() implies
        #[trigger] read_member(z, u32_at(z, central_pos(z, start, k as nat) + 42) as int) == es[k]
        && u32_at(z, member_offset(es, k) + 14int) == crc32_of(es[k].1)
        && u32_at(z, central_pos(z, start, k as nat) + 16) == crc32_of(es[k].1) by {
        lemma_central_walk(es, k as nat);
        lemma_central_at(es, k);
        lemma_locals_prefix(es, k);
        let p = start + zip_central(es.take(k)).len();
        let mo = member_offset(es, k);
        assert(mo <= l.len());
        let ce = central_entry(es[k].0, es[k].1, mo as u32);
        lemma_central_fields(es[k].0, es[k].1, mo as u32);
        lemma_u32_field(z, p, ce, 42, mo as u32);
        lemma_u32_field(z, p, ce, 16, crc32_of(es[k].1));
        assert(es[k].0.len() <= 0xFFFF && es[k].1.len() <= 0xFFFF_FFFF);
        lemma_read_back(es, k);
    }
    assert(read_archive(z) =~= es);
}

} // verus!
