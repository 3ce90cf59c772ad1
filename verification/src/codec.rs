//! Binary codec for the vault's plaintext payload.
//!
//! Every variable-length field is framed by a 64-bit little-endian byte
//! count; strings are framed UTF-8. The payload is the group count followed
//! by the groups, each a name, an entry count and the entries, each three
//! framed strings (identifier, name, password). Decoding accepts exactly the
//! encodings: any leftover bytes, malformed UTF-8 or duplicate group name is
//! rejected.

use crate::password::{Entry, EntryView};
use crate::vault::{schema_names_unique, GroupView, SchemaView, VaultSchema};
use vstd::bytes::{
    lemma_auto_spec_u64_to_from_le_bytes, spec_u64_from_le_bytes, spec_u64_to_le_bytes,
    u64_from_le_bytes, u64_to_le_bytes,
};
use vstd::prelude::*;
use vstd::slice::{slice_subrange, slice_to_vec};
use vstd::string::StringSliceAdditionalSpecFns;
use vstd::utf8::{decode_utf8, encode_utf8, encode_utf8_decode_utf8, encode_utf8_valid_utf8,
    valid_utf8};

verus! {

// ---------------------------------------------------------------------------
// Specification: encoding
// ---------------------------------------------------------------------------
/// A 64-bit count, little endian.
pub open spec fn spec_enc_u64(x: u64) -> Seq<u8> {
    spec_u64_to_le_bytes(x)
}

/// A byte string, framed by its length.
pub open spec fn spec_enc_bytes(b: Seq<u8>) -> Seq<u8> {
    spec_enc_u64(b.len() as u64) + b
}

/// A character string: its UTF-8 bytes, framed.
pub open spec fn spec_enc_str(s: Seq<char>) -> Seq<u8> {
    spec_enc_bytes(encode_utf8(s))
}

/// An entry: identifier, name, password.
pub open spec fn spec_enc_entry(e: EntryView) -> Seq<u8> {
    spec_enc_str(e.id) + spec_enc_str(e.name) + spec_enc_str(e.password)
}

/// A run of entries, in order.
pub open spec fn spec_enc_entries(es: Seq<EntryView>) -> Seq<u8>
    decreases es.len(),
{
    if es.len() == 0 {
        Seq::empty()
    } else {
        spec_enc_entry(es.first()) + spec_enc_entries(es.drop_first())
    }
}

/// A group: its name, its entry count, its entries.
pub open spec fn spec_enc_group(g: GroupView) -> Seq<u8> {
    spec_enc_str(g.0) + spec_enc_u64(g.1.len() as u64) + spec_enc_entries(g.1)
}

/// A run of groups, in order.
pub open spec fn spec_enc_groups(gs: SchemaView) -> Seq<u8>
    decreases gs.len(),
{
    if gs.len() == 0 {
        Seq::empty()
    } else {
        spec_enc_group(gs.first()) + spec_enc_groups(gs.drop_first())
    }
}

/// The whole payload: the group count, then the groups.
pub open spec fn spec_enc_schema(gs: SchemaView) -> Seq<u8> {
    spec_enc_u64(gs.len() as u64) + spec_enc_groups(gs)
}

// ---------------------------------------------------------------------------
// Specification: decoding
// ---------------------------------------------------------------------------
/// Reads a 64-bit count at `pos`; fails on a short buffer.
pub open spec fn spec_dec_u64(d: Seq<u8>, pos: int) -> Option<(u64, int)> {
    if 0 <= pos && pos + 8 <= d.len() {
        Some((spec_u64_from_le_bytes(d.subrange(pos, pos + 8)), pos + 8))
    } else {
        None
    }
}

/// Reads a framed byte string at `pos`.
pub open spec fn spec_dec_bytes(d: Seq<u8>, pos: int) -> Option<(Seq<u8>, int)> {
    match spec_dec_u64(d, pos) {
        Some((n, p1)) => if p1 + n <= d.len() {
            Some((d.subrange(p1, p1 + n), p1 + n))
        } else {
            None
        },
        None => None,
    }
}

/// Reads a framed string at `pos`; fails on malformed UTF-8.
pub open spec fn spec_dec_str(d: Seq<u8>, pos: int) -> Option<(Seq<char>, int)> {
    match spec_dec_bytes(d, pos) {
        Some((b, p1)) => if valid_utf8(b) {
            Some((decode_utf8(b), p1))
        } else {
            None
        },
        None => None,
    }
}

/// Reads an entry's three strings at `pos`.
pub open spec fn spec_dec_entry(d: Seq<u8>, pos: int) -> Option<(EntryView, int)> {
    match spec_dec_str(d, pos) {
        Some((id, p1)) => match spec_dec_str(d, p1) {
            Some((name, p2)) => match spec_dec_str(d, p2) {
                Some((password, p3)) => Some((EntryView { id, name, password }, p3)),
                None => None,
            },
            None => None,
        },
        None => None,
    }
}

/// Reads exactly `n` entries starting at `pos`.
pub open spec fn spec_dec_entries(d: Seq<u8>, pos: int, n: nat) -> Option<(Seq<EntryView>, int)>
    decreases n,
{
    if n == 0 {
        Some((Seq::empty(), pos))
    } else {
        match spec_dec_entry(d, pos) {
            Some((e, p1)) => match spec_dec_entries(d, p1, (n - 1) as nat) {
                Some((es, p2)) => Some((seq![e] + es, p2)),
                None => None,
            },
            None => None,
        }
    }
}

/// Reads one group at `pos`.
pub open spec fn spec_dec_group(d: Seq<u8>, pos: int) -> Option<(GroupView, int)> {
    match spec_dec_str(d, pos) {
        Some((name, p1)) => match spec_dec_u64(d, p1) {
            Some((n, p2)) => match spec_dec_entries(d, p2, n as nat) {
                Some((es, p3)) => Some(((name, es), p3)),
                None => None,
            },
            None => None,
        },
        None => None,
    }
}

/// Reads exactly `n` groups starting at `pos`.
pub open spec fn spec_dec_groups(d: Seq<u8>, pos: int, n: nat) -> Option<(SchemaView, int)>
    decreases n,
{
    if n == 0 {
        Some((Seq::empty(), pos))
    } else {
        match spec_dec_group(d, pos) {
            Some((g, p1)) => match spec_dec_groups(d, p1, (n - 1) as nat) {
                Some((gs, p2)) => Some((seq![g] + gs, p2)),
                None => None,
            },
            None => None,
        }
    }
}

/// Reads a whole payload: group count, groups, nothing left over, and the
/// group names unique.
pub open spec fn spec_dec_schema(d: Seq<u8>) -> Option<SchemaView> {
    match spec_dec_u64(d, 0) {
        Some((n, p1)) => match spec_dec_groups(d, p1, n as nat) {
            Some((gs, p2)) => if p2 == d.len() && schema_names_unique(gs) {
                Some(gs)
            } else {
                None
            },
            None => None,
        },
        None => None,
    }
}

// ---------------------------------------------------------------------------
// Decoding an encoding recovers the value
// ---------------------------------------------------------------------------
/// A count decodes back to itself.
proof fn lemma_dec_u64_of_enc(d: Seq<u8>, pos: int, x: u64)
    requires
        0 <= pos,
        pos + 8 <= d.len(),
        d.subrange(pos, pos + 8) == spec_enc_u64(x),
    ensures
        spec_dec_u64(d, pos) == Some((x, pos + 8)),
{
    lemma_auto_spec_u64_to_from_le_bytes();
}

/// A framed byte string decodes back to itself.
proof fn lemma_dec_bytes_of_enc(d: Seq<u8>, pos: int, b: Seq<u8>)
    requires
        0 <= pos,
        b.len() <= u64::MAX,
        pos + spec_enc_bytes(b).len() <= d.len(),
        d.subrange(pos, pos + spec_enc_bytes(b).len()) == spec_enc_bytes(b),
    ensures
        spec_dec_bytes(d, pos) == Some((b, pos + spec_enc_bytes(b).len())),
{
    lemma_auto_spec_u64_to_from_le_bytes();
    let enc = spec_enc_bytes(b);
    assert(enc.len() == 8 + b.len());
    assert(d.subrange(pos, pos + 8) =~= spec_enc_u64(b.len() as u64)) by {
        assert forall|i: int| 0 <= i < 8 implies #[trigger] d.subrange(pos, pos + 8)[i]
            == spec_enc_u64(b.len() as u64)[i] by {
            assert(d.subrange(pos, pos + enc.len())[i] == enc[i]);
        }
    }
    lemma_dec_u64_of_enc(d, pos, b.len() as u64);
    assert(d.subrange(pos + 8, pos + 8 + b.len()) =~= b) by {
        assert forall|i: int| 0 <= i < b.len() implies #[trigger] d.subrange(
            pos + 8,
            pos + 8 + b.len(),
        )[i] == b[i] by {
            assert(d.subrange(pos, pos + enc.len())[8 + i] == enc[8 + i]);
        }
    }
}

/// A framed string decodes back to itself.
proof fn lemma_dec_str_of_enc(d: Seq<u8>, pos: int, s: Seq<char>)
    requires
        0 <= pos,
        encode_utf8(s).len() <= u64::MAX,
        pos + spec_enc_str(s).len() <= d.len(),
        d.subrange(pos, pos + spec_enc_str(s).len()) == spec_enc_str(s),
    ensures
        spec_dec_str(d, pos) == Some((s, pos + spec_enc_str(s).len())),
{
    lemma_dec_bytes_of_enc(d, pos, encode_utf8(s));
    encode_utf8_valid_utf8(s);
    encode_utf8_decode_utf8(s);
}

/// The length prefixes fit: a string's UTF-8 form is at most `u64::MAX`
/// bytes.
pub open spec fn str_bounded(s: Seq<char>) -> bool {
    encode_utf8(s).len() <= u64::MAX
}

/// All three strings of an entry are bounded.
pub open spec fn entry_bounded(e: EntryView) -> bool {
    str_bounded(e.id) && str_bounded(e.name) && str_bounded(e.password)
}

/// A group's name, entry count and entries are bounded.
pub open spec fn group_bounded(g: GroupView) -> bool {
    &&& str_bounded(g.0)
    &&& g.1.len() <= u64::MAX
    &&& forall|i: int| 0 <= i < g.1.len() ==> entry_bounded(#[trigger] g.1[i])
}

/// A schema's group count and groups are bounded. This holds of the view of
/// every in-memory schema, whose sequences live in vectors and strings.
pub open spec fn schema_bounded(gs: SchemaView) -> bool {
    &&& gs.len() <= u64::MAX
    &&& forall|i: int| 0 <= i < gs.len() ==> group_bounded(#[trigger] gs[i])
}

/// Splits knowledge of a decoded window: if a window of `d` holds `a + b`,
/// the two sub-windows hold `a` and `b`.
proof fn lemma_subrange_split(d: Seq<u8>, pos: int, a: Seq<u8>, b: Seq<u8>)
    requires
        0 <= pos,
        pos + a.len() + b.len() <= d.len(),
        d.subrange(pos, pos + a.len() + b.len()) == a + b,
    ensures
        d.subrange(pos, pos + a.len()) == a,
        d.subrange(pos + a.len(), pos + a.len() + b.len()) == b,
{
    let w = d.subrange(pos, pos + a.len() + b.len());
    assert(d.subrange(pos, pos + a.len()) =~= a) by {
        assert forall|i: int| 0 <= i < a.len() implies #[trigger] d.subrange(
            pos,
            pos + a.len(),
        )[i] == a[i] by {
            assert(w[i] == (a + b)[i]);
        }
    }
    assert(d.subrange(pos + a.len(), pos + a.len() + b.len()) =~= b) by {
        assert forall|i: int| 0 <= i < b.len() implies #[trigger] d.subrange(
            pos + a.len(),
            pos + a.len() + b.len(),
        )[i] == b[i] by {
            assert(w[a.len() + i] == (a + b)[a.len() + i]);
        }
    }
}

/// An entry's encoding decodes back to the entry.
proof fn lemma_dec_entry_of_enc(d: Seq<u8>, pos: int, e: EntryView)
    requires
        0 <= pos,
        entry_bounded(e),
        pos + spec_enc_entry(e).len() <= d.len(),
        d.subrange(pos, pos + spec_enc_entry(e).len()) == spec_enc_entry(e),
    ensures
        spec_dec_entry(d, pos) == Some((e, pos + spec_enc_entry(e).len())),
{
    let e1 = spec_enc_str(e.id);
    let e2 = spec_enc_str(e.name);
    let e3 = spec_enc_str(e.password);
    assert(spec_enc_entry(e) =~= e1 + (e2 + e3));
    lemma_subrange_split(d, pos, e1, e2 + e3);
    lemma_subrange_split(d, pos + e1.len(), e2, e3);
    lemma_dec_str_of_enc(d, pos, e.id);
    lemma_dec_str_of_enc(d, pos + e1.len(), e.name);
    lemma_dec_str_of_enc(d, pos + e1.len() + e2.len(), e.password);
    let parsed = EntryView { id: e.id, name: e.name, password: e.password };
    assert(parsed =~= e);
}

/// A run of entry encodings decodes back to the run.
proof fn lemma_dec_entries_of_enc(d: Seq<u8>, pos: int, es: Seq<EntryView>)
    requires
        0 <= pos,
        forall|i: int| 0 <= i < es.len() ==> entry_bounded(#[trigger] es[i]),
        pos + spec_enc_entries(es).len() <= d.len(),
        d.subrange(pos, pos + spec_enc_entries(es).len()) == spec_enc_entries(es),
    ensures
        spec_dec_entries(d, pos, es.len()) == Some((es, pos + spec_enc_entries(es).len())),
    decreases es.len(),
{
    if es.len() == 0 {
        assert(es =~= Seq::<EntryView>::empty());
    } else {
        let e0 = es.first();
        let rest = es.drop_first();
        let enc0 = spec_enc_entry(e0);
        let encr = spec_enc_entries(rest);
        lemma_subrange_split(d, pos, enc0, encr);
        lemma_dec_entry_of_enc(d, pos, e0);
        assert(forall|i: int| 0 <= i < rest.len() ==> entry_bounded(#[trigger] rest[i]));
        lemma_dec_entries_of_enc(d, pos + enc0.len(), rest);
        assert(seq![e0] + rest =~= es);
    }
}

/// A group's encoding decodes back to the group.
proof fn lemma_dec_group_of_enc(d: Seq<u8>, pos: int, g: GroupView)
    requires
        0 <= pos,
        group_bounded(g),
        pos + spec_enc_group(g).len() <= d.len(),
        d.subrange(pos, pos + spec_enc_group(g).len()) == spec_enc_group(g),
    ensures
        spec_dec_group(d, pos) == Some((g, pos + spec_enc_group(g).len())),
{
    let e1 = spec_enc_str(g.0);
    let e2 = spec_enc_u64(g.1.len() as u64);
    let e3 = spec_enc_entries(g.1);
    assert(spec_enc_group(g) =~= e1 + (e2 + e3));
    lemma_subrange_split(d, pos, e1, e2 + e3);
    lemma_subrange_split(d, pos + e1.len(), e2, e3);
    lemma_dec_str_of_enc(d, pos, g.0);
    lemma_auto_spec_u64_to_from_le_bytes();
    lemma_dec_u64_of_enc(d, pos + e1.len(), g.1.len() as u64);
    lemma_dec_entries_of_enc(d, pos + e1.len() + e2.len(), g.1);
    assert((g.0, g.1) =~= g);
}

/// A run of group encodings decodes back to the run.
proof fn lemma_dec_groups_of_enc(d: Seq<u8>, pos: int, gs: SchemaView)
    requires
        0 <= pos,
        forall|i: int| 0 <= i < gs.len() ==> group_bounded(#[trigger] gs[i]),
        pos + spec_enc_groups(gs).len() <= d.len(),
        d.subrange(pos, pos + spec_enc_groups(gs).len()) == spec_enc_groups(gs),
    ensures
        spec_dec_groups(d, pos, gs.len()) == Some((gs, pos + spec_enc_groups(gs).len())),
    decreases gs.len(),
{
    if gs.len() == 0 {
        assert(gs =~= Seq::<GroupView>::empty());
    } else {
        let g0 = gs.first();
        let rest = gs.drop_first();
        let enc0 = spec_enc_group(g0);
        let encr = spec_enc_groups(rest);
        lemma_subrange_split(d, pos, enc0, encr);
        lemma_dec_group_of_enc(d, pos, g0);
        assert(forall|i: int| 0 <= i < rest.len() ==> group_bounded(#[trigger] rest[i]));
        lemma_dec_groups_of_enc(d, pos + enc0.len(), rest);
        assert(seq![g0] + rest =~= gs);
    }
}

/// The payload codec round-trips: decoding the encoding of any bounded,
/// well-formed schema view yields that view again — same groups, same
/// entries, same order within each group.
pub proof fn lemma_schema_codec_round_trip(gs: SchemaView)
    requires
        schema_bounded(gs),
        schema_names_unique(gs),
    ensures
        spec_dec_schema(spec_enc_schema(gs)) == Some(gs),
{
    let d = spec_enc_schema(gs);
    let e1 = spec_enc_u64(gs.len() as u64);
    let e2 = spec_enc_groups(gs);
    lemma_auto_spec_u64_to_from_le_bytes();
    assert(d.subrange(0, e1.len() as int + e2.len() as int) =~= e1 + e2);
    lemma_subrange_split(d, 0, e1, e2);
    lemma_dec_u64_of_enc(d, 0, gs.len() as u64);
    lemma_dec_groups_of_enc(d, 8, gs);
}

// ---------------------------------------------------------------------------
// Executable encoding
// ---------------------------------------------------------------------------
/// Appends a 64-bit count.
fn enc_u64(out: &mut Vec<u8>, x: u64)
    ensures
        final(out)@ == old(out)@ + spec_enc_u64(x),
{
    let mut b = u64_to_le_bytes(x);
    out.append(&mut b);
}

/// Appends a framed byte string.
fn enc_bytes(out: &mut Vec<u8>, b: &[u8])
    ensures
        final(out)@ == old(out)@ + spec_enc_bytes(b@),
{
    enc_u64(out, b.len() as u64);
    let mut tail = slice_to_vec(b);
    out.append(&mut tail);
    proof {
        assert(out@ =~= old(out)@ + spec_enc_bytes(b@));
    }
}

/// Appends a framed string.
fn enc_str(out: &mut Vec<u8>, s: &str)
    ensures
        final(out)@ == old(out)@ + spec_enc_str(s@),
        str_bounded(s@),
{
    let b = s.as_bytes();
    let blen = b.len();
    proof {
        assert(blen == encode_utf8(s@).len());
    }
    enc_bytes(out, b);
}

/// Appends an entry: identifier, name, password.
fn enc_entry(out: &mut Vec<u8>, e: &Entry)
    ensures
        final(out)@ == old(out)@ + spec_enc_entry(e@),
        entry_bounded(e@),
{
    enc_str(out, e.id().as_str());
    enc_str(out, e.name().as_str());
    enc_str(out, e.password().expose().as_str());
    proof {
        assert(out@ =~= old(out)@ + spec_enc_entry(e@));
    }
}

/// Appends a run of entries, in order.
fn enc_entries(out: &mut Vec<u8>, es: &Vec<Entry>)
    ensures
        final(out)@ == old(out)@ + spec_enc_entries(es@.map_values(|e: Entry| e@)),
        forall|i: int| 0 <= i < es@.len() ==> entry_bounded((#[trigger] es@[i])@),
{
    let ghost esv = es@.map_values(|e: Entry| e@);
    let n = es.len();
    let mut i: usize = 0;
    proof {
        assert(esv.skip(0) =~= esv);
    }
    while i < n
        invariant
            i <= n,
            n == es.len(),
            esv == es@.map_values(|e: Entry| e@),
            out@ + spec_enc_entries(esv.skip(i as int)) == old(out)@ + spec_enc_entries(esv),
            forall|x: int| 0 <= x < i ==> entry_bounded((#[trigger] es@[x])@),
        decreases n - i,
    {
        let ghost out0 = out@;
        enc_entry(out, &es[i]);
        proof {
            let tail = esv.skip(i as int);
            assert(tail.first() == esv[i as int]);
            assert(tail.drop_first() =~= esv.skip(i as int + 1));
            assert(out@ + spec_enc_entries(esv.skip(i as int + 1)) =~= out0 + spec_enc_entries(
                tail,
            ));
        }
        i += 1;
    }
    proof {
        assert(esv.skip(n as int) =~= Seq::<EntryView>::empty());
        assert(out@ =~= out@ + spec_enc_entries(esv.skip(n as int)));
    }
}

/// Appends a group: name, entry count, entries.
fn enc_group(out: &mut Vec<u8>, name: &String, entries: &Vec<Entry>)
    ensures
        final(out)@ == old(out)@ + spec_enc_group(
            (name@, entries@.map_values(|e: Entry| e@)),
        ),
        group_bounded((name@, entries@.map_values(|e: Entry| e@))),
{
    enc_str(out, name.as_str());
    enc_u64(out, entries.len() as u64);
    enc_entries(out, entries);
    proof {
        assert(out@ =~= old(out)@ + spec_enc_group(
            (name@, entries@.map_values(|e: Entry| e@)),
        ));
        let ev = entries@.map_values(|e: Entry| e@);
        assert forall|i: int| 0 <= i < ev.len() implies entry_bounded(#[trigger] ev[i]) by {
            assert(ev[i] == entries@[i]@);
        }
    }
}

/// Encodes a schema into its plaintext payload bytes.
pub fn encode_schema(schema: &VaultSchema) -> (r: Vec<u8>)
    ensures
        r@ == spec_enc_schema(schema@),
        schema_bounded(schema@),
{
    let ghost gsv = schema@;
    let mut out: Vec<u8> = Vec::new();
    enc_u64(&mut out, schema.passwords.len() as u64);
    let n = schema.passwords.len();
    let mut i: usize = 0;
    proof {
        assert(gsv.skip(0) =~= gsv);
        assert(out@ =~= spec_enc_u64(gsv.len() as u64));
    }
    while i < n
        invariant
            i <= n,
            n == schema.passwords.len(),
            gsv == schema@,
            out@ + spec_enc_groups(gsv.skip(i as int)) == spec_enc_schema(gsv),
            forall|x: int| 0 <= x < i ==> group_bounded(#[trigger] gsv[x]),
        decreases n - i,
    {
        let ghost out0 = out@;
        let g = &schema.passwords[i];
        enc_group(&mut out, &g.0, &g.1);
        proof {
            let tail = gsv.skip(i as int);
            assert(gsv[i as int] == (g.0@, g.1@.map_values(|e: Entry| e@)));
            assert(tail.first() == gsv[i as int]);
            assert(tail.drop_first() =~= gsv.skip(i as int + 1));
            assert(out@ + spec_enc_groups(gsv.skip(i as int + 1)) =~= out0 + spec_enc_groups(
                tail,
            ));
        }
        i += 1;
    }
    proof {
        assert(gsv.skip(n as int) =~= Seq::<GroupView>::empty());
        assert(out@ =~= out@ + spec_enc_groups(gsv.skip(n as int)));
    }
    out
}

// ---------------------------------------------------------------------------
// Executable decoding
// ---------------------------------------------------------------------------
#[verifier::external_type_specification]
#[verifier::external_body]
pub struct ExUtf8Error(core::str::Utf8Error);

/// Relies on `core::str::from_utf8`: it succeeds exactly on valid UTF-8, and
/// then returns the string slice over those very bytes.
pub assume_specification[ core::str::from_utf8 ](v: &[u8]) -> (r: Result<
    &str,
    core::str::Utf8Error,
>)
    ensures
        r is Ok <==> valid_utf8(v@),
        r matches Ok(s) ==> s.spec_bytes() == v@,
;

/// Reads a 64-bit count.
fn dec_u64(d: &[u8], pos: usize) -> (r: Option<(u64, usize)>)
    requires
        pos <= d@.len(),
    ensures
        match r {
            Some(v) => spec_dec_u64(d@, pos as int) == Some((v.0, v.1 as int)) && pos <= v.1
                <= d@.len(),
            None => spec_dec_u64(d@, pos as int) is None,
        },
{
    if d.len() - pos < 8 {
        return None;
    }
    let s = slice_subrange(d, pos, pos + 8);
    let x = u64_from_le_bytes(s);
    Some((x, pos + 8))
}

/// Reads a framed byte string.
fn dec_bytes(d: &[u8], pos: usize) -> (r: Option<(Vec<u8>, usize)>)
    requires
        pos <= d@.len(),
    ensures
        match r {
            Some(v) => spec_dec_bytes(d@, pos as int) == Some((v.0@, v.1 as int)) && pos <= v.1
                <= d@.len(),
            None => spec_dec_bytes(d@, pos as int) is None,
        },
{
    let (n, p1) = match dec_u64(d, pos) {
        Some(v) => v,
        None => return None,
    };
    let rem = d.len() - p1;
    if n > rem as u64 {
        return None;
    }
    let len = n as usize;
    let s = slice_subrange(d, p1, p1 + len);
    Some((slice_to_vec(s), p1 + len))
}

/// Reads a framed string; fails on malformed UTF-8.
fn dec_string(d: &[u8], pos: usize) -> (r: Option<(String, usize)>)
    requires
        pos <= d@.len(),
    ensures
        match r {
            Some(v) => spec_dec_str(d@, pos as int) == Some((v.0@, v.1 as int)) && pos <= v.1
                <= d@.len(),
            None => spec_dec_str(d@, pos as int) is None,
        },
{
    let (b, p1) = match dec_bytes(d, pos) {
        Some(v) => v,
        None => return None,
    };
    match core::str::from_utf8(b.as_slice()) {
        Ok(s) => {
            proof {
                encode_utf8_decode_utf8(s@);
            }
            Some((s.to_owned(), p1))
        },
        Err(_) => None,
    }
}

/// Reads one entry.
fn dec_entry(d: &[u8], pos: usize) -> (r: Option<(Entry, usize)>)
    requires
        pos <= d@.len(),
    ensures
        match r {
            Some(v) => spec_dec_entry(d@, pos as int) == Some((v.0@, v.1 as int)) && pos <= v.1
                <= d@.len(),
            None => spec_dec_entry(d@, pos as int) is None,
        },
{
    let (id, p1) = match dec_string(d, pos) {
        Some(v) => v,
        None => return None,
    };
    let (name, p2) = match dec_string(d, p1) {
        Some(v) => v,
        None => return None,
    };
    let (password, p3) = match dec_string(d, p2) {
        Some(v) => v,
        None => return None,
    };
    let ghost idv = id@;
    let ghost namev = name@;
    let ghost passwordv = password@;
    let e = Entry::from_parts(id, name, password);
    proof {
        assert(e@ =~= (EntryView { id: idv, name: namev, password: passwordv }));
    }
    Some((e, p3))
}

/// Reads exactly `n` entries.
fn dec_entries(d: &[u8], pos: usize, n: u64) -> (r: Option<(Vec<Entry>, usize)>)
    requires
        pos <= d@.len(),
    ensures
        match r {
            Some(v) => spec_dec_entries(d@, pos as int, n as nat) == Some(
                (v.0@.map_values(|e: Entry| e@), v.1 as int),
            ) && pos <= v.1 <= d@.len(),
            None => spec_dec_entries(d@, pos as int, n as nat) is None,
        },
{
    let mut es: Vec<Entry> = Vec::new();
    let mut cur = pos;
    let mut k: u64 = 0;
    proof {
        match spec_dec_entries(d@, pos as int, n as nat) {
            Some(t) => {
                assert(es@.map_values(|e: Entry| e@) + t.0 =~= t.0);
            },
            None => {},
        }
    }
    while k < n
        invariant
            k <= n,
            pos <= cur <= d@.len(),
            match spec_dec_entries(d@, cur as int, (n - k) as nat) {
                Some(t) => spec_dec_entries(d@, pos as int, n as nat) == Some(
                    (es@.map_values(|e: Entry| e@) + t.0, t.1),
                ),
                None => spec_dec_entries(d@, pos as int, n as nat) is None,
            },
        decreases n - k,
    {
        let (e, p) = match dec_entry(d, cur) {
            Some(v) => v,
            None => return None,
        };
        proof {
            let esv = es@.map_values(|e: Entry| e@);
            let m = (n - k) as nat;
            match spec_dec_entries(d@, p as int, (m - 1) as nat) {
                Some(t2) => {
                    assert(esv + (seq![e@] + t2.0) =~= esv.push(e@) + t2.0);
                    assert((es@.push(e)).map_values(|x: Entry| x@) =~= esv.push(e@));
                },
                None => {},
            }
        }
        es.push(e);
        cur = p;
        k = k + 1;
    }
    proof {
        let esv = es@.map_values(|e: Entry| e@);
        assert(esv + Seq::<EntryView>::empty() =~= esv);
    }
    Some((es, cur))
}

/// Reads one group.
fn dec_group(d: &[u8], pos: usize) -> (r: Option<((String, Vec<Entry>), usize)>)
    requires
        pos <= d@.len(),
    ensures
        match r {
            Some(v) => spec_dec_group(d@, pos as int) == Some(
                ((v.0.0@, v.0.1@.map_values(|e: Entry| e@)), v.1 as int),
            ) && pos <= v.1 <= d@.len(),
            None => spec_dec_group(d@, pos as int) is None,
        },
{
    let (name, p1) = match dec_string(d, pos) {
        Some(v) => v,
        None => return None,
    };
    let (n, p2) = match dec_u64(d, p1) {
        Some(v) => v,
        None => return None,
    };
    let (es, p3) = match dec_entries(d, p2, n) {
        Some(v) => v,
        None => return None,
    };
    Some(((name, es), p3))
}

/// Reads exactly `n` groups.
fn dec_groups(d: &[u8], pos: usize, n: u64) -> (r: Option<(Vec<(String, Vec<Entry>)>, usize)>)
    requires
        pos <= d@.len(),
    ensures
        match r {
            Some(v) => spec_dec_groups(d@, pos as int, n as nat) == Some(
                (crate::vault::groups_view(v.0@), v.1 as int),
            ) && pos <= v.1 <= d@.len(),
            None => spec_dec_groups(d@, pos as int, n as nat) is None,
        },
{
    let mut gs: Vec<(String, Vec<Entry>)> = Vec::new();
    let mut cur = pos;
    let mut k: u64 = 0;
    proof {
        match spec_dec_groups(d@, pos as int, n as nat) {
            Some(t) => {
                assert(crate::vault::groups_view(gs@) + t.0 =~= t.0);
            },
            None => {},
        }
    }
    while k < n
        invariant
            k <= n,
            pos <= cur <= d@.len(),
            match spec_dec_groups(d@, cur as int, (n - k) as nat) {
                Some(t) => spec_dec_groups(d@, pos as int, n as nat) == Some(
                    (crate::vault::groups_view(gs@) + t.0, t.1),
                ),
                None => spec_dec_groups(d@, pos as int, n as nat) is None,
            },
        decreases n - k,
    {
        let (g, p) = match dec_group(d, cur) {
            Some(v) => v,
            None => return None,
        };
        proof {
            let gsv = crate::vault::groups_view(gs@);
            let gv = (g.0@, g.1@.map_values(|e: Entry| e@));
            let m = (n - k) as nat;
            match spec_dec_groups(d@, p as int, (m - 1) as nat) {
                Some(t2) => {
                    assert(gsv + (seq![gv] + t2.0) =~= gsv.push(gv) + t2.0);
                    assert(crate::vault::groups_view(gs@.push(g)) =~= gsv.push(gv));
                },
                None => {},
            }
        }
        gs.push(g);
        cur = p;
        k = k + 1;
    }
    proof {
        let gsv = crate::vault::groups_view(gs@);
        assert(spec_dec_groups(d@, cur as int, (n - k) as nat) == Some(
            (Seq::<GroupView>::empty(), cur as int),
        ));
        assert(gsv + Seq::<GroupView>::empty() =~= gsv);
    }
    Some((gs, cur))
}

/// True when the group names are pairwise distinct.
fn names_unique(groups: &Vec<(String, Vec<Entry>)>) -> (r: bool)
    ensures
        r == schema_names_unique(crate::vault::groups_view(groups@)),
{
    let ghost gsv = crate::vault::groups_view(groups@);
    let n = groups.len();
    let mut i: usize = 0;
    while i < n
        invariant
            i <= n,
            n == groups.len(),
            gsv == crate::vault::groups_view(groups@),
            forall|x: int, y: int| 0 <= x < y < i ==> (#[trigger] gsv[x]).0 != (
            #[trigger] gsv[y]).0,
        decreases n - i,
    {
        let mut j: usize = 0;
        while j < i
            invariant
                j <= i < n,
                n == groups.len(),
                gsv == crate::vault::groups_view(groups@),
                forall|x: int| 0 <= x < j ==> (#[trigger] gsv[x]).0 != gsv[i as int].0,
            decreases i - j,
        {
            if groups[j].0 == groups[i].0 {
                proof {
                    assert(gsv[j as int].0 == gsv[i as int].0);
                }
                return false;
            }
            j += 1;
        }
        i += 1;
    }
    true
}

/// Decodes a plaintext payload into a schema. Exactly the byte strings
/// produced by [`encode_schema`] on a well-formed schema are accepted.
pub fn decode_schema(d: &[u8]) -> (r: Option<VaultSchema>)
    ensures
        match r {
            Some(s) => spec_dec_schema(d@) == Some(s@) && s.wf(),
            None => spec_dec_schema(d@) is None,
        },
{
    let (n, p1) = match dec_u64(d, 0) {
        Some(v) => v,
        None => return None,
    };
    let (groups, p2) = match dec_groups(d, p1, n) {
        Some(v) => v,
        None => return None,
    };
    if p2 != d.len() {
        return None;
    }
    if !names_unique(&groups) {
        return None;
    }
    Some(VaultSchema { passwords: groups })
}

} // verus!
