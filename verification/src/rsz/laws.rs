//! Properties of the parsing steps that hold for every input.
use super::content::{
    content_magic, fields_step, instances_step, interned_step, objects_step, path_object,
    roots_step, spec_content, spec_field_value, spec_parse_field, spec_parse_value,
    spec_read_bound_string, spec_read_string, spec_resolve_roots, spec_utf16_lossy, spec_utf16_units, values_step, ContentV, FieldV, Header, ObjectV, ValueV,
};
use super::stream::{spec_align, spec_seek, spec_take};
use super::user::{spec_user, user_magic};
use super::{abs_index, count, repeat, spec_rsz, then, Error, Outcome, RszV};
use crate::layout::{FieldKind, FieldLayout, Layout, TypeId};
use vstd::bytes::*;
use vstd::prelude::*;

verus! {

/// An outcome with its position moved forward by `k`.
pub open spec fn shift<T>(o: Outcome<T>, k: int) -> Outcome<T> {
    match o {
        Outcome::Done(v, q) => Outcome::Done(v, q + k),
        Outcome::Fail(e, q) => Outcome::Fail(e, q + k),
        Outcome::Panic => Outcome::Panic,
    }
}

/// Aligning lands on the smallest multiple of the alignment that is not before the position;
/// a position that is already aligned is kept.
pub proof fn lemma_align_lands_on_multiple(d: Seq<u8>, p: int, alignment: int)
    requires
        0 <= p,
        0 < alignment,
    ensures
        spec_align(d, p, alignment) matches Outcome::Done(_, q) ==> {
            &&& q % alignment == 0
            &&& p <= q < p + alignment
            &&& (p % alignment == 0 ==> q == p)
        },
{
    if p % alignment != 0 {
        let end = p + (alignment - p % alignment);
        assert(end % alignment == 0) by (nonlinear_arith)
            requires
                end == p + (alignment - p % alignment),
                0 < alignment,
        {
        }
    }
}

/// A stream made relative at position `p` reads, at its position `q`, what the parent stream
/// reads at position `p + q`.
pub proof fn lemma_relative_take(d: Seq<u8>, p: int, q: int, n: int, section: &'static str)
    requires
        0 <= p <= d.len(),
        0 <= q,
        0 <= n,
    ensures
        shift(spec_take(d.skip(p), q, n, section), p) == spec_take(d, p + q, n, section),
{
    if q <= d.len() - p && d.len() - p - q >= n {
        assert(d.skip(p).subrange(q, q + n) =~= d.subrange(p + q, p + q + n));
    }
}

/// A stream made relative at position `p` reads, from its position `q`, the same string as the
/// parent stream reads from position `p + q`.
pub proof fn lemma_relative_string(d: Seq<u8>, p: int, q: int)
    requires
        0 <= p <= d.len(),
        0 <= q,
    ensures
        shift(spec_utf16_units(d.skip(p), q), p) == spec_utf16_units(d, p + q),
    decreases d.len() - p - q,
{
    if q <= d.len() - p && d.len() - p - q >= 2 {
        assert(d.skip(p).subrange(q, q + 2) =~= d.subrange(p + q, p + q + 2));
        lemma_relative_string(d, p, q + 2);
    }
}

/// A string ends at the first zero code unit: none of the units read is zero, each is the
/// little-endian unit at its place, the zero unit follows them, and the stream is left just
/// after it.
pub proof fn lemma_string_ends_at_first_zero(d: Seq<u8>, p: int)
    requires
        0 <= p,
    ensures
        spec_utf16_units(d, p) matches Outcome::Done(units, q) ==> {
            &&& q == p + 2 * (units.len() + 1)
            &&& q <= d.len()
            &&& spec_u16_from_le_bytes(d.subrange(q - 2, q)) == 0
            &&& forall|i: int|
                0 <= i < units.len() ==> #[trigger] units[i] != 0 && units[i]
                    == spec_u16_from_le_bytes(d.subrange(p + 2 * i, p + 2 * i + 2))
        },
    decreases d.len() - p,
{
    if p <= d.len() && d.len() - p >= 2 {
        let unit = spec_u16_from_le_bytes(d.subrange(p, p + 2));
        if unit != 0 {
            lemma_string_ends_at_first_zero(d, p + 2);
            match spec_utf16_units(d, p + 2) {
                Outcome::Done(rest, q) => {
                    let units = seq![unit].add(rest);
                    assert forall|i: int| 0 <= i < units.len() implies #[trigger] units[i] != 0
                        && units[i] == spec_u16_from_le_bytes(d.subrange(p + 2 * i, p + 2 * i + 2)) by {
                        if i > 0 {
                            assert(units[i] == rest[i - 1]);
                            assert(p + 2 + 2 * (i - 1) == p + 2 * i);
                        }
                    }
                },
                _ => {},
            }
        }
    }
}

/// The number of bytes a value of a fixed-width field kind occupies.
pub open spec fn value_width(kind: FieldKind) -> int {
    match kind {
        FieldKind::Boolean | FieldKind::S8 | FieldKind::U8 | FieldKind::Data => 1,
        FieldKind::F16 | FieldKind::S16 | FieldKind::U16 => 2,
        FieldKind::F32 | FieldKind::S32 | FieldKind::U32 | FieldKind::InstanceRef
        | FieldKind::UserData => 4,
        FieldKind::F64 | FieldKind::S64 | FieldKind::U64 => 8,
        FieldKind::Guid => 16,
        _ => 0,
    }
}

/// Parsing a value of any kind but a string advances the stream by exactly the width of that
/// kind.
pub proof fn lemma_value_advances_by_width(f: FieldLayout, d: Seq<u8>, p: int, part: ContentV)
    requires
        f.kind != FieldKind::String,
    ensures
        spec_parse_value(f, d, p, part) matches Outcome::Done(_, q) ==> q == p + value_width(f.kind),
{
}

/// A successful step leaves one more element than `len`.
pub open spec fn appends_one<A>(o: Outcome<Seq<A>>, len: nat) -> bool {
    match o {
        Outcome::Done(next, _) => next.len() == len + 1,
        _ => true,
    }
}

/// Every repetition of a step that appends one element appends one element per step.
pub proof fn lemma_repeat_appends<A>(step: spec_fn(Seq<A>, int) -> Outcome<Seq<A>>, init: Seq<A>, p: int, n: nat)
    requires
        forall|acc: Seq<A>, q: int| appends_one(#[trigger] step(acc, q), acc.len()),
    ensures
        repeat(step, init, p, n) matches Outcome::Done(acc, _) ==> acc.len() == init.len() + n,
    decreases n,
{
    if n > 0 {
        lemma_repeat_appends(step, init, p, (n - 1) as nat);
    }
}

/// An array field holds exactly as many elements as its count says, none when the count is not
/// positive.
pub proof fn lemma_array_length(f: FieldLayout, d: Seq<u8>, p: int, part: ContentV)
    requires
        f.is_array,
    ensures
        spec_field_value(f, d, p, part) matches Outcome::Done(v, _) ==> {
            v matches ValueV::Array(vs) && (spec_align(d, p, 4) matches Outcome::Done(_, p1)
                && spec_take(d, p1, 4, "i32") matches Outcome::Done(b, _)
                && vs.len() == count(spec_u32_from_le_bytes(b) as i32))
        },
{
    let step = values_step(f, d, part);
    assert forall|acc: Seq<ValueV>, q: int| appends_one(#[trigger] step(acc, q), acc.len()) by {}
    match spec_align(d, p, 4) {
        Outcome::Done(_, p1) => match spec_take(d, p1, 4, "i32") {
            Outcome::Done(b, p2) => {
                let n = spec_u32_from_le_bytes(b) as i32;
                if n > 0 {
                    match spec_align(d, p2, f.align as int) {
                        Outcome::Done(_, p3) => {
                            lemma_repeat_appends(step, Seq::empty(), p3, count(n));
                        },
                        _ => {},
                    }
                }
            },
            _ => {},
        },
        _ => {},
    }
}


/// A value that is an object is one of `objs`.
pub open spec fn points_into(v: ValueV, objs: Seq<ObjectV>) -> bool {
    v matches ValueV::Object(o) ==> objs.contains(o)
}

/// A field value refers to no object but those of `objs`: it is such an object, or an array
/// whose elements are.
pub open spec fn refers_within(v: ValueV, objs: Seq<ObjectV>) -> bool {
    match v {
        ValueV::Array(vs) => forall|k: int| 0 <= k < vs.len() ==> points_into(#[trigger] vs[k], objs),
        _ => points_into(v, objs),
    }
}

proof fn lemma_value_points_into(f: FieldLayout, d: Seq<u8>, p: int, part: ContentV)
    ensures
        spec_parse_value(f, d, p, part) matches Outcome::Done(v, _) ==> points_into(v, part.instances),
{
    match spec_parse_value(f, d, p, part) {
        Outcome::Done(v, _) => {
            if let ValueV::Object(o) = v {
                assert(f.kind == FieldKind::InstanceRef);
                match spec_take(d, p, 4, "i32") {
                    Outcome::Done(b, _) => {
                        let i = abs_index(spec_u32_from_le_bytes(b) as i32);
                        assert(part.instances[i] == o);
                    },
                    _ => {},
                }
            }
        },
        _ => {},
    }
}

proof fn lemma_values_point_into(f: FieldLayout, d: Seq<u8>, p: int, part: ContentV, n: nat)
    ensures
        repeat(values_step(f, d, part), Seq::empty(), p, n) matches Outcome::Done(vs, _) ==> forall|k: int|
            0 <= k < vs.len() ==> points_into(#[trigger] vs[k], part.instances),
    decreases n,
{
    if n > 0 {
        lemma_values_point_into(f, d, p, part, (n - 1) as nat);
        match repeat(values_step(f, d, part), Seq::empty(), p, (n - 1) as nat) {
            Outcome::Done(acc, q) => {
                lemma_value_points_into(f, d, q, part);
            },
            _ => {},
        }
    }
}

proof fn lemma_field_refers_within(f: FieldLayout, d: Seq<u8>, p: int, part: ContentV)
    ensures
        spec_parse_field(f, d, p, part) matches Outcome::Done(fv, _) ==> refers_within(fv.value, part.instances),
{
    if f.is_array {
        match spec_align(d, p, 4) {
            Outcome::Done(_, p1) => match spec_take(d, p1, 4, "i32") {
                Outcome::Done(b, p2) => {
                    let n = spec_u32_from_le_bytes(b) as i32;
                    if n > 0 {
                        match spec_align(d, p2, f.align as int) {
                            Outcome::Done(_, p3) => {
                                lemma_values_point_into(f, d, p3, part, count(n));
                            },
                            _ => {},
                        }
                    }
                },
                _ => {},
            },
            _ => {},
        }
    } else {
        match spec_align(d, p, f.align as int) {
            Outcome::Done(_, p1) => {
                lemma_value_points_into(f, d, p1, part);
            },
            _ => {},
        }
    }
}

proof fn lemma_fields_refer_within(fs: Seq<FieldLayout>, d: Seq<u8>, p: int, part: ContentV, n: nat)
    ensures
        repeat(fields_step(fs, d, part), Seq::empty(), p, n) matches Outcome::Done(out, _) ==> {
            &&& out.len() == n
            &&& forall|k: int| 0 <= k < out.len() ==> refers_within(#[trigger] out[k].value, part.instances)
        },
    decreases n,
{
    if n > 0 {
        lemma_fields_refer_within(fs, d, p, part, (n - 1) as nat);
        match repeat(fields_step(fs, d, part), Seq::empty(), p, (n - 1) as nat) {
            Outcome::Done(acc, q) => {
                lemma_field_refers_within(fs[acc.len() as int], d, q, part);
            },
            _ => {},
        }
    }
}

/// The object in an instance slot that holds an interned string is the `Path` object of
/// that string, and every other object refers only to objects in earlier slots.
pub open spec fn well_placed(objs: Seq<ObjectV>, interned: Map<u32, Seq<char>>, i: int) -> bool {
    &&& interned.contains_key(i as u32) ==> objs[i].fields == seq![
        FieldV { name: "Path"@, value: ValueV::String(interned[i as u32]) },
    ]
    &&& forall|k: int|
        0 <= k < objs[i].fields.len() ==> refers_within(#[trigger] objs[i].fields[k].value, objs.take(i))
}

proof fn lemma_objects_well_placed<'a>(
    d: Seq<u8>,
    ids: Seq<usize>,
    interned: Map<u32, Seq<char>>,
    layouts: Map<TypeId, Layout<'a>>,
    p: int,
    n: nat,
)
    ensures
        repeat(objects_step(d, ids, interned, layouts), Seq::empty(), p, n) matches Outcome::Done(objs, _) ==> {
            &&& objs.len() == n
            &&& forall|i: int| 0 <= i < objs.len() ==> #[trigger] well_placed(objs, interned, i)
        },
    decreases n,
{
    if n > 0 {
        lemma_objects_well_placed(d, ids, interned, layouts, p, (n - 1) as nat);
        match repeat(objects_step(d, ids, interned, layouts), Seq::empty(), p, (n - 1) as nat) {
            Outcome::Done(acc, q) => {
                let id = ids[acc.len() as int];
                if layouts.contains_key(id) && !interned.contains_key(acc.len() as u32) {
                    let part = ContentV { instances: acc, interned, roots: Seq::empty() };
                    lemma_fields_refer_within(layouts[id].fields@, d, q, part, layouts[id].fields@.len());
                }
                match repeat(objects_step(d, ids, interned, layouts), Seq::empty(), p, n) {
                    Outcome::Done(objs, _) => {
                        assert(objs.take(acc.len() as int) =~= acc);
                        assert forall|i: int| 0 <= i < objs.len() implies #[trigger] well_placed(objs, interned, i) by {
                            if i < acc.len() {
                                assert(objs[i] == acc[i]);
                                assert(objs.take(i) =~= acc.take(i));
                                assert(well_placed(acc, interned, i));
                            }
                        }
                    },
                    _ => {},
                }
            },
            _ => {},
        }
    }
}

/// A parsed content section has one root per root reference and one instance per instance
/// record of its header; every root is one of the instances; an instance slot that holds an
/// interned string holds the `Path` object of that string; and every object refers only to
/// objects in earlier slots, so that the objects form no cycle.
pub proof fn lemma_content_shape<'a>(d: Seq<u8>, p: int, layouts: Map<TypeId, Layout<'a>>)
    requires
        0 <= p,
    ensures
        spec_content(d, p, layouts) matches Outcome::Done(c, _) ==> {
            let h = Header::spec_from_le(d.subrange(p, p + 48));
            &&& c.roots.len() == count(h.object_count)
            &&& c.instances.len() == count(h.instance_count)
            &&& forall|i: int| 0 <= i < c.roots.len() ==> c.instances.contains(#[trigger] c.roots[i])
            &&& forall|i: int| 0 <= i < c.instances.len() ==> #[trigger] well_placed(c.instances, c.interned, i)
        },
{
    match spec_take(d, p, 48, "rsz::rsz::content::Header") {
        Outcome::Done(b, p1) => {
            let h = Header::spec_from_le(b);
            if h.magic == content_magic() {
                let rstep = roots_step(d);
                assert forall|acc: Seq<i32>, q: int| appends_one(#[trigger] rstep(acc, q), acc.len()) by {}
                lemma_repeat_appends(rstep, Seq::empty(), p1, count(h.object_count));
                match repeat(rstep, Seq::empty(), p1, count(h.object_count)) {
                    Outcome::Done(roots, p2) => match spec_seek(d, h.intern_offset as usize) {
                        Outcome::Done(_, p3) => match repeat(interned_step(d), Map::empty(), p3, count(h.intern_count)) {
                            Outcome::Done(interned, p4) => match spec_seek(d, h.instance_offset as usize) {
                                Outcome::Done(_, p5) => {
                                    let istep = instances_step(d);
                                    assert forall|acc: Seq<usize>, q: int| appends_one(#[trigger] istep(acc, q), acc.len()) by {}
                                    lemma_repeat_appends(istep, Seq::empty(), p5, count(h.instance_count));
                                    match repeat(istep, Seq::empty(), p5, count(h.instance_count)) {
                                        Outcome::Done(ids, p6) => match spec_seek(d, h.data_offset as usize) {
                                            Outcome::Done(_, p7) => {
                                                lemma_objects_well_placed(d, ids, interned, layouts, p7, ids.len());
                                                match repeat(objects_step(d, ids, interned, layouts), Seq::empty(), p7, ids.len()) {
                                                    Outcome::Done(objs, p8) => {
                                                        match spec_resolve_roots(roots, objs, interned, p8) {
                                                            Outcome::Done(c, _) => {
                                                                assert forall|i: int| 0 <= i < c.roots.len() implies c.instances.contains(#[trigger] c.roots[i]) by {
                                                                    let j = abs_index(roots[i]);
                                                                    assert(c.instances[j] == c.roots[i]);
                                                                }
                                                            },
                                                            _ => {},
                                                        }
                                                    },
                                                    _ => {},
                                                }
                                            },
                                            _ => {},
                                        },
                                        _ => {},
                                    }
                                },
                                _ => {},
                            },
                            _ => {},
                        },
                        _ => {},
                    },
                    _ => {},
                }
            }
        },
        _ => {},
    }
}


/// Code units that are no surrogates decode to one character each, of the same code point.
pub proof fn lemma_utf16_without_surrogates(units: Seq<u16>)
    requires
        forall|i: int| 0 <= i < units.len() ==> #[trigger] units[i] < 0xD800 || units[i] > 0xDFFF,
    ensures
        spec_utf16_lossy(units) == units.map_values(|u: u16| u as char),
    decreases units.len(),
{
    if units.len() > 0 {
        lemma_utf16_without_surrogates(units.skip(1));
        assert(spec_utf16_lossy(units) =~= units.map_values(|u: u16| u as char));
    } else {
        assert(spec_utf16_lossy(units) =~= units.map_values(|u: u16| u as char));
    }
}


/// A field that is not an array is its layout's alignment followed by its value, and carries
/// the layout's name; the value is read at the least multiple of the alignment that is not
/// before the position.
pub proof fn lemma_plain_field(f: FieldLayout, d: Seq<u8>, p: int, part: ContentV)
    requires
        !f.is_array,
        f.align > 0,
        0 <= p,
    ensures
        spec_parse_field(f, d, p, part) == match spec_align(d, p, f.align as int) {
            Outcome::Done(_, p1) => match spec_parse_value(f, d, p1, part) {
                Outcome::Done(v, q) => Outcome::Done(FieldV { name: f.name@, value: v }, q),
                Outcome::Fail(e, q) => Outcome::Fail(e, q),
                Outcome::Panic => Outcome::Panic,
            },
            Outcome::Fail(e, q) => Outcome::Fail(e, q),
            Outcome::Panic => Outcome::Panic,
        },
        spec_align(d, p, f.align as int) matches Outcome::Done(_, p1) ==> {
            &&& p1 % (f.align as int) == 0
            &&& p <= p1 < p + f.align
        },
{
    lemma_align_lands_on_multiple(d, p, f.align as int);
}

/// A USER document with the right magic is its content section, read from a stream that starts
/// at the header's data offset; a data offset past the end is an end-of-file error there. The
/// stream is left at the data offset.
pub proof fn lemma_user_reads_content_at_data_offset<'a>(
    d: Seq<u8>,
    p: int,
    global_offset: int,
    layouts: Map<TypeId, Layout<'a>>,
)
    requires
        0 <= p <= d.len() - 40,
        0 <= global_offset,
        spec_u32_from_le_bytes(d.subrange(p, p + 40).subrange(0, 4)) == user_magic(),
    ensures
        ({
            let off = spec_u64_from_le_bytes(d.subrange(p, p + 40).subrange(32, 40)) as usize;
            if off > d.len() {
                spec_user(d, p, global_offset, layouts) == Outcome::Fail::<ContentV>(
                    Error::UnexpectedEof { position: off, length: d.len() as usize },
                    off as int,
                )
            } else if global_offset + off <= usize::MAX {
                spec_user(d, p, global_offset, layouts) == match spec_content(d.skip(off as int), 0, layouts) {
                    Outcome::Done(c, _) => Outcome::Done(c, off as int),
                    Outcome::Fail(e, _) => Outcome::Fail(e, off as int),
                    Outcome::Panic => Outcome::Panic,
                }
            } else {
                spec_user(d, p, global_offset, layouts) is Panic
            }
        }),
{
}

/// A document whose first four bytes are the USER magic is read as a USER document from its
/// first byte, the magic included.
pub proof fn lemma_rsz_reads_user_from_start<'a>(d: Seq<u8>, layouts: Map<TypeId, Layout<'a>>)
    requires
        d.len() >= 4,
        spec_u32_from_le_bytes(d.subrange(0, 4)) == user_magic(),
    ensures
        spec_rsz(d, layouts) == match spec_user(d, 0, 0, layouts) {
            Outcome::Done(c, q) => Outcome::Done(RszV::User(c), q),
            Outcome::Fail(e, q) => Outcome::Fail(e, q),
            Outcome::Panic => Outcome::Panic,
        },
{
}


/// The bytes `s` are the little-endian encoding of the number held by `v` (for a signed number,
/// of its two's-complement bit pattern; for a floating point number, of its bit pattern).
pub open spec fn encodes(v: ValueV, s: Seq<u8>) -> bool {
    match v {
        ValueV::U8(x) => s == seq![x],
        ValueV::S8(x) => s == seq![x as u8],
        ValueV::Data(x) => s == seq![x],
        ValueV::U16(x) => s == spec_u16_to_le_bytes(x),
        ValueV::S16(x) => s == spec_u16_to_le_bytes(x as u16),
        ValueV::F16(x) => s == spec_u16_to_le_bytes(x),
        ValueV::U32(x) => s == spec_u32_to_le_bytes(x),
        ValueV::S32(x) => s == spec_u32_to_le_bytes(x as u32),
        ValueV::F32(x) => s == spec_u32_to_le_bytes(x),
        ValueV::U64(x) => s == spec_u64_to_le_bytes(x),
        ValueV::S64(x) => s == spec_u64_to_le_bytes(x as u64),
        ValueV::F64(x) => s == spec_u64_to_le_bytes(x),
        _ => false,
    }
}

/// The kinds whose values are numbers read whole from a fixed number of bytes.
pub open spec fn is_number_kind(kind: FieldKind) -> bool {
    match kind {
        FieldKind::U8 | FieldKind::S8 | FieldKind::Data | FieldKind::U16 | FieldKind::S16
        | FieldKind::F16 | FieldKind::U32 | FieldKind::S32 | FieldKind::F32 | FieldKind::U64
        | FieldKind::S64 | FieldKind::F64 => true,
        _ => false,
    }
}

/// A number is read from exactly the bytes at the position, whole: the bytes read are the
/// little-endian encoding of the number returned, and the read succeeds whenever enough bytes
/// remain.
pub proof fn lemma_number_is_its_bytes(f: FieldLayout, d: Seq<u8>, p: int, part: ContentV)
    requires
        is_number_kind(f.kind),
        0 <= p,
    ensures
        spec_parse_value(f, d, p, part) matches Outcome::Done(v, q) ==> {
            &&& q == p + value_width(f.kind)
            &&& encodes(v, d.subrange(p, p + value_width(f.kind)))
        },
        p + value_width(f.kind) <= d.len() ==> spec_parse_value(f, d, p, part) is Done,
{
    lemma_auto_spec_u16_to_from_le_bytes();
    lemma_auto_spec_u32_to_from_le_bytes();
    lemma_auto_spec_u64_to_from_le_bytes();
    let w = value_width(f.kind);
    if p + w <= d.len() {
        let s = d.subrange(p, p + w);
        match f.kind {
            FieldKind::U8 | FieldKind::Data => {
                assert(s =~= seq![s[0]]);
            },
            FieldKind::S8 => {
                let b = s[0];
                assert((b as i8) as u8 == b) by (bit_vector);
                assert(s =~= seq![s[0]]);
            },
            FieldKind::S16 => {
                let y = spec_u16_from_le_bytes(s);
                assert((y as i16) as u16 == y) by (bit_vector);
            },
            FieldKind::S32 => {
                let y = spec_u32_from_le_bytes(s);
                assert((y as i32) as u32 == y) by (bit_vector);
            },
            FieldKind::S64 => {
                let y = spec_u64_from_le_bytes(s);
                assert((y as i64) as u64 == y) by (bit_vector);
            },
            _ => {},
        }
    }
}

/// A boolean is true exactly when the byte at the position is not zero.
pub proof fn lemma_boolean_is_nonzero_byte(f: FieldLayout, d: Seq<u8>, p: int, part: ContentV)
    requires
        f.kind == FieldKind::Boolean,
        0 <= p,
    ensures
        spec_parse_value(f, d, p, part) matches Outcome::Done(v, q) ==> q == p + 1 && v == ValueV::Boolean(d[p] != 0),
        p + 1 <= d.len() ==> spec_parse_value(f, d, p, part) is Done,
{
}

/// `g` holds the 16 bytes at position `p` of `d`, the byte order of its first three groups
/// reversed.
pub open spec fn guid_from_bytes_at(g: Seq<u8>, d: Seq<u8>, p: int) -> bool {
    &&& g.len() == 16
    &&& forall|i: int| 0 <= i < 4 ==> #[trigger] g[i] == d[p + 3 - i]
    &&& forall|i: int| 4 <= i < 6 ==> #[trigger] g[i] == d[p + 9 - i]
    &&& forall|i: int| 6 <= i < 8 ==> #[trigger] g[i] == d[p + 13 - i]
    &&& forall|i: int| 8 <= i < 16 ==> #[trigger] g[i] == d[p + i]
}

/// A UUID is the 16 bytes at the position, with the byte order of its first three groups (4, 2
/// and 2 bytes) reversed and its last 8 bytes kept.
pub proof fn lemma_guid_reorders_bytes(f: FieldLayout, d: Seq<u8>, p: int, part: ContentV)
    requires
        f.kind == FieldKind::Guid,
        0 <= p,
    ensures
        spec_parse_value(f, d, p, part) matches Outcome::Done(v, q) ==> {
            &&& q == p + 16
            &&& v matches ValueV::Guid(g) && guid_from_bytes_at(g, d, p)
        },
        p + 16 <= d.len() ==> spec_parse_value(f, d, p, part) is Done,
{
}

/// The code units stored from position `p` of `d`: `n` little-endian 16-bit units.
pub open spec fn stored_units(d: Seq<u8>, p: int, n: nat) -> Seq<u16> {
    Seq::new(n, |i: int| spec_u16_from_le_bytes(d.subrange(p + 2 * i, p + 2 * i + 2)))
}

/// A string read at position `p` is the decoding of every code unit stored from `p` up to the
/// first zero unit; the stream is left just after that zero unit. Where no unit is a surrogate,
/// the string has one character per unit.
pub proof fn lemma_string_is_every_unit(d: Seq<u8>, p: int)
    requires
        0 <= p,
    ensures
        spec_read_string(d, p) matches Outcome::Done(s, q) ==> {
            let n = ((q - p) / 2 - 1) as nat;
            &&& q == p + 2 * (n + 1) && q <= d.len()
            &&& spec_u16_from_le_bytes(d.subrange(q - 2, q)) == 0
            &&& forall|i: int| 0 <= i < n ==> #[trigger] stored_units(d, p, n)[i] != 0
            &&& s == spec_utf16_lossy(stored_units(d, p, n))
            &&& (forall|i: int| 0 <= i < n ==> #[trigger] stored_units(d, p, n)[i] < 0xD800
                || stored_units(d, p, n)[i] > 0xDFFF) ==> s.len() == n
        },
{
    lemma_string_ends_at_first_zero(d, p);
    match spec_utf16_units(d, p) {
        Outcome::Done(units, q) => {
            let n = units.len();
            assert((q - p) / 2 - 1 == n);
            assert(stored_units(d, p, n) =~= units);
            if forall|i: int| 0 <= i < n ==> #[trigger] stored_units(d, p, n)[i] < 0xD800
                || stored_units(d, p, n)[i] > 0xDFFF {
                lemma_utf16_without_surrogates(units);
            }
        },
        _ => {},
    }
}

/// A string field's string is read after its 4-byte length, whatever that length says.
pub proof fn lemma_bound_string_skips_length(d: Seq<u8>, p: int)
    requires
        0 <= p,
        p + 4 <= d.len(),
    ensures
        spec_read_bound_string(d, p) == spec_read_string(d, p + 4),
{
}


proof fn lemma_one_multiple_in_window(x: int, y: int, lo: int, a: int)
    requires
        a > 0,
        x % a == 0,
        y % a == 0,
        lo <= x < lo + a,
        lo <= y < lo + a,
    ensures
        x == y,
{
    vstd::arithmetic::div_mod::lemma_fundamental_div_mod(x, a);
    vstd::arithmetic::div_mod::lemma_fundamental_div_mod(y, a);
    let qx = x / a;
    let qy = y / a;
    assert(x == a * qx);
    assert(y == a * qy);
    if qx < qy {
        assert(a * qx + a <= a * qy) by (nonlinear_arith)
            requires
                qx < qy,
                a > 0,
        ;
    } else if qy < qx {
        assert(a * qy + a <= a * qx) by (nonlinear_arith)
            requires
                qy < qx,
                a > 0,
        ;
    }
}

/// The elements of an array field are read from the first multiple of the layout's alignment
/// at or after the end of the element count, the count itself being read at the first multiple
/// of 4 at or after the position: `p1` and `e` are those two positions. A count that is not
/// positive gives no elements and leaves the stream just after the count.
pub proof fn lemma_array_elements_start_aligned(
    f: FieldLayout,
    d: Seq<u8>,
    p: int,
    part: ContentV,
    p1: int,
    e: int,
)
    requires
        f.is_array,
        f.align > 0,
        0 <= p,
        p1 % 4 == 0,
        p <= p1 < p + 4,
        e % (f.align as int) == 0,
        p1 + 4 <= e < p1 + 4 + f.align,
    ensures
        spec_field_value(f, d, p, part) matches Outcome::Done(ValueV::Array(vs), q) ==> {
            let n = spec_u32_from_le_bytes(d.subrange(p1, p1 + 4)) as i32;
            &&& p1 + 4 <= d.len()
            &&& n > 0 ==> repeat(values_step(f, d, part), Seq::empty(), e, count(n))
                == Outcome::Done(vs, q)
            &&& n <= 0 ==> vs.len() == 0 && q == p1 + 4
        },
{
    lemma_align_lands_on_multiple(d, p, 4);
    match spec_align(d, p, 4) {
        Outcome::Done(_, r1) => {
            lemma_one_multiple_in_window(r1, p1, p, 4);
            match spec_take(d, r1, 4, "i32") {
                Outcome::Done(b, r2) => {
                    let n = spec_u32_from_le_bytes(b) as i32;
                    if n > 0 {
                        lemma_align_lands_on_multiple(d, r2, f.align as int);
                        match spec_align(d, r2, f.align as int) {
                            Outcome::Done(_, r3) => {
                                lemma_one_multiple_in_window(r3, e, r2, f.align as int);
                            },
                            _ => {},
                        }
                    }
                },
                _ => {},
            }
        },
        _ => {},
    }
}

/// The elements of a number array are stored one after the other from where they start, each
/// read whole from its own bytes: element `k` is encoded by the `w` bytes at `e + k * w`, and
/// the stream is left after the last one.
pub proof fn lemma_number_elements_are_consecutive(f: FieldLayout, d: Seq<u8>, part: ContentV, e: int, n: nat)
    requires
        is_number_kind(f.kind),
        0 <= e,
    ensures
        repeat(values_step(f, d, part), Seq::empty(), e, n) matches Outcome::Done(vs, q) ==> {
            let w = value_width(f.kind);
            &&& vs.len() == n
            &&& q == e + n * w
            &&& forall|k: int| 0 <= k < n ==> encodes(#[trigger] vs[k], d.subrange(e + k * w, e + k * w + w))
        },
    decreases n,
{
    if n > 0 {
        lemma_number_elements_are_consecutive(f, d, part, e, (n - 1) as nat);
        let w = value_width(f.kind);
        match repeat(values_step(f, d, part), Seq::empty(), e, (n - 1) as nat) {
            Outcome::Done(acc, q1) => {
                assert(q1 == e + (n - 1) * w);
                lemma_number_is_its_bytes(f, d, q1, part);
                assert(e + (n - 1) * w + w == e + n * w) by (nonlinear_arith);
                match repeat(values_step(f, d, part), Seq::empty(), e, n) {
                    Outcome::Done(vs, q) => {
                        assert forall|k: int| 0 <= k < n implies encodes(#[trigger] vs[k], d.subrange(e + k * w, e + k * w + w)) by {
                            if k < n - 1 {
                                assert(vs[k] == acc[k]);
                            }
                        }
                    },
                    _ => {},
                }
            },
            _ => {},
        }
    }
}


proof fn lemma_interned_positions_nonnegative(d: Seq<u8>, p: int, k: nat)
    requires
        0 <= p,
    ensures
        repeat(interned_step(d), Map::empty(), p, k) matches Outcome::Done(_, q) ==> 0 <= q,
    decreases k,
{
    if k > 0 {
        lemma_interned_positions_nonnegative(d, p, (k - 1) as nat);
        match repeat(interned_step(d), Map::empty(), p, (k - 1) as nat) {
            Outcome::Done(m1, q1) => match spec_take(d, q1, 16, "rsz::rsz::content::InternedString") {
                Outcome::Done(b, _) => {
                    let offset = spec_u64_from_le_bytes(b.subrange(8, 16)) as usize;
                    lemma_string_ends_at_first_zero(d, offset as int);
                },
                _ => {},
            },
            _ => {},
        }
    }
}

/// Each interned-string record adds an entry to the strings read before it: the record's slot
/// index (its first 4 bytes) maps to the string stored at its offset (its bytes 8 to 16), and
/// every other entry is kept. Reading goes on just after that string.
pub proof fn lemma_interned_record_adds_entry(d: Seq<u8>, p: int, k: nat)
    requires
        0 <= p,
    ensures
        repeat(interned_step(d), Map::empty(), p, k + 1) matches Outcome::Done(m2, q2) ==> {
            &&& repeat(interned_step(d), Map::empty(), p, k) matches Outcome::Done(m1, q1)
            &&& q1 + 16 <= d.len()
            &&& {
                let index = spec_u32_from_le_bytes(d.subrange(q1, q1 + 4));
                let offset = spec_u64_from_le_bytes(d.subrange(q1 + 8, q1 + 16)) as usize;
                &&& offset <= d.len()
                &&& spec_read_string(d, offset as int) == Outcome::Done(m2[index], q2)
                &&& m2.dom() == m1.dom().insert(index)
                &&& forall|j: u32| #[trigger] m1.contains_key(j) && j != index ==> m2[j] == m1[j]
            }
        },
{
    match repeat(interned_step(d), Map::empty(), p, k) {
        Outcome::Done(m1, q1) => {
            lemma_interned_positions_nonnegative(d, p, k);
            match repeat(interned_step(d), Map::empty(), p, k + 1) {
                Outcome::Done(m2, q2) => {
                    assert(repeat(interned_step(d), Map::empty(), p, k + 1) == interned_step(d)(m1, q1));
                    match spec_take(d, q1, 16, "rsz::rsz::content::InternedString") {
                        Outcome::Done(b, _) => {
                            assert(b.subrange(0, 4) =~= d.subrange(q1, q1 + 4));
                            assert(b.subrange(8, 16) =~= d.subrange(q1 + 8, q1 + 16));
                            let index = spec_u32_from_le_bytes(b.subrange(0, 4));
                            match spec_read_string(d, (spec_u64_from_le_bytes(b.subrange(8, 16)) as usize) as int) {
                                Outcome::Done(s, _) => {
                                    assert(m2 == m1.insert(index, s));
                                    assert(m2.dom() =~= m1.dom().insert(index));
                                },
                                _ => {},
                            }
                        },
                        _ => {},
                    }
                },
                _ => {},
            }
        },
        _ => {},
    }
}

/// After `n` interned-string records, the slot index of every record read is a key of the
/// strings read.
pub proof fn lemma_interned_keeps_every_record(d: Seq<u8>, p: int, n: nat)
    requires
        0 <= p,
    ensures
        repeat(interned_step(d), Map::empty(), p, n) matches Outcome::Done(m, _) ==> forall|k: nat|
            k < n ==> (#[trigger] repeat(interned_step(d), Map::empty(), p, k) matches Outcome::Done(_, qk)
                ==> m.contains_key(spec_u32_from_le_bytes(d.subrange(qk, qk + 4)))),
    decreases n,
{
    if n > 0 {
        lemma_interned_keeps_every_record(d, p, (n - 1) as nat);
        lemma_interned_record_adds_entry(d, p, (n - 1) as nat);
    }
}

/// The interned strings of a parsed content section are exactly those its interned-string
/// records give, read from the header's intern offset.
pub proof fn lemma_content_interned_strings<'a>(d: Seq<u8>, p: int, layouts: Map<TypeId, Layout<'a>>)
    requires
        0 <= p,
    ensures
        spec_content(d, p, layouts) matches Outcome::Done(c, _) ==> {
            let h = Header::spec_from_le(d.subrange(p, p + 48));
            let start = (h.intern_offset as usize) as int;
            &&& start <= d.len()
            &&& repeat(interned_step(d), Map::empty(), start, count(h.intern_count)) matches Outcome::Done(m, _)
                && m == c.interned
        },
{
    match spec_take(d, p, 48, "rsz::rsz::content::Header") {
        Outcome::Done(b, p1) => {
            let h = Header::spec_from_le(b);
            if h.magic == content_magic() {
                match repeat(roots_step(d), Seq::empty(), p1, count(h.object_count)) {
                    Outcome::Done(roots, p2) => match spec_seek(d, h.intern_offset as usize) {
                        Outcome::Done(_, p3) => match repeat(interned_step(d), Map::empty(), p3, count(h.intern_count)) {
                            Outcome::Done(interned, p4) => match spec_seek(d, h.instance_offset as usize) {
                                Outcome::Done(_, p5) => match repeat(instances_step(d), Seq::empty(), p5, count(h.instance_count)) {
                                    Outcome::Done(ids, p6) => match spec_seek(d, h.data_offset as usize) {
                                        Outcome::Done(_, p7) => match repeat(objects_step(d, ids, interned, layouts), Seq::empty(), p7, ids.len()) {
                                            Outcome::Done(objs, p8) => {
                                                assert(spec_content(d, p, layouts) == spec_resolve_roots(roots, objs, interned, p8));
                                            },
                                            _ => {},
                                        },
                                        _ => {},
                                    },
                                    _ => {},
                                },
                                _ => {},
                            },
                            _ => {},
                        },
                        _ => {},
                    },
                    _ => {},
                }
            }
        },
        _ => {},
    }
}

} // verus!
