//! Paths as the system has them: bytes, which need not be text.
//!
//! Only slashes and dots tell the names of a path apart. So the bytes are
//! looked at as text with one character for each byte, and that text is cut
//! as any path is.
use vstd::prelude::*;

use crate::archive;
use crate::path;
use crate::text;

verus! {

/// The paths of a list.
pub open spec fn raws(v: Seq<Vec<u8>>) -> Seq<Seq<u8>> {
    v.map_values(|p: Vec<u8>| p@)
}

/// The bytes of a path as text: one character for each byte.
pub open spec fn units(p: Seq<u8>) -> Seq<char> {
    p.map_values(|b: u8| b as char)
}

/// Different bytes are different text.
pub proof fn units_tell_apart(a: Seq<u8>, b: Seq<u8>)
    requires
        units(a) == units(b),
    ensures
        a == b,
{
    assert(a.len() == units(a).len());
    assert(b.len() == units(b).len());
    assert forall|i: int| 0 <= i < a.len() implies a[i] == b[i] by {
        assert(units(a)[i] == a[i] as char);
        assert(units(b)[i] == b[i] as char);
    }
    assert(a =~= b);
}

fn unit_chars(p: &[u8]) -> (r: Vec<char>)
    ensures
        r@ == units(p@),
{
    let mut out: Vec<char> = Vec::new();
    let mut i: usize = 0;
    while i < p.len()
        invariant
            i <= p@.len(),
            out@ == units(p@).take(i as int),
        decreases p@.len() - i,
    {
        out.push(p[i] as char);
        i = i + 1;
        assert(out@ =~= units(p@).take(i as int));
    }
    assert(units(p@).take(p@.len() as int) =~= units(p@));
    out
}

/// The bytes of a path as text: one character for each byte.
pub fn unit_text(p: &[u8]) -> (r: String)
    ensures
        r@ == units(p@),
{
    let c = unit_chars(p);
    assert(c@.subrange(0, c@.len() as int) =~= c@);
    text::range_string(&c, 0, c.len())
}

/// A part of a path.
fn part(p: &[u8], from: usize, to: usize) -> (r: Vec<u8>)
    requires
        from <= to <= p@.len(),
    ensures
        r@ == p@.subrange(from as int, to as int),
{
    let mut out: Vec<u8> = Vec::new();
    let mut i: usize = from;
    while i < to
        invariant
            from <= i <= to <= p@.len(),
            out@ == p@.subrange(from as int, i as int),
        decreases to - i,
    {
        out.push(p[i]);
        i = i + 1;
        assert(out@ =~= p@.subrange(from as int, i as int));
    }
    out
}

/// The same bytes once more.
pub fn copy(p: &[u8]) -> (r: Vec<u8>)
    ensures
        r@ == p@,
{
    assert(p@.subrange(0, p@.len() as int) =~= p@);
    part(p, 0, p.len())
}

/// The bytes of a text.
pub open spec fn bytes_of(s: Seq<char>) -> Seq<u8> {
    vstd::utf8::encode_utf8(s)
}

// ---------------------------------------------------------------------------
// Names

/// The names that a path holds after its root.
pub open spec fn names(p: Seq<u8>) -> Seq<Seq<u8>> {
    path::spans(units(p)).map_values(|s: (int, int)| p.subrange(s.0, s.1))
}

/// Paths as text.
pub open spec fn unit_names(v: Seq<Seq<u8>>) -> Seq<Seq<char>> {
    v.map_values(|p: Seq<u8>| units(p))
}

/// Different lists of paths are different text.
pub proof fn unit_names_tell_apart(a: Seq<Seq<u8>>, b: Seq<Seq<u8>>)
    requires
        unit_names(a) == unit_names(b),
    ensures
        a == b,
{
    assert(a.len() == unit_names(a).len());
    assert(b.len() == unit_names(b).len());
    assert forall|i: int| 0 <= i < a.len() implies a[i] == b[i] by {
        assert(unit_names(a)[i] == units(a[i]));
        assert(unit_names(b)[i] == units(b[i]));
        units_tell_apart(a[i], b[i]);
    }
    assert(a =~= b);
}

/// The names of a path are those of its text.
pub proof fn names_as_units(p: Seq<u8>)
    ensures
        unit_names(names(p)) == path::names(units(p)),
{
    path::spans_inside(units(p));
    assert forall|k: int| 0 <= k < names(p).len() implies #[trigger] unit_names(names(p))[k]
        == path::names(units(p))[k] by {
        let s = path::spans(units(p))[k];
        assert(units(p.subrange(s.0, s.1)) =~= units(p).subrange(s.0, s.1));
    }
    assert(unit_names(names(p)) =~= path::names(units(p)));
}

/// The names that a path holds after its root.
pub fn names_of(p: &[u8]) -> (r: Vec<Vec<u8>>)
    ensures
        raws(r@) == names(p@),
{
    let c = unit_chars(p);
    let sp = path::find_spans(&c);
    let mut out: Vec<Vec<u8>> = Vec::new();
    let mut i: usize = 0;
    while i < sp.len()
        invariant
            i <= sp@.len(),
            c@ == units(p@),
            path::span_ints(sp@) == path::spans(c@),
            forall|k: int|
                0 <= k < sp@.len() ==> (#[trigger] sp@[k]).0 < sp@[k].1 && sp@[k].1 <= c@.len(),
            raws(out@) == names(p@).take(i as int),
        decreases sp@.len() - i,
    {
        let ghost before = out@;
        assert(path::span_ints(sp@)[i as int] == (sp@[i as int].0 as int, sp@[i as int].1 as int));
        out.push(part(p, sp[i].0, sp[i].1));
        assert(raws(out@) =~= raws(before).push(names(p@)[i as int]));
        i = i + 1;
        assert(raws(out@) =~= names(p@).take(i as int));
    }
    assert(names(p@).len() == sp@.len());
    assert(names(p@).take(sp@.len() as int) =~= names(p@));
    out
}

/// Whether a path reads as a piece of text.
pub fn reads(p: &[u8], s: &str) -> (r: bool)
    ensures
        r == (units(p@) == s@),
{
    text::same(&unit_text(p), s)
}

// ---------------------------------------------------------------------------
// Joining

/// A path with another after it; an absolute path stands for itself.
pub open spec fn joined(base: Seq<u8>, p: Seq<u8>) -> Seq<u8> {
    if (p.len() > 0 && p[0] == 47) || base.len() == 0 {
        p
    } else if base.last() == 47 {
        base + p
    } else {
        base.push(47) + p
    }
}

fn append(out: &mut Vec<u8>, p: &[u8])
    ensures
        final(out)@ == old(out)@ + p@,
{
    let ghost start = out@;
    let mut i: usize = 0;
    assert(start + p@.take(0) =~= start);
    while i < p.len()
        invariant
            i <= p@.len(),
            out@ == start + p@.take(i as int),
        decreases p@.len() - i,
    {
        out.push(p[i]);
        i = i + 1;
        assert(out@ =~= start + p@.take(i as int));
    }
    assert(p@.take(p@.len() as int) =~= p@);
}

/// A path with another after it.
pub fn join(base: &[u8], p: &[u8]) -> (r: Vec<u8>)
    ensures
        r@ == joined(base@, p@),
{
    if (p.len() > 0 && p[0] == 47) || base.len() == 0 {
        return copy(p);
    }
    let mut out = copy(base);
    if base[base.len() - 1] != 47 {
        out.push(47);
    }
    append(&mut out, p);
    out
}

/// Names with slashes between them.
pub open spec fn slashed(parts: Seq<Seq<u8>>) -> Seq<u8>
    decreases parts.len(),
{
    if parts.len() == 0 {
        seq![]
    } else if parts.len() == 1 {
        parts[0]
    } else {
        slashed(parts.drop_last()).push(47) + parts.last()
    }
}

/// Names with slashes between them.
pub fn join_names(parts: &Vec<Vec<u8>>) -> (r: Vec<u8>)
    ensures
        r@ == slashed(raws(parts@)),
{
    let ghost all = raws(parts@);
    let mut out: Vec<u8> = Vec::new();
    let mut i: usize = 0;
    while i < parts.len()
        invariant
            i <= parts@.len(),
            all == raws(parts@),
            out@ == slashed(all.take(i as int)),
        decreases parts@.len() - i,
    {
        assert(all.take(i + 1).drop_last() =~= all.take(i as int));
        assert(all[i as int] == parts@[i as int]@);
        if i > 0 {
            out.push(47);
        }
        append(&mut out, parts[i].as_slice());
        i = i + 1;
        assert(out@ =~= slashed(all.take(i as int)));
    }
    assert(all.take(all.len() as int) =~= all);
    out
}

/// Names with slashes between them, as text.
pub proof fn slashed_as_units(parts: Seq<Seq<u8>>)
    ensures
        units(slashed(parts)) == text::joined(unit_names(parts), "/"@),
    decreases parts.len(),
{
    reveal_strlit("/");
    let u = unit_names(parts);
    if parts.len() == 0 {
        assert(units(slashed(parts)) =~= seq![]);
    } else if parts.len() > 1 {
        slashed_as_units(parts.drop_last());
        assert(unit_names(parts.drop_last()) =~= u.drop_last());
        assert(units(slashed(parts)) =~= text::joined(u, "/"@));
    }
}

/// A path with another after it, as text.
pub proof fn joined_as_units(base: Seq<u8>, p: Seq<u8>)
    ensures
        units(joined(base, p)) == path::joined(units(base), units(p)),
{
    reveal_strlit("/");
    if p.len() > 0 {
        assert(units(p)[0] == p[0] as char);
    }
    if base.len() > 0 {
        assert(units(base).last() == base.last() as char);
    }
    assert(units(joined(base, p)) =~= path::joined(units(base), units(p)));
}

// ---------------------------------------------------------------------------
// Text

/// What `String::from_utf8_lossy` makes of bytes.
pub uninterp spec fn lossy_of(p: Seq<u8>) -> Seq<char>;

/// Calls `String::from_utf8_lossy`. The result is named; for bytes that are
/// valid UTF-8 it is their text. What stands in the place of other bytes is
/// left unsaid.
#[verifier::external_body]
fn lossy_text(p: &[u8]) -> (r: String)
    ensures
        r@ == lossy_of(p@),
        vstd::utf8::valid_utf8(p@) ==> r@ == vstd::utf8::decode_utf8(p@),
{
    String::from_utf8_lossy(p).into_owned()
}

/// A path as it is shown: as text, as far as it is.
pub open spec fn shown_as(p: Seq<u8>) -> Seq<char> {
    if vstd::utf8::valid_utf8(p) {
        vstd::utf8::decode_utf8(p)
    } else {
        lossy_of(p)
    }
}

/// A path as it is shown.
pub fn shown(p: &[u8]) -> (r: String)
    ensures
        r@ == shown_as(p@),
{
    lossy_text(p)
}

/// The bytes of a text are shown as that text.
pub proof fn text_is_shown(s: Seq<char>)
    ensures
        vstd::utf8::valid_utf8(bytes_of(s)),
        shown_as(bytes_of(s)) == s,
{
    vstd::utf8::encode_utf8_valid_utf8(s);
    vstd::utf8::encode_utf8_decode_utf8(s);
}

proof fn bytes_of_both(a: Seq<char>, b: Seq<char>)
    ensures
        bytes_of(a + b) == bytes_of(a) + bytes_of(b),
    decreases a.len(),
{
    if a.len() == 0 {
        assert(a + b =~= b);
        assert(bytes_of(a) + bytes_of(b) =~= bytes_of(b));
    } else {
        assert((a + b).drop_first() =~= a.drop_first() + b);
        bytes_of_both(a.drop_first(), b);
        assert(bytes_of(a + b) =~= bytes_of(a) + bytes_of(b));
    }
}

proof fn bytes_of_one(c: char)
    ensures
        bytes_of(seq![c]) == vstd::utf8::encode_scalar(c as u32),
{
    let rest = seq![c].drop_first();
    assert(rest.len() == 0);
    assert(bytes_of(rest) =~= seq![]);
    assert(bytes_of(seq![c]) =~= vstd::utf8::encode_scalar(c as u32));
}

/// The bytes of a character begin, and end, in that of a slash only if it is
/// one.
proof fn slash_bytes(c: char)
    ensures
        ({
            let b = vstd::utf8::encode_scalar(c as u32);
            &&& b.len() > 0
            &&& b[0] == 47 <==> c == '/'
            &&& b.last() == 47 <==> c == '/'
            &&& c == '/' ==> b.len() == 1
        }),
{
    let v = c as u32;
    assert(vstd::utf8::has_width_1_encoding(v) ==> (vstd::utf8::leading_byte_width_1(v) == 47u8
        <==> v == 47u32)) by (bit_vector);
    assert(vstd::utf8::leading_byte_width_2(v) >= 0x80u8) by (bit_vector);
    assert(vstd::utf8::leading_byte_width_3(v) >= 0x80u8) by (bit_vector);
    assert(vstd::utf8::leading_byte_width_4(v) >= 0x80u8) by (bit_vector);
    assert(vstd::utf8::last_continuation_byte(v) >= 0x80u8) by (bit_vector);
}

/// A text path with another after it is the same whether it is taken as text
/// or as bytes.
pub proof fn texts_join(base: Seq<char>, p: Seq<char>)
    ensures
        joined(bytes_of(base), bytes_of(p)) == bytes_of(path::joined(base, p)),
{
    reveal_strlit("/");
    if p.len() > 0 {
        slash_bytes(p[0]);
        assert(bytes_of(p)[0] == vstd::utf8::encode_scalar(p[0] as u32)[0]);
    }
    if base.len() > 0 {
        let end = seq![base.last()];
        slash_bytes(base.last());
        assert(base =~= base.drop_last() + end);
        bytes_of_both(base.drop_last(), end);
        bytes_of_one(base.last());
        assert(bytes_of(base).last() == bytes_of(end).last());
    }
    slash_bytes('/');
    bytes_of_one('/');
    assert("/"@ =~= seq!['/']);
    assert(bytes_of("/"@) =~= seq![47u8]);
    bytes_of_both(base, p);
    bytes_of_both(base, "/"@);
    bytes_of_both(base + "/"@, p);
    assert(bytes_of(base).push(47) =~= bytes_of(base) + seq![47u8]);
}

/// What follows text is text if the whole is.
proof fn rest_is_text(s: Seq<char>, p: Seq<u8>)
    requires
        vstd::utf8::valid_utf8(bytes_of(s) + p),
    ensures
        vstd::utf8::valid_utf8(p),
    decreases s.len(),
{
    if s.len() == 0 {
        assert(bytes_of(s) + p =~= p);
    } else {
        let head = vstd::utf8::encode_scalar(s[0] as u32);
        let rest = bytes_of(s.drop_first()) + p;
        let whole = bytes_of(s) + p;
        vstd::utf8::encode_utf8_first_scalar(s);
        assert(whole =~= head + rest);
        assert(whole[0] == bytes_of(s)[0]);
        assert(vstd::utf8::pop_first_scalar(whole) =~= rest);
        rest_is_text(s.drop_first(), p);
    }
}

/// A path below a text path is text exactly if the path is.
pub proof fn text_below_text(base: Seq<char>, p: Seq<u8>)
    ensures
        vstd::utf8::valid_utf8(joined(bytes_of(base), p)) == vstd::utf8::valid_utf8(p),
{
    let b = bytes_of(base);
    if base.len() > 0 && !(p.len() > 0 && p[0] == 47) {
        reveal_strlit("/");
        bytes_of_one('/');
        slash_bytes('/');
        assert("/"@ =~= seq!['/']);
        assert(bytes_of("/"@) =~= seq![47u8]);
        bytes_of_both(base, "/"@);
        assert(b.push(47) =~= bytes_of(base + "/"@));
        let head = if b.last() == 47 {
            base
        } else {
            base + "/"@
        };
        assert(b.len() > 0) by {
            slash_bytes(base[0]);
        }
        assert(joined(b, p) =~= bytes_of(head) + p);
        if vstd::utf8::valid_utf8(p) {
            vstd::utf8::encode_utf8_valid_utf8(head);
            vstd::utf8::valid_utf8_concat(bytes_of(head), p);
        } else if vstd::utf8::valid_utf8(joined(b, p)) {
            rest_is_text(head, p);
        }
    }
}

/// Whether all paths of a list are text.
pub open spec fn are_text(paths: Seq<Seq<u8>>) -> bool {
    forall|i: int| 0 <= i < paths.len() ==> vstd::utf8::valid_utf8(#[trigger] paths[i])
}

/// Paths that are text, as that text.
pub open spec fn decoded(paths: Seq<Seq<u8>>) -> Seq<Seq<char>> {
    paths.map_values(|p: Seq<u8>| vstd::utf8::decode_utf8(p))
}

/// Paths as text, if all of them are.
pub fn text_paths(paths: &Vec<Vec<u8>>) -> (r: Option<Vec<String>>)
    ensures
        match r {
            Some(v) => are_text(raws(paths@)) && text::texts(v@) == decoded(raws(paths@)),
            None => !are_text(raws(paths@)),
        },
{
    let ghost all = raws(paths@);
    let mut out: Vec<String> = Vec::new();
    let mut i: usize = 0;
    assert(text::texts(out@) =~= decoded(all).take(0));
    while i < paths.len()
        invariant
            i <= paths@.len(),
            all == raws(paths@),
            text::texts(out@) == decoded(all).take(i as int),
            forall|k: int| 0 <= k < i ==> vstd::utf8::valid_utf8(#[trigger] all[k]),
        decreases paths@.len() - i,
    {
        assert(all[i as int] == paths@[i as int]@);
        match archive::utf8_text(paths[i].as_slice()) {
            Some(s) => {
                let ghost before = out@;
                let ghost sv = s@;
                out.push(s);
                assert(text::texts(out@) =~= text::texts(before).push(sv));
            },
            None => {
                return None;
            },
        }
        i = i + 1;
        assert(text::texts(out@) =~= decoded(all).take(i as int));
    }
    assert(decoded(all).take(all.len() as int) =~= decoded(all));
    Some(out)
}

} // verus!
