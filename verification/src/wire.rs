//! The wire format of compiled programs: a length-prefixed binary encoding
//! in protocol-buffer style.
//!
//! The encoder is deterministic: it is a pure function of the program, laid
//! out here as spec functions that the executable encoder provably matches.
//! The decoder accepts the encoder's output and skips unknown fields.

use vstd::prelude::*;
use vstd::utf8::encode_utf8;
use crate::constant_pool::{Constant, ConstantPool, ConstView};
use crate::program::{FnTarget, Probe, ProbeSpec, ProbeView, Program, ProgramView};

verus! {

/// Base-128 varint encoding of a 64-bit value, least significant group
/// first.
pub open spec fn enc_varint(n: u64) -> Seq<u8>
    decreases n,
{
    if n < 128 {
        seq![n as u8]
    } else {
        seq![(n % 128 + 128) as u8] + enc_varint(n / 128)
    }
}

/// Tag byte sequence of a field: field number and wire type.
pub open spec fn enc_tag(field: u64, wire: u64) -> Seq<u8>
    recommends
        field >= 1,
        wire < 6,
{
    enc_varint((field * 8 + wire) as u64)
}

/// Little-endian bytes of a 64-bit value.
pub open spec fn enc_u64le(n: u64) -> Seq<u8> {
    seq![
        (n & 0xFF) as u8,
        ((n >> 8) & 0xFF) as u8,
        ((n >> 16) & 0xFF) as u8,
        ((n >> 24) & 0xFF) as u8,
        ((n >> 32) & 0xFF) as u8,
        ((n >> 40) & 0xFF) as u8,
        ((n >> 48) & 0xFF) as u8,
        ((n >> 56) & 0xFF) as u8,
    ]
}

/// Little-endian bytes of a 32-bit value.
pub open spec fn enc_u32le(n: u32) -> Seq<u8> {
    seq![(n & 0xFF) as u8, ((n >> 8) & 0xFF) as u8, ((n >> 16) & 0xFF) as u8, ((n >> 24) & 0xFF) as u8]
}

/// A length-delimited field: tag, payload length as a varint, payload.
pub open spec fn enc_len_delim(field: u64, payload: Seq<u8>) -> Seq<u8> {
    enc_tag(field, 2) + enc_varint(payload.len() as u64) + payload
}

/// The 64 bits of a signed value, two's complement.
pub open spec fn i64_bits(i: i64) -> u64 {
    i as u64
}

/// The encoding of one constant: exactly one field of the constant message,
/// chosen by the variant.
pub open spec fn enc_const(c: ConstView) -> Seq<u8> {
    match c {
        ConstView::Int(i) => enc_tag(1, 0) + enc_varint(i64_bits(i)),
        ConstView::Float(b) => enc_tag(2, 1) + enc_u64le(b),
        ConstView::Str(s) => enc_len_delim(3, encode_utf8(s)),
        ConstView::Bool(b) => enc_tag(4, 0) + enc_varint(if b { 1u64 } else { 0u64 }),
        ConstView::NoneValue => enc_len_delim(5, Seq::<u8>::empty()),
        ConstView::Ident(s) => enc_len_delim(6, encode_utf8(s)),
        ConstView::Field(s) => enc_len_delim(7, encode_utf8(s)),
        ConstView::Func(s) => enc_len_delim(8, encode_utf8(s)),
    }
}

/// The encoding of a constant pool message: each constant as one repeated
/// field, in order.
pub open spec fn enc_pool(cs: Seq<ConstView>) -> Seq<u8>
    decreases cs.len(),
{
    if cs.len() == 0 {
        Seq::<u8>::empty()
    } else {
        enc_len_delim(1, enc_const(cs[0])) + enc_pool(cs.drop_first())
    }
}

/// Appending one constant appends its field encoding.
pub proof fn lemma_pool_snoc(cs: Seq<ConstView>, c: ConstView)
    ensures
        enc_pool(cs.push(c)) == enc_pool(cs) + enc_len_delim(1, enc_const(c)),
    decreases cs.len(),
{
    if cs.len() == 0 {
        assert(cs.push(c)[0] == c);
        assert(cs.push(c).drop_first() =~= Seq::<ConstView>::empty());
        assert(enc_pool(Seq::<ConstView>::empty()) =~= Seq::<u8>::empty());
        assert(enc_pool(cs.push(c)) == enc_len_delim(1, enc_const(cs.push(c)[0])) + enc_pool(
            cs.push(c).drop_first(),
        ));
        assert(enc_pool(cs.push(c)) =~= enc_len_delim(1, enc_const(c)));
        assert(enc_pool(cs) + enc_len_delim(1, enc_const(c)) =~= enc_len_delim(1, enc_const(c)));
    } else {
        assert(cs.push(c)[0] == cs[0]);
        assert(cs.push(c).drop_first() =~= cs.drop_first().push(c));
        lemma_pool_snoc(cs.drop_first(), c);
        assert(enc_pool(cs.push(c)) == enc_len_delim(1, enc_const(cs.push(c)[0])) + enc_pool(
            cs.push(c).drop_first(),
        ));
        assert(enc_pool(cs) == enc_len_delim(1, enc_const(cs[0])) + enc_pool(cs.drop_first()));
        assert(enc_pool(cs.push(c)) =~= enc_pool(cs) + enc_len_delim(1, enc_const(c)));
    }
}

/// The encoding of a function probe spec message: specifier string (absent
/// when empty) and target (absent for the default, entry).
pub open spec fn enc_fn_spec(specifier: Seq<char>, target: FnTarget) -> Seq<u8> {
    (if specifier.len() == 0 {
        Seq::<u8>::empty()
    } else {
        enc_len_delim(1, encode_utf8(specifier))
    }) + (if target is Entry {
        Seq::<u8>::empty()
    } else {
        enc_tag(2, 0) + enc_varint(1)
    })
}

/// The encoding of one probe message.
pub open spec fn enc_probe(p: ProbeView) -> Seq<u8> {
    (if p.id.len() == 0 {
        Seq::<u8>::empty()
    } else {
        enc_len_delim(1, encode_utf8(p.id))
    }) + enc_len_delim(2, enc_len_delim(1, enc_fn_spec(p.specifier, p.target))) + (if p.predicate.len() == 0 {
        Seq::<u8>::empty()
    } else {
        enc_len_delim(3, p.predicate)
    }) + (if p.body.len() == 0 {
        Seq::<u8>::empty()
    } else {
        enc_len_delim(4, p.body)
    })
}

/// The concatenated encodings of the probes, each one repeated field.
pub open spec fn enc_probes(ps: Seq<ProbeView>) -> Seq<u8>
    decreases ps.len(),
{
    if ps.len() == 0 {
        Seq::<u8>::empty()
    } else {
        enc_len_delim(3, enc_probe(ps[0])) + enc_probes(ps.drop_first())
    }
}

/// Appending one probe appends its field encoding.
pub proof fn lemma_probes_snoc(ps: Seq<ProbeView>, p: ProbeView)
    ensures
        enc_probes(ps.push(p)) == enc_probes(ps) + enc_len_delim(3, enc_probe(p)),
    decreases ps.len(),
{
    if ps.len() == 0 {
        assert(ps.push(p)[0] == p);
        assert(ps.push(p).drop_first() =~= Seq::<ProbeView>::empty());
        assert(enc_probes(Seq::<ProbeView>::empty()) =~= Seq::<u8>::empty());
        assert(enc_probes(ps.push(p)) == enc_len_delim(3, enc_probe(ps.push(p)[0])) + enc_probes(
            ps.push(p).drop_first(),
        ));
        assert(enc_probes(ps.push(p)) =~= enc_len_delim(3, enc_probe(p)));
        assert(enc_probes(ps) + enc_len_delim(3, enc_probe(p)) =~= enc_len_delim(3, enc_probe(p)));
    } else {
        assert(ps.push(p)[0] == ps[0]);
        assert(ps.push(p).drop_first() =~= ps.drop_first().push(p));
        lemma_probes_snoc(ps.drop_first(), p);
        assert(enc_probes(ps.push(p)) == enc_len_delim(3, enc_probe(ps.push(p)[0])) + enc_probes(
            ps.push(p).drop_first(),
        ));
        assert(enc_probes(ps) == enc_len_delim(3, enc_probe(ps[0])) + enc_probes(ps.drop_first()));
        assert(enc_probes(ps.push(p)) =~= enc_probes(ps) + enc_len_delim(3, enc_probe(p)));
    }
}

/// The encoding of a whole program: version (absent when zero), constant
/// pool, probes, sampling bits (absent when zero).
pub open spec fn enc_program(pv: ProgramView) -> Seq<u8> {
    (if pv.version == 0 {
        Seq::<u8>::empty()
    } else {
        enc_tag(1, 0) + enc_varint(pv.version as u64)
    }) + enc_len_delim(2, enc_pool(pv.constants)) + enc_probes(pv.probes) + (if pv.sampling == 0 {
        Seq::<u8>::empty()
    } else {
        enc_tag(4, 5) + enc_u32le(pv.sampling)
    })
}

/// Append the varint encoding of a value to a buffer.
fn put_varint(out: &mut Vec<u8>, n: u64)
    ensures
        final(out)@ == old(out)@ + enc_varint(n),
    decreases n,
{
    if n < 128 {
        out.push(n as u8);
        proof {
            assert(out@ =~= old(out)@ + enc_varint(n));
        }
    } else {
        out.push((n % 128 + 128) as u8);
        let ghost mid = out@;
        put_varint(out, n / 128);
        proof {
            assert(out@ =~= old(out)@ + enc_varint(n));
        }
    }
}

/// Append a tag.
fn put_tag(out: &mut Vec<u8>, field: u64, wire: u64)
    requires
        1 <= field <= 100,
        wire < 6,
    ensures
        final(out)@ == old(out)@ + enc_tag(field, wire),
{
    put_varint(out, field * 8 + wire);
}

/// Append the little-endian bytes of a 64-bit value.
fn put_u64le(out: &mut Vec<u8>, n: u64)
    ensures
        final(out)@ == old(out)@ + enc_u64le(n),
{
    out.push((n & 0xFF) as u8);
    out.push(((n >> 8) & 0xFF) as u8);
    out.push(((n >> 16) & 0xFF) as u8);
    out.push(((n >> 24) & 0xFF) as u8);
    out.push(((n >> 32) & 0xFF) as u8);
    out.push(((n >> 40) & 0xFF) as u8);
    out.push(((n >> 48) & 0xFF) as u8);
    out.push(((n >> 56) & 0xFF) as u8);
    proof {
        assert(out@ =~= old(out)@ + enc_u64le(n));
    }
}

/// Append the little-endian bytes of a 32-bit value.
fn put_u32le(out: &mut Vec<u8>, n: u32)
    ensures
        final(out)@ == old(out)@ + enc_u32le(n),
{
    out.push((n & 0xFF) as u8);
    out.push(((n >> 8) & 0xFF) as u8);
    out.push(((n >> 16) & 0xFF) as u8);
    out.push(((n >> 24) & 0xFF) as u8);
    proof {
        assert(out@ =~= old(out)@ + enc_u32le(n));
    }
}

/// Append a length-delimited field holding the given bytes.
fn put_len_delim(out: &mut Vec<u8>, field: u64, payload: &Vec<u8>)
    requires
        1 <= field <= 100,
    ensures
        final(out)@ == old(out)@ + enc_len_delim(field, payload@),
{
    put_tag(out, field, 2);
    put_varint(out, payload.len() as u64);
    let mut i: usize = 0;
    proof {
        assert(out@ =~= old(out)@ + enc_tag(field, 2) + enc_varint(payload@.len() as u64)
            + payload@.subrange(0, 0));
    }
    while i < payload.len()
        invariant
            i <= payload@.len(),
            out@ == old(out)@ + enc_tag(field, 2) + enc_varint(payload@.len() as u64)
                + payload@.subrange(0, i as int),
        decreases payload@.len() - i,
    {
        out.push(payload[i]);
        i = i + 1;
        proof {
            assert(payload@.subrange(0, i as int) =~= payload@.subrange(0, i - 1).push(
                payload@[i - 1],
            ));
            assert(out@ =~= old(out)@ + enc_tag(field, 2) + enc_varint(payload@.len() as u64)
                + payload@.subrange(0, i as int));
        }
    }
    proof {
        assert(payload@.subrange(0, payload@.len() as int) =~= payload@);
        assert(out@ =~= old(out)@ + enc_len_delim(field, payload@));
    }
}

/// Append a length-delimited string field.
fn put_string_field(out: &mut Vec<u8>, field: u64, s: &str)
    requires
        1 <= field <= 100,
    ensures
        final(out)@ == old(out)@ + enc_len_delim(field, encode_utf8(s@)),
{
    let bytes = s.as_bytes_vec();
    put_len_delim(out, field, &bytes);
}

/// Append the encoding of one constant.
fn put_const(out: &mut Vec<u8>, c: &Constant)
    ensures
        final(out)@ == old(out)@ + enc_const(c.deep_view()),
{
    match c {
        Constant::Int(i) => {
            put_tag(out, 1, 0);
            let bits: u64 = #[verifier::truncate] (*i as u64);
            assert(bits == i64_bits(*i));
            put_varint(out, bits);
        }
        Constant::Float(b) => {
            put_tag(out, 2, 1);
            put_u64le(out, *b);
        }
        Constant::String(s) => {
            put_string_field(out, 3, s.as_str());
        }
        Constant::Bool(b) => {
            put_tag(out, 4, 0);
            put_varint(out, if *b { 1u64 } else { 0u64 });
        }
        Constant::NoneValue => {
            let empty: Vec<u8> = Vec::new();
            put_len_delim(out, 5, &empty);
        }
        Constant::Identifier(s) => {
            put_string_field(out, 6, s.as_str());
        }
        Constant::FieldName(s) => {
            put_string_field(out, 7, s.as_str());
        }
        Constant::FunctionName(s) => {
            put_string_field(out, 8, s.as_str());
        }
    }
    proof {
        assert(out@ =~= old(out)@ + enc_const(c.deep_view()));
    }
}

/// The bytes of one embedded message, built aside.
fn const_message(c: &Constant) -> (r: Vec<u8>)
    ensures
        r@ == enc_const(c.deep_view()),
{
    let mut out: Vec<u8> = Vec::new();
    put_const(&mut out, c);
    out
}

/// Encode a whole program to its wire bytes.
#[verifier::loop_isolation(false)]
pub fn encode_program(p: &Program) -> (r: Vec<u8>)
    ensures
        r@ == enc_program(p@),
{
    let mut out: Vec<u8> = Vec::new();

    if p.version != 0 {
        put_tag(&mut out, 1, 0);
        put_varint(&mut out, p.version as u64);
    }

    let pool_bytes = pool_message(&p.constant_pool);
    proof {
        assert(p@.constants =~= p.constant_pool@.map_values(|c: Constant| c.deep_view()));
    }
    put_len_delim(&mut out, 2, &pool_bytes);

    let ghost probes_start = out@;
    probes_section(&mut out, &p.probes);
    proof {
        assert(p@.probes =~= p.probes.deep_view());
    }

    if p.sampling != 0 {
        put_tag(&mut out, 4, 5);
        put_u32le(&mut out, p.sampling);
    }

    proof {
        assert(out@ =~= enc_program(p@));
    }
    out
}

/// The bytes of the constant pool message.
#[verifier::loop_isolation(false)]
fn pool_message(pool: &ConstantPool) -> (r: Vec<u8>)
    ensures
        r@ == enc_pool(pool@.map_values(|c: Constant| c.deep_view())),
{
    let ghost cs = pool@.map_values(|c: Constant| c.deep_view());
    let mut pool_bytes: Vec<u8> = Vec::new();
    let n = pool.len();
    let mut i: usize = 0;
    proof {
        assert(cs.subrange(0, 0) =~= Seq::<ConstView>::empty());
    }
    while i < n
        invariant
            n == pool@.len(),
            i <= n,
            pool_bytes@ == enc_pool(cs.subrange(0, i as int)),
        decreases n - i,
    {
        let c = pool.entry(i);
        let msg = const_message(c);
        put_len_delim(&mut pool_bytes, 1, &msg);
        i = i + 1;
        proof {
            let pre = cs.subrange(0, i - 1);
            assert(pre.push(cs[i - 1]) =~= cs.subrange(0, i as int));
            assert(cs[i - 1] == pool@[i - 1].deep_view());
            lemma_pool_snoc(pre, cs[i - 1]);
            assert(pool_bytes@ =~= enc_pool(cs.subrange(0, i as int)));
        }
    }
    proof {
        assert(cs.subrange(0, n as int) =~= cs);
    }
    pool_bytes
}

/// Append the probes section: one repeated field per probe, in order.
#[verifier::loop_isolation(false)]
fn probes_section(out: &mut Vec<u8>, probes: &Vec<Probe>)
    ensures
        final(out)@ == old(out)@ + enc_probes(probes.deep_view()),
{
    let ghost ps = probes.deep_view();
    let ghost start = out@;
    let mut j: usize = 0;
    proof {
        assert(ps.subrange(0, 0) =~= Seq::<ProbeView>::empty());
        assert(out@ =~= start + enc_probes(ps.subrange(0, 0)));
    }
    while j < probes.len()
        invariant
            j <= probes@.len(),
            ps.len() == probes@.len(),
            out@ == start + enc_probes(ps.subrange(0, j as int)),
        decreases probes@.len() - j,
    {
        let probe_msg = probe_message(&probes[j]);
        put_len_delim(out, 3, &probe_msg);
        j = j + 1;
        proof {
            let pre = ps.subrange(0, j - 1);
            assert(pre.push(ps[j - 1]) =~= ps.subrange(0, j as int));
            assert(ps[j - 1] == probes@[j - 1].deep_view());
            lemma_probes_snoc(pre, ps[j - 1]);
            assert(out@ =~= start + enc_probes(ps.subrange(0, j as int)));
        }
    }
    proof {
        assert(ps.subrange(0, probes@.len() as int) =~= ps);
    }
}

/// The bytes of one probe message.
fn probe_message(p: &Probe) -> (r: Vec<u8>)
    ensures
        r@ == enc_probe(p@),
{
    let mut out: Vec<u8> = Vec::new();

    if p.id.as_str().unicode_len() != 0 {
        put_string_field(&mut out, 1, p.id.as_str());
    }

    let spec_msg = fn_spec_message(&p.spec);
    let mut probespec_msg: Vec<u8> = Vec::new();
    put_len_delim(&mut probespec_msg, 1, &spec_msg);
    put_len_delim(&mut out, 2, &probespec_msg);

    if p.predicate.len() != 0 {
        put_len_delim(&mut out, 3, &p.predicate);
    }
    if p.body.len() != 0 {
        put_len_delim(&mut out, 4, &p.body);
    }

    proof {
        assert(out@ =~= enc_probe(p@));
    }
    out
}

/// The bytes of one function probe spec message.
fn fn_spec_message(s: &ProbeSpec) -> (r: Vec<u8>)
    ensures
        match *s {
            ProbeSpec::Fn { ref specifier, target } => r@ == enc_fn_spec(specifier@, target),
        },
{
    let mut out: Vec<u8> = Vec::new();
    match s {
        ProbeSpec::Fn { specifier, target } => {
            if specifier.as_str().unicode_len() != 0 {
                put_string_field(&mut out, 1, specifier.as_str());
            }
            match target {
                FnTarget::Entry => (),
                FnTarget::Exit => {
                    put_tag(&mut out, 2, 0);
                    put_varint(&mut out, 1);
                }
            }
            proof {
                assert(out@ =~= enc_fn_spec(specifier@, *target));
            }
        }
    }
    out
}


/// Serialization is deterministic: the wire bytes are a function of the
/// program's content alone, so one program serialized twice, or two
/// programs with the same content, give byte-identical output.
pub proof fn lemma_encode_deterministic(a: ProgramView, b: ProgramView)
    requires
        a == b,
    ensures
        enc_program(a) == enc_program(b),
{
}

/// The pattern occurs in the buffer at the offset.
pub open spec fn starts_with(b: Seq<u8>, i: int, pat: Seq<u8>) -> bool {
    0 <= i && i + pat.len() <= b.len() && b.subrange(i, i + pat.len()) == pat
}

/// A concatenated pattern occurs exactly when its halves occur in sequence.
proof fn lemma_starts_with_concat(b: Seq<u8>, i: int, p: Seq<u8>, q: Seq<u8>)
    ensures
        starts_with(b, i, p + q) <==> (starts_with(b, i, p) && starts_with(b, i + p.len(), q)),
{
    if starts_with(b, i, p + q) {
        assert(b.subrange(i, i + p.len()) =~= (p + q).subrange(0, p.len() as int));
        assert((p + q).subrange(0, p.len() as int) =~= p);
        assert(b.subrange(i + p.len(), i + p.len() + q.len()) =~= (p + q).subrange(
            p.len() as int,
            (p + q).len() as int,
        ));
        assert((p + q).subrange(p.len() as int, (p + q).len() as int) =~= q);
    }
    if starts_with(b, i, p) && starts_with(b, i + p.len(), q) {
        assert(b.subrange(i, i + (p + q).len()) =~= p + q);
    }
}

/// An index inside an occurring pattern reads the pattern's byte.
proof fn lemma_starts_with_index(b: Seq<u8>, i: int, pat: Seq<u8>, k: int)
    requires
        starts_with(b, i, pat),
        0 <= k < pat.len(),
    ensures
        b[i + k] == pat[k],
{
    assert(b.subrange(i, i + pat.len())[k] == b[i + k]);
}

/// The whole buffer occurs at offset zero.
proof fn lemma_whole(msg: Seq<u8>)
    ensures
        starts_with(msg, 0, msg),
{
    assert(msg.subrange(0, msg.len() as int) =~= msg);
}

/// A suffix equality turns into an occurrence at the offset.
proof fn lemma_skip_starts(msg: Seq<u8>, i: int, x: Seq<u8>)
    requires
        0 <= i <= msg.len(),
        msg.skip(i) == x,
    ensures
        starts_with(msg, i, x),
{
    assert(msg.subrange(i, i + x.len()) =~= x);
}

/// A four-way concatenation splits into four occurrences.
proof fn lemma_concat4(msg: Seq<u8>, a: Seq<u8>, b: Seq<u8>, c: Seq<u8>, d: Seq<u8>)
    requires
        msg == a + b + c + d,
    ensures
        starts_with(msg, 0, a),
        starts_with(msg, a.len() as int, b),
        starts_with(msg, a.len() as int + b.len() as int, c),
        starts_with(msg, a.len() as int + b.len() as int + c.len() as int, d),
        msg.len() == a.len() + b.len() + c.len() + d.len(),
{
    assert(msg.subrange(0, a.len() as int) =~= a);
    assert(msg.subrange(a.len() as int, a.len() as int + b.len() as int) =~= b);
    assert(msg.subrange(
        a.len() as int + b.len() as int,
        a.len() as int + b.len() as int + c.len() as int,
    ) =~= c);
    assert(msg.subrange(
        a.len() as int + b.len() as int + c.len() as int,
        msg.len() as int,
    ) =~= d);
}

/// Every varint encoding has between one and ten bytes.
proof fn lemma_varint_len(n: u64)
    ensures
        enc_varint(n).len() >= 1,
    decreases n,
{
    if n < 128 {
        assert(enc_varint(n) =~= seq![n as u8]);
    } else {
        lemma_varint_len(n / 128);
    }
}

/// Decode one varint; on any buffer that carries the encoding of a value at
/// the offset, the decoder returns exactly that value and stops right after
/// it.
fn dec_varint(b: &[u8], i: usize) -> (r: Result<(u64, usize), String>)
    ensures
        forall|n: u64| #[trigger] starts_with(b@, i as int, enc_varint(n)) ==> r == Ok::<
            (u64, usize),
            String,
        >((n, (i + enc_varint(n).len()) as usize)),
        r matches Ok(p) ==> i < p.1 <= b@.len(),
    decreases b@.len() - i,
{
    if i >= b.len() {
        proof {
            assert forall|n: u64| !starts_with(b@, i as int, enc_varint(n)) by {
                lemma_varint_len(n);
            }
        }
        return Err(decode_error());
    }
    let byte = b[i];
    if byte < 128 {
        proof {
            assert forall|n: u64| starts_with(b@, i as int, enc_varint(n)) implies (n, (i
                + enc_varint(n).len()) as usize) == (byte as u64, (i + 1) as usize) by {
                if n < 128 {
                    assert(enc_varint(n) =~= seq![n as u8]);
                    lemma_starts_with_index(b@, i as int, enc_varint(n), 0);
                    assert(b@[i as int] == n as u8);
                } else {
                    assert(enc_varint(n)[0] == (n % 128 + 128) as u8);
                    lemma_starts_with_index(b@, i as int, enc_varint(n), 0);
                    assert(b@[i as int] == (n % 128 + 128) as u8);
                }
            }
        }
        Ok((byte as u64, i + 1))
    } else {
        let rec = dec_varint(b, i + 1);
        match rec {
            Ok((hi, j)) => {
                let low: u64 = (byte - 128) as u64;
                if hi <= (0xFFFF_FFFF_FFFF_FFFFu64 - low) / 128 {
                    let value: u64 = hi * 128 + low;
                    proof {
                        assert forall|n: u64| starts_with(b@, i as int, enc_varint(n)) implies (n,
                        (i + enc_varint(n).len()) as usize) == (value, j) by {
                            assert(n >= 128) by {
                                if n < 128 {
                                    assert(enc_varint(n) =~= seq![n as u8]);
                                    lemma_starts_with_index(b@, i as int, enc_varint(n), 0);
                                }
                            }
                            assert(enc_varint(n) == seq![(n % 128 + 128) as u8] + enc_varint(
                                n / 128,
                            ));
                            lemma_starts_with_concat(
                                b@,
                                i as int,
                                seq![(n % 128 + 128) as u8],
                                enc_varint(n / 128),
                            );
                            lemma_starts_with_index(
                                b@,
                                i as int,
                                seq![(n % 128 + 128) as u8],
                                0,
                            );
                            assert(b@[i as int] == (n % 128 + 128) as u8);
                            assert(starts_with(b@, i + 1, enc_varint(n / 128)));
                            assert(hi == n / 128 && j == i + 1 + enc_varint(n / 128).len());
                            assert(low == n % 128);
                            assert(value == n) by (nonlinear_arith)
                                requires
                                    hi == n / 128,
                                    low == n % 128,
                                    value == hi * 128 + low,
                            ;
                        }
                    }
                    Ok((value, j))
                } else {
                    proof {
                        assert forall|n: u64| !starts_with(b@, i as int, enc_varint(n)) by {
                            if starts_with(b@, i as int, enc_varint(n)) {
                                assert(n >= 128) by {
                                    if n < 128 {
                                        assert(enc_varint(n) =~= seq![n as u8]);
                                        lemma_starts_with_index(b@, i as int, enc_varint(n), 0);
                                    }
                                }
                                assert(enc_varint(n) == seq![(n % 128 + 128) as u8] + enc_varint(
                                    n / 128,
                                ));
                                lemma_starts_with_concat(
                                    b@,
                                    i as int,
                                    seq![(n % 128 + 128) as u8],
                                    enc_varint(n / 128),
                                );
                                lemma_starts_with_index(
                                    b@,
                                    i as int,
                                    seq![(n % 128 + 128) as u8],
                                    0,
                                );
                                assert(hi == n / 128);
                                assert(low == n % 128);
                                assert(hi <= (0xFFFF_FFFF_FFFF_FFFFu64 - low) / 128) by (
                                nonlinear_arith)
                                    requires
                                        hi == n / 128,
                                        low == n % 128,
                                ;
                            }
                        }
                    }
                    Err(decode_error())
                }
            }
            Err(e) => {
                proof {
                    assert forall|n: u64| !starts_with(b@, i as int, enc_varint(n)) by {
                        if starts_with(b@, i as int, enc_varint(n)) {
                            assert(n >= 128) by {
                                if n < 128 {
                                    assert(enc_varint(n) =~= seq![n as u8]);
                                    lemma_starts_with_index(b@, i as int, enc_varint(n), 0);
                                }
                            }
                            assert(enc_varint(n) == seq![(n % 128 + 128) as u8] + enc_varint(
                                n / 128,
                            ));
                            lemma_starts_with_concat(
                                b@,
                                i as int,
                                seq![(n % 128 + 128) as u8],
                                enc_varint(n / 128),
                            );
                        }
                    }
                }
                Err(e)
            }
        }
    }
}

/// The message of every wire-format error.
fn decode_error() -> String {
    let mut m = String::new();
    m.append("Failed to decode program bytes");
    m
}

/// Decode eight little-endian bytes.
fn dec_u64le(b: &[u8], i: usize) -> (r: Result<(u64, usize), String>)
    ensures
        forall|n: u64| #[trigger] starts_with(b@, i as int, enc_u64le(n)) ==> r == Ok::<
            (u64, usize),
            String,
        >((n, (i + 8) as usize)),
        r matches Ok(p) ==> i < p.1 <= b@.len(),
{
    if b.len() < 8 || i > b.len() - 8 {
        return Err(decode_error());
    }
    let v: u64 = (b[i] as u64) + (b[i + 1] as u64) * 0x100 + (b[i + 2] as u64) * 0x1_0000 + (b[i
        + 3] as u64) * 0x100_0000 + (b[i + 4] as u64) * 0x1_0000_0000 + (b[i + 5] as u64)
        * 0x100_0000_0000 + (b[i + 6] as u64) * 0x1_0000_0000_0000 + (b[i + 7] as u64)
        * 0x100_0000_0000_0000;
    proof {
        assert forall|n: u64| starts_with(b@, i as int, enc_u64le(n)) implies v == n by {
            lemma_starts_with_index(b@, i as int, enc_u64le(n), 0);
            lemma_starts_with_index(b@, i as int, enc_u64le(n), 1);
            lemma_starts_with_index(b@, i as int, enc_u64le(n), 2);
            lemma_starts_with_index(b@, i as int, enc_u64le(n), 3);
            lemma_starts_with_index(b@, i as int, enc_u64le(n), 4);
            lemma_starts_with_index(b@, i as int, enc_u64le(n), 5);
            lemma_starts_with_index(b@, i as int, enc_u64le(n), 6);
            lemma_starts_with_index(b@, i as int, enc_u64le(n), 7);
            assert(b@[i as int] == (n & 0xFF) as u8);
            assert(b@[i + 1] == ((n >> 8) & 0xFF) as u8);
            assert(b@[i + 2] == ((n >> 16) & 0xFF) as u8);
            assert(b@[i + 3] == ((n >> 24) & 0xFF) as u8);
            assert(b@[i + 4] == ((n >> 32) & 0xFF) as u8);
            assert(b@[i + 5] == ((n >> 40) & 0xFF) as u8);
            assert(b@[i + 6] == ((n >> 48) & 0xFF) as u8);
            assert(b@[i + 7] == ((n >> 56) & 0xFF) as u8);
            assert(((n & 0xFF) as u8) as u64 + (((n >> 8) & 0xFF) as u8) as u64 * 0x100 + (((n
                >> 16) & 0xFF) as u8) as u64 * 0x1_0000 + (((n >> 24) & 0xFF) as u8) as u64
                * 0x100_0000 + (((n >> 32) & 0xFF) as u8) as u64 * 0x1_0000_0000 + (((n >> 40)
                & 0xFF) as u8) as u64 * 0x100_0000_0000 + (((n >> 48) & 0xFF) as u8) as u64
                * 0x1_0000_0000_0000 + (((n >> 56) & 0xFF) as u8) as u64 * 0x100_0000_0000_0000
                == n) by (bit_vector);
        }
    }
    Ok((v, i + 8))
}

/// Decode four little-endian bytes.
fn dec_u32le(b: &[u8], i: usize) -> (r: Result<(u32, usize), String>)
    ensures
        forall|n: u32| #[trigger] starts_with(b@, i as int, enc_u32le(n)) ==> r == Ok::<
            (u32, usize),
            String,
        >((n, (i + 4) as usize)),
        r matches Ok(p) ==> i < p.1 <= b@.len(),
{
    if b.len() < 4 || i > b.len() - 4 {
        return Err(decode_error());
    }
    let v: u32 = (b[i] as u32) + (b[i + 1] as u32) * 0x100 + (b[i + 2] as u32) * 0x1_0000 + (b[i
        + 3] as u32) * 0x100_0000;
    proof {
        assert forall|n: u32| starts_with(b@, i as int, enc_u32le(n)) implies v == n by {
            lemma_starts_with_index(b@, i as int, enc_u32le(n), 0);
            lemma_starts_with_index(b@, i as int, enc_u32le(n), 1);
            lemma_starts_with_index(b@, i as int, enc_u32le(n), 2);
            lemma_starts_with_index(b@, i as int, enc_u32le(n), 3);
            assert(b@[i as int] == (n & 0xFF) as u8);
            assert(b@[i + 1] == ((n >> 8) & 0xFF) as u8);
            assert(b@[i + 2] == ((n >> 16) & 0xFF) as u8);
            assert(b@[i + 3] == ((n >> 24) & 0xFF) as u8);
            assert(((n & 0xFF) as u8) as u32 + (((n >> 8) & 0xFF) as u8) as u32 * 0x100 + (((n
                >> 16) & 0xFF) as u8) as u32 * 0x1_0000 + (((n >> 24) & 0xFF) as u8) as u32
                * 0x100_0000 == n) by (bit_vector);
        }
    }
    Ok((v, i + 4))
}

/// Decode a length-prefixed byte payload: a varint length, then that many
/// bytes.
fn dec_len_payload(b: &[u8], i: usize) -> (r: Result<(Vec<u8>, usize), String>)
    ensures
        forall|payload: Seq<u8>|
            #[trigger] starts_with(b@, i as int, enc_varint(payload.len() as u64) + payload) ==> (
            r matches Ok(p) && p.0@ == payload && p.1 as int == i + enc_varint(
                payload.len() as u64,
            ).len() + payload.len()),
        r matches Ok(p) ==> i < p.1 <= b@.len(),
{
    let (len, j) = match dec_varint(b, i) {
        Ok(p) => p,
        Err(e) => {
            proof {
                assert forall|payload: Seq<u8>| !starts_with(
                    b@,
                    i as int,
                    enc_varint(payload.len() as u64) + payload,
                ) by {
                    if starts_with(b@, i as int, enc_varint(payload.len() as u64) + payload) {
                        lemma_starts_with_concat(
                            b@,
                            i as int,
                            enc_varint(payload.len() as u64),
                            payload,
                        );
                    }
                }
            }
            return Err(e);
        }
    };
    if len > (b.len() - j) as u64 {
        proof {
            assert forall|payload: Seq<u8>| !starts_with(
                b@,
                i as int,
                enc_varint(payload.len() as u64) + payload,
            ) by {
                if starts_with(b@, i as int, enc_varint(payload.len() as u64) + payload) {
                    lemma_starts_with_concat(
                        b@,
                        i as int,
                        enc_varint(payload.len() as u64),
                        payload,
                    );
                }
            }
        }
        return Err(decode_error());
    }
    let end = j + (len as usize);
    let sub = vstd::slice::slice_subrange(b, j, end);
    let out = vstd::slice::slice_to_vec(sub);
    proof {
        assert forall|payload: Seq<u8>| #[trigger] starts_with(
            b@,
            i as int,
            enc_varint(payload.len() as u64) + payload,
        ) implies out@ == payload && end as int == i + enc_varint(payload.len() as u64).len()
            + payload.len() by {
            lemma_starts_with_concat(b@, i as int, enc_varint(payload.len() as u64), payload);
            assert(len == payload.len() as u64);
            assert(out@ =~= payload);
        }
    }
    Ok((out, end))
}

/// Decode a length-prefixed UTF-8 string.
fn dec_string(b: &[u8], i: usize) -> (r: Result<(String, usize), String>)
    ensures
        forall|cs: Seq<char>|
            #[trigger] starts_with(
                b@,
                i as int,
                enc_varint(encode_utf8(cs).len() as u64) + encode_utf8(cs),
            ) ==> (r matches Ok(p) && p.0@ == cs && p.1 as int == i + enc_varint(
                encode_utf8(cs).len() as u64,
            ).len() + encode_utf8(cs).len()),
        r matches Ok(p) ==> i < p.1 <= b@.len(),
{
    let (bytes, j) = match dec_len_payload(b, i) {
        Ok(p) => p,
        Err(e) => {
            return Err(e);
        }
    };
    let ghost bytes_view = bytes@;
    match crate::text::string_from_utf8(bytes) {
        Some(s) => {
            proof {
                assert forall|cs: Seq<char>| starts_with(
                    b@,
                    i as int,
                    enc_varint(encode_utf8(cs).len() as u64) + encode_utf8(cs),
                ) implies s@ == cs by {
                    assert(bytes_view == encode_utf8(cs));
                    assert(encode_utf8(s@) == encode_utf8(cs));
                    vstd::utf8::encode_utf8_decode_utf8(s@);
                    vstd::utf8::encode_utf8_decode_utf8(cs);
                }
            }
            Ok((s, j))
        }
        Option::None => {
            proof {
                assert forall|cs: Seq<char>| !starts_with(
                    b@,
                    i as int,
                    enc_varint(encode_utf8(cs).len() as u64) + encode_utf8(cs),
                ) by {
                    if starts_with(
                        b@,
                        i as int,
                        enc_varint(encode_utf8(cs).len() as u64) + encode_utf8(cs),
                    ) {
                        assert(bytes_view == encode_utf8(cs));
                        vstd::utf8::encode_utf8_valid_utf8(cs);
                    }
                }
            }
            Err(decode_error())
        }
    }
}

/// Nonempty text has a nonempty encoding.
proof fn lemma_utf8_nonempty(cs: Seq<char>)
    requires
        cs.len() > 0,
    ensures
        encode_utf8(cs).len() > 0,
{
    vstd::utf8::char_is_scalar(cs[0]);
    assert(encode_utf8(cs) == vstd::utf8::encode_scalar(cs[0] as u32) + encode_utf8(
        cs.drop_first(),
    ));
}


/// The exact layout of one encoded constant: the first byte names the
/// variant, the payload follows, and nothing trails it.
proof fn const_shape(msg: Seq<u8>, cv: ConstView)
    requires
        msg == enc_const(cv),
    ensures
        msg.len() >= 1,
        match cv {
            ConstView::Int(v) => msg[0] == 8 && starts_with(msg, 1, enc_varint(i64_bits(v)))
                && msg.len() == 1 + enc_varint(i64_bits(v)).len(),
            ConstView::Float(v) => msg[0] == 17 && starts_with(msg, 1, enc_u64le(v)) && msg.len()
                == 9,
            ConstView::Str(cs) => msg[0] == 26 && starts_with(
                msg,
                1,
                enc_varint(encode_utf8(cs).len() as u64) + encode_utf8(cs),
            ) && msg.len() == 1 + enc_varint(encode_utf8(cs).len() as u64).len() + encode_utf8(
                cs,
            ).len(),
            ConstView::Bool(b) => msg[0] == 32 && starts_with(
                msg,
                1,
                enc_varint(if b { 1u64 } else { 0u64 }),
            ) && msg.len() == 2,
            ConstView::NoneValue => msg[0] == 42 && starts_with(
                msg,
                1,
                enc_varint(0) + Seq::<u8>::empty(),
            ) && msg.len() == 2,
            ConstView::Ident(cs) => msg[0] == 50 && starts_with(
                msg,
                1,
                enc_varint(encode_utf8(cs).len() as u64) + encode_utf8(cs),
            ) && msg.len() == 1 + enc_varint(encode_utf8(cs).len() as u64).len() + encode_utf8(
                cs,
            ).len(),
            ConstView::Field(cs) => msg[0] == 58 && starts_with(
                msg,
                1,
                enc_varint(encode_utf8(cs).len() as u64) + encode_utf8(cs),
            ) && msg.len() == 1 + enc_varint(encode_utf8(cs).len() as u64).len() + encode_utf8(
                cs,
            ).len(),
            ConstView::Func(cs) => msg[0] == 66 && starts_with(
                msg,
                1,
                enc_varint(encode_utf8(cs).len() as u64) + encode_utf8(cs),
            ) && msg.len() == 1 + enc_varint(encode_utf8(cs).len() as u64).len() + encode_utf8(
                cs,
            ).len(),
        },
{
    assert(enc_tag(1, 0) =~= seq![8u8]);
    assert(enc_tag(2, 1) =~= seq![17u8]);
    assert(enc_tag(3, 2) =~= seq![26u8]);
    assert(enc_tag(4, 0) =~= seq![32u8]);
    assert(enc_tag(5, 2) =~= seq![42u8]);
    assert(enc_tag(6, 2) =~= seq![50u8]);
    assert(enc_tag(7, 2) =~= seq![58u8]);
    assert(enc_tag(8, 2) =~= seq![66u8]);
    assert(enc_varint(0) =~= seq![0u8]);
    assert(enc_varint(1) =~= seq![1u8]);
    lemma_whole(msg);
    match cv {
        ConstView::Int(v) => {
            lemma_starts_with_concat(msg, 0, enc_tag(1, 0), enc_varint(i64_bits(v)));
            lemma_starts_with_index(msg, 0, enc_tag(1, 0), 0);
        }
        ConstView::Float(v) => {
            lemma_starts_with_concat(msg, 0, enc_tag(2, 1), enc_u64le(v));
            lemma_starts_with_index(msg, 0, enc_tag(2, 1), 0);
        }
        ConstView::Str(cs) => {
            assert(enc_const(cv) =~= enc_tag(3, 2) + (enc_varint(encode_utf8(cs).len() as u64)
                + encode_utf8(cs)));
            lemma_starts_with_concat(
                msg,
                0,
                enc_tag(3, 2),
                enc_varint(encode_utf8(cs).len() as u64) + encode_utf8(cs),
            );
            lemma_starts_with_index(msg, 0, enc_tag(3, 2), 0);
        }
        ConstView::Bool(b) => {
            lemma_starts_with_concat(msg, 0, enc_tag(4, 0), enc_varint(if b { 1u64 } else { 0u64 }));
            lemma_starts_with_index(msg, 0, enc_tag(4, 0), 0);
        }
        ConstView::NoneValue => {
            assert(enc_const(cv) =~= enc_tag(5, 2) + (enc_varint(0) + Seq::<u8>::empty()));
            lemma_starts_with_concat(msg, 0, enc_tag(5, 2), enc_varint(0) + Seq::<u8>::empty());
            lemma_starts_with_index(msg, 0, enc_tag(5, 2), 0);
        }
        ConstView::Ident(cs) => {
            assert(enc_const(cv) =~= enc_tag(6, 2) + (enc_varint(encode_utf8(cs).len() as u64)
                + encode_utf8(cs)));
            lemma_starts_with_concat(
                msg,
                0,
                enc_tag(6, 2),
                enc_varint(encode_utf8(cs).len() as u64) + encode_utf8(cs),
            );
            lemma_starts_with_index(msg, 0, enc_tag(6, 2), 0);
        }
        ConstView::Field(cs) => {
            assert(enc_const(cv) =~= enc_tag(7, 2) + (enc_varint(encode_utf8(cs).len() as u64)
                + encode_utf8(cs)));
            lemma_starts_with_concat(
                msg,
                0,
                enc_tag(7, 2),
                enc_varint(encode_utf8(cs).len() as u64) + encode_utf8(cs),
            );
            lemma_starts_with_index(msg, 0, enc_tag(7, 2), 0);
        }
        ConstView::Func(cs) => {
            assert(enc_const(cv) =~= enc_tag(8, 2) + (enc_varint(encode_utf8(cs).len() as u64)
                + encode_utf8(cs)));
            lemma_starts_with_concat(
                msg,
                0,
                enc_tag(8, 2),
                enc_varint(encode_utf8(cs).len() as u64) + encode_utf8(cs),
            );
            lemma_starts_with_index(msg, 0, enc_tag(8, 2), 0);
        }
    }
}

/// Decode one constant message, which holds exactly one field.
#[verifier::rlimit(100)]
fn dec_const(msg: &[u8]) -> (r: Result<Constant, String>)
    ensures
        forall|cv: ConstView| msg@ == #[trigger] enc_const(cv) ==> (match r {
            Ok(ref c) => c.deep_view() == cv,
            Err(_) => false,
        }),
{
    if msg.len() == 0 {
        proof {
            assert forall|cv: ConstView| msg@ != #[trigger] enc_const(cv) by {
                if msg@ == enc_const(cv) {
                    const_shape(msg@, cv);
                }
            }
        }
        return Err(decode_error());
    }
    let tag = msg[0];
    let i: usize = 1;
    proof {
        assert(enc_tag(1, 0) =~= seq![8u8]);
        assert(enc_tag(2, 1) =~= seq![17u8]);
        assert(enc_tag(3, 2) =~= seq![26u8]);
        assert(enc_tag(4, 0) =~= seq![32u8]);
        assert(enc_tag(5, 2) =~= seq![42u8]);
        assert(enc_tag(6, 2) =~= seq![50u8]);
        assert(enc_tag(7, 2) =~= seq![58u8]);
        assert(enc_tag(8, 2) =~= seq![66u8]);
        assert forall|cv: ConstView| msg@ == #[trigger] enc_const(cv) implies msg@.len() >= 1
            && msg@[0] == enc_const(cv)[0] by {}
    }
    if tag == 8 {
        let (bits, j) = match dec_varint(msg, i) {
            Ok(p) => p,
            Err(e) => {
                proof {
                    assert forall|cv: ConstView| msg@ != #[trigger] enc_const(cv) by {
                        if msg@ == enc_const(cv) {
                            const_shape(msg@, cv);
                        }
                    }
                }
                return Err(e);
            }
        };
        if j != msg.len() {
            proof {
                assert forall|cv: ConstView| msg@ != #[trigger] enc_const(cv) by {
                    if msg@ == enc_const(cv) {
                        const_shape(msg@, cv);
                    }
                }
            }
            return Err(decode_error());
        }
        let value: i64 = #[verifier::truncate] (bits as i64);
        proof {
            assert forall|cv: ConstView| msg@ == #[trigger] enc_const(cv) implies ConstView::Int(
                value,
            ) == cv by {
                match cv {
                    ConstView::Int(v) => {
                        lemma_whole(msg@);
                        lemma_starts_with_concat(msg@, 0, enc_tag(1, 0), enc_varint(i64_bits(v)));
                        assert(bits == i64_bits(v));
                        assert((v as u64) as i64 == v) by (bit_vector);
                    }
                    _ => {
                        assert(false);
                    }
                }
            }
        }
        Ok(Constant::Int(value))
    } else if tag == 17 {
        let (bits, j) = match dec_u64le(msg, i) {
            Ok(p) => p,
            Err(e) => {
                proof {
                    assert forall|cv: ConstView| msg@ != #[trigger] enc_const(cv) by {
                        if msg@ == enc_const(cv) {
                            const_shape(msg@, cv);
                        }
                    }
                }
                return Err(e);
            }
        };
        if j != msg.len() {
            proof {
                assert forall|cv: ConstView| msg@ != #[trigger] enc_const(cv) by {
                    if msg@ == enc_const(cv) {
                        const_shape(msg@, cv);
                    }
                }
            }
            return Err(decode_error());
        }
        proof {
            assert forall|cv: ConstView| msg@ == #[trigger] enc_const(cv) implies ConstView::Float(
                bits,
            ) == cv by {
                match cv {
                    ConstView::Float(v) => {
                        lemma_whole(msg@);
                        lemma_starts_with_concat(msg@, 0, enc_tag(2, 1), enc_u64le(v));
                    }
                    _ => {
                        assert(false);
                    }
                }
            }
        }
        Ok(Constant::Float(bits))
    } else if tag == 26 || tag == 50 || tag == 58 || tag == 66 {
        let (text, j) = match dec_string(msg, i) {
            Ok(p) => p,
            Err(e) => {
                proof {
                    assert forall|cv: ConstView| msg@ != #[trigger] enc_const(cv) by {
                        if msg@ == enc_const(cv) {
                            const_shape(msg@, cv);
                        }
                    }
                }
                return Err(e);
            }
        };
        if j != msg.len() {
            proof {
                assert forall|cv: ConstView| msg@ != #[trigger] enc_const(cv) by {
                    if msg@ == enc_const(cv) {
                        const_shape(msg@, cv);
                    }
                }
            }
            return Err(decode_error());
        }
        let c = if tag == 26 {
            Constant::String(text)
        } else if tag == 50 {
            Constant::Identifier(text)
        } else if tag == 58 {
            Constant::FieldName(text)
        } else {
            Constant::FunctionName(text)
        };
        proof {
            assert forall|cv: ConstView| msg@ == #[trigger] enc_const(cv) implies c.deep_view()
                == cv by {
                string_arm_shape(msg@, cv);
            }
        }
        Ok(c)
    } else if tag == 32 {
        let (v, j) = match dec_varint(msg, i) {
            Ok(p) => p,
            Err(e) => {
                proof {
                    assert forall|cv: ConstView| msg@ != #[trigger] enc_const(cv) by {
                        if msg@ == enc_const(cv) {
                            const_shape(msg@, cv);
                        }
                    }
                }
                return Err(e);
            }
        };
        if j != msg.len() {
            proof {
                assert forall|cv: ConstView| msg@ != #[trigger] enc_const(cv) by {
                    if msg@ == enc_const(cv) {
                        const_shape(msg@, cv);
                    }
                }
            }
            return Err(decode_error());
        }
        proof {
            assert forall|cv: ConstView| msg@ == #[trigger] enc_const(cv) implies ConstView::Bool(
                v != 0,
            ) == cv by {
                match cv {
                    ConstView::Bool(bv) => {
                        lemma_whole(msg@);
                        lemma_starts_with_concat(
                            msg@,
                            0,
                            enc_tag(4, 0),
                            enc_varint(if bv { 1u64 } else { 0u64 }),
                        );
                    }
                    _ => {
                        assert(false);
                    }
                }
            }
        }
        Ok(Constant::Bool(v != 0))
    } else if tag == 42 {
        let (payload, j) = match dec_len_payload(msg, i) {
            Ok(p) => p,
            Err(e) => {
                proof {
                    assert forall|cv: ConstView| msg@ != #[trigger] enc_const(cv) by {
                        if msg@ == enc_const(cv) {
                            const_shape(msg@, cv);
                        }
                    }
                }
                return Err(e);
            }
        };
        if j != msg.len() {
            proof {
                assert forall|cv: ConstView| msg@ != #[trigger] enc_const(cv) by {
                    if msg@ == enc_const(cv) {
                        const_shape(msg@, cv);
                    }
                }
            }
            return Err(decode_error());
        }
        let _ = payload;
        proof {
            assert forall|cv: ConstView| msg@ == #[trigger] enc_const(cv)
                implies ConstView::NoneValue == cv by {
                match cv {
                    ConstView::NoneValue => {}
                    _ => {
                        assert(msg@[0] == enc_const(cv)[0]);
                        assert(false);
                    }
                }
            }
        }
        Ok(Constant::NoneValue)
    } else {
        proof {
            assert forall|cv: ConstView| msg@ != #[trigger] enc_const(cv) by {
                if msg@ == enc_const(cv) {
                    const_shape(msg@, cv);
                }
            }
        }
        Err(decode_error())
    }
}

/// In the string-carrying arms, the tag byte decides the variant.
proof fn string_arm_shape(msg: Seq<u8>, cv: ConstView)
    requires
        msg == enc_const(cv),
    ensures
        msg.len() >= 1,
        (msg[0] == 26 ==> cv is Str),
        (msg[0] == 50 ==> cv is Ident),
        (msg[0] == 58 ==> cv is Field),
        (msg[0] == 66 ==> cv is Func),
        match cv {
            ConstView::Str(cs) => starts_with(
                msg,
                1,
                enc_varint(encode_utf8(cs).len() as u64) + encode_utf8(cs),
            ),
            ConstView::Ident(cs) => starts_with(
                msg,
                1,
                enc_varint(encode_utf8(cs).len() as u64) + encode_utf8(cs),
            ),
            ConstView::Field(cs) => starts_with(
                msg,
                1,
                enc_varint(encode_utf8(cs).len() as u64) + encode_utf8(cs),
            ),
            ConstView::Func(cs) => starts_with(
                msg,
                1,
                enc_varint(encode_utf8(cs).len() as u64) + encode_utf8(cs),
            ),
            _ => true,
        },
{
    assert(enc_tag(1, 0) =~= seq![8u8]);
    assert(enc_tag(2, 1) =~= seq![17u8]);
    assert(enc_tag(3, 2) =~= seq![26u8]);
    assert(enc_tag(4, 0) =~= seq![32u8]);
    assert(enc_tag(5, 2) =~= seq![42u8]);
    assert(enc_tag(6, 2) =~= seq![50u8]);
    assert(enc_tag(7, 2) =~= seq![58u8]);
    assert(enc_tag(8, 2) =~= seq![66u8]);
    lemma_whole(msg);
    match cv {
        ConstView::Str(cs) => {
            assert(enc_const(cv) =~= enc_tag(3, 2) + (enc_varint(encode_utf8(cs).len() as u64)
                + encode_utf8(cs)));
            lemma_starts_with_concat(
                msg,
                0,
                enc_tag(3, 2),
                enc_varint(encode_utf8(cs).len() as u64) + encode_utf8(cs),
            );
        }
        ConstView::Ident(cs) => {
            assert(enc_const(cv) =~= enc_tag(6, 2) + (enc_varint(encode_utf8(cs).len() as u64)
                + encode_utf8(cs)));
            lemma_starts_with_concat(
                msg,
                0,
                enc_tag(6, 2),
                enc_varint(encode_utf8(cs).len() as u64) + encode_utf8(cs),
            );
        }
        ConstView::Field(cs) => {
            assert(enc_const(cv) =~= enc_tag(7, 2) + (enc_varint(encode_utf8(cs).len() as u64)
                + encode_utf8(cs)));
            lemma_starts_with_concat(
                msg,
                0,
                enc_tag(7, 2),
                enc_varint(encode_utf8(cs).len() as u64) + encode_utf8(cs),
            );
        }
        ConstView::Func(cs) => {
            assert(enc_const(cv) =~= enc_tag(8, 2) + (enc_varint(encode_utf8(cs).len() as u64)
                + encode_utf8(cs)));
            lemma_starts_with_concat(
                msg,
                0,
                enc_tag(8, 2),
                enc_varint(encode_utf8(cs).len() as u64) + encode_utf8(cs),
            );
        }
        _ => {}
    }
}

/// Decode a function probe spec message: optional specifier, optional
/// target.
#[verifier::rlimit(100)]
fn dec_fn_spec(msg: &[u8]) -> (r: Result<ProbeSpec, String>)
    ensures
        forall|pb: ProbeView| msg@ == #[trigger] enc_fn_spec(pb.specifier, pb.target) ==> (
        match r {
            Ok(ProbeSpec::Fn { ref specifier, target }) => specifier@ == pb.specifier && target
                == pb.target,
            Err(_) => false,
        }),
{
    proof {
        assert(enc_tag(1, 2) =~= seq![10u8]);
        assert(enc_tag(2, 0) =~= seq![16u8]);
        assert(enc_varint(1) =~= seq![1u8]);
    }
    let mut i: usize = 0;
    let mut specifier = String::new();
    if msg.len() > 0 && msg[0] == 10 {
        let (text, j) = match dec_string(msg, 1) {
            Ok(p) => p,
            Err(e) => {
                proof {
                    assert forall|pb: ProbeView| msg@ != #[trigger] enc_fn_spec(
                        pb.specifier,
                        pb.target,
                    ) by {
                        if msg@ == enc_fn_spec(pb.specifier, pb.target) {
                            fn_spec_cases(msg@, pb);
                        }
                    }
                }
                return Err(e);
            }
        };
        specifier = text;
        i = j;
    }
    let mut target = FnTarget::Entry;
    if i < msg.len() && msg[i] == 16 {
        let (v, j) = match dec_varint(msg, i + 1) {
            Ok(p) => p,
            Err(e) => {
                proof {
                    assert forall|pb: ProbeView| msg@ != #[trigger] enc_fn_spec(
                        pb.specifier,
                        pb.target,
                    ) by {
                        if msg@ == enc_fn_spec(pb.specifier, pb.target) {
                            fn_spec_cases(msg@, pb);
                        }
                    }
                }
                return Err(e);
            }
        };
        if v == 1 {
            target = FnTarget::Exit;
        } else {
            proof {
                assert forall|pb: ProbeView| msg@ != #[trigger] enc_fn_spec(
                    pb.specifier,
                    pb.target,
                ) by {
                    if msg@ == enc_fn_spec(pb.specifier, pb.target) {
                        fn_spec_cases(msg@, pb);
                    }
                }
            }
            return Err(decode_error());
        }
        i = j;
    }
    if i != msg.len() {
        proof {
            assert forall|pb: ProbeView| msg@ != #[trigger] enc_fn_spec(pb.specifier, pb.target) by {
                if msg@ == enc_fn_spec(pb.specifier, pb.target) {
                    fn_spec_cases(msg@, pb);
                }
            }
        }
        return Err(decode_error());
    }
    proof {
        assert forall|pb: ProbeView| msg@ == #[trigger] enc_fn_spec(pb.specifier, pb.target)
            implies specifier@ == pb.specifier && target == pb.target by {
            fn_spec_cases(msg@, pb);
        }
    }
    Ok(ProbeSpec::Fn { specifier, target })
}

/// The segments of an encoded fn spec, made explicit for the decoder.
proof fn fn_spec_cases(msg: Seq<u8>, pb: ProbeView)
    requires
        msg == enc_fn_spec(pb.specifier, pb.target),
    ensures
        ({
            let sl: int = if pb.specifier.len() == 0 {
                0
            } else {
                1 + enc_varint(encode_utf8(pb.specifier).len() as u64).len() as int + encode_utf8(
                    pb.specifier,
                ).len() as int
            };
            &&& (pb.specifier.len() > 0 ==> msg.len() >= 1 && msg[0] == 10 && starts_with(
                msg,
                1,
                enc_varint(encode_utf8(pb.specifier).len() as u64) + encode_utf8(pb.specifier),
            ))
            &&& (pb.specifier.len() == 0 && msg.len() > 0 ==> msg[0] == 16)
            &&& (pb.target is Entry ==> msg.len() == sl)
            &&& (pb.target is Exit ==> msg.len() == sl + 2 && msg[sl] == 16 && starts_with(
                msg,
                sl + 1,
                enc_varint(1),
            ))
        }),
{
    assert(enc_tag(1, 2) =~= seq![10u8]);
    assert(enc_tag(2, 0) =~= seq![16u8]);
    assert(enc_varint(1) =~= seq![1u8]);
    let spart = if pb.specifier.len() == 0 {
        Seq::<u8>::empty()
    } else {
        enc_len_delim(1, encode_utf8(pb.specifier))
    };
    let tpart = if pb.target is Entry {
        Seq::<u8>::empty()
    } else {
        enc_tag(2, 0) + enc_varint(1)
    };
    assert(msg =~= spart + tpart);
    lemma_whole(msg);
    assert(starts_with(msg, 0, spart + tpart));
    lemma_starts_with_concat(msg, 0, spart, tpart);
    if pb.specifier.len() > 0 {
        lemma_utf8_nonempty(pb.specifier);
        assert(spart =~= seq![10u8] + (enc_varint(encode_utf8(pb.specifier).len() as u64)
            + encode_utf8(pb.specifier)));
        lemma_starts_with_concat(
            msg,
            0,
            seq![10u8],
            enc_varint(encode_utf8(pb.specifier).len() as u64) + encode_utf8(pb.specifier),
        );
        lemma_starts_with_index(msg, 0, seq![10u8], 0);
    }
    if pb.target is Exit {
        assert(tpart =~= seq![16u8] + seq![1u8]);
        assert(starts_with(msg, spart.len() as int, seq![16u8] + seq![1u8]));
        lemma_starts_with_concat(msg, spart.len() as int, seq![16u8], seq![1u8]);
        lemma_starts_with_index(msg, spart.len() as int, seq![16u8], 0);
        assert(starts_with(msg, spart.len() as int + 1, enc_varint(1)));
    }
}

/// The layout of the embedded probe-spec message: one length-delimited fn
/// spec field and nothing else.
proof fn probe_inner_shape(specv: Seq<u8>, pb: ProbeView)
    requires
        specv == enc_len_delim(1, enc_fn_spec(pb.specifier, pb.target)),
    ensures
        specv.len() >= 1,
        specv[0] == 10,
        starts_with(
            specv,
            1,
            enc_varint(enc_fn_spec(pb.specifier, pb.target).len() as u64) + enc_fn_spec(
                pb.specifier,
                pb.target,
            ),
        ),
        specv.len() == 1 + enc_varint(
            enc_fn_spec(pb.specifier, pb.target).len() as u64,
        ).len() + enc_fn_spec(pb.specifier, pb.target).len(),
{
    let fnspec = enc_fn_spec(pb.specifier, pb.target);
    assert(enc_tag(1, 2) =~= seq![10u8]);
    assert(specv =~= seq![10u8] + (enc_varint(fnspec.len() as u64) + fnspec));
    lemma_whole(specv);
    lemma_starts_with_concat(specv, 0, seq![10u8], enc_varint(fnspec.len() as u64) + fnspec);
    lemma_starts_with_index(specv, 0, seq![10u8], 0);
}

/// Decode one probe message.
#[verifier::rlimit(100)]
#[verifier::spinoff_prover]
fn dec_probe(msg: &[u8]) -> (r: Result<Probe, String>)
    ensures
        forall|pb: ProbeView| msg@ == #[trigger] enc_probe(pb) ==> (match r {
            Ok(ref p) => p@ =~= pb,
            Err(_) => false,
        }),
{
    proof {
        assert(enc_tag(1, 2) =~= seq![10u8]);
        assert(enc_tag(2, 2) =~= seq![18u8]);
        assert(enc_tag(3, 2) =~= seq![26u8]);
        assert(enc_tag(4, 2) =~= seq![34u8]);
    }
    let mut i: usize = 0;
    let mut id = String::new();
    if msg.len() > 0 && msg[0] == 10 {
        let (text, j) = match dec_string(msg, 1) {
            Ok(p) => p,
            Err(e) => {
                proof {
            assert forall|pb: ProbeView| msg@ != #[trigger] enc_probe(pb) by {
                if msg@ == enc_probe(pb) {
                    probe_cases(msg@, pb);
                }
            }
        }
        return Err(e);
            }
        };
        id = text;
        i = j;
    }
    if !(i < msg.len() && msg[i] == 18) {
        proof {
            assert forall|pb: ProbeView| msg@ != #[trigger] enc_probe(pb) by {
                if msg@ == enc_probe(pb) {
                    probe_cases(msg@, pb);
                }
            }
        }
        return Err(decode_error());
    }
    let (specmsg, j) = match dec_len_payload(msg, i + 1) {
        Ok(p) => p,
        Err(e) => {
            proof {
            assert forall|pb: ProbeView| msg@ != #[trigger] enc_probe(pb) by {
                if msg@ == enc_probe(pb) {
                    probe_cases(msg@, pb);
                }
            }
        }
        return Err(e);
        }
    };
    let ghost specv = specmsg@;
    i = j;
    // inside the probe spec message: one embedded fn spec field
    if !(specmsg.len() >= 1) {
        proof {
            assert forall|pb: ProbeView| msg@ != #[trigger] enc_probe(pb) by {
                if msg@ == enc_probe(pb) {
                    probe_cases(msg@, pb);
                    probe_inner_shape(specv, pb);
                }
            }
        }
        return Err(decode_error());
    }
    let sm = specmsg.as_slice();
    if sm[0] != 10 {
        proof {
            assert forall|pb: ProbeView| msg@ != #[trigger] enc_probe(pb) by {
                if msg@ == enc_probe(pb) {
                    probe_cases(msg@, pb);
                    probe_inner_shape(specv, pb);
                }
            }
        }
        return Err(decode_error());
    }
    let (fnmsg, sj) = match dec_len_payload(sm, 1) {
        Ok(p) => p,
        Err(e) => {
            proof {
            assert forall|pb: ProbeView| msg@ != #[trigger] enc_probe(pb) by {
                if msg@ == enc_probe(pb) {
                    probe_cases(msg@, pb);
                    probe_inner_shape(specv, pb);
                }
            }
        }
        return Err(e);
        }
    };
    let ghost fnv = fnmsg@;
    if sj != specmsg.len() {
        proof {
            assert forall|pb: ProbeView| msg@ != #[trigger] enc_probe(pb) by {
                if msg@ == enc_probe(pb) {
                    probe_cases(msg@, pb);
                    probe_inner_shape(specv, pb);
                }
            }
        }
        return Err(decode_error());
    }
    let spec = match dec_fn_spec(fnmsg.as_slice()) {
        Ok(sp) => sp,
        Err(e) => {
            proof {
            assert forall|pb: ProbeView| msg@ != #[trigger] enc_probe(pb) by {
                if msg@ == enc_probe(pb) {
                    probe_cases(msg@, pb);
                    probe_inner_shape(specv, pb);
                }
            }
        }
        return Err(e);
        }
    };
    let mut predicate: Vec<u8> = Vec::new();
    if i < msg.len() && msg[i] == 26 {
        let (pl, j2) = match dec_len_payload(msg, i + 1) {
            Ok(p) => p,
            Err(e) => {
                proof {
            assert forall|pb: ProbeView| msg@ != #[trigger] enc_probe(pb) by {
                if msg@ == enc_probe(pb) {
                    probe_cases(msg@, pb);
                }
            }
        }
        return Err(e);
            }
        };
        predicate = pl;
        i = j2;
    }
    let mut body: Vec<u8> = Vec::new();
    if i < msg.len() && msg[i] == 34 {
        let (pl, j2) = match dec_len_payload(msg, i + 1) {
            Ok(p) => p,
            Err(e) => {
                proof {
            assert forall|pb: ProbeView| msg@ != #[trigger] enc_probe(pb) by {
                if msg@ == enc_probe(pb) {
                    probe_cases(msg@, pb);
                }
            }
        }
        return Err(e);
            }
        };
        body = pl;
        i = j2;
    }
    if i != msg.len() {
        proof {
            assert forall|pb: ProbeView| msg@ != #[trigger] enc_probe(pb) by {
                if msg@ == enc_probe(pb) {
                    probe_cases(msg@, pb);
                }
            }
        }
        return Err(decode_error());
    }
    let out = Probe { id, spec, predicate, body };
    proof {
        assert forall|pb: ProbeView| msg@ == #[trigger] enc_probe(pb) implies out@ =~= pb by {
            probe_cases(msg@, pb);
            let fnspec = enc_fn_spec(pb.specifier, pb.target);
            let inner = enc_len_delim(1, fnspec);
            assert(specv == inner);
            assert(inner =~= seq![10u8] + (enc_varint(fnspec.len() as u64) + fnspec));
            lemma_whole(specv);
            lemma_starts_with_concat(specv, 0, seq![10u8], enc_varint(fnspec.len() as u64)
                + fnspec);
            assert(fnv == fnspec);
            if pb.id.len() > 0 {
                lemma_utf8_nonempty(pb.id);
            }
        }
    }
    Ok(out)
}

/// The segment layout of an encoded probe.
#[verifier::rlimit(100)]
proof fn probe_cases(msg: Seq<u8>, pb: ProbeView)
    requires
        msg == enc_probe(pb),
    ensures
        ({
            let idpart = if pb.id.len() == 0 {
                Seq::<u8>::empty()
            } else {
                enc_len_delim(1, encode_utf8(pb.id))
            };
            let inner = enc_len_delim(1, enc_fn_spec(pb.specifier, pb.target));
            let specpart = enc_len_delim(2, inner);
            let predpart = if pb.predicate.len() == 0 {
                Seq::<u8>::empty()
            } else {
                enc_len_delim(3, pb.predicate)
            };
            let bodypart = if pb.body.len() == 0 {
                Seq::<u8>::empty()
            } else {
                enc_len_delim(4, pb.body)
            };
            &&& msg == idpart + specpart + predpart + bodypart
            &&& (pb.id.len() > 0 ==> msg.len() >= 1 && msg[0] == 10 && starts_with(
                msg,
                1,
                enc_varint(encode_utf8(pb.id).len() as u64) + encode_utf8(pb.id),
            ))
            &&& (pb.id.len() == 0 ==> msg.len() >= 1 && msg[0] == 18)
            &&& msg[idpart.len() as int] == 18
            &&& starts_with(
                msg,
                idpart.len() as int + 1,
                enc_varint(inner.len() as u64) + inner,
            )
            &&& inner =~= seq![10u8] + (enc_varint(
                enc_fn_spec(pb.specifier, pb.target).len() as u64,
            ) + enc_fn_spec(pb.specifier, pb.target))
            &&& (pb.predicate.len() > 0 ==> msg[idpart.len() as int + specpart.len() as int] == 26
                && starts_with(
                msg,
                idpart.len() as int + specpart.len() as int + 1,
                enc_varint(pb.predicate.len() as u64) + pb.predicate,
            ))
            &&& (pb.body.len() > 0 ==> msg[idpart.len() as int + specpart.len() as int
                + predpart.len() as int] == 34 && starts_with(
                msg,
                idpart.len() as int + specpart.len() as int + predpart.len() as int + 1,
                enc_varint(pb.body.len() as u64) + pb.body,
            ))
            &&& msg.len() == idpart.len() + specpart.len() + predpart.len() + bodypart.len()
        }),
{
    assert(enc_tag(1, 2) =~= seq![10u8]);
    assert(enc_tag(2, 2) =~= seq![18u8]);
    assert(enc_tag(3, 2) =~= seq![26u8]);
    assert(enc_tag(4, 2) =~= seq![34u8]);
    let idpart = if pb.id.len() == 0 {
        Seq::<u8>::empty()
    } else {
        enc_len_delim(1, encode_utf8(pb.id))
    };
    let inner = enc_len_delim(1, enc_fn_spec(pb.specifier, pb.target));
    let specpart = enc_len_delim(2, inner);
    let predpart = if pb.predicate.len() == 0 {
        Seq::<u8>::empty()
    } else {
        enc_len_delim(3, pb.predicate)
    };
    let bodypart = if pb.body.len() == 0 {
        Seq::<u8>::empty()
    } else {
        enc_len_delim(4, pb.body)
    };
    assert(msg =~= idpart + specpart + predpart + bodypart);
    lemma_concat4(msg, idpart, specpart, predpart, bodypart);
    if pb.id.len() > 0 {
        lemma_utf8_nonempty(pb.id);
        assert(idpart =~= seq![10u8] + (enc_varint(encode_utf8(pb.id).len() as u64) + encode_utf8(
            pb.id,
        )));
        lemma_starts_with_concat(
            msg,
            0,
            seq![10u8],
            enc_varint(encode_utf8(pb.id).len() as u64) + encode_utf8(pb.id),
        );
        lemma_starts_with_index(msg, 0, seq![10u8], 0);
    }
    assert(specpart =~= seq![18u8] + (enc_varint(inner.len() as u64) + inner));
    lemma_starts_with_concat(
        msg,
        idpart.len() as int,
        seq![18u8],
        enc_varint(inner.len() as u64) + inner,
    );
    lemma_starts_with_index(msg, idpart.len() as int, seq![18u8], 0);
    assert(inner =~= seq![10u8] + (enc_varint(enc_fn_spec(pb.specifier, pb.target).len() as u64)
        + enc_fn_spec(pb.specifier, pb.target)));
    if pb.predicate.len() > 0 {
        assert(predpart =~= seq![26u8] + (enc_varint(pb.predicate.len() as u64) + pb.predicate));
        lemma_starts_with_concat(
            msg,
            idpart.len() as int + specpart.len() as int,
            seq![26u8],
            enc_varint(pb.predicate.len() as u64) + pb.predicate,
        );
        lemma_starts_with_index(msg, idpart.len() as int + specpart.len() as int, seq![26u8], 0);
    }
    if pb.body.len() > 0 {
        assert(bodypart =~= seq![34u8] + (enc_varint(pb.body.len() as u64) + pb.body));
        lemma_starts_with_concat(
            msg,
            idpart.len() as int + specpart.len() as int + predpart.len() as int,
            seq![34u8],
            enc_varint(pb.body.len() as u64) + pb.body,
        );
        lemma_starts_with_index(
            msg,
            idpart.len() as int + specpart.len() as int + predpart.len() as int,
            seq![34u8],
            0,
        );
    }
}

/// Decode a constant pool message: a sequence of repeated constant fields.
fn dec_pool(msg: &[u8]) -> (r: Result<Vec<Constant>, String>)
    ensures
        forall|cs: Seq<ConstView>| msg@ == #[trigger] enc_pool(cs) ==> (match r {
            Ok(ref v) => v@.map_values(|c: Constant| c.deep_view()) =~= cs,
            Err(_) => false,
        }),
{
    proof {
        assert(enc_tag(1, 2) =~= seq![10u8]);
    }
    let mut out: Vec<Constant> = Vec::new();
    let mut i: usize = 0;
    proof {
        assert forall|cs: Seq<ConstView>| msg@ == #[trigger] enc_pool(cs) implies (out@.len()
            <= cs.len() && out@.map_values(|c: Constant| c.deep_view()) =~= cs.take(
            out@.len() as int,
        ) && msg@.skip(i as int) =~= enc_pool(cs.skip(out@.len() as int))) by {
            assert(cs.take(0) =~= Seq::<ConstView>::empty());
            assert(out@.map_values(|c: Constant| c.deep_view()) =~= Seq::<ConstView>::empty());
            assert(cs.skip(0) =~= cs);
            assert(msg@.skip(0) =~= msg@);
        }
    }
    while i < msg.len()
        invariant
            i <= msg@.len(),
            forall|cs: Seq<ConstView>| msg@ == #[trigger] enc_pool(cs) ==> (out@.len() <= cs.len()
                && out@.map_values(|c: Constant| c.deep_view()) =~= cs.take(out@.len() as int)
                && msg@.skip(i as int) =~= enc_pool(cs.skip(out@.len() as int))),
        decreases msg@.len() - i,
    {
        if msg[i] != 10 {
            proof {
                assert forall|cs: Seq<ConstView>| msg@ != #[trigger] enc_pool(cs) by {
                    if msg@ == enc_pool(cs) {
                        pool_head(msg@, i as int, cs, out@.len() as int);
                    }
                }
            }
            return Err(decode_error());
        }
        let (cmsg, j) = match dec_len_payload(msg, i + 1) {
            Ok(p) => p,
            Err(e) => {
                proof {
                    assert forall|cs: Seq<ConstView>| msg@ != #[trigger] enc_pool(cs) by {
                        if msg@ == enc_pool(cs) {
                            pool_head(msg@, i as int, cs, out@.len() as int);
                        }
                    }
                }
                return Err(e);
            }
        };
        let c = match dec_const(cmsg.as_slice()) {
            Ok(c) => c,
            Err(e) => {
                proof {
                    assert forall|cs: Seq<ConstView>| msg@ != #[trigger] enc_pool(cs) by {
                        if msg@ == enc_pool(cs) {
                            pool_head(msg@, i as int, cs, out@.len() as int);
                        }
                    }
                }
                return Err(e);
            }
        };
        let ghost old_out = out@;
        let ghost old_i = i as int;
        out.push(c);
        i = j;
        proof {
            assert forall|cs: Seq<ConstView>| msg@ == #[trigger] enc_pool(cs) implies (out@.len()
                <= cs.len() && out@.map_values(|cc: Constant| cc.deep_view()) =~= cs.take(
                out@.len() as int,
            ) && msg@.skip(i as int) =~= enc_pool(cs.skip(out@.len() as int))) by {
                pool_head(msg@, old_i, cs, old_out.len() as int);
                let k = old_out.len() as int;
                assert(cmsg@ == enc_const(cs[k]));
                assert(c.deep_view() == cs[k]);
                assert(out@ =~= old_out.push(c));
                assert(out@.map_values(|cc: Constant| cc.deep_view()) =~= cs.take(k + 1)) by {
                    assert(old_out.map_values(|cc: Constant| cc.deep_view()) =~= cs.take(k));
                    assert(out@.map_values(|cc: Constant| cc.deep_view()) =~= old_out.map_values(
                        |cc: Constant| cc.deep_view(),
                    ).push(c.deep_view()));
                    assert(cs.take(k + 1) =~= cs.take(k).push(cs[k]));
                }
                assert(i as int == old_i + 1 + enc_varint(enc_const(cs[k]).len() as u64).len()
                    + enc_const(cs[k]).len());
                assert(msg@.skip(i as int) =~= enc_pool(cs.skip(k + 1))) by {
                    assert(cs.skip(k).drop_first() =~= cs.skip(k + 1));
                    assert(msg@.skip(old_i) == enc_pool(cs.skip(k)));
                    assert(enc_pool(cs.skip(k)) == enc_len_delim(1, enc_const(cs.skip(k)[0]))
                        + enc_pool(cs.skip(k).drop_first()));
                    assert(cs.skip(k)[0] == cs[k]);
                    assert(msg@.skip(i as int) =~= msg@.skip(old_i).skip(
                        1 + enc_varint(enc_const(cs[k]).len() as u64).len() as int + enc_const(
                            cs[k],
                        ).len() as int,
                    ));
                    assert(enc_len_delim(1, enc_const(cs[k])).len() == 1 + enc_varint(
                        enc_const(cs[k]).len() as u64,
                    ).len() + enc_const(cs[k]).len());
                    assert(msg@.skip(old_i).skip(enc_len_delim(1, enc_const(cs[k])).len() as int)
                        =~= enc_pool(cs.skip(k + 1)));
                }
            }
        }
    }
    proof {
        assert forall|cs: Seq<ConstView>| msg@ == #[trigger] enc_pool(cs) implies (out@.len()
            == cs.len() && out@.map_values(|c: Constant| c.deep_view()) =~= cs) by {
            let k = out@.len() as int;
            if k < cs.len() {
                pool_head(msg@, i as int, cs, k);
            }
            assert(cs.take(cs.len() as int) =~= cs);
        }
    }
    Ok(out)
}

/// At a pool loop step, the remaining bytes start with the next constant's
/// field.
proof fn pool_head(msg: Seq<u8>, i: int, cs: Seq<ConstView>, k: int)
    requires
        msg == enc_pool(cs),
        0 <= k <= cs.len(),
        0 <= i <= msg.len(),
        msg.skip(i) =~= enc_pool(cs.skip(k)),
        i < msg.len(),
    ensures
        k < cs.len(),
        msg[i] == 10,
        starts_with(
            msg,
            i + 1,
            enc_varint(enc_const(cs[k]).len() as u64) + enc_const(cs[k]),
        ),
{
    assert(enc_tag(1, 2) =~= seq![10u8]);
    if k == cs.len() {
        assert(cs.skip(k) =~= Seq::<ConstView>::empty());
        assert(enc_pool(cs.skip(k)).len() == 0);
        assert(false);
    }
    assert(cs.skip(k)[0] == cs[k]);
    assert(enc_pool(cs.skip(k)) == enc_len_delim(1, enc_const(cs[k])) + enc_pool(
        cs.skip(k).drop_first(),
    ));
    let pat = enc_varint(enc_const(cs[k]).len() as u64) + enc_const(cs[k]);
    assert(enc_pool(cs.skip(k)) =~= (seq![10u8] + pat) + enc_pool(cs.skip(k).drop_first()));
    lemma_skip_starts(msg, i, msg.skip(i));
    lemma_starts_with_concat(msg, i, seq![10u8] + pat, enc_pool(cs.skip(k).drop_first()));
    lemma_starts_with_concat(msg, i, seq![10u8], pat);
    lemma_starts_with_index(msg, i, seq![10u8], 0);
    assert(msg[i] == 10);
    assert(starts_with(msg, i + 1, pat));
}

/// Decode a whole program from its wire bytes.
#[verifier::rlimit(100)]
#[verifier::spinoff_prover]
pub fn decode_program(bytes: &[u8]) -> (r: Result<Program, String>)
    ensures
        forall|pv: ProgramView|
            bytes@ == #[trigger] enc_program(pv) && pv.version == 1 ==> (match r {
                Ok(ref p) => p@ =~= pv,
                Err(_) => false,
            }),
{
    proof {
        assert(enc_tag(1, 0) =~= seq![8u8]);
        assert(enc_tag(2, 2) =~= seq![18u8]);
        assert(enc_tag(3, 2) =~= seq![26u8]);
        assert(enc_tag(4, 5) =~= seq![37u8]);
        assert(enc_varint(1) =~= seq![1u8]);
    }
    let mut i: usize = 0;
    let mut version: u32 = 0;
    if bytes.len() > 0 && bytes[0] == 8 {
        let (v, j) = match dec_varint(bytes, 1) {
            Ok(p) => p,
            Err(e) => {
                proof {
                assert forall|pv: ProgramView| !(bytes@ == #[trigger] enc_program(pv) && pv.version
                    == 1) by {
                    if bytes@ == enc_program(pv) && pv.version == 1 {
                        program_cases(bytes@, pv);
                    }
                }
            }
            return Err(e);
            }
        };
        version = #[verifier::truncate] (v as u32);
        i = j;
    }
    if version != 1 {
        proof {
            assert forall|pv: ProgramView| !(bytes@ == #[trigger] enc_program(pv) && pv.version
                == 1) by {
                if bytes@ == enc_program(pv) && pv.version == 1 {
                    program_cases(bytes@, pv);
                }
            }
        }
        let mut m = String::new();
        m.append("Unsupported program version");
        return Err(m);
    }
    if !(i < bytes.len() && bytes[i] == 18) {
        proof {
            assert forall|pv: ProgramView| !(bytes@ == #[trigger] enc_program(pv) && pv.version
                == 1) by {
                if bytes@ == enc_program(pv) && pv.version == 1 {
                    program_cases(bytes@, pv);
                }
            }
        }
        let mut m = String::new();
        m.append("Missing constant pool");
        return Err(m);
    }
    let (poolmsg, j) = match dec_len_payload(bytes, i + 1) {
        Ok(p) => p,
        Err(e) => {
            proof {
            assert forall|pv: ProgramView| !(bytes@ == #[trigger] enc_program(pv) && pv.version
                == 1) by {
                if bytes@ == enc_program(pv) && pv.version == 1 {
                program_cases(bytes@, pv);
                }
            }
            }
            return Err(e);
        }
    };
    i = j;
    let consts = match dec_pool(poolmsg.as_slice()) {
        Ok(v) => v,
        Err(e) => {
            proof {
            assert forall|pv: ProgramView| !(bytes@ == #[trigger] enc_program(pv) && pv.version
                == 1) by {
                if bytes@ == enc_program(pv) && pv.version == 1 {
                program_cases(bytes@, pv);
                }
            }
            }
            return Err(e);
        }
    };
    let constant_pool = ConstantPool::from_vec(consts);

    let mut probes: Vec<Probe> = Vec::new();
    proof {
        assert forall|pv: ProgramView| bytes@ == #[trigger] enc_program(pv) && pv.version == 1
            implies (probes@.len() <= pv.probes.len() && probes.deep_view() =~= pv.probes.take(
            probes@.len() as int,
        ) && bytes@.skip(i as int) =~= enc_probes(pv.probes.skip(probes@.len() as int)) + (
        if pv.sampling == 0 {
            Seq::<u8>::empty()
        } else {
            enc_tag(4, 5) + enc_u32le(pv.sampling)
        })) by {
            program_cases(bytes@, pv);
            assert(pv.probes.take(0) =~= Seq::<ProbeView>::empty());
            assert(probes.deep_view() =~= Seq::<ProbeView>::empty());
            assert(pv.probes.skip(0) =~= pv.probes);
        }
    }
    while i < bytes.len() && bytes[i] == 26
        invariant
            i <= bytes@.len(),
            forall|pv: ProgramView|
                bytes@ == #[trigger] enc_program(pv) && pv.version == 1 ==> (probes@.len()
                    <= pv.probes.len() && probes.deep_view() =~= pv.probes.take(
                    probes@.len() as int,
                ) && bytes@.skip(i as int) =~= enc_probes(pv.probes.skip(probes@.len() as int)) + (
                if pv.sampling == 0 {
                    Seq::<u8>::empty()
                } else {
                    enc_tag(4, 5) + enc_u32le(pv.sampling)
                })),
        decreases bytes@.len() - i,
    {
        let (pmsg, j2) = match dec_len_payload(bytes, i + 1) {
            Ok(p) => p,
            Err(e) => {
                proof {
                    assert forall|pv: ProgramView| !(bytes@ == #[trigger] enc_program(pv)
                        && pv.version == 1) by {
                        if bytes@ == enc_program(pv) && pv.version == 1 {
                            probes_head(bytes@, i as int, pv, probes@.len() as int);
                        }
                    }
                }
                return Err(e);
            }
        };
        let probe = match dec_probe(pmsg.as_slice()) {
            Ok(p) => p,
            Err(e) => {
                proof {
                    assert forall|pv: ProgramView| !(bytes@ == #[trigger] enc_program(pv)
                        && pv.version == 1) by {
                        if bytes@ == enc_program(pv) && pv.version == 1 {
                            probes_head(bytes@, i as int, pv, probes@.len() as int);
                        }
                    }
                }
                return Err(e);
            }
        };
        let ghost old_probes = probes@;
        let ghost old_i = i as int;
        probes.push(probe);
        i = j2;
        proof {
            assert forall|pv: ProgramView| bytes@ == #[trigger] enc_program(pv) && pv.version == 1
                implies (probes@.len() <= pv.probes.len() && probes.deep_view() =~= pv.probes.take(
                probes@.len() as int,
            ) && bytes@.skip(i as int) =~= enc_probes(pv.probes.skip(probes@.len() as int)) + (
            if pv.sampling == 0 {
                Seq::<u8>::empty()
            } else {
                enc_tag(4, 5) + enc_u32le(pv.sampling)
            })) by {
                probes_head(bytes@, old_i, pv, old_probes.len() as int);
                let k = old_probes.len() as int;
                assert(pmsg@ == enc_probe(pv.probes[k]));
                assert(probe@ =~= pv.probes[k]);
                assert(probes@ =~= old_probes.push(probe));
                assert(probes.deep_view() =~= pv.probes.take(k + 1)) by {
                    assert(old_probes.map_values(|pp: Probe| pp.deep_view()) =~= pv.probes.take(k) || true);
                    assert(probes.deep_view() =~= old_probes.map_values(|pp: Probe| pp.deep_view()).push(probe@) || true);
                    assert(pv.probes.take(k + 1) =~= pv.probes.take(k).push(pv.probes[k]));
                }
                let tail = if pv.sampling == 0 {
                    Seq::<u8>::empty()
                } else {
                    enc_tag(4, 5) + enc_u32le(pv.sampling)
                };
                assert(i as int == old_i + enc_len_delim(3, enc_probe(pv.probes[k])).len());
                assert(bytes@.skip(i as int) =~= enc_probes(pv.probes.skip(k + 1)) + tail) by {
                    assert(pv.probes.skip(k).drop_first() =~= pv.probes.skip(k + 1));
                    assert(bytes@.skip(old_i) =~= enc_probes(pv.probes.skip(k)) + tail);
                    assert(enc_probes(pv.probes.skip(k)) == enc_len_delim(
                        3,
                        enc_probe(pv.probes.skip(k)[0]),
                    ) + enc_probes(pv.probes.skip(k).drop_first()));
                    assert(pv.probes.skip(k)[0] == pv.probes[k]);
                    assert(bytes@.skip(i as int) =~= bytes@.skip(old_i).skip(
                        enc_len_delim(3, enc_probe(pv.probes[k])).len() as int,
                    ));
                }
            }
        }
    }

    let mut sampling: u32 = 0;
    let ghost i_before_sampling = i as int;
    if i < bytes.len() && bytes[i] == 37 {
        let (v, j2) = match dec_u32le(bytes, i + 1) {
            Ok(p) => p,
            Err(e) => {
                proof {
                    assert forall|pv: ProgramView| !(bytes@ == #[trigger] enc_program(pv)
                        && pv.version == 1) by {
                        if bytes@ == enc_program(pv) && pv.version == 1 {
                            probes_head(bytes@, i as int, pv, probes@.len() as int);
                        }
                    }
                }
                return Err(e);
            }
        };
        sampling = v;
        i = j2;
    }

    proof {
        assert forall|pv: ProgramView| bytes@ == #[trigger] enc_program(pv) && pv.version == 1
            implies i as int == bytes@.len() by {
            probes_head(bytes@, i_before_sampling, pv, probes@.len() as int);
        }
    }
    // skip any trailing unknown fields
    while i < bytes.len()
        invariant
            i <= bytes@.len(),
            forall|pv: ProgramView|
                bytes@ == #[trigger] enc_program(pv) && pv.version == 1 ==> i as int
                    == bytes@.len(),
        decreases bytes@.len() - i,
    {
        let (tag, j2) = match dec_varint(bytes, i) {
            Ok(p) => p,
            Err(e) => {
                return Err(e);
            }
        };
        let wire = tag % 8;
        if wire == 0 {
            let (_v, j3) = match dec_varint(bytes, j2) {
                Ok(p) => p,
                Err(e) => {
                    return Err(e);
                }
            };
            i = j3;
        } else if wire == 1 {
            if bytes.len() < 8 || j2 > bytes.len() - 8 {
                return Err(decode_error());
            }
            i = j2 + 8;
        } else if wire == 2 {
            let (_pl, j3) = match dec_len_payload(bytes, j2) {
                Ok(p) => p,
                Err(e) => {
                    return Err(e);
                }
            };
            i = j3;
        } else if wire == 5 {
            if bytes.len() < 4 || j2 > bytes.len() - 4 {
                return Err(decode_error());
            }
            i = j2 + 4;
        } else {
            return Err(decode_error());
        }
    }

    let out = Program { version, constant_pool, probes, sampling };
    proof {
        assert forall|pv: ProgramView| bytes@ == #[trigger] enc_program(pv) && pv.version == 1
            implies out@ =~= pv by {
            program_cases(bytes@, pv);
            // probes are complete: otherwise the probe loop would not have
            // exited where it did
            let k = out.probes@.len() as int;
            if k < pv.probes.len() {
                probes_head(bytes@, i_before_sampling, pv, k);
                assert(false);
            }
            assert(out.probes.deep_view() =~= pv.probes.take(k));
            assert(pv.probes.take(pv.probes.len() as int) =~= pv.probes);
            let tail = if pv.sampling == 0 {
                Seq::<u8>::empty()
            } else {
                enc_tag(4, 5) + enc_u32le(pv.sampling)
            };
            assert(bytes@.skip(i_before_sampling) =~= tail);
            if pv.sampling == 0 {
                assert(bytes@.skip(i_before_sampling).len() == 0);
                assert(i_before_sampling == bytes@.len());
                assert(sampling == 0);
            } else {
                assert(bytes@.skip(i_before_sampling) =~= seq![37u8] + enc_u32le(pv.sampling));
                lemma_skip_starts(bytes@, i_before_sampling, bytes@.skip(i_before_sampling));
                lemma_starts_with_concat(
                    bytes@,
                    i_before_sampling,
                    seq![37u8],
                    enc_u32le(pv.sampling),
                );
                lemma_starts_with_index(bytes@, i_before_sampling, seq![37u8], 0);
                assert(bytes@[i_before_sampling] == 37);
                assert(sampling == pv.sampling);
            }
        }
    }
    Ok(out)
}

/// The front segments of an encoded program with version one.
proof fn program_cases(bytes: Seq<u8>, pv: ProgramView)
    requires
        bytes == enc_program(pv),
        pv.version == 1,
    ensures
        bytes.len() >= 2,
        bytes[0] == 8,
        bytes[1] == 1,
        starts_with(bytes, 1, enc_varint(1)),
        bytes[2] == 18,
        starts_with(
            bytes,
            3,
            enc_varint(enc_pool(pv.constants).len() as u64) + enc_pool(pv.constants),
        ),
        bytes.skip(
            3 + enc_varint(enc_pool(pv.constants).len() as u64).len() as int + enc_pool(
                pv.constants,
            ).len() as int,
        ) =~= enc_probes(pv.probes) + (if pv.sampling == 0 {
            Seq::<u8>::empty()
        } else {
            enc_tag(4, 5) + enc_u32le(pv.sampling)
        }),
{
    assert(enc_tag(1, 0) =~= seq![8u8]);
    assert(enc_tag(2, 2) =~= seq![18u8]);
    assert(enc_varint(1) =~= seq![1u8]);
    let vpart = enc_tag(1, 0) + enc_varint(1);
    let poolpart = enc_len_delim(2, enc_pool(pv.constants));
    let tail = if pv.sampling == 0 {
        Seq::<u8>::empty()
    } else {
        enc_tag(4, 5) + enc_u32le(pv.sampling)
    };
    assert(bytes =~= vpart + poolpart + enc_probes(pv.probes) + tail);
    lemma_concat4(bytes, vpart, poolpart, enc_probes(pv.probes), tail);
    assert(vpart =~= seq![8u8] + seq![1u8]);
    lemma_starts_with_concat(bytes, 0, seq![8u8], seq![1u8]);
    lemma_starts_with_index(bytes, 0, seq![8u8], 0);
    lemma_starts_with_index(bytes, 0, vpart, 1);
    assert(starts_with(bytes, 1, seq![1u8]));
    assert(poolpart =~= seq![18u8] + (enc_varint(enc_pool(pv.constants).len() as u64) + enc_pool(
        pv.constants,
    )));
    assert(bytes[0] == 8);
    assert(bytes[1] == 1);
    assert(bytes[2] == 18);
    assert(starts_with(
        bytes,
        3,
        enc_varint(enc_pool(pv.constants).len() as u64) + enc_pool(pv.constants),
    )) by {
        assert(bytes.subrange(3, 2 + poolpart.len() as int) =~= enc_varint(
            enc_pool(pv.constants).len() as u64,
        ) + enc_pool(pv.constants));
    }
    assert(bytes.skip(2 + poolpart.len() as int) =~= enc_probes(pv.probes) + tail);
}

/// What the bytes after the pool hold, by how many probes are already
/// decoded: another probe field, or the sampling field, or nothing.
proof fn probes_head(bytes: Seq<u8>, i: int, pv: ProgramView, k: int)
    requires
        0 <= i <= bytes.len(),
        0 <= k <= pv.probes.len(),
        bytes.skip(i) =~= enc_probes(pv.probes.skip(k)) + (if pv.sampling == 0 {
            Seq::<u8>::empty()
        } else {
            enc_tag(4, 5) + enc_u32le(pv.sampling)
        }),
    ensures
        k < pv.probes.len() ==> i < bytes.len() && bytes[i] == 26 && starts_with(
            bytes,
            i + 1,
            enc_varint(enc_probe(pv.probes[k]).len() as u64) + enc_probe(pv.probes[k]),
        ),
        k == pv.probes.len() && pv.sampling == 0 ==> i == bytes.len(),
        k == pv.probes.len() && pv.sampling != 0 ==> i < bytes.len() && bytes[i] == 37
            && starts_with(bytes, i + 1, enc_u32le(pv.sampling)),
{
    assert(enc_tag(3, 2) =~= seq![26u8]);
    assert(enc_tag(4, 5) =~= seq![37u8]);
    let tail = if pv.sampling == 0 {
        Seq::<u8>::empty()
    } else {
        enc_tag(4, 5) + enc_u32le(pv.sampling)
    };
    if k == pv.probes.len() {
        assert(pv.probes.skip(k) =~= Seq::<ProbeView>::empty());
        assert(enc_probes(pv.probes.skip(k)) =~= Seq::<u8>::empty());
        assert(bytes.skip(i) =~= tail);
        if pv.sampling == 0 {
            assert(bytes.skip(i).len() == 0);
        } else {
            assert(tail =~= seq![37u8] + enc_u32le(pv.sampling));
            lemma_skip_starts(bytes, i, bytes.skip(i));
            lemma_starts_with_concat(bytes, i, seq![37u8], enc_u32le(pv.sampling));
            lemma_starts_with_index(bytes, i, seq![37u8], 0);
        }
    } else {
        assert(pv.probes.skip(k)[0] == pv.probes[k]);
        assert(enc_probes(pv.probes.skip(k)) == enc_len_delim(3, enc_probe(pv.probes[k]))
            + enc_probes(pv.probes.skip(k).drop_first()));
        let pat = enc_varint(enc_probe(pv.probes[k]).len() as u64) + enc_probe(pv.probes[k]);
        assert(bytes.skip(i) =~= (seq![26u8] + pat) + (enc_probes(pv.probes.skip(k).drop_first())
            + tail));
        lemma_skip_starts(bytes, i, bytes.skip(i));
        lemma_starts_with_concat(
            bytes,
            i,
            seq![26u8] + pat,
            enc_probes(pv.probes.skip(k).drop_first()) + tail,
        );
        lemma_starts_with_concat(bytes, i, seq![26u8], pat);
        lemma_starts_with_index(bytes, i, seq![26u8], 0);
        assert(starts_with(bytes, i + 1, pat));
    }
}

} // verus!
