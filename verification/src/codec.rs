//! The binary wire codec for labels: length-delimited encodings of
//! components and of whole labels, with the proof that decoding an encoding
//! yields the value back.  Tokens travel as UTF-8 bytes under an 8-byte
//! big-endian length, lists under an 8-byte big-endian count; a component is
//! a one-byte tag — unreachable, or formula — followed by its clauses.

use vstd::prelude::*;
use vstd::slice::slice_subrange;
use vstd::utf8::{decode_utf8, encode_utf8, valid_utf8};
use crate::buckle::{Buckle, Clause, Component};
use crate::frame::{spec_frame, spec_u64_from_be_bytes, spec_u64_to_be_bytes, u64_from_be_bytes,
    write_u8};

verus! {

broadcast use vstd::utf8::encode_utf8_valid_utf8, vstd::utf8::encode_utf8_decode_utf8;

/// The concatenated encodings of a list's items.
pub open spec fn enc_list<T>(s: Seq<T>, f: spec_fn(T) -> Seq<u8>) -> Seq<u8>
    decreases s.len(),
{
    if s.len() == 0 {
        Seq::empty()
    } else {
        f(s[0]) + enc_list(s.drop_first(), f)
    }
}

proof fn lemma_enc_list_push<T>(s: Seq<T>, f: spec_fn(T) -> Seq<u8>, x: T)
    ensures
        enc_list(s.push(x), f) == enc_list(s, f) + f(x),
    decreases s.len(),
{
    let p = s.push(x);
    if s.len() == 0 {
        assert(p[0] == x);
        assert(p.drop_first() =~= Seq::<T>::empty());
        assert(enc_list(p, f) == f(x) + enc_list(p.drop_first(), f));
        assert(enc_list(p.drop_first(), f) == Seq::<u8>::empty());
        assert(enc_list(p, f) =~= enc_list(s, f) + f(x));
    } else {
        assert(p[0] == s[0]);
        assert(p.drop_first() =~= s.drop_first().push(x));
        lemma_enc_list_push(s.drop_first(), f, x);
        assert(enc_list(p, f) == f(s[0]) + enc_list(s.drop_first().push(x), f));
        assert(enc_list(p, f) =~= enc_list(s, f) + f(x));
    }
}

/// Decoding `n` items in sequence with the item decoder `df`.
pub open spec fn dec_list<T>(
    s: Seq<u8>,
    i: int,
    n: nat,
    df: spec_fn(Seq<u8>, int) -> Option<(T, int)>,
) -> Option<(Seq<T>, int)>
    decreases n,
{
    if n == 0 {
        Some((Seq::empty(), i))
    } else {
        match df(s, i) {
            None => None,
            Some((v, j)) => match dec_list(s, j, (n - 1) as nat, df) {
                None => None,
                Some((vs, k)) => Some((seq![v] + vs, k)),
            },
        }
    }
}

/// An item decoder `df` inverts the item encoder `f` wherever the encoding
/// of a well-formed item sits inside the buffer.
pub open spec fn decoder_inverts<T>(
    s: Seq<u8>,
    f: spec_fn(T) -> Seq<u8>,
    df: spec_fn(Seq<u8>, int) -> Option<(T, int)>,
    wf: spec_fn(T) -> bool,
) -> bool {
    forall|x: T, j: int|
        wf(x) && 0 <= j && j + f(x).len() <= s.len() && #[trigger] s.subrange(
            j,
            j + f(x).len() as int,
        ) == f(x) ==> df(s, j) == Some((x, j + f(x).len() as int))
}

proof fn lemma_dec_list<T>(
    s: Seq<u8>,
    i: int,
    items: Seq<T>,
    f: spec_fn(T) -> Seq<u8>,
    df: spec_fn(Seq<u8>, int) -> Option<(T, int)>,
    wf: spec_fn(T) -> bool,
)
    requires
        0 <= i,
        i + enc_list(items, f).len() <= s.len(),
        s.subrange(i, i + enc_list(items, f).len() as int) == enc_list(items, f),
        decoder_inverts(s, f, df, wf),
        forall|k: int| 0 <= k < items.len() ==> wf(#[trigger] items[k]),
    ensures
        dec_list(s, i, items.len(), df) == Some((items, i + enc_list(items, f).len() as int)),
    decreases items.len(),
{
    if items.len() == 0 {
        assert(dec_list(s, i, 0, df) == Some((Seq::<T>::empty(), i)));
        assert(items =~= Seq::<T>::empty());
    } else {
        let x = items[0];
        let rest = items.drop_first();
        let e = enc_list(items, f);
        let e0 = f(x);
        let er = enc_list(rest, f);
        assert(e == e0 + er);
        assert(s.subrange(i, i + e0.len() as int) =~= e0) by {
            assert forall|k: int| 0 <= k < e0.len() implies s.subrange(i, i + e0.len() as int)[k]
                == e0[k] by {
                assert(s.subrange(i, i + e.len() as int)[k] == e[k]);
            }
        }
        assert(df(s, i) == Some((x, i + e0.len() as int)));
        let j = i + e0.len() as int;
        assert(s.subrange(j, j + er.len() as int) =~= er) by {
            assert forall|k: int| 0 <= k < er.len() implies s.subrange(j, j + er.len() as int)[k]
                == er[k] by {
                assert(s.subrange(i, i + e.len() as int)[e0.len() + k] == e[e0.len() + k]);
            }
        }
        assert forall|k: int| 0 <= k < rest.len() implies wf(#[trigger] rest[k]) by {
            assert(rest[k] == items[k + 1]);
        }
        lemma_dec_list(s, j, rest, f, df, wf);
        assert(seq![x] + rest =~= items);
    }
}

/// The encoding of a byte string: its length, then its bytes.
pub open spec fn enc_bytes(b: Seq<u8>) -> Seq<u8> {
    spec_frame(b)
}

/// Decoding a byte string.
pub open spec fn dec_u64(s: Seq<u8>, i: int) -> Option<(u64, int)> {
    if 0 <= i && i + 8 <= s.len() {
        Some((spec_u64_from_be_bytes(s.subrange(i, i + 8)), i + 8))
    } else {
        None
    }
}

pub open spec fn dec_bytes(s: Seq<u8>, i: int) -> Option<(Seq<u8>, int)> {
    match dec_u64(s, i) {
        None => None,
        Some((n, j)) => if j + n <= s.len() {
            Some((s.subrange(j, j + n), j + n))
        } else {
            None
        },
    }
}

/// The encoding of one token: its UTF-8 bytes, length-delimited.
pub open spec fn enc_str(t: Seq<char>) -> Seq<u8> {
    enc_bytes(encode_utf8(t))
}

/// Decoding one token: its bytes must be valid UTF-8.
pub open spec fn dec_str(s: Seq<u8>, i: int) -> Option<(Seq<char>, int)> {
    match dec_bytes(s, i) {
        None => None,
        Some((b, j)) => if valid_utf8(b) {
            Some((decode_utf8(b), j))
        } else {
            None
        },
    }
}

/// The encoding of a principal path: its token count, then its tokens.
pub open spec fn enc_path(p: Seq<Seq<char>>) -> Seq<u8> {
    spec_u64_to_be_bytes(p.len() as u64) + enc_list(p, |t: Seq<char>| enc_str(t))
}

pub open spec fn dec_path(s: Seq<u8>, i: int) -> Option<(Seq<Seq<char>>, int)> {
    match dec_u64(s, i) {
        None => None,
        Some((n, j)) => dec_list(s, j, n as nat, |s2: Seq<u8>, i2: int| dec_str(s2, i2)),
    }
}

/// The encoding of a clause: its path count, then its paths.
pub open spec fn enc_clause(c: Seq<Seq<Seq<char>>>) -> Seq<u8> {
    spec_u64_to_be_bytes(c.len() as u64) + enc_list(c, |p: Seq<Seq<char>>| enc_path(p))
}

pub open spec fn dec_clause(s: Seq<u8>, i: int) -> Option<(Seq<Seq<Seq<char>>>, int)> {
    match dec_u64(s, i) {
        None => None,
        Some((n, j)) => dec_list(s, j, n as nat, |s2: Seq<u8>, i2: int| dec_path(s2, i2)),
    }
}

/// The token sequences of a component, clause by clause, in vector order.
pub open spec fn comp_seq_view(c: Component) -> Option<Seq<Seq<Seq<Seq<char>>>>> {
    match c {
        Component::DcFalse => None,
        Component::DcFormula(cs) => Some(
            cs@.map_values(|cl: Clause| cl.principals.deep_view()),
        ),
    }
}

/// The encoding of a component: a tag byte — 0 for the unreachable
/// element, 1 for a formula — then the clause count and the clauses.
pub open spec fn enc_component(c: Component) -> Seq<u8> {
    match comp_seq_view(c) {
        None => seq![0u8],
        Some(cls) => seq![1u8] + spec_u64_to_be_bytes(cls.len() as u64) + enc_list(
            cls,
            |cl: Seq<Seq<Seq<char>>>| enc_clause(cl),
        ),
    }
}

pub open spec fn dec_component(s: Seq<u8>, i: int) -> Option<
    (Option<Seq<Seq<Seq<Seq<char>>>>>, int),
> {
    if 0 <= i && i < s.len() {
        if s[i] == 0u8 {
            Some((None, i + 1))
        } else if s[i] == 1u8 {
            match dec_u64(s, i + 1) {
                None => None,
                Some((n, j)) => match dec_list(
                    s,
                    j,
                    n as nat,
                    |s2: Seq<u8>, i2: int| dec_clause(s2, i2),
                ) {
                    None => None,
                    Some((cls, k)) => Some((Some(cls), k)),
                },
            }
        } else {
            None
        }
    } else {
        None
    }
}

/// The encoding of a label: its secrecy, then its integrity.
pub open spec fn enc_buckle(b: Buckle) -> Seq<u8> {
    enc_component(b.secrecy) + enc_component(b.integrity)
}

pub open spec fn dec_buckle(s: Seq<u8>, i: int) -> Option<
    ((Option<Seq<Seq<Seq<Seq<char>>>>>, Option<Seq<Seq<Seq<Seq<char>>>>>), int),
> {
    match dec_component(s, i) {
        None => None,
        Some((sec, j)) => match dec_component(s, j) {
            None => None,
            Some((intg, k)) => Some(((sec, intg), k)),
        },
    }
}

/// A token short enough that its byte length survives the length prefix.
pub open spec fn str_fits(t: Seq<char>) -> bool {
    encode_utf8(t).len() <= u64::MAX
}

pub open spec fn path_fits(p: Seq<Seq<char>>) -> bool {
    p.len() <= u64::MAX && forall|k: int| 0 <= k < p.len() ==> str_fits(#[trigger] p[k])
}

pub open spec fn clause_fits(c: Seq<Seq<Seq<char>>>) -> bool {
    c.len() <= u64::MAX && forall|k: int| 0 <= k < c.len() ==> path_fits(#[trigger] c[k])
}

pub open spec fn comp_fits(c: Component) -> bool {
    match comp_seq_view(c) {
        None => true,
        Some(cls) => cls.len() <= u64::MAX && forall|k: int| 0 <= k < cls.len() ==> clause_fits(
            #[trigger] cls[k],
        ),
    }
}

proof fn lemma_dec_u64_prefix(s: Seq<u8>, i: int, x: u64)
    requires
        0 <= i,
        i + 8 <= s.len(),
        s.subrange(i, i + 8) == spec_u64_to_be_bytes(x),
    ensures
        dec_u64(s, i) == Some((x, i + 8)),
{
    crate::frame::lemma_u64_be_round_trip(x);
}

proof fn lemma_dec_bytes_prefix(s: Seq<u8>, i: int, b: Seq<u8>)
    requires
        0 <= i,
        b.len() <= u64::MAX,
        i + enc_bytes(b).len() <= s.len(),
        s.subrange(i, i + enc_bytes(b).len() as int) == enc_bytes(b),
    ensures
        dec_bytes(s, i) == Some((b, i + 8 + b.len())),
{
    let e = enc_bytes(b);
    let pre = spec_u64_to_be_bytes(b.len() as u64);
    assert(e == pre + b);
    assert(s.subrange(i, i + 8) =~= pre) by {
        assert forall|k: int| 0 <= k < 8 implies s.subrange(i, i + 8)[k] == pre[k] by {
            assert(s.subrange(i, i + e.len() as int)[k] == e[k]);
        }
    }
    lemma_dec_u64_prefix(s, i, b.len() as u64);
    assert(b.len() as u64 as int == b.len());
    assert(s.subrange(i + 8, i + 8 + b.len()) =~= b) by {
        assert forall|k: int| 0 <= k < b.len() implies s.subrange(i + 8, i + 8 + b.len())[k]
            == b[k] by {
            assert(s.subrange(i, i + e.len() as int)[8 + k] == e[8 + k]);
        }
    }
}

proof fn lemma_dec_str_prefix(s: Seq<u8>, i: int, t: Seq<char>)
    requires
        0 <= i,
        str_fits(t),
        i + enc_str(t).len() <= s.len(),
        s.subrange(i, i + enc_str(t).len() as int) == enc_str(t),
    ensures
        dec_str(s, i) == Some((t, i + enc_str(t).len() as int)),
{
    let b = encode_utf8(t);
    lemma_dec_bytes_prefix(s, i, b);
    assert(valid_utf8(b));
    assert(decode_utf8(b) == t);
}

proof fn lemma_dec_path_prefix(s: Seq<u8>, i: int, p: Seq<Seq<char>>)
    requires
        0 <= i,
        path_fits(p),
        i + enc_path(p).len() <= s.len(),
        s.subrange(i, i + enc_path(p).len() as int) == enc_path(p),
    ensures
        dec_path(s, i) == Some((p, i + enc_path(p).len() as int)),
{
    let f = |t: Seq<char>| enc_str(t);
    let df = |s2: Seq<u8>, i2: int| dec_str(s2, i2);
    let wf = |t: Seq<char>| str_fits(t);
    let e = enc_path(p);
    let pre = spec_u64_to_be_bytes(p.len() as u64);
    let el = enc_list(p, f);
    assert(e == pre + el);
    assert(s.subrange(i, i + 8) =~= pre) by {
        assert forall|k: int| 0 <= k < 8 implies s.subrange(i, i + 8)[k] == pre[k] by {
            assert(s.subrange(i, i + e.len() as int)[k] == e[k]);
        }
    }
    lemma_dec_u64_prefix(s, i, p.len() as u64);
    let j = i + 8;
    assert(s.subrange(j, j + el.len() as int) =~= el) by {
        assert forall|k: int| 0 <= k < el.len() implies s.subrange(j, j + el.len() as int)[k]
            == el[k] by {
            assert(s.subrange(i, i + e.len() as int)[8 + k] == e[8 + k]);
        }
    }
    assert(decoder_inverts(s, f, df, wf)) by {
        assert forall|x: Seq<char>, j2: int|
            wf(x) && 0 <= j2 && j2 + f(x).len() <= s.len() && #[trigger] s.subrange(
                j2,
                j2 + f(x).len() as int,
            ) == f(x) implies df(s, j2) == Some((x, j2 + f(x).len() as int)) by {
            lemma_dec_str_prefix(s, j2, x);
        }
    }
    lemma_dec_list(s, j, p, f, df, wf);
    assert(p.len() as u64 as nat == p.len());
}

proof fn lemma_dec_clause_prefix(s: Seq<u8>, i: int, c: Seq<Seq<Seq<char>>>)
    requires
        0 <= i,
        clause_fits(c),
        i + enc_clause(c).len() <= s.len(),
        s.subrange(i, i + enc_clause(c).len() as int) == enc_clause(c),
    ensures
        dec_clause(s, i) == Some((c, i + enc_clause(c).len() as int)),
{
    let f = |p: Seq<Seq<char>>| enc_path(p);
    let df = |s2: Seq<u8>, i2: int| dec_path(s2, i2);
    let wf = |p: Seq<Seq<char>>| path_fits(p);
    let e = enc_clause(c);
    let pre = spec_u64_to_be_bytes(c.len() as u64);
    let el = enc_list(c, f);
    assert(e == pre + el);
    assert(s.subrange(i, i + 8) =~= pre) by {
        assert forall|k: int| 0 <= k < 8 implies s.subrange(i, i + 8)[k] == pre[k] by {
            assert(s.subrange(i, i + e.len() as int)[k] == e[k]);
        }
    }
    lemma_dec_u64_prefix(s, i, c.len() as u64);
    let j = i + 8;
    assert(s.subrange(j, j + el.len() as int) =~= el) by {
        assert forall|k: int| 0 <= k < el.len() implies s.subrange(j, j + el.len() as int)[k]
            == el[k] by {
            assert(s.subrange(i, i + e.len() as int)[8 + k] == e[8 + k]);
        }
    }
    assert(decoder_inverts(s, f, df, wf)) by {
        assert forall|x: Seq<Seq<char>>, j2: int|
            wf(x) && 0 <= j2 && j2 + f(x).len() <= s.len() && #[trigger] s.subrange(
                j2,
                j2 + f(x).len() as int,
            ) == f(x) implies df(s, j2) == Some((x, j2 + f(x).len() as int)) by {
            lemma_dec_path_prefix(s, j2, x);
        }
    }
    lemma_dec_list(s, j, c, f, df, wf);
    assert(c.len() as u64 as nat == c.len());
}

proof fn lemma_dec_component_prefix(s: Seq<u8>, i: int, c: Component)
    requires
        0 <= i,
        comp_fits(c),
        i + enc_component(c).len() <= s.len(),
        s.subrange(i, i + enc_component(c).len() as int) == enc_component(c),
    ensures
        dec_component(s, i) == Some((comp_seq_view(c), i + enc_component(c).len() as int)),
{
    let e = enc_component(c);
    assert(s[i] == s.subrange(i, i + e.len() as int)[0]);
    match comp_seq_view(c) {
        None => {
            assert(s[i] == 0u8);
        },
        Some(cls) => {
            let f = |cl: Seq<Seq<Seq<char>>>| enc_clause(cl);
            let df = |s2: Seq<u8>, i2: int| dec_clause(s2, i2);
            let wf = |cl: Seq<Seq<Seq<char>>>| clause_fits(cl);
            let pre = spec_u64_to_be_bytes(cls.len() as u64);
            let el = enc_list(cls, f);
            assert(e == seq![1u8] + pre + el);
            assert(s[i] == 1u8);
            assert(s.subrange(i + 1, i + 9) =~= pre) by {
                assert forall|k: int| 0 <= k < 8 implies s.subrange(i + 1, i + 9)[k] == pre[k] by {
                    assert(s.subrange(i, i + e.len() as int)[1 + k] == e[1 + k]);
                }
            }
            lemma_dec_u64_prefix(s, i + 1, cls.len() as u64);
            let j = i + 9;
            assert(s.subrange(j, j + el.len() as int) =~= el) by {
                assert forall|k: int| 0 <= k < el.len() implies s.subrange(
                    j,
                    j + el.len() as int,
                )[k] == el[k] by {
                    assert(s.subrange(i, i + e.len() as int)[9 + k] == e[9 + k]);
                }
            }
            assert(decoder_inverts(s, f, df, wf)) by {
                assert forall|x: Seq<Seq<Seq<char>>>, j2: int|
                    wf(x) && 0 <= j2 && j2 + f(x).len() <= s.len() && #[trigger] s.subrange(
                        j2,
                        j2 + f(x).len() as int,
                    ) == f(x) implies df(s, j2) == Some((x, j2 + f(x).len() as int)) by {
                    lemma_dec_clause_prefix(s, j2, x);
                }
            }
            lemma_dec_list(s, j, cls, f, df, wf);
            assert(cls.len() as u64 as nat == cls.len());
        },
    }
}

/// Round trip for a component: decoding its encoding, wherever it sits and
/// whatever follows it, yields exactly the encoded component's clauses.
pub proof fn lemma_component_round_trip(c: Component, rest: Seq<u8>)
    requires
        comp_fits(c),
    ensures
        dec_component(enc_component(c) + rest, 0) == Some((comp_seq_view(c), enc_component(
            c,
        ).len() as int)),
{
    let s = enc_component(c) + rest;
    assert(s.subrange(0, enc_component(c).len() as int) =~= enc_component(c));
    lemma_dec_component_prefix(s, 0, c);
}

pub open spec fn buckle_fits(b: Buckle) -> bool {
    comp_fits(b.secrecy) && comp_fits(b.integrity)
}

/// Round trip for a whole label: decoding its encoding yields its secrecy
/// and integrity clauses exactly, token for token — so in particular a
/// value equal under the algebra's own order-independent equality.
pub proof fn lemma_buckle_round_trip(b: Buckle, rest: Seq<u8>)
    requires
        buckle_fits(b),
    ensures
        dec_buckle(enc_buckle(b) + rest, 0) == Some((
            (comp_seq_view(b.secrecy), comp_seq_view(b.integrity)),
            enc_buckle(b).len() as int,
        )),
{
    let s = enc_buckle(b) + rest;
    let es = enc_component(b.secrecy);
    let ei = enc_component(b.integrity);
    assert(s.subrange(0, es.len() as int) =~= es);
    lemma_dec_component_prefix(s, 0, b.secrecy);
    assert(s.subrange(es.len() as int, es.len() as int + ei.len() as int) =~= ei);
    lemma_dec_component_prefix(s, es.len() as int, b.integrity);
}

fn encode_string_into(out: &mut Vec<u8>, t: &String)
    ensures
        final(out)@ == old(out)@ + enc_str(t@),
        str_fits(t@),
{
    let bytes = t.as_str().as_bytes();
    let n = bytes.len();
    proof {
        assert(bytes@.len() == n);
    }
    write_u8(out, bytes);
}

#[verifier::loop_isolation(false)]
fn encode_path_into(out: &mut Vec<u8>, p: &Vec<String>)
    ensures
        final(out)@ == old(out)@ + enc_path(p.deep_view()),
        path_fits(p.deep_view()),
{
    let ghost fstr = |t: Seq<char>| enc_str(t);
    let mut pre = crate::frame::u64_to_be_bytes(p.len() as u64);
    out.append(&mut pre);
    let n = p.len();
    for i in 0..n
        invariant
            n == p.len(),
            out@ == old(out)@ + spec_u64_to_be_bytes(p.deep_view().len() as u64) + enc_list(
                p.deep_view().take(i as int),
                fstr,
            ),
            forall|k: int| 0 <= k < i ==> str_fits(#[trigger] p.deep_view()[k]),
    {
        let ghost before = p.deep_view().take(i as int);
        encode_string_into(out, &p[i]);
        proof {
            lemma_enc_list_push(before, fstr, p.deep_view()[i as int]);
            assert(before.push(p.deep_view()[i as int]) =~= p.deep_view().take(i + 1));
            assert(p.deep_view()[i as int] == p@[i as int]@);
        }
    }
    proof {
        assert(p.deep_view().take(n as int) =~= p.deep_view());
    }
}

#[verifier::loop_isolation(false)]
fn encode_clause_into(out: &mut Vec<u8>, c: &Clause)
    ensures
        final(out)@ == old(out)@ + enc_clause(c.principals.deep_view()),
        clause_fits(c.principals.deep_view()),
{
    let ghost fpath = |p: Seq<Seq<char>>| enc_path(p);
    let mut pre = crate::frame::u64_to_be_bytes(c.principals.len() as u64);
    out.append(&mut pre);
    let n = c.principals.len();
    for i in 0..n
        invariant
            n == c.principals.len(),
            out@ == old(out)@ + spec_u64_to_be_bytes(c.principals.deep_view().len() as u64)
                + enc_list(c.principals.deep_view().take(i as int), fpath),
            forall|k: int| 0 <= k < i ==> path_fits(#[trigger] c.principals.deep_view()[k]),
    {
        let ghost before = c.principals.deep_view().take(i as int);
        encode_path_into(out, &c.principals[i]);
        proof {
            lemma_enc_list_push(before, fpath, c.principals.deep_view()[i as int]);
            assert(before.push(c.principals.deep_view()[i as int]) =~= c.principals.deep_view()
                .take(i + 1));
            assert(c.principals.deep_view()[i as int] == c.principals@[i as int].deep_view());
        }
    }
    proof {
        assert(c.principals.deep_view().take(n as int) =~= c.principals.deep_view());
    }
}

#[verifier::loop_isolation(false)]
fn encode_component_into(out: &mut Vec<u8>, c: &Component)
    ensures
        final(out)@ == old(out)@ + enc_component(*c),
        comp_fits(*c),
{
    match c {
        Component::DcFalse => {
            out.push(0u8);
            proof {
                assert(out@ =~= old(out)@ + enc_component(*c));
            }
        },
        Component::DcFormula(cs) => {
            let ghost fcl = |cl: Seq<Seq<Seq<char>>>| enc_clause(cl);
            let ghost cls = cs@.map_values(|cl: Clause| cl.principals.deep_view());
            out.push(1u8);
            let mut pre = crate::frame::u64_to_be_bytes(cs.len() as u64);
            out.append(&mut pre);
            proof {
                assert(out@ =~= old(out)@ + seq![1u8] + spec_u64_to_be_bytes(cls.len() as u64));
            }
            let n = cs.len();
            for i in 0..n
                invariant
                    n == cs.len(),
                    cls == cs@.map_values(|cl: Clause| cl.principals.deep_view()),
                    *c == Component::DcFormula(*cs),
                    out@ == old(out)@ + seq![1u8] + spec_u64_to_be_bytes(cls.len() as u64)
                        + enc_list(cls.take(i as int), fcl),
                    forall|k: int| 0 <= k < i ==> clause_fits(#[trigger] cls[k]),
            {
                let ghost before = cls.take(i as int);
                encode_clause_into(out, &cs[i]);
                proof {
                    lemma_enc_list_push(before, fcl, cls[i as int]);
                    assert(before.push(cls[i as int]) =~= cls.take(i + 1));
                    assert(cls[i as int] == cs@[i as int].principals.deep_view());
                }
            }
            proof {
                assert(cls.take(n as int) =~= cls);
                assert(out@ =~= old(out)@ + enc_component(*c));
            }
        },
    }
}

/// Encodes a component to its wire bytes.
pub fn encode_component(c: &Component) -> (r: Vec<u8>)
    ensures
        r@ == enc_component(*c),
        comp_fits(*c),
{
    let mut out: Vec<u8> = Vec::new();
    encode_component_into(&mut out, c);
    proof {
        assert(out@ =~= enc_component(*c));
    }
    out
}

/// Encodes a label to its wire bytes: secrecy, then integrity.
pub fn encode_buckle(b: &Buckle) -> (r: Vec<u8>)
    ensures
        r@ == enc_buckle(*b),
        buckle_fits(*b),
{
    let mut out: Vec<u8> = Vec::new();
    encode_component_into(&mut out, &b.secrecy);
    encode_component_into(&mut out, &b.integrity);
    proof {
        assert(out@ =~= enc_buckle(*b));
    }
    out
}

/// Relies on String::from_utf8: it returns the string of the given bytes
/// exactly when they are valid UTF-8, and rejects them otherwise.
#[verifier::external_body]
fn bytes_to_string(v: Vec<u8>) -> (r: Option<String>)
    ensures
        r is Some <==> valid_utf8(v@),
        r matches Some(s) ==> s@ == decode_utf8(v@),
{
    String::from_utf8(v).ok()
}

fn decode_u64_at(buf: &[u8], pos: usize) -> (r: Option<(u64, usize)>)
    ensures
        r matches Some(t) ==> dec_u64(buf@, pos as int) == Some((t.0, t.1 as int)),
        r is None ==> dec_u64(buf@, pos as int) is None,
{
    if pos > buf.len() || buf.len() - pos < 8 {
        return None;
    }
    let prefix = slice_subrange(buf, pos, pos + 8);
    Some((u64_from_be_bytes(prefix), pos + 8))
}

fn decode_bytes_at(buf: &[u8], pos: usize) -> (r: Option<(Vec<u8>, usize)>)
    ensures
        r matches Some(t) ==> dec_bytes(buf@, pos as int) == Some((t.0@, t.1 as int)),
        r is None ==> dec_bytes(buf@, pos as int) is None,
{
    match decode_u64_at(buf, pos) {
        None => None,
        Some((n, j)) => {
            if n > (buf.len() - j) as u64 {
                return None;
            }
            let n_us = n as usize;
            Some((vstd::slice::slice_to_vec(slice_subrange(buf, j, j + n_us)), j + n_us))
        },
    }
}

fn decode_string_at(buf: &[u8], pos: usize) -> (r: Option<(String, usize)>)
    ensures
        r matches Some(t) ==> dec_str(buf@, pos as int) == Some((t.0@, t.1 as int)),
        r is None ==> dec_str(buf@, pos as int) is None,
{
    match decode_bytes_at(buf, pos) {
        None => None,
        Some((b, j)) => match bytes_to_string(b) {
            None => None,
            Some(s) => Some((s, j)),
        },
    }
}

#[verifier::loop_isolation(false)]
fn decode_path_at(buf: &[u8], pos: usize) -> (r: Option<(Vec<String>, usize)>)
    ensures
        r matches Some(t) ==> dec_path(buf@, pos as int) == Some((t.0.deep_view(), t.1 as int)),
        r is None ==> dec_path(buf@, pos as int) is None,
{
    let ghost dfs = |s2: Seq<u8>, i2: int| dec_str(s2, i2);
    match decode_u64_at(buf, pos) {
        None => None,
        Some((n, j0)) => {
            let mut acc: Vec<String> = Vec::new();
            let mut cur = j0;
            let mut idx: u64 = 0;
            while idx < n
                invariant
                    idx <= n,
                    dec_list(buf@, j0 as int, n as nat, dfs) == dec_list_cont(
                        acc.deep_view(),
                        dec_list(buf@, cur as int, (n - idx) as nat, dfs),
                    ),
                decreases n - idx,
            {
                let ghost acc0 = acc.deep_view();
                match decode_string_at(buf, cur) {
                    None => {
                        proof {
                            assert(dec_list(buf@, cur as int, (n - idx) as nat, dfs) is None);
                        }
                        return None;
                    },
                    Some((s, np)) => {
                        proof {
                            lemma_dec_list_cont_step(buf@, cur as int, (n - idx) as nat, dfs,
                                acc0, s@, np as int);
                        }
                        acc.push(s);
                        proof {
                            assert(acc.deep_view() =~= acc0.push(s@));
                        }
                        cur = np;
                        idx = idx + 1;
                    },
                }
            }
            proof {
                assert(dec_list(buf@, cur as int, 0, dfs) == Some((Seq::<Seq<char>>::empty(),
                    cur as int)));
                assert(acc.deep_view() + Seq::<Seq<char>>::empty() =~= acc.deep_view());
            }
            Some((acc, cur))
        },
    }
}

/// Moving one decoded item into the accumulator commutes with finishing
/// the list.
proof fn lemma_dec_list_cont_step<T>(
    s: Seq<u8>,
    i: int,
    n: nat,
    df: spec_fn(Seq<u8>, int) -> Option<(T, int)>,
    acc: Seq<T>,
    v: T,
    j: int,
)
    requires
        n > 0,
        df(s, i) == Some((v, j)),
    ensures
        dec_list_cont(acc, dec_list(s, i, n, df)) == dec_list_cont(
            acc.push(v),
            dec_list(s, j, (n - 1) as nat, df),
        ),
{
    match dec_list(s, j, (n - 1) as nat, df) {
        None => {},
        Some((vs, k)) => {
            assert(acc + (seq![v] + vs) =~= acc.push(v) + vs);
        },
    }
}

/// Prepending already-decoded items to the rest of a list decode.
pub open spec fn dec_list_cont<T>(acc: Seq<T>, r: Option<(Seq<T>, int)>) -> Option<
    (Seq<T>, int),
> {
    match r {
        None => None,
        Some((vs, j)) => Some((acc + vs, j)),
    }
}

#[verifier::loop_isolation(false)]
fn decode_clause_at(buf: &[u8], pos: usize) -> (r: Option<(Clause, usize)>)
    ensures
        r matches Some(t) ==> dec_clause(buf@, pos as int) == Some((t.0.principals.deep_view(),
            t.1 as int)),
        r is None ==> dec_clause(buf@, pos as int) is None,
{
    let ghost dfp = |s2: Seq<u8>, i2: int| dec_path(s2, i2);
    match decode_u64_at(buf, pos) {
        None => None,
        Some((n, j0)) => {
            let mut acc: Vec<Vec<String>> = Vec::new();
            let mut cur = j0;
            let mut idx: u64 = 0;
            while idx < n
                invariant
                    idx <= n,
                    dec_list(buf@, j0 as int, n as nat, dfp) == dec_list_cont(
                        acc.deep_view(),
                        dec_list(buf@, cur as int, (n - idx) as nat, dfp),
                    ),
                decreases n - idx,
            {
                let ghost acc0 = acc.deep_view();
                match decode_path_at(buf, cur) {
                    None => {
                        proof {
                            assert(dec_list(buf@, cur as int, (n - idx) as nat, dfp) is None);
                        }
                        return None;
                    },
                    Some((p, np)) => {
                        proof {
                            lemma_dec_list_cont_step(buf@, cur as int, (n - idx) as nat, dfp,
                                acc0, p.deep_view(), np as int);
                        }
                        acc.push(p);
                        proof {
                            assert(acc.deep_view() =~= acc0.push(acc@[acc@.len() - 1].deep_view()));
                        }
                        cur = np;
                        idx = idx + 1;
                    },
                }
            }
            proof {
                assert(dec_list(buf@, cur as int, 0, dfp) == Some((Seq::<Seq<Seq<char>>>::empty(),
                    cur as int)));
                assert(acc.deep_view() + Seq::<Seq<Seq<char>>>::empty() =~= acc.deep_view());
            }
            Some((Clause { principals: acc }, cur))
        },
    }
}

/// Decodes a component from its wire bytes, advancing the position past it.
#[verifier::loop_isolation(false)]
pub fn decode_component(buf: &[u8], pos: usize) -> (r: Option<(Component, usize)>)
    ensures
        r matches Some(t) ==> dec_component(buf@, pos as int) == Some((comp_seq_view(t.0),
            t.1 as int)),
        r is None ==> dec_component(buf@, pos as int) is None,
{
    let ghost dfc = |s2: Seq<u8>, i2: int| dec_clause(s2, i2);
    if pos >= buf.len() {
        return None;
    }
    let tag = buf[pos];
    if tag == 0u8 {
        return Some((Component::DcFalse, pos + 1));
    }
    if tag != 1u8 {
        return None;
    }
    match decode_u64_at(buf, pos + 1) {
        None => None,
        Some((n, j0)) => {
            let mut acc: Vec<Clause> = Vec::new();
            let mut cur = j0;
            let mut idx: u64 = 0;
            while idx < n
                invariant
                    idx <= n,
                    dec_list(buf@, j0 as int, n as nat, dfc) == dec_list_cont(
                        acc@.map_values(|cl: Clause| cl.principals.deep_view()),
                        dec_list(buf@, cur as int, (n - idx) as nat, dfc),
                    ),
                decreases n - idx,
            {
                let ghost acc0 = acc@.map_values(|cl: Clause| cl.principals.deep_view());
                match decode_clause_at(buf, cur) {
                    None => {
                        proof {
                            assert(dec_list(buf@, cur as int, (n - idx) as nat, dfc) is None);
                        }
                        return None;
                    },
                    Some((cl, np)) => {
                        proof {
                            lemma_dec_list_cont_step(buf@, cur as int, (n - idx) as nat, dfc,
                                acc0, cl.principals.deep_view(), np as int);
                        }
                        acc.push(cl);
                        proof {
                            assert(acc@.map_values(|cl2: Clause| cl2.principals.deep_view())
                                =~= acc0.push(acc@[acc@.len() - 1].principals.deep_view()));
                        }
                        cur = np;
                        idx = idx + 1;
                    },
                }
            }
            proof {
                assert(dec_list(buf@, cur as int, 0, dfc) == Some((
                    Seq::<Seq<Seq<Seq<char>>>>::empty(),
                    cur as int,
                )));
                let accv = acc@.map_values(|cl: Clause| cl.principals.deep_view());
                assert(accv + Seq::<Seq<Seq<Seq<char>>>>::empty() =~= accv);
            }
            Some((Component::DcFormula(acc), cur))
        },
    }
}

/// Decodes a label from its wire bytes: secrecy, then integrity.
pub fn decode_buckle(buf: &[u8], pos: usize) -> (r: Option<(Buckle, usize)>)
    ensures
        r matches Some(t) ==> dec_buckle(buf@, pos as int) == Some((
            (comp_seq_view(t.0.secrecy), comp_seq_view(t.0.integrity)),
            t.1 as int,
        )),
        r is None ==> dec_buckle(buf@, pos as int) is None,
{
    match decode_component(buf, pos) {
        None => None,
        Some((sec, j)) => match decode_component(buf, j) {
            None => None,
            Some((intg, k)) => Some((Buckle { secrecy: sec, integrity: intg }, k)),
        },
    }
}

/// The encoding of an invocation request: its gate path, the caller's
/// label, then the request body.
pub open spec fn enc_request(r: crate::message::Request) -> Seq<u8> {
    enc_str(r.gate@) + enc_buckle(r.label) + enc_bytes(r.payload@)
}

pub open spec fn dec_request(s: Seq<u8>, i: int) -> Option<
    ((Seq<char>, (Option<Seq<Seq<Seq<Seq<char>>>>>, Option<Seq<Seq<Seq<Seq<char>>>>>), Seq<u8>), int),
> {
    match dec_str(s, i) {
        None => None,
        Some((g, j)) => match dec_buckle(s, j) {
            None => None,
            Some((l, k)) => match dec_bytes(s, k) {
                None => None,
                Some((p, m)) => Some(((g, l, p), m)),
            },
        },
    }
}

pub open spec fn request_fits(r: crate::message::Request) -> bool {
    str_fits(r.gate@) && buckle_fits(r.label) && r.payload@.len() <= u64::MAX
}

proof fn lemma_concat4_subranges(e1: Seq<u8>, es: Seq<u8>, ei: Seq<u8>, e3: Seq<u8>, rest: Seq<u8>)
    ensures
        ({
            let s = ((e1 + (es + ei)) + e3) + rest;
            let j1 = e1.len() as int;
            let j2 = j1 + es.len() as int;
            let j3 = j2 + ei.len() as int;
            &&& s.subrange(0, j1) == e1
            &&& s.subrange(j1, j2) == es
            &&& s.subrange(j2, j3) == ei
            &&& s.subrange(j3, j3 + e3.len() as int) == e3
        }),
{
    let s = ((e1 + (es + ei)) + e3) + rest;
    let body = (e1 + (es + ei)) + e3;
    let j1 = e1.len() as int;
    let j2 = j1 + es.len() as int;
    let j3 = j2 + ei.len() as int;
    assert(s.subrange(0, j1) =~= e1) by {
        assert forall|k: int| 0 <= k < e1.len() implies s.subrange(0, j1)[k] == e1[k] by {
            assert(s[k] == body[k]);
            assert((e1 + (es + ei))[k] == e1[k]);
        }
    }
    assert(s.subrange(j1, j2) =~= es) by {
        assert forall|k: int| 0 <= k < es.len() implies s.subrange(j1, j2)[k] == es[k] by {
            assert(s[j1 + k] == body[j1 + k]);
            assert((e1 + (es + ei))[j1 + k] == (es + ei)[k]);
            assert((es + ei)[k] == es[k]);
        }
    }
    assert(s.subrange(j2, j3) =~= ei) by {
        assert forall|k: int| 0 <= k < ei.len() implies s.subrange(j2, j3)[k] == ei[k] by {
            assert(s[j2 + k] == body[j2 + k]);
            assert((e1 + (es + ei))[j2 + k] == (es + ei)[es.len() + k]);
            assert((es + ei)[es.len() + k] == ei[k]);
        }
    }
    assert(s.subrange(j3, j3 + e3.len() as int) =~= e3) by {
        assert forall|k: int| 0 <= k < e3.len() implies s.subrange(j3, j3 + e3.len() as int)[k]
            == e3[k] by {
            assert(s[j3 + k] == body[j3 + k]);
            assert(body[j3 + k] == e3[k]);
        }
    }
}

proof fn lemma_dec_request_compose(
    s: Seq<u8>,
    g: Seq<char>,
    sec: Option<Seq<Seq<Seq<Seq<char>>>>>,
    intg: Option<Seq<Seq<Seq<Seq<char>>>>>,
    p: Seq<u8>,
    j1: int,
    j2: int,
    j3: int,
    end: int,
)
    requires
        dec_str(s, 0) == Some((g, j1)),
        dec_component(s, j1) == Some((sec, j2)),
        dec_component(s, j2) == Some((intg, j3)),
        dec_bytes(s, j3) == Some((p, end)),
    ensures
        dec_request(s, 0) == Some(((g, (sec, intg), p), end)),
{
}

/// Round trip for a request: decoding its encoding yields its gate path,
/// its label's clauses and its body exactly.
#[verifier::rlimit(100)]
#[verifier::spinoff_prover]
pub proof fn lemma_request_round_trip(r: crate::message::Request, rest: Seq<u8>)
    requires
        request_fits(r),
    ensures
        dec_request(enc_request(r) + rest, 0) == Some((
            (r.gate@, (comp_seq_view(r.label.secrecy), comp_seq_view(r.label.integrity)),
            r.payload@),
            enc_request(r).len() as int,
        )),
{
    let e1 = enc_str(r.gate@);
    let es = enc_component(r.label.secrecy);
    let ei = enc_component(r.label.integrity);
    let e3 = enc_bytes(r.payload@);
    let body = enc_request(r);
    let s = body + rest;
    assert(body == (e1 + (es + ei)) + e3);
    lemma_concat4_subranges(e1, es, ei, e3, rest);
    let j1 = e1.len() as int;
    let j2 = j1 + es.len() as int;
    let j3 = j2 + ei.len() as int;
    lemma_dec_str_prefix(s, 0, r.gate@);
    lemma_dec_component_prefix(s, j1, r.label.secrecy);
    lemma_dec_component_prefix(s, j2, r.label.integrity);
    lemma_dec_bytes_prefix(s, j3, r.payload@);
    lemma_dec_request_compose(
        s,
        r.gate@,
        comp_seq_view(r.label.secrecy),
        comp_seq_view(r.label.integrity),
        r.payload@,
        j1,
        j2,
        j3,
        j3 + e3.len() as int,
    );
    assert(j3 + e3.len() as int == body.len() as int);
}

/// Encodes a request to its wire bytes.
pub fn encode_request(r: &crate::message::Request) -> (out: Vec<u8>)
    ensures
        out@ == enc_request(*r),
        request_fits(*r),
{
    let mut out: Vec<u8> = Vec::new();
    encode_string_into(&mut out, &r.gate);
    encode_component_into(&mut out, &r.label.secrecy);
    encode_component_into(&mut out, &r.label.integrity);
    let n = r.payload.len();
    proof {
        assert(r.payload@.len() == n);
    }
    write_u8(&mut out, r.payload.as_slice());
    proof {
        assert(out@ =~= enc_request(*r));
    }
    out
}

/// Decodes a request from its wire bytes.
pub fn decode_request(buf: &[u8], pos: usize) -> (r: Option<(crate::message::Request, usize)>)
    ensures
        r matches Some(t) ==> dec_request(buf@, pos as int) == Some((
            (t.0.gate@, (comp_seq_view(t.0.label.secrecy), comp_seq_view(t.0.label.integrity)),
            t.0.payload@),
            t.1 as int,
        )),
        r is None ==> dec_request(buf@, pos as int) is None,
{
    match decode_string_at(buf, pos) {
        None => None,
        Some((gate, j)) => match decode_buckle(buf, j) {
            None => None,
            Some((label, k)) => match decode_bytes_at(buf, k) {
                None => None,
                Some((payload, m)) => Some((
                    crate::message::Request { gate, label, payload },
                    m,
                )),
            },
        },
    }
}

/// The encoding of one header: its name, then its value.
pub open spec fn enc_pair(h: (Seq<char>, Seq<char>)) -> Seq<u8> {
    enc_str(h.0) + enc_str(h.1)
}

pub open spec fn dec_pair(s: Seq<u8>, i: int) -> Option<((Seq<char>, Seq<char>), int)> {
    match dec_str(s, i) {
        None => None,
        Some((a, j)) => match dec_str(s, j) {
            None => None,
            Some((b, k)) => Some(((a, b), k)),
        },
    }
}

pub open spec fn pair_fits(h: (Seq<char>, Seq<char>)) -> bool {
    str_fits(h.0) && str_fits(h.1)
}

/// The token pairs of a header table, in vector order.
pub open spec fn headers_view(hs: Seq<(String, String)>) -> Seq<(Seq<char>, Seq<char>)> {
    hs.map_values(|h: (String, String)| (h.0@, h.1@))
}

/// The encoding of an invocation payload: its status code, then its
/// header count and headers, then its body.
pub open spec fn enc_payload(p: crate::message::Payload) -> Seq<u8> {
    spec_u64_to_be_bytes(p.status_code as u64) + spec_u64_to_be_bytes(
        p.headers@.len() as u64,
    ) + enc_list(headers_view(p.headers@), |h: (Seq<char>, Seq<char>)| enc_pair(h)) + enc_bytes(
        p.body@,
    )
}

pub open spec fn dec_payload(s: Seq<u8>, i: int) -> Option<
    ((u32, Seq<(Seq<char>, Seq<char>)>, Seq<u8>), int),
> {
    match dec_u64(s, i) {
        None => None,
        Some((st, j)) => match dec_u64(s, j) {
            None => None,
            Some((n, j2)) => match dec_list(
                s,
                j2,
                n as nat,
                |s2: Seq<u8>, i2: int| dec_pair(s2, i2),
            ) {
                None => None,
                Some((hs, j3)) => match dec_bytes(s, j3) {
                    None => None,
                    Some((b, j4)) => Some(((st as u32, hs, b), j4)),
                },
            },
        },
    }
}

pub open spec fn payload_fits(p: crate::message::Payload) -> bool {
    &&& p.headers@.len() <= u64::MAX
    &&& forall|k: int| 0 <= k < p.headers@.len() ==> pair_fits(#[trigger] headers_view(
        p.headers@,
    )[k])
    &&& p.body@.len() <= u64::MAX
}

/// The encoding of a task return: its return code, then a tag byte — 0
/// for no payload, 1 for a payload — then the payload.
pub open spec fn enc_task_return(tr: crate::message::TaskReturn) -> Seq<u8> {
    spec_u64_to_be_bytes(tr.code as u64) + match tr.payload {
        None => seq![0u8],
        Some(p) => seq![1u8] + enc_payload(p),
    }
}

pub open spec fn dec_task_return(s: Seq<u8>, i: int) -> Option<
    ((i32, Option<(u32, Seq<(Seq<char>, Seq<char>)>, Seq<u8>)>), int),
> {
    match dec_u64(s, i) {
        None => None,
        Some((v, j)) => if j < s.len() {
            if s[j] == 0u8 {
                Some(((v as i32, None), j + 1))
            } else if s[j] == 1u8 {
                match dec_payload(s, j + 1) {
                    None => None,
                    Some((pv, k)) => Some(((v as i32, Some(pv)), k)),
                }
            } else {
                None
            }
        } else {
            None
        },
    }
}

pub open spec fn task_return_fits(tr: crate::message::TaskReturn) -> bool {
    tr.payload matches Some(p) ==> payload_fits(p)
}

/// The token-level value of a payload, as its decoding yields it.
pub open spec fn payload_seq_view(p: crate::message::Payload) -> (
    u32,
    Seq<(Seq<char>, Seq<char>)>,
    Seq<u8>,
) {
    (p.status_code, headers_view(p.headers@), p.body@)
}

/// The token-level value of a task return, as its decoding yields it.
pub open spec fn task_return_seq_view(tr: crate::message::TaskReturn) -> (
    i32,
    Option<(u32, Seq<(Seq<char>, Seq<char>)>, Seq<u8>)>,
) {
    (
        tr.code,
        match tr.payload {
            None => None,
            Some(p) => Some(payload_seq_view(p)),
        },
    )
}

proof fn lemma_i32_u64_round_trip(x: i32)
    ensures
        (x as u64) as i32 == x,
{
    assert((x as u64) as i32 == x) by (bit_vector);
}

proof fn lemma_u32_u64_round_trip(x: u32)
    ensures
        (x as u64) as u32 == x,
{
    assert((x as u64) as u32 == x) by (bit_vector);
}

proof fn lemma_dec_pair_prefix(s: Seq<u8>, i: int, h: (Seq<char>, Seq<char>))
    requires
        0 <= i,
        pair_fits(h),
        i + enc_pair(h).len() <= s.len(),
        s.subrange(i, i + enc_pair(h).len() as int) == enc_pair(h),
    ensures
        dec_pair(s, i) == Some((h, i + enc_pair(h).len() as int)),
{
    let e = enc_pair(h);
    let e0 = enc_str(h.0);
    let e1 = enc_str(h.1);
    assert(e == e0 + e1);
    assert(s.subrange(i, i + e0.len() as int) =~= e0) by {
        assert forall|k: int| 0 <= k < e0.len() implies s.subrange(i, i + e0.len() as int)[k]
            == e0[k] by {
            assert(s.subrange(i, i + e.len() as int)[k] == e[k]);
        }
    }
    lemma_dec_str_prefix(s, i, h.0);
    let j = i + e0.len() as int;
    assert(s.subrange(j, j + e1.len() as int) =~= e1) by {
        assert forall|k: int| 0 <= k < e1.len() implies s.subrange(j, j + e1.len() as int)[k]
            == e1[k] by {
            assert(s.subrange(i, i + e.len() as int)[e0.len() + k] == e[e0.len() + k]);
        }
    }
    lemma_dec_str_prefix(s, j, h.1);
    assert(h == (h.0, h.1));
}

#[verifier::rlimit(100)]
proof fn lemma_dec_payload_prefix(s: Seq<u8>, i: int, p: crate::message::Payload)
    requires
        0 <= i,
        payload_fits(p),
        i + enc_payload(p).len() <= s.len(),
        s.subrange(i, i + enc_payload(p).len() as int) == enc_payload(p),
    ensures
        dec_payload(s, i) == Some((payload_seq_view(p), i + enc_payload(p).len() as int)),
{
    let f = |h: (Seq<char>, Seq<char>)| enc_pair(h);
    let df = |s2: Seq<u8>, i2: int| dec_pair(s2, i2);
    let wf = |h: (Seq<char>, Seq<char>)| pair_fits(h);
    let hv = headers_view(p.headers@);
    let e = enc_payload(p);
    let st8 = spec_u64_to_be_bytes(p.status_code as u64);
    let cnt8 = spec_u64_to_be_bytes(hv.len() as u64);
    let el = enc_list(hv, f);
    let eb = enc_bytes(p.body@);
    assert(e == ((st8 + cnt8) + el) + eb);
    assert(s.subrange(i, i + 8) =~= st8) by {
        assert forall|k: int| 0 <= k < 8 implies s.subrange(i, i + 8)[k] == st8[k] by {
            assert(s.subrange(i, i + e.len() as int)[k] == e[k]);
        }
    }
    lemma_dec_u64_prefix(s, i, p.status_code as u64);
    lemma_u32_u64_round_trip(p.status_code);
    let j = i + 8;
    assert(s.subrange(j, j + 8) =~= cnt8) by {
        assert forall|k: int| 0 <= k < 8 implies s.subrange(j, j + 8)[k] == cnt8[k] by {
            assert(s.subrange(i, i + e.len() as int)[8 + k] == e[8 + k]);
        }
    }
    lemma_dec_u64_prefix(s, j, hv.len() as u64);
    let j2 = j + 8;
    assert(s.subrange(j2, j2 + el.len() as int) =~= el) by {
        assert forall|k: int| 0 <= k < el.len() implies s.subrange(j2, j2 + el.len() as int)[k]
            == el[k] by {
            assert(s.subrange(i, i + e.len() as int)[16 + k] == e[16 + k]);
        }
    }
    assert(decoder_inverts(s, f, df, wf)) by {
        assert forall|x: (Seq<char>, Seq<char>), jx: int|
            wf(x) && 0 <= jx && jx + f(x).len() <= s.len() && #[trigger] s.subrange(
                jx,
                jx + f(x).len() as int,
            ) == f(x) implies df(s, jx) == Some((x, jx + f(x).len() as int)) by {
            lemma_dec_pair_prefix(s, jx, x);
        }
    }
    lemma_dec_list(s, j2, hv, f, df, wf);
    assert(hv.len() as u64 as nat == hv.len());
    let j3 = j2 + el.len() as int;
    assert(s.subrange(j3, j3 + eb.len() as int) =~= eb) by {
        assert forall|k: int| 0 <= k < eb.len() implies s.subrange(j3, j3 + eb.len() as int)[k]
            == eb[k] by {
            assert(s.subrange(i, i + e.len() as int)[16 + el.len() + k] == e[16 + el.len() + k]);
        }
    }
    lemma_dec_bytes_prefix(s, j3, p.body@);
}

/// Round trip for a task return: decoding its encoding yields its code,
/// and its payload's status, headers and body, exactly.
#[verifier::rlimit(100)]
pub proof fn lemma_task_return_round_trip(tr: crate::message::TaskReturn, rest: Seq<u8>)
    requires
        task_return_fits(tr),
    ensures
        dec_task_return(enc_task_return(tr) + rest, 0) == Some((
            task_return_seq_view(tr),
            enc_task_return(tr).len() as int,
        )),
{
    let body = enc_task_return(tr);
    let s = body + rest;
    let c8 = spec_u64_to_be_bytes(tr.code as u64);
    assert(s.subrange(0, 8) =~= c8) by {
        assert forall|k: int| 0 <= k < 8 implies s.subrange(0, 8)[k] == c8[k] by {
            assert(s[k] == body[k]);
        }
    }
    lemma_dec_u64_prefix(s, 0, tr.code as u64);
    lemma_i32_u64_round_trip(tr.code);
    match tr.payload {
        None => {
            assert(s[8] == body[8]);
            assert(body[8] == 0u8);
        },
        Some(p) => {
            let ep = enc_payload(p);
            assert(body == c8 + (seq![1u8] + ep));
            assert(s[8] == body[8]);
            assert(body[8] == (seq![1u8] + ep)[0]);
            assert(s.subrange(9, 9 + ep.len() as int) =~= ep) by {
                assert forall|k: int| 0 <= k < ep.len() implies s.subrange(
                    9,
                    9 + ep.len() as int,
                )[k] == ep[k] by {
                    assert(s[9 + k] == body[9 + k]);
                    assert(body[9 + k] == (seq![1u8] + ep)[1 + k]);
                }
            }
            lemma_dec_payload_prefix(s, 9, p);
        },
    }
}

fn encode_pair_into(out: &mut Vec<u8>, h: &(String, String))
    ensures
        final(out)@ == old(out)@ + enc_pair((h.0@, h.1@)),
        pair_fits((h.0@, h.1@)),
{
    encode_string_into(out, &h.0);
    encode_string_into(out, &h.1);
    proof {
        assert(out@ =~= old(out)@ + enc_pair((h.0@, h.1@)));
    }
}

#[verifier::loop_isolation(false)]
fn encode_payload_into(out: &mut Vec<u8>, p: &crate::message::Payload)
    ensures
        final(out)@ == old(out)@ + enc_payload(*p),
        payload_fits(*p),
{
    let ghost fpair = |h: (Seq<char>, Seq<char>)| enc_pair(h);
    let ghost hv = headers_view(p.headers@);
    let mut st8 = crate::frame::u64_to_be_bytes(p.status_code as u64);
    out.append(&mut st8);
    let mut cnt8 = crate::frame::u64_to_be_bytes(p.headers.len() as u64);
    out.append(&mut cnt8);
    let n = p.headers.len();
    for i in 0..n
        invariant
            n == p.headers.len(),
            out@ == old(out)@ + spec_u64_to_be_bytes(p.status_code as u64)
                + spec_u64_to_be_bytes(hv.len() as u64) + enc_list(hv.take(i as int), fpair),
            forall|k: int| 0 <= k < i ==> pair_fits(#[trigger] hv[k]),
    {
        let ghost before = hv.take(i as int);
        encode_pair_into(out, &p.headers[i]);
        proof {
            lemma_enc_list_push(before, fpair, hv[i as int]);
            assert(before.push(hv[i as int]) =~= hv.take(i + 1));
            assert(hv[i as int] == (p.headers@[i as int].0@, p.headers@[i as int].1@));
        }
    }
    proof {
        assert(hv.take(n as int) =~= hv);
    }
    let nb = p.body.len();
    proof {
        assert(p.body@.len() == nb);
    }
    write_u8(out, p.body.as_slice());
    proof {
        assert(out@ =~= old(out)@ + enc_payload(*p));
    }
}

/// Encodes a task return to its wire bytes.
pub fn encode_task_return(tr: &crate::message::TaskReturn) -> (out: Vec<u8>)
    ensures
        out@ == enc_task_return(*tr),
        task_return_fits(*tr),
{
    let mut out: Vec<u8> = Vec::new();
    let mut c8 = crate::frame::u64_to_be_bytes(#[verifier::truncate] (tr.code as u64));
    out.append(&mut c8);
    match &tr.payload {
        None => {
            out.push(0u8);
        },
        Some(p) => {
            out.push(1u8);
            encode_payload_into(&mut out, p);
        },
    }
    proof {
        assert(out@ =~= enc_task_return(*tr));
    }
    out
}

fn decode_pair_at(buf: &[u8], pos: usize) -> (r: Option<((String, String), usize)>)
    ensures
        r matches Some(t) ==> dec_pair(buf@, pos as int) == Some(((t.0.0@, t.0.1@), t.1 as int)),
        r is None ==> dec_pair(buf@, pos as int) is None,
{
    match decode_string_at(buf, pos) {
        None => None,
        Some((a, j)) => match decode_string_at(buf, j) {
            None => None,
            Some((b, k)) => Some(((a, b), k)),
        },
    }
}

#[verifier::loop_isolation(false)]
fn decode_payload_at(buf: &[u8], pos: usize) -> (r: Option<(crate::message::Payload, usize)>)
    ensures
        r matches Some(t) ==> dec_payload(buf@, pos as int) == Some((payload_seq_view(t.0),
            t.1 as int)),
        r is None ==> dec_payload(buf@, pos as int) is None,
{
    let ghost dfp = |s2: Seq<u8>, i2: int| dec_pair(s2, i2);
    let (st, j) = match decode_u64_at(buf, pos) {
        None => {
            return None;
        },
        Some(t) => t,
    };
    let status = #[verifier::truncate] (st as u32);
    let (n, j0) = match decode_u64_at(buf, j) {
        None => {
            return None;
        },
        Some(t) => t,
    };
    let mut acc: Vec<(String, String)> = Vec::new();
    let mut cur = j0;
    let mut idx: u64 = 0;
    while idx < n
        invariant
            idx <= n,
            dec_list(buf@, j0 as int, n as nat, dfp) == dec_list_cont(
                headers_view(acc@),
                dec_list(buf@, cur as int, (n - idx) as nat, dfp),
            ),
        decreases n - idx,
    {
        let ghost acc0 = headers_view(acc@);
        match decode_pair_at(buf, cur) {
            None => {
                proof {
                    assert(dec_list(buf@, cur as int, (n - idx) as nat, dfp) is None);
                }
                return None;
            },
            Some((h, np)) => {
                proof {
                    lemma_dec_list_cont_step(buf@, cur as int, (n - idx) as nat, dfp, acc0,
                        (h.0@, h.1@), np as int);
                }
                acc.push(h);
                proof {
                    assert(headers_view(acc@) =~= acc0.push(
                        (acc@[acc@.len() - 1].0@, acc@[acc@.len() - 1].1@),
                    ));
                }
                cur = np;
                idx = idx + 1;
            },
        }
    }
    proof {
        assert(dec_list(buf@, cur as int, 0, dfp) == Some((
            Seq::<(Seq<char>, Seq<char>)>::empty(),
            cur as int,
        )));
        assert(headers_view(acc@) + Seq::<(Seq<char>, Seq<char>)>::empty() =~= headers_view(
            acc@,
        ));
    }
    match decode_bytes_at(buf, cur) {
        None => None,
        Some((body, end)) => Some((
            crate::message::Payload { status_code: status, headers: acc, body },
            end,
        )),
    }
}

/// Decodes a task return from its wire bytes.
pub fn decode_task_return(buf: &[u8], pos: usize) -> (r: Option<
    (crate::message::TaskReturn, usize),
>)
    ensures
        r matches Some(t) ==> dec_task_return(buf@, pos as int) == Some((task_return_seq_view(
            t.0,
        ), t.1 as int)),
        r is None ==> dec_task_return(buf@, pos as int) is None,
{
    let (v, j) = match decode_u64_at(buf, pos) {
        None => {
            return None;
        },
        Some(t) => t,
    };
    let code = #[verifier::truncate] (v as i32);
    if j >= buf.len() {
        return None;
    }
    let tag = buf[j];
    if tag == 0u8 {
        return Some((crate::message::TaskReturn { code, payload: None }, j + 1));
    }
    if tag != 1u8 {
        return None;
    }
    match decode_payload_at(buf, j + 1) {
        None => None,
        Some((p, end)) => Some((crate::message::TaskReturn { code, payload: Some(p) }, end)),
    }
}

/// Equal clause sequences give equal set models: the sequence of decoded
/// tokens determines the component's value in the algebra.
pub proof fn lemma_seq_view_determines_view(c: Component, d: Component)
    requires
        comp_seq_view(c) == comp_seq_view(d),
    ensures
        c@ == d@,
{
    match (c, d) {
        (Component::DcFormula(cs), Component::DcFormula(ds)) => {
            let mc = cs@.map_values(|cl: Clause| cl.principals.deep_view());
            let md = ds@.map_values(|cl: Clause| cl.principals.deep_view());
            assert(mc == md);
            let vc = cs@.map_values(|cl: Clause| cl@);
            let vd = ds@.map_values(|cl: Clause| cl@);
            assert forall|k: int| 0 <= k < vc.len() implies vc[k] == vd[k] by {
                assert(mc[k] == md[k]);
                assert(cs@[k].principals.deep_view() == ds@[k].principals.deep_view());
            }
            assert(vc =~= vd);
        },
        _ => {},
    }
}

} // verus!
