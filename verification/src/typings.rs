//! Repair of the TypeScript declarations generated for the WebAssembly
//! package: an interface that extends a flattened type, which TypeScript
//! refuses, becomes an intersection type alias.
//!
//! The work is done on the UTF-8 bytes of the declarations. Every pattern it
//! looks for is ASCII, so byte positions of matches are character positions
//! of the same matches.
use crate::text::{
    bytes_at, find_byte, find_in, lemma_find_in_bounds, starts_with_at, text_from_utf8,
};
use crate::lex_laws::{ascii_cut, lemma_cut_is_boundary, lemma_valid_between};
use vstd::prelude::*;
use vstd::utf8::{
    decode_utf8, encode_utf8, encode_utf8_valid_utf8, pop_first_scalar, valid_first_scalar,
    valid_utf8, valid_utf8_concat,
};

verus! {

pub open spec fn pat_interface() -> Seq<u8> {
    seq![101u8, 120u8, 112u8, 111u8, 114u8, 116u8, 32u8, 105u8, 110u8, 116u8, 101u8, 114u8, 102u8, 97u8, 99u8, 101u8, 32u8]
}

pub open spec fn pat_extends() -> Seq<u8> {
    seq![32u8, 101u8, 120u8, 116u8, 101u8, 110u8, 100u8, 115u8, 32u8]
}

pub open spec fn pat_open_brace() -> Seq<u8> {
    seq![32u8, 123u8]
}

pub open spec fn pat_type() -> Seq<u8> {
    seq![101u8, 120u8, 112u8, 111u8, 114u8, 116u8, 32u8, 116u8, 121u8, 112u8, 101u8, 32u8]
}

pub open spec fn pat_equals() -> Seq<u8> {
    seq![32u8, 61u8, 32u8]
}

pub open spec fn pat_and_open() -> Seq<u8> {
    seq![32u8, 38u8, 32u8, 123u8, 10u8]
}

/// First position at or after `i` where `pat` occurs inside `..end`, or `end`.
pub open spec fn find_pattern(s: Seq<u8>, i: int, end: int, pat: Seq<u8>) -> int
    decreases end - i,
{
    if i < 0 || i >= end || i + pat.len() > end {
        end
    } else if starts_with_at(s, i, end, pat) {
        i
    } else {
        find_pattern(s, i + 1, end, pat)
    }
}

/// How many bytes of `a..b` are `x`.
pub open spec fn count_byte(s: Seq<u8>, a: int, b: int, x: u8) -> nat
    decreases b - a,
{
    if a >= b || a < 0 || b > s.len() {
        0
    } else {
        count_byte(s, a, b - 1, x) + if s[b - 1] == x {
            1nat
        } else {
            0nat
        }
    }
}

/// Where the line starting at `i` ends, without its `\n` or `\r\n`.
pub open spec fn line_content_end(s: Seq<u8>, i: int) -> int {
    let e = find_in(s, i, s.len() as int, 10u8);
    if e < s.len() && e > i && s[e - 1] == 13u8 {
        e - 1
    } else {
        e
    }
}

/// `export interface NAME extends KIND {` on `a..c`: the ranges of the name
/// and of the extended type.
pub open spec fn interface_header(s: Seq<u8>, a: int, c: int) -> Option<(int, int, int, int)> {
    if !starts_with_at(s, a, c, pat_interface()) {
        None
    } else {
        let r = a + 17;
        let p = find_pattern(s, r, c, pat_extends());
        if p + 9 > c {
            None
        } else if c - (p + 9) >= 2 && starts_with_at(s, c - 2, c, pat_open_brace()) {
            Some((r, p, p + 9, c - 2))
        } else {
            None
        }
    }
}

/// One line from byte `i` on: what it is rewritten to, where the next line
/// starts, and the brace depth after it (`None` outside a rewritten
/// interface). `None`: the line closes more braces than are open.
pub open spec fn rewrite_line(s: Seq<u8>, i: int, depth: Option<nat>) -> Option<(Seq<u8>, int, Option<nat>)> {
    let e = find_in(s, i, s.len() as int, 10u8);
    let c = line_content_end(s, i);
    let line = s.subrange(i, c);
    let next = if e < s.len() {
        e + 1
    } else {
        s.len() as int
    };
    match depth {
        None => match interface_header(s, i, c) {
            Some((n0, n1, k0, k1)) => Some(
                (
                    pat_type() + s.subrange(n0, n1) + pat_equals() + s.subrange(k0, k1)
                        + pat_and_open(),
                    next,
                    Some(1nat),
                ),
            ),
            None => Some((line + seq![10u8], next, None)),
        },
        Some(d) => {
            let opened = d + count_byte(s, i, c, 123u8);
            let closed = count_byte(s, i, c, 125u8);
            if opened < closed {
                None
            } else if opened == closed {
                Some((line + seq![59u8, 10u8], next, None))
            } else {
                Some((line + seq![10u8], next, Some((opened - closed) as nat)))
            }
        },
    }
}

/// The rewritten declarations from byte `i` on; `None` when some line
/// closes more braces than are open.
pub open spec fn rewrite_from(s: Seq<u8>, i: int, depth: Option<nat>) -> Option<Seq<u8>>
    decreases s.len() - i,
{
    if i < 0 || i >= s.len() {
        Some(seq![])
    } else {
        proof {
            lemma_find_in_bounds(s, i, s.len() as int, 10u8);
        }
        match rewrite_line(s, i, depth) {
            None => None,
            Some((piece, next, d2)) => match rewrite_from(s, next, d2) {
                Some(rest) => Some(piece + rest),
                None => None,
            },
        }
    }
}

proof fn lemma_find_pattern_found(s: Seq<u8>, i: int, end: int, pat: Seq<u8>)
    requires
        0 <= i <= end,
        find_pattern(s, i, end, pat) + pat.len() <= end,
        find_pattern(s, i, end, pat) < end,
    ensures
        starts_with_at(s, find_pattern(s, i, end, pat), end, pat),
    decreases end - i,
{
    if i < end && i + pat.len() <= end && !starts_with_at(s, i, end, pat) {
        lemma_find_pattern_found(s, i + 1, end, pat);
    }
}

/// Bytes that are all ASCII are well-formed UTF-8.
proof fn lemma_ascii_valid(b: Seq<u8>)
    requires
        forall|i: int| 0 <= i < b.len() ==> b[i] < 128u8,
    ensures
        valid_utf8(b),
    decreases b.len(),
{
    if b.len() > 0 {
        let x = b[0];
        assert(x < 128u8);
        assert((x & 0x7Fu8) <= 0x7Fu8) by (bit_vector);
        assert(valid_first_scalar(b));
        let pop = pop_first_scalar(b);
        assert(pop =~= b.subrange(1, b.len() as int));
        assert forall|i: int| 0 <= i < pop.len() implies pop[i] < 128u8 by {
            assert(pop[i] == b[i + 1]);
        }
        lemma_ascii_valid(pop);
    }
}

proof fn lemma_sub_valid(s: Seq<u8>, a: int, b: int)
    requires
        valid_utf8(s),
        0 <= a <= b <= s.len(),
        ascii_cut(s, a),
        ascii_cut(s, b),
    ensures
        valid_utf8(s.subrange(a, b)),
{
    lemma_cut_is_boundary(s, a);
    lemma_cut_is_boundary(s, b);
    lemma_valid_between(s, a, b);
}

/// Each line's rewrite is well-formed UTF-8 when the source is.
proof fn lemma_line_valid(s: Seq<u8>, i: int, depth: Option<nat>)
    requires
        valid_utf8(s),
        0 <= i < s.len(),
        ascii_cut(s, i),
        rewrite_line(s, i, depth) is Some,
    ensures
        valid_utf8(rewrite_line(s, i, depth)->Some_0.0),
        ascii_cut(s, rewrite_line(s, i, depth)->Some_0.1),
        i < rewrite_line(s, i, depth)->Some_0.1 <= s.len(),
{
    let len = s.len() as int;
    lemma_find_in_bounds(s, i, len, 10u8);
    let e = find_in(s, i, len, 10u8);
    let c = line_content_end(s, i);
    assert(ascii_cut(s, c));
    lemma_sub_valid(s, i, c);
    let line = s.subrange(i, c);
    lemma_ascii_valid(seq![10u8]);
    lemma_ascii_valid(seq![59u8, 10u8]);
    valid_utf8_concat(line, seq![10u8]);
    valid_utf8_concat(line, seq![59u8, 10u8]);
    if depth is None {
        if let Some((n0, n1, k0, k1)) = interface_header(s, i, c) {
            let r = i + 17;
            assert(s.subrange(i, i + 17)[16] == s[i + 16]);
            lemma_find_pattern_bounds(s, r, c, pat_extends());
            lemma_find_pattern_found(s, r, c, pat_extends());
            let p = find_pattern(s, r, c, pat_extends());
            assert(s.subrange(p, p + 9)[0] == s[p]);
            assert(s.subrange(p, p + 9)[8] == s[p + 8]);
            assert(s.subrange(c - 2, c)[0] == s[c - 2]);
            lemma_sub_valid(s, n0, n1);
            lemma_sub_valid(s, k0, k1);
            lemma_ascii_valid(pat_type());
            lemma_ascii_valid(pat_equals());
            lemma_ascii_valid(pat_and_open());
            let a1 = pat_type() + s.subrange(n0, n1);
            valid_utf8_concat(pat_type(), s.subrange(n0, n1));
            valid_utf8_concat(a1, pat_equals());
            valid_utf8_concat(a1 + pat_equals(), s.subrange(k0, k1));
            valid_utf8_concat(a1 + pat_equals() + s.subrange(k0, k1), pat_and_open());
        }
    }
}

/// The rewrite of well-formed UTF-8 is well-formed UTF-8: every cut it
/// makes stands next to an ASCII byte.
proof fn lemma_rewrite_valid(s: Seq<u8>, i: int, depth: Option<nat>)
    requires
        valid_utf8(s),
        0 <= i <= s.len(),
        ascii_cut(s, i),
        rewrite_from(s, i, depth) is Some,
    ensures
        valid_utf8(rewrite_from(s, i, depth)->Some_0),
    decreases s.len() - i,
{
    if i < s.len() {
        lemma_find_in_bounds(s, i, s.len() as int, 10u8);
        lemma_line_valid(s, i, depth);
        let (piece, next, d2) = rewrite_line(s, i, depth)->Some_0;
        lemma_rewrite_valid(s, next, d2);
        valid_utf8_concat(piece, rewrite_from(s, next, d2)->Some_0);
    } else {
        lemma_ascii_valid(Seq::<u8>::empty());
    }
}

proof fn lemma_find_pattern_bounds(s: Seq<u8>, i: int, end: int, pat: Seq<u8>)
    requires
        0 <= i <= end,
    ensures
        i <= find_pattern(s, i, end, pat) <= end,
    decreases end - i,
{
    if i < end && i + pat.len() <= end && !starts_with_at(s, i, end, pat) {
        lemma_find_pattern_bounds(s, i + 1, end, pat);
    }
}

fn find_pattern_at(s: &[u8], i: usize, end: usize, pat: &[u8]) -> (r: usize)
    requires
        i <= end <= s@.len(),
    ensures
        r as int == find_pattern(s@, i as int, end as int, pat@),
{
    let mut k = i;
    loop
        invariant
            i <= k <= end <= s@.len(),
            find_pattern(s@, k as int, end as int, pat@) == find_pattern(s@, i as int, end as int, pat@),
        decreases end - k,
    {
        if k >= end || pat.len() > end - k {
            return end;
        }
        if bytes_at(s, k, end, pat) {
            return k;
        }
        k = k + 1;
    }
}

fn count_char(s: &[u8], a: usize, b: usize, x: u8) -> (r: usize)
    requires
        a <= b <= s@.len(),
    ensures
        r as int == count_byte(s@, a as int, b as int, x),
        r <= b - a,
{
    let mut n: usize = 0;
    let mut k = a;
    while k < b
        invariant
            a <= k <= b <= s@.len(),
            n as int == count_byte(s@, a as int, k as int, x),
            n <= k - a,
        decreases b - k,
    {
        if s[k] == x {
            n = n + 1;
        }
        k = k + 1;
    }
    n
}

fn parse_extends_interface_header(s: &[u8], a: usize, c: usize) -> (r: Option<(usize, usize, usize, usize)>)
    requires
        a <= c <= s@.len(),
    ensures
        match interface_header(s@, a as int, c as int) {
            Some(h) => r matches Some(t) && t.0 == h.0 && t.1 == h.1 && t.2 == h.2 && t.3 == h.3,
            None => r is None,
        },
        r matches Some(t) ==> a <= t.0 <= t.1 && t.1 <= t.2 <= t.3 <= c,
{
    let interface: &[u8] = &[101u8, 120u8, 112u8, 111u8, 114u8, 116u8, 32u8, 105u8, 110u8, 116u8, 101u8, 114u8, 102u8, 97u8, 99u8, 101u8, 32u8];
    let extends: &[u8] = &[32u8, 101u8, 120u8, 116u8, 101u8, 110u8, 100u8, 115u8, 32u8];
    let open_brace: &[u8] = &[32u8, 123u8];
    assert(interface@ =~= pat_interface());
    assert(extends@ =~= pat_extends());
    assert(open_brace@ =~= pat_open_brace());
    if !bytes_at(s, a, c, interface) {
        return None;
    }
    let r = a + 17;
    let p = find_pattern_at(s, r, c, extends);
    proof {
        lemma_find_pattern_bounds(s@, r as int, c as int, extends@);
    }
    if p > c || c - p < 9 {
        return None;
    }
    let k = p + 9;
    if c - k >= 2 && bytes_at(s, c - 2, c, open_brace) {
        Some((r, p, k, c - 2))
    } else {
        None
    }
}

fn push_range(out: &mut Vec<u8>, s: &[u8], a: usize, b: usize)
    requires
        a <= b <= s@.len(),
    ensures
        final(out)@ == old(out)@ + s@.subrange(a as int, b as int),
{
    let mut k = a;
    while k < b
        invariant
            a <= k <= b <= s@.len(),
            out@ == old(out)@ + s@.subrange(a as int, k as int),
        decreases b - k,
    {
        out.push(s[k]);
        assert(out@ =~= old(out)@ + s@.subrange(a as int, k + 1));
        k = k + 1;
    }
}

fn push_all(out: &mut Vec<u8>, pat: &[u8])
    ensures
        final(out)@ == old(out)@ + pat@,
{
    push_range(out, pat, 0, pat.len());
    assert(pat@.subrange(0, pat@.len() as int) =~= pat@);
}

pub open spec fn depth_state(depth: usize) -> Option<nat> {
    if depth == 0 {
        None
    } else {
        Some(depth as nat)
    }
}

/// Rewrites the line at byte `i`; returns where the next line starts and
/// the depth after the line.
fn rewrite_line_at(s: &[u8], i: usize, depth: usize, out: &mut Vec<u8>) -> (r: (usize, usize))
    requires
        i < s@.len(),
        depth <= i,
        rewrite_line(s@, i as int, depth_state(depth)) is Some,
    ensures
        ({
            let (piece, next, d2) = rewrite_line(s@, i as int, depth_state(depth))->Some_0;
            &&& r.0 as int == next
            &&& depth_state(r.1) == d2
            &&& final(out)@ == old(out)@ + piece
        }),
        i < r.0 <= s@.len(),
        r.1 <= r.0,
{
    let e = find_byte(s, i, s.len(), 10u8);
    let c = if e < s.len() && e > i && s[e - 1] == 13u8 {
        e - 1
    } else {
        e
    };
    let next = if e < s.len() {
        e + 1
    } else {
        s.len()
    };
    if depth == 0 {
        match parse_extends_interface_header(s, i, c) {
            Some((n0, n1, k0, k1)) => {
                let type_head: &[u8] = &[101u8, 120u8, 112u8, 111u8, 114u8, 116u8, 32u8, 116u8, 121u8, 112u8, 101u8, 32u8];
                let equals: &[u8] = &[32u8, 61u8, 32u8];
                let and_open: &[u8] = &[32u8, 38u8, 32u8, 123u8, 10u8];
                assert(type_head@ =~= pat_type());
                assert(equals@ =~= pat_equals());
                assert(and_open@ =~= pat_and_open());
                push_all(out, type_head);
                push_range(out, s, n0, n1);
                push_all(out, equals);
                push_range(out, s, k0, k1);
                push_all(out, and_open);
                (next, 1)
            },
            None => {
                let newline: &[u8] = &[10u8];
                assert(newline@ =~= seq![10u8]);
                push_range(out, s, i, c);
                push_all(out, newline);
                (next, 0)
            },
        }
    } else {
        let opened = depth + count_char(s, i, c, 123u8);
        let closed = count_char(s, i, c, 125u8);
        push_range(out, s, i, c);
        if opened == closed {
            let close: &[u8] = &[59u8, 10u8];
            assert(close@ =~= seq![59u8, 10u8]);
            push_all(out, close);
            (next, 0)
        } else {
            let newline: &[u8] = &[10u8];
            assert(newline@ =~= seq![10u8]);
            push_all(out, newline);
            (next, opened - closed)
        }
    }
}

/// Whether the line at byte `i` can be rewritten: outside an interface block
/// always, inside one when it closes no more braces than are open.
fn line_rewritable(s: &[u8], i: usize, depth: usize) -> (r: bool)
    requires
        i < s@.len(),
        depth <= i,
    ensures
        r == rewrite_line(s@, i as int, depth_state(depth)) is Some,
{
    if depth == 0 {
        return true;
    }
    proof {
        lemma_find_in_bounds(s@, i as int, s@.len() as int, 10u8);
    }
    let e = find_byte(s, i, s.len(), 10u8);
    let c = if e < s.len() && e > i && s[e - 1] == 13u8 {
        e - 1
    } else {
        e
    };
    let opened = depth + count_char(s, i, c, 123u8);
    let closed = count_char(s, i, c, 125u8);
    opened >= closed
}

/// The rewrite of generated declarations, or `None` when a line inside an
/// interface block closes more braces than are open.
pub fn try_replace_flattened_wrapper_type_aliases(generated_types: String) -> (r: Option<String>)
    ensures
        r is Some <==> rewrite_from(encode_utf8(generated_types@), 0, None) is Some,
        r is Some ==> r->0@ == decode_utf8(rewrite_from(encode_utf8(generated_types@), 0, None)->Some_0),
{
    let s = generated_types.as_str().as_bytes();
    let ghost whole = rewrite_from(s@, 0, None);
    let mut out: Vec<u8> = Vec::new();
    let mut i: usize = 0;
    let mut depth: usize = 0;
    proof {
        match rewrite_from(s@, 0, None) {
            Some(x) => {
                assert(out@ + x =~= x);
            },
            None => {},
        }
    }
    while i < s.len()
        invariant
            i <= s@.len(),
            depth <= i,
            whole == rewrite_from(s@, 0, None),
            s@ == encode_utf8(generated_types@),
            whole == (match rewrite_from(s@, i as int, depth_state(depth)) {
                Some(rest) => Some(out@ + rest),
                None => None::<Seq<u8>>,
            }),
        decreases s@.len() - i,
    {
        if !line_rewritable(s, i, depth) {
            assert(rewrite_from(s@, i as int, depth_state(depth)) is None);
            return None;
        }
        let ghost before = out@;
        let (next, d2) = rewrite_line_at(s, i, depth, &mut out);
        proof {
            let (piece, n, st) = rewrite_line(s@, i as int, depth_state(depth))->Some_0;
            match rewrite_from(s@, n, st) {
                Some(rest) => {
                    assert(before + (piece + rest) =~= out@ + rest);
                },
                None => {},
            }
        }
        i = next;
        depth = d2;
    }
    assert(out@ + Seq::<u8>::empty() =~= out@);
    proof {
        encode_utf8_valid_utf8(generated_types@);
        lemma_rewrite_valid(s@, 0, None);
    }
    Some(text_from_utf8(out.as_slice()))
}

/// Rewrites every `export interface NAME extends KIND {` block of generated
/// declarations as `export type NAME = KIND & {` ... `};`, keeping every
/// other line. A line that closes more braces than are open inside such a
/// block is left out by the precondition.
pub fn replace_flattened_wrapper_type_aliases(generated_types: String) -> (r: String)
    requires
        rewrite_from(encode_utf8(generated_types@), 0, None) is Some,
    ensures
        r@ == decode_utf8(rewrite_from(encode_utf8(generated_types@), 0, None)->Some_0),
{
    let s = generated_types.as_str().as_bytes();
    let ghost full = rewrite_from(s@, 0, None)->Some_0;
    let mut out: Vec<u8> = Vec::new();
    let mut i: usize = 0;
    let mut depth: usize = 0;
    assert(out@ + full =~= full);
    while i < s.len()
        invariant
            i <= s@.len(),
            depth <= i,
            rewrite_from(s@, i as int, depth_state(depth)) is Some,
            out@ + rewrite_from(s@, i as int, depth_state(depth))->Some_0 == full,
        decreases s@.len() - i,
    {
        let ghost before = out@;
        let (next, d2) = rewrite_line_at(s, i, depth, &mut out);
        proof {
            let (piece, n, st) = rewrite_line(s@, i as int, depth_state(depth))->Some_0;
            let rest = rewrite_from(s@, n, st)->Some_0;
            assert(before + (piece + rest) =~= out@ + rest);
        }
        i = next;
        depth = d2;
    }
    assert(out@ + Seq::<u8>::empty() =~= out@);
    proof {
        encode_utf8_valid_utf8(generated_types@);
        lemma_rewrite_valid(s@, 0, None);
    }
    text_from_utf8(out.as_slice())
}

} // verus!
