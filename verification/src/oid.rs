//! Parsing of dotted object identifiers such as `1.3.6.1.2.1.2.2.1.10.1`.
//!
//! The string is split at every `.` and each piece is read as a decimal `u32`
//! the way `str::parse::<u32>` reads it (an optional `+`, then one or more
//! ASCII digits, no overflow); a piece that does not read gives `0`.

use vstd::prelude::*;
use crate::decimal::{digit_char, spec_decimal};

verus! {

/// The pieces of `s` between the `.` separators, as `str::split('.')` yields
/// them: `k` dots give `k + 1` pieces, possibly empty.
pub open spec fn split_dots(s: Seq<char>) -> Seq<Seq<char>>
    decreases s.len(),
{
    if s.len() == 0 {
        seq![Seq::<char>::empty()]
    } else {
        let init = split_dots(s.drop_last());
        if s.last() == '.' {
            init.push(Seq::<char>::empty())
        } else {
            init.update(init.len() - 1, init.last().push(s.last()))
        }
    }
}

pub open spec fn is_ascii_digit(c: char) -> bool {
    48 <= (c as u32) && (c as u32) <= 57
}

pub open spec fn digit_value(c: char) -> nat {
    ((c as u32) - 48) as nat
}

pub open spec fn all_digits(ds: Seq<char>) -> bool {
    forall|i: int| 0 <= i < ds.len() ==> #[trigger] is_ascii_digit(ds[i])
}

/// The number that the decimal digits `ds` denote (most significant first).
pub open spec fn digits_value(ds: Seq<char>) -> nat
    decreases ds.len(),
{
    if ds.len() == 0 {
        0
    } else {
        digits_value(ds.drop_last()) * 10 + digit_value(ds.last())
    }
}

/// The digits of a piece once an optional leading `+` is removed.
pub open spec fn unsigned_body(seg: Seq<char>) -> Seq<char> {
    if seg.len() > 0 && seg[0] == '+' {
        seg.drop_first()
    } else {
        seg
    }
}

/// What `str::parse::<u32>` gives for the piece `seg`.
pub open spec fn parse_u32(seg: Seq<char>) -> Option<u32> {
    let body = unsigned_body(seg);
    if body.len() > 0 && all_digits(body) && digits_value(body) <= u32::MAX {
        Some(digits_value(body) as u32)
    } else {
        None
    }
}

/// One sub-identifier: the parsed piece, or `0` when it does not parse.
pub open spec fn oid_component(seg: Seq<char>) -> u32 {
    match parse_u32(seg) {
        Some(v) => v,
        None => 0,
    }
}

/// The sub-identifiers that a dotted OID string denotes.
pub open spec fn spec_oid_array(s: Seq<char>) -> Seq<u32> {
    split_dots(s).map_values(|seg: Seq<char>| oid_component(seg))
}

pub proof fn lemma_split_dots_nonempty(s: Seq<char>)
    ensures
        split_dots(s).len() >= 1,
    decreases s.len(),
{
    if s.len() > 0 {
        lemma_split_dots_nonempty(s.drop_last());
    }
}

proof fn lemma_body_push(cur: Seq<char>, c: char)
    requires
        cur.len() > 0 || c != '+',
    ensures
        unsigned_body(cur.push(c)) == unsigned_body(cur).push(c),
{
    if cur.len() > 0 && cur[0] == '+' {
        assert(cur.push(c).drop_first() =~= cur.drop_first().push(c));
    }
}

proof fn lemma_digits_value_push(ds: Seq<char>, c: char)
    ensures
        digits_value(ds.push(c)) == digits_value(ds) * 10 + digit_value(c),
{
    assert(ds.push(c).drop_last() =~= ds);
}

/// The state of the scan over the current piece: it summarises `cur`.
spec fn scan_summary(cur: Seq<char>, seg_len: usize, has_plus: bool, bad: bool, over: bool, value: u64) -> bool {
    let body = unsigned_body(cur);
    &&& seg_len == cur.len()
    &&& has_plus == (cur.len() > 0 && cur[0] == '+')
    &&& bad == !all_digits(body)
    &&& !bad ==> (over <==> digits_value(body) > u32::MAX)
    &&& (!bad && !over) ==> value == digits_value(body)
}

fn finish_piece(seg_len: usize, has_plus: bool, bad: bool, over: bool, value: u64, Ghost(cur): Ghost<Seq<char>>) -> (r: u32)
    requires
        scan_summary(cur, seg_len, has_plus, bad, over, value),
    ensures
        r == oid_component(cur),
{
    let body_len = if has_plus { seg_len - 1 } else { seg_len };
    assert(body_len == unsigned_body(cur).len());
    if !bad && !over && body_len > 0 {
        value as u32
    } else {
        0
    }
}

/// Splits a dotted OID string into its numeric sub-identifiers; a piece that
/// is not a decimal `u32` becomes `0`.
pub fn get_oid_array(oid: &str) -> (r: Vec<u32>)
    ensures
        r@ == spec_oid_array(oid@),
{
    let n = oid.unicode_len();
    let mut out: Vec<u32> = Vec::new();
    let mut seg_len: usize = 0;
    let mut has_plus = false;
    let mut bad = false;
    let mut over = false;
    let mut value: u64 = 0;
    let ghost mut cur: Seq<char> = Seq::empty();
    proof {
        assert(oid@.take(0) =~= Seq::<char>::empty());
        assert(all_digits(unsigned_body(cur)));
    }
    for i in 0..n
        invariant
            n == oid@.len(),
            split_dots(oid@.take(i as int)).len() >= 1,
            cur == split_dots(oid@.take(i as int)).last(),
            out@ =~= split_dots(oid@.take(i as int)).drop_last().map_values(
                |seg: Seq<char>| oid_component(seg),
            ),
            scan_summary(cur, seg_len, has_plus, bad, over, value),
            seg_len <= i,
    {
        let c = oid.get_char(i);
        let ghost prefix = oid@.take(i as int);
        let ghost next = oid@.take(i + 1);
        let ghost segs = split_dots(prefix);
        proof {
            assert(next.drop_last() =~= prefix);
            assert(next.last() == c);
        }
        if c == '.' {
            let piece = finish_piece(seg_len, has_plus, bad, over, value, Ghost(cur));
            out.push(piece);
            seg_len = 0;
            has_plus = false;
            bad = false;
            over = false;
            value = 0;
            proof {
                let nsegs = split_dots(next);
                assert(nsegs == segs.push(Seq::<char>::empty()));
                assert(nsegs.drop_last() =~= segs);
                assert(segs =~= segs.drop_last().push(cur));
                cur = Seq::empty();
                assert(all_digits(unsigned_body(cur)));
            }
        } else {
            let ghost old_body = unsigned_body(cur);
            if seg_len == 0 && c == '+' {
                has_plus = true;
                proof {
                    assert(unsigned_body(cur.push(c)) =~= Seq::<char>::empty());
                    assert(all_digits(unsigned_body(cur.push(c))));
                }
            } else {
                proof {
                    lemma_body_push(cur, c);
                    lemma_digits_value_push(old_body, c);
                }
                let code = c as u32;
                if 48 <= code && code <= 57 {
                    if !bad && !over {
                        value = value * 10 + ((code - 48) as u64);
                        if value > 4294967295 {
                            over = true;
                        }
                    }
                } else {
                    bad = true;
                    assert(!is_ascii_digit(old_body.push(c)[old_body.len() as int]));
                }
                proof {
                    let nb = old_body.push(c);
                    if !bad {
                        assert forall|j: int| 0 <= j < nb.len() implies #[trigger] is_ascii_digit(nb[j]) by {
                            if j < old_body.len() {
                                assert(nb[j] == old_body[j]);
                            }
                        }
                    }
                    if all_digits(nb) {
                        assert forall|j: int| 0 <= j < old_body.len() implies #[trigger] is_ascii_digit(old_body[j]) by {
                            assert(nb[j] == old_body[j]);
                        }
                    }
                }
            }
            seg_len = seg_len + 1;
            proof {
                let nsegs = split_dots(next);
                assert(nsegs == segs.update(segs.len() - 1, cur.push(c)));
                assert(nsegs.drop_last() =~= segs.drop_last());
                cur = cur.push(c);
            }
        }
        proof {
            lemma_split_dots_nonempty(next);
        }
    }
    proof {
        assert(oid@.take(n as int) =~= oid@);
    }
    let ghost segs = split_dots(oid@);
    let last = finish_piece(seg_len, has_plus, bad, over, value, Ghost(cur));
    out.push(last);
    proof {
        assert(segs =~= segs.drop_last().push(cur));
    }
    assert(out@ =~= spec_oid_array(oid@));
    out
}

/// Splitting `a`, a dot and `b` gives the pieces of `a` followed by those
/// of `b`.
pub proof fn lemma_split_dots_concat(a: Seq<char>, b: Seq<char>)
    ensures
        split_dots(a + seq!['.'] + b) == split_dots(a) + split_dots(b),
    decreases b.len(),
{
    let e = Seq::<char>::empty();
    let ad = a + seq!['.'];
    lemma_split_dots_nonempty(a);
    if b.len() == 0 {
        assert(ad + b =~= ad);
        assert(ad.drop_last() =~= a);
        assert(split_dots(ad) == split_dots(a).push(e));
        assert(split_dots(a).push(e) =~= split_dots(a) + seq![e]);
    } else {
        let b1 = b.drop_last();
        let c = b.last();
        lemma_split_dots_concat(a, b1);
        lemma_split_dots_nonempty(b1);
        assert((ad + b).drop_last() =~= ad + b1);
        assert((ad + b).last() == c);
        let x = split_dots(a);
        let y = split_dots(b1);
        if c == '.' {
            assert((x + y).push(e) =~= x + y.push(e));
        } else {
            assert((x + y).update((x + y).len() - 1, (x + y).last().push(c)) =~= x + y.update(
                y.len() - 1,
                y.last().push(c),
            ));
        }
    }
}

/// Parsing `a`, a dot and `b` gives the sub-identifiers of `a` followed by
/// those of `b`.
pub proof fn lemma_oid_array_concat(a: Seq<char>, b: Seq<char>)
    ensures
        spec_oid_array(a + seq!['.'] + b) == spec_oid_array(a) + spec_oid_array(b),
{
    lemma_split_dots_concat(a, b);
    let f = |seg: Seq<char>| oid_component(seg);
    let x = split_dots(a);
    let y = split_dots(b);
    assert((x + y).map_values(f) =~= x.map_values(f) + y.map_values(f));
}

/// The dotted string of the sub-identifiers `ns`, each written in decimal.
pub open spec fn spec_oid_string(ns: Seq<u32>) -> Seq<char>
    decreases ns.len(),
{
    if ns.len() == 0 {
        Seq::<char>::empty()
    } else if ns.len() == 1 {
        spec_decimal(ns[0] as nat)
    } else {
        spec_oid_string(ns.drop_last()) + seq!['.'] + spec_decimal(ns.last() as nat)
    }
}

proof fn lemma_digit_char(d: nat)
    requires
        d < 10,
    ensures
        is_ascii_digit(digit_char(d)),
        digit_value(digit_char(d)) == d,
        digit_char(d) != '.',
        digit_char(d) != '+',
{
}

/// The decimal rendering of `n` is a nonempty run of digits denoting `n`.
pub proof fn lemma_decimal_digits(n: nat)
    ensures
        spec_decimal(n).len() > 0,
        all_digits(spec_decimal(n)),
        digits_value(spec_decimal(n)) == n,
        !spec_decimal(n).contains('.'),
    decreases n,
{
    if n < 10 {
        lemma_digit_char(n);
        let d = spec_decimal(n);
        assert(d.drop_last() =~= Seq::<char>::empty());
        assert(digits_value(d) == digits_value(d.drop_last()) * 10 + digit_value(d.last()));
        assert(!d.contains('.')) by {
            if d.contains('.') {
                let k = choose|k: int| 0 <= k < d.len() && d[k] == '.';
                assert(d[k] == digit_char(n));
            }
        }
    } else {
        lemma_decimal_digits(n / 10);
        lemma_digit_char(n % 10);
        let p = spec_decimal(n / 10);
        let d = spec_decimal(n);
        assert(d == p.push(digit_char(n % 10)));
        assert(d.drop_last() =~= p);
        assert(digits_value(d) == digits_value(p) * 10 + digit_value(digit_char(n % 10)));
        assert(n == (n / 10) * 10 + n % 10) by (nonlinear_arith);
        assert forall|i: int| 0 <= i < d.len() implies #[trigger] is_ascii_digit(d[i]) by {
            if i < p.len() {
                assert(d[i] == p[i]);
                assert(is_ascii_digit(p[i]));
            }
        }
        assert(!d.contains('.')) by {
            if d.contains('.') {
                let k = choose|k: int| 0 <= k < d.len() && d[k] == '.';
                if k < p.len() {
                    assert(p[k] == '.');
                    assert(p.contains('.'));
                }
            }
        }
    }
}

/// Splitting `s + t` where `t` holds no `.` extends the last piece of `s` by `t`.
pub proof fn lemma_split_dots_append_plain(s: Seq<char>, t: Seq<char>)
    requires
        !t.contains('.'),
    ensures
        split_dots(s + t).len() == split_dots(s).len(),
        split_dots(s + t) == split_dots(s).update(
            split_dots(s).len() - 1,
            split_dots(s).last() + t,
        ),
    decreases t.len(),
{
    lemma_split_dots_nonempty(s);
    if t.len() == 0 {
        assert(s + t =~= s);
        assert(split_dots(s).last() + t =~= split_dots(s).last());
        assert(split_dots(s).update(split_dots(s).len() - 1, split_dots(s).last()) =~= split_dots(s));
    } else {
        let t1 = t.drop_last();
        let c = t.last();
        assert(!t1.contains('.')) by {
            if t1.contains('.') {
                let k = choose|k: int| 0 <= k < t1.len() && t1[k] == '.';
                assert(t[k] == '.');
            }
        }
        assert(c != '.') by {
            assert(t[t.len() - 1] == c);
        }
        lemma_split_dots_append_plain(s, t1);
        assert((s + t).drop_last() =~= s + t1);
        assert((s + t).last() == c);
        let a = split_dots(s);
        let b = split_dots(s + t1);
        assert(split_dots(s + t) == b.update(b.len() - 1, b.last().push(c)));
        assert((a.last() + t1).push(c) =~= a.last() + t);
        assert(split_dots(s + t) =~= a.update(a.len() - 1, a.last() + t));
    }
}

proof fn lemma_split_oid_string(ns: Seq<u32>)
    requires
        ns.len() >= 1,
    ensures
        split_dots(spec_oid_string(ns)) == ns.map_values(|n: u32| spec_decimal(n as nat)),
    decreases ns.len(),
{
    let e = Seq::<char>::empty();
    if ns.len() == 1 {
        let d = spec_decimal(ns[0] as nat);
        lemma_decimal_digits(ns[0] as nat);
        lemma_split_dots_append_plain(e, d);
        assert(e + d =~= d);
        assert(split_dots(e) == seq![e]);
        assert(e + d =~= d);
        assert(split_dots(d) =~= ns.map_values(|n: u32| spec_decimal(n as nat)));
    } else {
        let init = ns.drop_last();
        let j = spec_oid_string(init);
        let d = spec_decimal(ns.last() as nat);
        lemma_split_oid_string(init);
        lemma_decimal_digits(ns.last() as nat);
        let jd = j.push('.');
        assert(j + seq!['.'] =~= jd);
        assert(jd.drop_last() =~= j);
        assert(split_dots(jd) == split_dots(j).push(e));
        lemma_split_dots_append_plain(jd, d);
        assert(e + d =~= d);
        assert(spec_oid_string(ns) == jd + d);
        assert(split_dots(spec_oid_string(ns)) =~= split_dots(j).push(d));
        assert(ns.map_values(|n: u32| spec_decimal(n as nat)) =~= init.map_values(
            |n: u32| spec_decimal(n as nat),
        ).push(d));
    }
}

/// Writing sub-identifiers in dotted decimal and parsing the string back
/// gives the same sub-identifiers.
pub proof fn lemma_oid_string_roundtrip(ns: Seq<u32>)
    requires
        ns.len() >= 1,
    ensures
        spec_oid_array(spec_oid_string(ns)) == ns,
{
    lemma_split_oid_string(ns);
    let segs = split_dots(spec_oid_string(ns));
    assert forall|i: int| 0 <= i < ns.len() implies #[trigger] oid_component(segs[i]) == ns[i] by {
        lemma_decimal_digits(ns[i] as nat);
        let d = spec_decimal(ns[i] as nat);
        assert(segs[i] == d);
        assert(d[0] != '+') by {
            assert(is_ascii_digit(d[0]));
        }
        assert(unsigned_body(d) == d);
    }
    assert(spec_oid_array(spec_oid_string(ns)) =~= ns);
}

} // verus!
