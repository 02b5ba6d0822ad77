use vstd::prelude::*;

verus! {

/// A bencoded value: an integer, a byte string, a list or a dictionary.
/// Dictionary entries are kept in the order in which they appear.
pub enum Bencode {
    Int(i64),
    Bytes(Vec<u8>),
    List(Vec<Bencode>),
    Dict(Vec<(Vec<u8>, Bencode)>),
}

/// Decimal digits of a natural number, without leading zeros.
pub open spec fn dec_nat(n: nat) -> Seq<u8>
    decreases n,
{
    if n < 10 {
        seq![(48 + n) as u8]
    } else {
        dec_nat(n / 10) + seq![(48 + n % 10) as u8]
    }
}

/// Decimal text of an integer: a minus sign, then the digits of its magnitude.
pub open spec fn dec_int(n: int) -> Seq<u8> {
    if n < 0 {
        seq![45u8] + dec_nat((-n) as nat)
    } else {
        dec_nat(n as nat)
    }
}

/// The bencoding of a value.
pub open spec fn encode_spec(v: Bencode) -> Seq<u8>
    decreases v,
{
    match v {
        Bencode::Int(n) => seq![105u8] + dec_int(n as int) + seq![101u8],
        Bencode::Bytes(b) => dec_nat(b@.len()) + seq![58u8] + b@,
        Bencode::List(items) => seq![108u8] + encode_items(items@) + seq![101u8],
        Bencode::Dict(entries) => seq![100u8] + encode_entries(entries@) + seq![101u8],
    }
}

/// The bencodings of a sequence of values, one after the other.
pub open spec fn encode_items(s: Seq<Bencode>) -> Seq<u8>
    decreases s,
{
    if s.len() == 0 {
        Seq::empty()
    } else {
        encode_items(s.drop_last()) + encode_spec(s.last())
    }
}

/// Dictionary entries, each as its key's bencoding followed by its value's.
pub open spec fn encode_entries(s: Seq<(Vec<u8>, Bencode)>) -> Seq<u8>
    decreases s,
{
    if s.len() == 0 {
        Seq::empty()
    } else {
        encode_entries(s.drop_last()) + dec_nat(s.last().0@.len()) + seq![58u8] + s.last().0@
            + encode_spec(s.last().1)
    }
}


/// `a` comes strictly before `b` in byte-wise lexicographic order.
pub open spec fn lex_lt(a: Seq<u8>, b: Seq<u8>) -> bool {
    exists|i: int|
        0 <= i <= a.len() && i <= b.len() && a.subrange(0, i) == b.subrange(0, i) && ((i == a.len()
            && i < b.len()) || (i < a.len() && i < b.len() && a[i] < b[i]))
}

/// Canonical form: every dictionary, at any depth, has strictly ascending keys.
pub open spec fn canonical(v: Bencode) -> bool
    decreases v,
{
    match v {
        Bencode::Int(_) => true,
        Bencode::Bytes(_) => true,
        Bencode::List(items) => items_canonical(items@),
        Bencode::Dict(entries) => entries_canonical(entries@),
    }
}

pub open spec fn items_canonical(s: Seq<Bencode>) -> bool
    decreases s,
{
    s.len() == 0 || (items_canonical(s.drop_last()) && canonical(s.last()))
}

pub open spec fn entries_canonical(s: Seq<(Vec<u8>, Bencode)>) -> bool
    decreases s,
{
    s.len() == 0 || (entries_canonical(s.drop_last()) && canonical(s.last().1) && (s.len() > 1
        ==> lex_lt(s[s.len() - 2].0@, s.last().0@)))
}

/// Appends the decimal digits of `n`.
pub fn push_nat(n: u64, out: &mut Vec<u8>)
    ensures
        final(out)@ == old(out)@ + dec_nat(n as nat),
    decreases n,
{
    if n < 10 {
        out.push((48 + n) as u8);
    } else {
        push_nat(n / 10, out);
        out.push((48 + n % 10) as u8);
    }
}

/// Appends the decimal text of `n`.
pub fn push_int(n: i64, out: &mut Vec<u8>)
    ensures
        final(out)@ == old(out)@ + dec_int(n as int),
{
    if n < 0 {
        out.push(45u8);
        let m: u64 = if n == i64::MIN {
            9223372036854775808u64
        } else {
            (-n) as u64
        };
        push_nat(m, out);
        assert(final(out)@ =~= old(out)@ + dec_int(n as int));
    } else {
        push_nat(n as u64, out);
    }
}

fn push_bytes(b: &[u8], out: &mut Vec<u8>)
    ensures
        final(out)@ == old(out)@ + b@,
{
    let mut i: usize = 0;
    while i < b.len()
        invariant
            i <= b@.len(),
            out@ == old(out)@ + b@.subrange(0, i as int),
        decreases b@.len() - i,
    {
        out.push(b[i]);
        i = i + 1;
        assert(out@ =~= old(out)@ + b@.subrange(0, i as int));
    }
    assert(b@.subrange(0, i as int) =~= b@);
}

/// Appends the bencoding of `v`.
pub fn encode_into(v: &Bencode, out: &mut Vec<u8>)
    ensures
        final(out)@ == old(out)@ + encode_spec(*v),
    decreases v,
{
    match v {
        Bencode::Int(n) => {
            out.push(105u8);
            push_int(*n, out);
            out.push(101u8);
            assert(out@ =~= old(out)@ + encode_spec(*v));
        },
        Bencode::Bytes(b) => {
            push_nat(b.len() as u64, out);
            out.push(58u8);
            push_bytes(b.as_slice(), out);
            assert(out@ =~= old(out)@ + encode_spec(*v));
        },
        Bencode::List(items) => {
            out.push(108u8);
            let ghost start = out@;
            let mut i: usize = 0;
            while i < items.len()
                invariant
                    i <= items@.len(),
                    out@ == start + encode_items(items@.subrange(0, i as int)),
                    decreases_to!(*v => *items),
                decreases items@.len() - i,
            {
                proof {
                    assert(decreases_to!(*items => items@[i as int]));
                    assert(decreases_to!(*v => items@[i as int]));
                }
                encode_into(&items[i], out);
                assert(items@.subrange(0, i + 1).drop_last() =~= items@.subrange(0, i as int));
                i = i + 1;
                assert(out@ =~= start + encode_items(items@.subrange(0, i as int)));
            }
            assert(items@.subrange(0, i as int) =~= items@);
            out.push(101u8);
            assert(out@ =~= old(out)@ + encode_spec(*v));
        },
        Bencode::Dict(entries) => {
            out.push(100u8);
            let ghost start = out@;
            let mut i: usize = 0;
            while i < entries.len()
                invariant
                    i <= entries@.len(),
                    out@ == start + encode_entries(entries@.subrange(0, i as int)),
                    decreases_to!(*v => *entries),
                decreases entries@.len() - i,
            {
                push_nat(entries[i].0.len() as u64, out);
                out.push(58u8);
                push_bytes(entries[i].0.as_slice(), out);
                proof {
                    assert(decreases_to!(*entries => entries@[i as int]));
                    assert(decreases_to!(*v => entries@[i as int].1));
                }
                encode_into(&entries[i].1, out);
                assert(entries@.subrange(0, i + 1).drop_last() =~= entries@.subrange(0, i as int));
                i = i + 1;
                assert(out@ =~= start + encode_entries(entries@.subrange(0, i as int)));
            }
            assert(entries@.subrange(0, i as int) =~= entries@);
            out.push(101u8);
            assert(out@ =~= old(out)@ + encode_spec(*v));
        },
    }
}

/// The bencoding of `v`.
pub fn encode(v: &Bencode) -> (r: Vec<u8>)
    ensures
        r@ == encode_spec(*v),
{
    let mut out: Vec<u8> = Vec::new();
    encode_into(v, &mut out);
    assert(out@ =~= encode_spec(*v));
    out
}


/// Byte-wise lexicographic comparison.
pub fn bytes_lt(a: &[u8], b: &[u8]) -> (r: bool)
    ensures
        r == lex_lt(a@, b@),
{
    let mut i: usize = 0;
    while i < a.len() && i < b.len() && a[i] == b[i]
        invariant
            i <= a@.len(),
            i <= b@.len(),
            a@.subrange(0, i as int) == b@.subrange(0, i as int),
        decreases a@.len() - i,
    {
        assert(a@.subrange(0, i + 1) =~= a@.subrange(0, i as int).push(a@[i as int]));
        assert(b@.subrange(0, i + 1) =~= b@.subrange(0, i as int).push(b@[i as int]));
        i = i + 1;
    }
    let r = if i < a.len() && i < b.len() {
        a[i] < b[i]
    } else {
        i == a.len() && i < b.len()
    };
    if !r {
        assert forall|j: int|
            0 <= j <= a@.len() && j <= b@.len() && a@.subrange(0, j) == b@.subrange(0, j) implies
            !((j == a@.len() && j < b@.len()) || (j < a@.len() && j < b@.len() && a@[j] < b@[j])) by {
            if j > i {
                assert(a@.subrange(0, j)[i as int] == b@.subrange(0, j)[i as int]);
            } else if j < i {
                assert(a@.subrange(0, i as int)[j] == b@.subrange(0, i as int)[j]);
            }
        }
    }
    r
}

/// The value of a run of decimal digits.
pub open spec fn digits_val(s: Seq<u8>) -> int
    decreases s.len(),
{
    if s.len() == 0 {
        0
    } else {
        digits_val(s.drop_last()) * 10 + (s.last() - 48)
    }
}

pub open spec fn is_digit(c: u8) -> bool {
    48 <= c <= 57
}

/// The digits of `n` stand at `start` in `b`, and no digit follows them.
pub open spec fn nat_at(b: Seq<u8>, start: int, n: nat) -> bool {
    &&& 0 <= start
    &&& start + dec_nat(n).len() <= b.len()
    &&& b.subrange(start, start + dec_nat(n).len()) == dec_nat(n)
    &&& (start + dec_nat(n).len() == b.len() || !is_digit(b[start + dec_nat(n).len()]))
}

pub proof fn lemma_dec_nat(n: nat)
    ensures
        dec_nat(n).len() >= 1,
        forall|i: int| 0 <= i < dec_nat(n).len() ==> is_digit(#[trigger] dec_nat(n)[i]),
        digits_val(dec_nat(n)) == n,
    decreases n,
{
    if n < 10 {
        assert(dec_nat(n).drop_last() =~= Seq::<u8>::empty());
        assert(dec_nat(n).last() - 48 == n);
        assert(digits_val(dec_nat(n)) == digits_val(dec_nat(n).drop_last()) * 10 + (dec_nat(n).last() - 48));
        assert(digits_val(Seq::<u8>::empty()) == 0);
    } else {
        lemma_dec_nat(n / 10);
        let d = dec_nat(n / 10);
        assert(dec_nat(n).drop_last() =~= d);
        assert(dec_nat(n).last() - 48 == n % 10);
        assert((n / 10) * 10 + n % 10 == n);
        assert(digits_val(dec_nat(n)) == digits_val(dec_nat(n).drop_last()) * 10 + (dec_nat(n).last() - 48));
        assert forall|i: int| 0 <= i < dec_nat(n).len() implies is_digit(#[trigger] dec_nat(n)[i]) by {
            if i < d.len() {
                assert(dec_nat(n)[i] == d[i]);
            }
        }
    }
}

proof fn lemma_digits_prefix(s: Seq<u8>, j: int)
    requires
        0 <= j <= s.len(),
        forall|i: int| 0 <= i < s.len() ==> is_digit(#[trigger] s[i]),
    ensures
        0 <= digits_val(s.subrange(0, j)) <= digits_val(s),
    decreases s.len(),
{
    if j == s.len() {
        assert(s.subrange(0, j) =~= s);
        if s.len() > 0 {
            lemma_digits_prefix(s.drop_last(), 0);
        }
    } else {
        lemma_digits_prefix(s.drop_last(), j);
        assert(s.drop_last().subrange(0, j) =~= s.subrange(0, j));
        assert(s.drop_last().subrange(0, s.len() - 1) =~= s.drop_last());
        lemma_digits_prefix(s.drop_last(), s.len() - 1);
    }
}

/// Reads the decimal digits of a natural number starting at `start`; only the
/// canonical spelling (no leading zeros) of a value that fits in `u64` is read.
fn parse_nat(b: &[u8], start: usize, hint: Ghost<nat>) -> (r: Option<(u64, usize)>)
    ensures
        r matches Some((n, end)) ==> start < end <= b@.len() && b@.subrange(start as int, end as int)
            == dec_nat(n as nat),
        nat_at(b@, start as int, hint@) && hint@ <= u64::MAX ==> r == Some::<(u64, usize)>(
            (hint@ as u64, (start + dec_nat(hint@).len()) as usize),
        ),
{
    let ghost h = nat_at(b@, start as int, hint@) && hint@ <= u64::MAX;
    let ghost len = dec_nat(hint@).len() as int;
    proof {
        lemma_dec_nat(hint@);
    }
    if start >= b.len() {
        return None;
    }
    let mut i: usize = start;
    let mut val: u64 = 0;
    while i < b.len() && 48 <= b[i] && b[i] <= 57
        invariant
            start <= i <= b@.len(),
            h == (nat_at(b@, start as int, hint@) && hint@ <= u64::MAX),
            h ==> len == dec_nat(hint@).len(),
            h ==> forall|k: int| 0 <= k < len ==> is_digit(#[trigger] dec_nat(hint@)[k]),
            h ==> digits_val(dec_nat(hint@)) == hint@,
            h ==> i <= start + len && val == digits_val(b@.subrange(start as int, i as int)),
        decreases b@.len() - i,
    {
        proof {
            if h {
                let s = dec_nat(hint@);
                if i == start + len {
                    assert(false);
                }
                assert(s.subrange(0, i + 1 - start) =~= b@.subrange(start as int, i + 1));
                assert(s.subrange(0, i + 1 - start).drop_last() =~= b@.subrange(start as int, i as int));
                assert(s[i - start] == b@[i as int]);
                lemma_digits_prefix(s, i + 1 - start);
                assert(digits_val(b@.subrange(start as int, i + 1)) == val * 10 + (b@[i as int] - 48));
                assert(val * 10 + (b@[i as int] - 48) <= hint@);
            }
        }
        match val.checked_mul(10) {
            None => {
                return None;
            },
            Some(m) => match m.checked_add((b[i] - 48) as u64) {
                None => {
                    return None;
                },
                Some(x) => {
                    val = x;
                },
            },
        }
        i = i + 1;
    }
    proof {
        if h {
            if i < start + len {
                assert(b@[i as int] == dec_nat(hint@)[i - start]);
            }
            assert(b@.subrange(start as int, i as int) =~= dec_nat(hint@));
        }
    }
    if i == start {
        return None;
    }
    let mut enc: Vec<u8> = Vec::new();
    push_nat(val, &mut enc);
    assert(enc@ =~= dec_nat(val as nat));
    if enc.len() != i - start {
        return None;
    }
    let mut j: usize = 0;
    while j < enc.len()
        invariant
            h == (nat_at(b@, start as int, hint@) && hint@ <= u64::MAX),
            h ==> b@.subrange(start as int, i as int) == enc@,
            enc@.len() == i - start,
            i <= b@.len(),
            j <= enc@.len(),
            forall|k: int| 0 <= k < j ==> b@[start + k] == enc@[k],
        decreases enc@.len() - j,
    {
        proof {
            if h {
                assert(b@.subrange(start as int, i as int)[j as int] == b@[start + j]);
            }
        }
        if b[start + j] != enc[j] {
            return None;
        }
        j = j + 1;
    }
    assert(b@.subrange(start as int, i as int) =~= enc@);
    Some((val, i))
}

/// Reads a byte string `<length>:<bytes>` starting at `pos`.
/// The byte string `s`, bencoded, stands at `pos` in `b`.
pub open spec fn bytes_at(b: Seq<u8>, pos: int, s: Seq<u8>) -> bool {
    let e = dec_nat(s.len()) + seq![58u8] + s;
    0 <= pos && pos + e.len() <= b.len() && b.subrange(pos, pos + e.len()) == e
}

fn parse_bytes(b: &[u8], pos: usize, hint: Ghost<Seq<u8>>) -> (r: Option<(Vec<u8>, usize)>)
    ensures
        r matches Some((v, end)) ==> pos < end <= b@.len() && b@.subrange(pos as int, end as int)
            == dec_nat(v@.len()) + seq![58u8] + v@,
        bytes_at(b@, pos as int, hint@) ==> (r matches Some((v, end)) && v@ == hint@ && end == pos
            + dec_nat(hint@.len()).len() + 1 + hint@.len()),
{
    let blen = b.len();
    let ghost h = hint@;
    let ghost dl = dec_nat(h.len()).len() as int;
    proof {
        if bytes_at(b@, pos as int, h) {
            lemma_dec_nat(h.len());
            let e = dec_nat(h.len()) + seq![58u8] + h;
            assert(b@.subrange(pos as int, pos + dl) =~= e.subrange(0, dl));
            assert(e.subrange(0, dl) =~= dec_nat(h.len()));
            assert(b@[pos + dl] == e[dl]);
            assert(e[dl] == 58u8);
            assert(h.len() <= b@.len());
            assert(b@.len() <= usize::MAX);
            assert(usize::MAX <= u64::MAX);
            assert(h.len() <= u64::MAX);
            assert(nat_at(b@, pos as int, h.len()));
        }
    }
    match parse_nat(b, pos, Ghost(h.len())) {
        None => None,
        Some((n, p)) => {
            if p >= b.len() || b[p] != 58u8 || n > (b.len() - p - 1) as u64 {
                return None;
            }
            let end: usize = p + 1 + n as usize;
            let mut v: Vec<u8> = Vec::new();
            let mut i: usize = p + 1;
            while i < end
                invariant
                    p + 1 <= i <= end,
                    end <= b@.len(),
                    v@ == b@.subrange(p + 1, i as int),
                decreases end - i,
            {
                v.push(b[i]);
                i = i + 1;
                assert(v@ =~= b@.subrange(p + 1, i as int));
            }
            assert(b@.subrange(pos as int, end as int) =~= b@.subrange(pos as int, p as int)
                + seq![58u8] + v@);
            proof {
                if bytes_at(b@, pos as int, h) {
                    let e = dec_nat(h.len()) + seq![58u8] + h;
                    assert(v@ =~= e.subrange(dl + 1, e.len() as int));
                    assert(v@ =~= h);
                }
            }
            Some((v, end))
        },
    }
}

/// The integer `n`, bencoded, stands at `pos` in `b`.
pub open spec fn int_at(b: Seq<u8>, pos: int, n: i64) -> bool {
    let e = seq![105u8] + dec_int(n as int) + seq![101u8];
    0 <= pos && pos + e.len() <= b.len() && b.subrange(pos, pos + e.len()) == e
}

#[verifier::rlimit(60)]
fn parse_int(b: &[u8], pos: usize, hint: Ghost<i64>) -> (r: Option<(i64, usize)>)
    requires
        pos < b@.len(),
        b@[pos as int] == 105u8,
    ensures
        r matches Some((n, end)) ==> pos < end <= b@.len() && b@.subrange(pos as int, end as int)
            == seq![105u8] + dec_int(n as int) + seq![101u8],
        int_at(b@, pos as int, hint@) ==> (r matches Some((n, end)) && end == pos + 2 + dec_int(
            hint@ as int,
        ).len()),
{
    let ghost h = hint@;
    let ghost mag: nat = if h < 0 { (-h) as nat } else { h as nat };
    let ghost ok = int_at(b@, pos as int, h);
    proof {
        if ok {
            lemma_dec_nat(mag);
            let e = seq![105u8] + dec_int(h as int) + seq![101u8];
            assert(b@[pos + 1] == e[1]);
            let st: int = if h < 0 { pos + 2 } else { pos + 1 };
            let dl = dec_nat(mag).len() as int;
            if h < 0 {
                assert(e =~= seq![105u8, 45u8] + dec_nat(mag) + seq![101u8]);
                assert(e[1] == 45u8);
            } else {
                assert(e =~= seq![105u8] + dec_nat(mag) + seq![101u8]);
                assert(e[1] == dec_nat(mag)[0]);
                assert(is_digit(dec_nat(mag)[0]));
            }
            assert(e.subrange(st - pos, st - pos + dl) =~= dec_nat(mag));
            assert(b@.subrange(st, st + dl) =~= e.subrange(st - pos, st - pos + dl));
            assert(b@[st + dl] == e[st + dl - pos]);
            assert(e[st + dl - pos] == 101u8);
            assert(nat_at(b@, st, mag));
        }
    }
    let neg = b.len() - pos > 1 && b[pos + 1] == 45u8;
    let start: usize = if neg {
        pos + 2
    } else {
        pos + 1
    };
    match parse_nat(b, start, Ghost(mag)) {
        None => None,
        Some((m, p)) => {
            if p >= b.len() || b[p] != 101u8 {
                return None;
            }
            if neg {
                if m == 0 || m > 9223372036854775808u64 {
                    return None;
                }
                let n: i64 = if m == 9223372036854775808u64 {
                    i64::MIN
                } else {
                    -(m as i64)
                };
                assert(b@.subrange(pos as int, p + 1) =~= seq![105u8] + dec_int(n as int) + seq![
                    101u8,
                ]);
                Some((n, p + 1))
            } else {
                if m > 9223372036854775807u64 {
                    return None;
                }
                let n: i64 = m as i64;
                assert(b@.subrange(pos as int, p + 1) =~= seq![105u8] + dec_int(n as int) + seq![
                    101u8,
                ]);
                Some((n, p + 1))
            }
        },
    }
}

proof fn lemma_items_append(a: Seq<Bencode>, b: Seq<Bencode>)
    ensures
        encode_items(a + b) == encode_items(a) + encode_items(b),
    decreases b.len(),
{
    if b.len() == 0 {
        assert(a + b =~= a);
        assert(encode_items(a) + encode_items(b) =~= encode_items(a));
    } else {
        lemma_items_append(a, b.drop_last());
        assert((a + b).drop_last() =~= a + b.drop_last());
        assert(encode_items(a + b) =~= encode_items(a) + encode_items(b));
    }
}

proof fn lemma_entries_append(a: Seq<(Vec<u8>, Bencode)>, b: Seq<(Vec<u8>, Bencode)>)
    ensures
        encode_entries(a + b) == encode_entries(a) + encode_entries(b),
    decreases b.len(),
{
    if b.len() == 0 {
        assert(a + b =~= a);
        assert(encode_entries(a) + encode_entries(b) =~= encode_entries(a));
    } else {
        lemma_entries_append(a, b.drop_last());
        assert((a + b).drop_last() =~= a + b.drop_last());
        assert(encode_entries(a + b) =~= encode_entries(a) + encode_entries(b));
    }
}

/// The encoding of a sequence splits around its `k`-th item.
proof fn lemma_items_split(s: Seq<Bencode>, k: int)
    requires
        0 <= k < s.len(),
    ensures
        encode_items(s) == encode_items(s.subrange(0, k)) + encode_spec(s[k]) + encode_items(
            s.subrange(k + 1, s.len() as int),
        ),
        encode_items(s.subrange(0, k + 1)) == encode_items(s.subrange(0, k)) + encode_spec(s[k]),
{
    let one = seq![s[k]];
    assert(one.drop_last() =~= Seq::<Bencode>::empty());
    assert(encode_items(Seq::<Bencode>::empty()) =~= Seq::<u8>::empty());
    assert(one.last() == s[k]);
    assert(encode_items(one) =~= encode_spec(s[k]));
    lemma_items_append(s.subrange(0, k), one);
    lemma_items_append(s.subrange(0, k) + one, s.subrange(k + 1, s.len() as int));
    assert(s.subrange(0, k) + one + s.subrange(k + 1, s.len() as int) =~= s);
    assert(s.subrange(0, k) + one =~= s.subrange(0, k + 1));
}

pub open spec fn entry_image(e: (Vec<u8>, Bencode)) -> Seq<u8> {
    dec_nat(e.0@.len()) + seq![58u8] + e.0@ + encode_spec(e.1)
}

proof fn lemma_entries_split(s: Seq<(Vec<u8>, Bencode)>, k: int)
    requires
        0 <= k < s.len(),
    ensures
        encode_entries(s) == encode_entries(s.subrange(0, k)) + entry_image(s[k]) + encode_entries(
            s.subrange(k + 1, s.len() as int),
        ),
        encode_entries(s.subrange(0, k + 1)) == encode_entries(s.subrange(0, k)) + entry_image(s[k]),
{
    let one = seq![s[k]];
    assert(one.drop_last() =~= Seq::<(Vec<u8>, Bencode)>::empty());
    assert(encode_entries(Seq::<(Vec<u8>, Bencode)>::empty()) =~= Seq::<u8>::empty());
    assert(one.last() == s[k]);
    assert(encode_entries(one) =~= entry_image(s[k]));
    lemma_entries_append(s.subrange(0, k), one);
    lemma_entries_append(s.subrange(0, k) + one, s.subrange(k + 1, s.len() as int));
    assert(s.subrange(0, k) + one + s.subrange(k + 1, s.len() as int) =~= s);
    assert(s.subrange(0, k) + one =~= s.subrange(0, k + 1));
}

proof fn lemma_items_canonical(s: Seq<Bencode>, i: int)
    requires
        items_canonical(s),
        0 <= i < s.len(),
    ensures
        canonical(s[i]),
    decreases s.len(),
{
    if i < s.len() - 1 {
        lemma_items_canonical(s.drop_last(), i);
    }
}

proof fn lemma_entries_canonical(s: Seq<(Vec<u8>, Bencode)>, i: int)
    requires
        entries_canonical(s),
        0 <= i < s.len(),
    ensures
        canonical(s[i].1),
        i > 0 ==> lex_lt(s[i - 1].0@, s[i].0@),
    decreases s.len(),
{
    if i < s.len() - 1 {
        lemma_entries_canonical(s.drop_last(), i);
    }
}

/// The first byte of an encoding tells its kind.
proof fn lemma_first_byte(v: Bencode)
    ensures
        encode_spec(v).len() >= 1,
        v is Int <==> encode_spec(v)[0] == 105u8,
        v is Bytes <==> is_digit(encode_spec(v)[0]),
        v is List <==> encode_spec(v)[0] == 108u8,
        v is Dict <==> encode_spec(v)[0] == 100u8,
{
    if let Bencode::Bytes(x) = v {
        lemma_dec_nat(x@.len());
        assert(encode_spec(v)[0] == dec_nat(x@.len())[0]);
    }
}

/// The value `v`, canonical and bencoded, stands at `pos` in `b`.
pub open spec fn value_at(b: Seq<u8>, pos: int, v: Bencode) -> bool {
    0 <= pos && pos + encode_spec(v).len() <= b.len() && b.subrange(pos, pos + encode_spec(v).len())
        == encode_spec(v) && canonical(v)
}

/// Reads one value starting at `pos`, returning it with the position just after
/// it; where a canonical value `hint` is encoded there, that value is read whole.
#[verifier::rlimit(80)]
fn parse_value(b: &[u8], pos: usize, hint: Ghost<Bencode>) -> (r: Option<(Bencode, usize)>)
    ensures
        r matches Some((v, end)) ==> pos < end <= b@.len() && b@.subrange(pos as int, end as int)
            == encode_spec(v) && canonical(v),
        value_at(b@, pos as int, hint@) ==> (r matches Some((v, end)) && end == pos
            + encode_spec(hint@).len()),
    decreases b@.len() - pos,
{
    let ghost h = hint@;
    let ghost ok = value_at(b@, pos as int, h);
    let ghost hl = encode_spec(h).len() as int;
    proof {
        lemma_first_byte(h);
        if ok {
            assert(b@[pos as int] == b@.subrange(pos as int, pos + hl)[0]);
        }
    }
    if pos >= b.len() {
        return None;
    }
    let c = b[pos];
    if c == 105u8 {
        let ghost n: i64 = match h {
            Bencode::Int(n) => n,
            _ => 0,
        };
        match parse_int(b, pos, Ghost(n)) {
            None => None,
            Some((n, end)) => Some((Bencode::Int(n), end)),
        }
    } else if 48 <= c && c <= 57 {
        let ghost x: Seq<u8> = match h {
            Bencode::Bytes(x) => x@,
            _ => Seq::empty(),
        };
        match parse_bytes(b, pos, Ghost(x)) {
            None => None,
            Some((v, end)) => Some((Bencode::Bytes(v), end)),
        }
    } else if c == 108u8 {
        let ghost ws: Seq<Bencode> = match h {
            Bencode::List(w) => w@,
            _ => Seq::empty(),
        };
        let ghost on = ok && h is List;
        proof {
            if on {
                assert(encode_spec(h) == seq![108u8] + encode_items(ws) + seq![101u8]);
            }
        }
        let mut items: Vec<Bencode> = Vec::new();
        let mut p: usize = pos + 1;
        loop
            invariant
                pos < p <= b@.len(),
                b@.subrange(pos + 1, p as int) == encode_items(items@),
                items_canonical(items@),
                b@[pos as int] == 108u8,
                on == (value_at(b@, pos as int, h) && h is List),
                value_at(b@, pos as int, h) ==> on,
                h == hint@,
                on ==> encode_spec(h) == seq![108u8] + encode_items(ws) + seq![101u8],
                on ==> items_canonical(ws),
                on ==> hl == encode_spec(h).len(),
                on ==> items@.len() <= ws.len() && p == pos + 1 + encode_items(
                    ws.subrange(0, items@.len() as int),
                ).len(),
            decreases b@.len() - p,
        {
            let ghost k = items@.len() as int;
            let ghost img = b@.subrange(pos as int, pos + hl);
            assert(on ==> (p < b@.len() && (b@[p as int] == 101u8 <==> k == ws.len()) && (k
                == ws.len() ==> p + 1 == pos + hl) && (k < ws.len() ==> value_at(b@, p as int, ws[k])
                && p + encode_spec(ws[k]).len() == pos + 1 + encode_items(ws.subrange(0, k + 1)).len())))
                by {
                if on {
                    if k < ws.len() {
                        lemma_items_split(ws, k);
                        lemma_first_byte(ws[k]);
                        lemma_items_canonical(ws, k);
                        let pre = encode_items(ws.subrange(0, k));
                        let pl = pre.len() as int;
                        let e = encode_spec(ws[k]);
                        assert(img.subrange(1 + pl, 1 + pl + e.len()) =~= e);
                        assert(b@.subrange(p as int, p + e.len()) =~= img.subrange(1 + pl, 1 + pl + e.len()));
                        assert(b@[p as int] == e[0]);
                        assert(e[0] != 101u8);
                    } else {
                        assert(ws.subrange(0, k) =~= ws);
                        assert(b@[p as int] == img[hl - 1]);
                    }
                }
            }
            if p >= b.len() {
                return None;
            }
            if b[p] == 101u8 {
                assert(b@.subrange(pos as int, p + 1) =~= seq![108u8] + encode_items(items@) + seq![
                    101u8,
                ]);
                let v = Bencode::List(items);
                return Some((v, p + 1));
            }
            let ghost next: Bencode = if k < ws.len() { ws[k] } else { h };
            match parse_value(b, p, Ghost(next)) {
                None => {
                    return None;
                },
                Some((v, e)) => {
                    let ghost old_items = items@;
                    items.push(v);
                    assert(items@.drop_last() =~= old_items);
                    assert(b@.subrange(pos + 1, e as int) =~= b@.subrange(pos + 1, p as int)
                        + b@.subrange(p as int, e as int));
                    p = e;
                },
            }
        }
    } else if c == 100u8 {
        let ghost es: Seq<(Vec<u8>, Bencode)> = match h {
            Bencode::Dict(w) => w@,
            _ => Seq::empty(),
        };
        let ghost on = ok && h is Dict;
        proof {
            if on {
                assert(encode_spec(h) == seq![100u8] + encode_entries(es) + seq![101u8]);
            }
        }
        let mut entries: Vec<(Vec<u8>, Bencode)> = Vec::new();
        let mut p: usize = pos + 1;
        loop
            invariant
                pos < p <= b@.len(),
                b@.subrange(pos + 1, p as int) == encode_entries(entries@),
                entries_canonical(entries@),
                b@[pos as int] == 100u8,
                on == (value_at(b@, pos as int, h) && h is Dict),
                value_at(b@, pos as int, h) ==> on,
                h == hint@,
                on ==> encode_spec(h) == seq![100u8] + encode_entries(es) + seq![101u8],
                on ==> entries_canonical(es),
                on ==> hl == encode_spec(h).len(),
                on ==> entries@.len() <= es.len() && p == pos + 1 + encode_entries(
                    es.subrange(0, entries@.len() as int),
                ).len(),
                on ==> forall|j: int| 0 <= j < entries@.len() ==> (#[trigger] entries@[j]).0@ == es[j].0@,
            decreases b@.len() - p,
        {
            let ghost k = entries@.len() as int;
            let ghost img = b@.subrange(pos as int, pos + hl);
            let ghost kbl: int = if k < es.len() { (dec_nat(es[k].0@.len()).len() + 1 + es[k].0@.len()) as int } else { 0 };
            assert(on ==> (p < b@.len() && (b@[p as int] == 101u8 <==> k == es.len()) && (k
                == es.len() ==> p + 1 == pos + hl) && (k < es.len() ==> bytes_at(b@, p as int, es[k].0@)
                && value_at(b@, p + kbl, es[k].1) && p + kbl + encode_spec(es[k].1).len() == pos + 1
                + encode_entries(es.subrange(0, k + 1)).len() && (k > 0 ==> lex_lt(es[k - 1].0@, es[k].0@)))))
                by {
                if on {
                    if k < es.len() {
                        lemma_entries_split(es, k);
                        lemma_entries_canonical(es, k);
                        lemma_dec_nat(es[k].0@.len());
                        let pre = encode_entries(es.subrange(0, k));
                        let pl = pre.len() as int;
                        let e = entry_image(es[k]);
                        assert(img.subrange(1 + pl, 1 + pl + e.len()) =~= e);
                        assert(b@.subrange(p as int, p + e.len()) =~= e);
                        assert(b@[p as int] == e[0]);
                        assert(e[0] == dec_nat(es[k].0@.len())[0]);
                        let kb = dec_nat(es[k].0@.len()) + seq![58u8] + es[k].0@;
                        assert(b@.subrange(p as int, p + kb.len()) =~= kb);
                        let vb = encode_spec(es[k].1);
                        assert(e =~= kb + vb);
                        assert(e.subrange(kb.len() as int, (kb.len() + vb.len()) as int) =~= vb);
                        assert(b@.subrange(p + kb.len(), p + kb.len() + vb.len()) =~= vb);
                    } else {
                        assert(es.subrange(0, k) =~= es);
                        assert(b@[p as int] == img[hl - 1]);
                    }
                }
            }
            if p >= b.len() {
                return None;
            }
            if b[p] == 101u8 {
                assert(b@.subrange(pos as int, p + 1) =~= seq![100u8] + encode_entries(entries@)
                    + seq![101u8]);
                let v = Bencode::Dict(entries);
                return Some((v, p + 1));
            }
            let ghost kh: Seq<u8> = if k < es.len() { es[k].0@ } else { Seq::empty() };
            match parse_bytes(b, p, Ghost(kh)) {
                None => {
                    return None;
                },
                Some((key, kp)) => {
                    proof {
                        if on && k > 0 {
                            assert(entries@[k - 1].0@ == es[k - 1].0@);
                        }
                    }
                    if entries.len() > 0 && !bytes_lt(
                        entries[entries.len() - 1].0.as_slice(),
                        key.as_slice(),
                    ) {
                        return None;
                    }
                    let ghost vh: Bencode = if k < es.len() { es[k].1 } else { h };
                    match parse_value(b, kp, Ghost(vh)) {
                        None => {
                            return None;
                        },
                        Some((v, e)) => {
                            let ghost old_entries = entries@;
                            entries.push((key, v));
                            assert(entries@.drop_last() =~= old_entries);
                            assert(b@.subrange(pos + 1, e as int) =~= b@.subrange(pos + 1, p as int)
                                + b@.subrange(p as int, kp as int) + b@.subrange(kp as int, e as int));
                            p = e;
                        },
                    }
                },
            }
        }
    } else {
        None
    }
}

/// Decodes a complete bencoded value. Exactly the canonical encodings are
/// accepted: re-encoding what is returned gives the input back.
pub fn decode(b: &[u8]) -> (r: Option<Bencode>)
    ensures
        r matches Some(v) ==> encode_spec(v) == b@ && canonical(v),
        (exists|v: Bencode| encode_spec(v) == b@ && canonical(v)) ==> r is Some,
{
    let ghost h: Bencode = if exists|v: Bencode| encode_spec(v) == b@ && canonical(v) {
        choose|v: Bencode| encode_spec(v) == b@ && canonical(v)
    } else {
        Bencode::Int(0)
    };
    proof {
        if exists|v: Bencode| encode_spec(v) == b@ && canonical(v) {
            assert(b@.subrange(0, b@.len() as int) =~= b@);
            assert(value_at(b@, 0, h));
        }
    }
    match parse_value(b, 0, Ghost(h)) {
        None => None,
        Some((v, end)) => {
            if end != b.len() {
                return None;
            }
            assert(b@.subrange(0, end as int) =~= b@);
            Some(v)
        },
    }
}

} // verus!
