use vstd::prelude::*;

verus! {

pub open spec fn is_ws(b: u8) -> bool {
    b == 0x20 || b == 0x09 || b == 0x0A || b == 0x0D
}

pub open spec fn is_digit(b: u8) -> bool {
    0x30 <= b <= 0x39
}

/// The position of the first byte at or after `i` that is not white space.
pub open spec fn skip_ws_spec(buf: Seq<u8>, i: int) -> int
    decreases buf.len() - i,
{
    if 0 <= i < buf.len() && is_ws(buf[i]) {
        skip_ws_spec(buf, i + 1)
    } else {
        i
    }
}

proof fn lemma_skip_ws_bounds(buf: Seq<u8>, i: int)
    requires
        0 <= i <= buf.len(),
    ensures
        i <= skip_ws_spec(buf, i) <= buf.len(),
    decreases buf.len() - i,
{
    if 0 <= i < buf.len() && is_ws(buf[i]) {
        lemma_skip_ws_bounds(buf, i + 1);
    }
}

pub fn skip_ws(buf: &[u8], i: usize) -> (r: usize)
    requires
        i <= buf@.len(),
    ensures
        r == skip_ws_spec(buf@, i as int),
        i <= r <= buf@.len(),
{
    let mut j = i;
    proof {
        lemma_skip_ws_bounds(buf@, i as int);
    }
    while j < buf.len() && (buf[j] == 0x20 || buf[j] == 0x09 || buf[j] == 0x0A || buf[j] == 0x0D)
        invariant
            i <= j <= buf@.len(),
            skip_ws_spec(buf@, j as int) == skip_ws_spec(buf@, i as int),
        decreases buf@.len() - j,
    {
        j = j + 1;
    }
    j
}

/// The lower-case hexadecimal digit of `d < 16`.
pub open spec fn hex_digit(d: u8) -> u8 {
    if d < 10 { (0x30 + d) as u8 } else { (0x61 + d - 10) as u8 }
}

/// The value of a hexadecimal digit, if `b` is one.
pub open spec fn hex_value(b: u8) -> Option<u8> {
    if 0x30 <= b <= 0x39 {
        Some((b - 0x30) as u8)
    } else if 0x61 <= b <= 0x66 {
        Some((b - 0x61 + 10) as u8)
    } else if 0x41 <= b <= 0x46 {
        Some((b - 0x41 + 10) as u8)
    } else {
        None
    }
}

/// How one byte of a string is written between quotes: the quote, the
/// backslash and control bytes are escaped, every other byte stands as is.
pub open spec fn escape_byte(b: u8) -> Seq<u8> {
    if b == 0x22 {
        seq![0x5Cu8, 0x22u8]
    } else if b == 0x5C {
        seq![0x5Cu8, 0x5Cu8]
    } else if b < 0x20 {
        seq![0x5Cu8, 0x75u8, 0x30u8, 0x30u8, hex_digit(b / 16), hex_digit(b % 16)]
    } else {
        seq![b]
    }
}

pub open spec fn escape_bytes(s: Seq<u8>) -> Seq<u8>
    decreases s.len(),
{
    if s.len() == 0 {
        Seq::empty()
    } else {
        escape_byte(s[0]) + escape_bytes(s.drop_first())
    }
}

/// A JSON string literal holding the bytes `s`.
pub open spec fn quoted(s: Seq<u8>) -> Seq<u8> {
    seq![0x22u8] + escape_bytes(s) + seq![0x22u8]
}

/// The byte that a one-character escape `\e` stands for.
pub open spec fn simple_escape(e: u8) -> Option<u8> {
    if e == 0x22 {
        Some(0x22u8)
    } else if e == 0x5C {
        Some(0x5Cu8)
    } else if e == 0x2F {
        Some(0x2Fu8)
    } else if e == 0x62 {
        Some(0x08u8)
    } else if e == 0x66 {
        Some(0x0Cu8)
    } else if e == 0x6E {
        Some(0x0Au8)
    } else if e == 0x72 {
        Some(0x0Du8)
    } else if e == 0x74 {
        Some(0x09u8)
    } else {
        None
    }
}

/// The value of the escape `\uXXXX` at `i`, for code points below 0x80.
pub open spec fn unicode_escape(buf: Seq<u8>, i: int) -> Option<u8> {
    if 0 <= i && i + 6 <= buf.len() && buf[i] == 0x5C && buf[i + 1] == 0x75 && buf[i + 2] == 0x30 && buf[i + 3] == 0x30
        && hex_value(buf[i + 4]) is Some && hex_value(buf[i + 5]) is Some && hex_value(buf[i + 4])->Some_0 < 8 {
        Some((hex_value(buf[i + 4])->Some_0 * 16 + hex_value(buf[i + 5])->Some_0) as u8)
    } else {
        None
    }
}

/// Reads the rest of a string literal from `i`, the bytes read so far being
/// `acc`: the bytes and the position after the closing quote.
pub open spec fn str_body(buf: Seq<u8>, i: int, acc: Seq<u8>) -> Option<(Seq<u8>, int)>
    decreases buf.len() - i,
{
    if i < 0 || i >= buf.len() {
        None
    } else if buf[i] == 0x22 {
        Some((acc, i + 1))
    } else if buf[i] == 0x5C {
        if i + 1 >= buf.len() {
            None
        } else if simple_escape(buf[i + 1]) is Some {
            str_body(buf, i + 2, acc.push(simple_escape(buf[i + 1])->Some_0))
        } else if unicode_escape(buf, i) is Some {
            str_body(buf, i + 6, acc.push(unicode_escape(buf, i)->Some_0))
        } else {
            None
        }
    } else if buf[i] < 0x20 {
        None
    } else {
        str_body(buf, i + 1, acc.push(buf[i]))
    }
}

/// Reads a string literal at `i`.
pub open spec fn parse_str_spec(buf: Seq<u8>, i: int) -> Option<(Seq<u8>, int)> {
    if 0 <= i < buf.len() && buf[i] == 0x22 {
        str_body(buf, i + 1, Seq::empty())
    } else {
        None
    }
}

pub proof fn lemma_parse_str_end(buf: Seq<u8>, i: int)
    ensures
        parse_str_spec(buf, i) matches Some((_, e)) ==> i < e <= buf.len(),
{
    lemma_str_body_end(buf, i + 1, Seq::empty());
}

pub proof fn lemma_parse_uint_end(buf: Seq<u8>, i: int)
    ensures
        parse_uint_spec(buf, i) matches Some((_, e)) ==> i < e <= buf.len(),
{
    if 0 <= i <= buf.len() {
        lemma_digit_run_end_bounds(buf, i);
    }
}

proof fn lemma_str_body_end(buf: Seq<u8>, i: int, acc: Seq<u8>)
    ensures
        str_body(buf, i, acc) matches Some((_, e)) ==> i < e <= buf.len(),
    decreases buf.len() - i,
{
    if 0 <= i < buf.len() && buf[i] != 0x22 {
        if buf[i] == 0x5C {
            if i + 1 < buf.len() {
                if simple_escape(buf[i + 1]) is Some {
                    lemma_str_body_end(buf, i + 2, acc.push(simple_escape(buf[i + 1])->Some_0));
                } else if unicode_escape(buf, i) is Some {
                    lemma_str_body_end(buf, i + 6, acc.push(unicode_escape(buf, i)->Some_0));
                }
            }
        } else if buf[i] >= 0x20 {
            lemma_str_body_end(buf, i + 1, acc.push(buf[i]));
        }
    }
}

fn hex_value_exec(b: u8) -> (r: Option<u8>)
    ensures
        r == hex_value(b),
{
    if 0x30 <= b && b <= 0x39 {
        Some(b - 0x30)
    } else if 0x61 <= b && b <= 0x66 {
        Some(b - 0x61 + 10)
    } else if 0x41 <= b && b <= 0x46 {
        Some(b - 0x41 + 10)
    } else {
        None
    }
}

fn simple_escape_exec(e: u8) -> (r: Option<u8>)
    ensures
        r == simple_escape(e),
{
    if e == 0x22 {
        Some(0x22)
    } else if e == 0x5C {
        Some(0x5C)
    } else if e == 0x2F {
        Some(0x2F)
    } else if e == 0x62 {
        Some(0x08)
    } else if e == 0x66 {
        Some(0x0C)
    } else if e == 0x6E {
        Some(0x0A)
    } else if e == 0x72 {
        Some(0x0D)
    } else if e == 0x74 {
        Some(0x09)
    } else {
        None
    }
}

fn unicode_escape_exec(buf: &[u8], i: usize) -> (r: Option<u8>)
    ensures
        r == unicode_escape(buf@, i as int),
{
    if i <= buf.len() && buf.len() - i >= 6 && buf[i] == 0x5C && buf[i + 1] == 0x75 && buf[i + 2] == 0x30 && buf[i + 3] == 0x30 {
        match (hex_value_exec(buf[i + 4]), hex_value_exec(buf[i + 5])) {
            (Some(h), Some(l)) => {
                if h < 8 {
                    Some(h * 16 + l)
                } else {
                    None
                }
            },
            _ => None,
        }
    } else {
        None
    }
}

/// Reads a JSON string literal at `i`: its bytes and the position after it.
pub fn parse_str(buf: &[u8], i: usize) -> (r: Option<(Vec<u8>, usize)>)
    ensures
        match parse_str_spec(buf@, i as int) {
            Some((s, e)) => r matches Some((v, f)) && v@ == s && f == e,
            None => r is None,
        },
{
    if i >= buf.len() || buf[i] != 0x22 {
        return None;
    }
    let mut acc: Vec<u8> = Vec::new();
    let mut j = i + 1;
    while j < buf.len()
        invariant
            i < j <= buf@.len(),
            str_body(buf@, j as int, acc@) == parse_str_spec(buf@, i as int),
        decreases buf@.len() - j,
    {
        let b = buf[j];
        if b == 0x22 {
            return Some((acc, j + 1));
        } else if b == 0x5C {
            if j + 1 >= buf.len() {
                return None;
            }
            match simple_escape_exec(buf[j + 1]) {
                Some(c) => {
                    acc.push(c);
                    j = j + 2;
                },
                None => match unicode_escape_exec(buf, j) {
                    Some(c) => {
                        acc.push(c);
                        j = j + 6;
                    },
                    None => {
                        return None;
                    },
                },
            }
        } else if b < 0x20 {
            return None;
        } else {
            acc.push(b);
            j = j + 1;
        }
    }
    None
}

proof fn lemma_escape_byte_parses(buf: Seq<u8>, i: int, b: u8, acc: Seq<u8>)
    requires
        0 <= i,
        i + escape_byte(b).len() < buf.len(),
        buf.subrange(i, i + escape_byte(b).len()) == escape_byte(b),
    ensures
        str_body(buf, i, acc) == str_body(buf, i + escape_byte(b).len(), acc.push(b)),
{
    let e = escape_byte(b);
    assert(buf[i] == e[0]);
    if b == 0x22 || b == 0x5C {
        assert(buf[i + 1] == e[1]);
    } else if b < 0x20 {
        assert(buf[i + 1] == e[1]);
        assert(buf[i + 2] == e[2]);
        assert(buf[i + 3] == e[3]);
        assert(buf[i + 4] == e[4]);
        assert(buf[i + 5] == e[5]);
        let h = b / 16;
        let l = b % 16;
        assert(h < 2);
        assert(hex_value(hex_digit(h)) == Some(h));
        assert(hex_value(hex_digit(l)) == Some(l));
        assert((h * 16 + l) as u8 == b);
    }
}

/// A string literal written by `quoted` reads back as the same bytes.
proof fn lemma_escape_bytes_parse(buf: Seq<u8>, i: int, s: Seq<u8>, acc: Seq<u8>)
    requires
        0 <= i,
        i + escape_bytes(s).len() < buf.len(),
        buf.subrange(i, i + escape_bytes(s).len()) == escape_bytes(s),
        buf[i + escape_bytes(s).len()] == 0x22,
    ensures
        str_body(buf, i, acc) == Some((acc + s, i + escape_bytes(s).len() + 1)),
    decreases s.len(),
{
    if s.len() == 0 {
        assert(acc + s =~= acc);
    } else {
        let e = escape_byte(s[0]);
        let rest = escape_bytes(s.drop_first());
        assert(escape_bytes(s) == e + rest);
        assert(buf.subrange(i, i + e.len()) =~= e) by {
            assert forall|k: int| 0 <= k < e.len() implies buf.subrange(i, i + e.len())[k] == e[k] by {
                assert(buf.subrange(i, i + escape_bytes(s).len())[k] == escape_bytes(s)[k]);
            }
        }
        assert(buf.subrange(i + e.len(), i + e.len() + rest.len()) =~= rest) by {
            assert forall|k: int| 0 <= k < rest.len() implies buf.subrange(i + e.len(), i + e.len() + rest.len())[k] == rest[k] by {
                assert(buf.subrange(i, i + escape_bytes(s).len())[e.len() + k] == escape_bytes(s)[e.len() + k]);
            }
        }
        lemma_escape_byte_parses(buf, i, s[0], acc);
        lemma_escape_bytes_parse(buf, i + e.len(), s.drop_first(), acc.push(s[0]));
        assert(acc.push(s[0]) + s.drop_first() =~= acc + s);
    }
}

/// `quoted(s)` at `i` reads back as `s`.
pub proof fn lemma_quoted_parses(buf: Seq<u8>, i: int, s: Seq<u8>)
    requires
        0 <= i,
        i + quoted(s).len() <= buf.len(),
        buf.subrange(i, i + quoted(s).len()) == quoted(s),
    ensures
        parse_str_spec(buf, i) == Some((s, i + quoted(s).len())),
{
    let q = quoted(s);
    let n = escape_bytes(s).len() as int;
    assert(buf[i] == q[0]);
    assert(buf[i + 1 + n] == q[1 + n]);
    assert(buf.subrange(i + 1, i + 1 + n) =~= escape_bytes(s)) by {
        assert forall|k: int| 0 <= k < n implies buf.subrange(i + 1, i + 1 + n)[k] == escape_bytes(s)[k] by {
            assert(buf.subrange(i, i + q.len())[1 + k] == q[1 + k]);
        }
    }
    lemma_escape_bytes_parse(buf, i + 1, s, Seq::empty());
    assert(Seq::<u8>::empty() + s =~= s);
}


/// The decimal digits of `n`, most significant first.
pub open spec fn digits(n: nat) -> Seq<u8>
    decreases n,
{
    if n < 10 {
        seq![(0x30 + n) as u8]
    } else {
        digits(n / 10).push((0x30 + n % 10) as u8)
    }
}

/// The position after the run of digits that starts at `i`.
pub open spec fn digit_run_end(buf: Seq<u8>, i: int) -> int
    decreases buf.len() - i,
{
    if 0 <= i < buf.len() && is_digit(buf[i]) {
        digit_run_end(buf, i + 1)
    } else {
        i
    }
}

/// The number that a run of digits denotes.
pub open spec fn digits_value(ds: Seq<u8>) -> nat
    decreases ds.len(),
{
    if ds.len() == 0 {
        0
    } else {
        digits_value(ds.drop_last()) * 10 + (ds.last() - 0x30) as nat
    }
}

/// Reads an unsigned integer at `i`: its value and the position after it.
pub open spec fn parse_uint_spec(buf: Seq<u8>, i: int) -> Option<(nat, int)> {
    let j = digit_run_end(buf, i);
    if 0 <= i && j > i {
        Some((digits_value(buf.subrange(i, j)), j))
    } else {
        None
    }
}

proof fn lemma_digit_run_end_bounds(buf: Seq<u8>, i: int)
    requires
        0 <= i <= buf.len(),
    ensures
        i <= digit_run_end(buf, i) <= buf.len(),
        forall|k: int| i <= k < digit_run_end(buf, i) ==> is_digit(#[trigger] buf[k]),
    decreases buf.len() - i,
{
    if i < buf.len() && is_digit(buf[i]) {
        lemma_digit_run_end_bounds(buf, i + 1);
    }
}

/// Reads an unsigned integer of at most `u64::MAX` at `i`.
pub fn parse_u64(buf: &[u8], i: usize) -> (r: Option<(u64, usize)>)
    ensures
        match parse_uint_spec(buf@, i as int) {
            Some((v, e)) => if v <= u64::MAX { r == Some((v as u64, e as usize)) } else { r is None },
            None => r is None,
        },
        parse_uint_spec(buf@, i as int) matches Some((_, e)) ==> i < e <= buf@.len(),
        r matches Some((v, e)) ==> parse_uint_spec(buf@, i as int) == Some((v as nat, e as int)),
{
    proof {
        lemma_parse_uint_end(buf@, i as int);
    }
    if i > buf.len() {
        return None;
    }
    proof {
        lemma_digit_run_end_bounds(buf@, i as int);
    }
    let mut j = i;
    let mut v: u64 = 0;
    let mut overflow = false;
    while j < buf.len() && 0x30 <= buf[j] && buf[j] <= 0x39
        invariant
            i <= j <= buf@.len(),
            j <= digit_run_end(buf@, i as int),
            digit_run_end(buf@, j as int) == digit_run_end(buf@, i as int),
            overflow ==> digits_value(buf@.subrange(i as int, j as int)) > u64::MAX,
            !overflow ==> v == digits_value(buf@.subrange(i as int, j as int)),
        decreases buf@.len() - j,
    {
        proof {
            lemma_digit_run_end_bounds(buf@, j + 1);
            assert(digit_run_end(buf@, j as int) == digit_run_end(buf@, j + 1));
        }
        let d = buf[j] - 0x30;
        let ghost before = digits_value(buf@.subrange(i as int, j as int));
        assert(buf@.subrange(i as int, j + 1).drop_last() =~= buf@.subrange(i as int, j as int));
        assert(digits_value(buf@.subrange(i as int, j + 1)) == before * 10 + d as nat);
        if !overflow {
            if v > (u64::MAX - d as u64) / 10 {
                overflow = true;
                assert(v * 10 + d > u64::MAX) by (nonlinear_arith)
                    requires v > (u64::MAX - d as u64) / 10, d <= 9;
            } else {
                assert(v * 10 + d <= u64::MAX) by (nonlinear_arith)
                    requires v <= (u64::MAX - d as u64) / 10, d <= 9;
                v = v * 10 + d as u64;
            }
        } else {
            assert(before * 10 + d as nat > u64::MAX) by (nonlinear_arith)
                requires before > u64::MAX;
        }
        j = j + 1;
    }
    if j == i || overflow {
        None
    } else {
        Some((v, j))
    }
}

pub proof fn lemma_parse_uint_first_digit(buf: Seq<u8>, i: int)
    requires
        parse_uint_spec(buf, i) is Some,
    ensures
        0 <= i < buf.len() && is_digit(buf[i]),
{
    if !(0 <= i < buf.len() && is_digit(buf[i])) {
        assert(digit_run_end(buf, i) == i);
    }
}

pub proof fn lemma_digits_shape_pub(n: nat)
    ensures
        digits(n).len() >= 1,
        forall|k: int| 0 <= k < digits(n).len() ==> is_digit(#[trigger] digits(n)[k]),
{
    lemma_digits_shape(n);
}

proof fn lemma_digits_shape(n: nat)
    ensures
        digits(n).len() >= 1,
        forall|k: int| 0 <= k < digits(n).len() ==> is_digit(#[trigger] digits(n)[k]),
        digits_value(digits(n)) == n,
    decreases n,
{
    if n >= 10 {
        lemma_digits_shape(n / 10);
        let d = digits(n);
        assert(d.drop_last() =~= digits(n / 10));
        assert(d.last() == (0x30 + n % 10) as u8);
        assert((d.last() - 0x30) as nat == n % 10);
        assert(digits_value(d) == digits_value(d.drop_last()) * 10 + (d.last() - 0x30) as nat);
        assert(n == (n / 10) * 10 + n % 10);
        assert forall|k: int| 0 <= k < d.len() implies is_digit(#[trigger] d[k]) by {
            if k < d.len() - 1 {
                assert(d[k] == digits(n / 10)[k]);
            }
        }
    } else {
        let d = digits(n);
        assert(d.drop_last() =~= Seq::<u8>::empty());
        assert(digits_value(d) == digits_value(d.drop_last()) * 10 + (d.last() - 0x30) as nat);
    }
}

/// The digits of `n` at `i`, followed by a byte that is not a digit, read
/// back as `n`.
pub proof fn lemma_digits_parse(buf: Seq<u8>, i: int, n: nat)
    requires
        0 <= i,
        i + digits(n).len() <= buf.len(),
        buf.subrange(i, i + digits(n).len()) == digits(n),
        i + digits(n).len() == buf.len() || !is_digit(buf[i + digits(n).len()]),
    ensures
        parse_uint_spec(buf, i) == Some((n, i + digits(n).len())),
{
    lemma_digits_shape(n);
    let e = i + digits(n).len();
    assert forall|k: int| i <= k < e implies is_digit(#[trigger] buf[k]) by {
        assert(buf.subrange(i, e)[k - i] == digits(n)[k - i]);
    }
    lemma_digit_run_end_from(buf, i, e);
}

proof fn lemma_digit_run_end_from(buf: Seq<u8>, i: int, e: int)
    requires
        0 <= i <= e <= buf.len(),
        forall|k: int| i <= k < e ==> is_digit(#[trigger] buf[k]),
        e == buf.len() || !is_digit(buf[e]),
    ensures
        digit_run_end(buf, i) == e,
    decreases e - i,
{
    if i < e {
        lemma_digit_run_end_from(buf, i + 1, e);
    }
}

/// Appends the decimal digits of `n`.
pub fn push_digits(out: &mut Vec<u8>, n: u64)
    ensures
        final(out)@ == old(out)@ + digits(n as nat),
    decreases n,
{
    if n >= 10 {
        push_digits(out, n / 10);
    }
    out.push(0x30 + (n % 10) as u8);
    proof {
        if n >= 10 {
            assert(digits(n as nat) == digits((n / 10) as nat).push((0x30 + n % 10) as u8));
        }
    }
    assert(final(out)@ =~= old(out)@ + digits(n as nat));
}

proof fn lemma_escape_bytes_push(s: Seq<u8>, b: u8)
    ensures
        escape_bytes(s.push(b)) == escape_bytes(s) + escape_byte(b),
    decreases s.len(),
{
    assert(s.push(b)[0] == if s.len() == 0 { b } else { s[0] });
    if s.len() == 0 {
        assert(s.push(b).drop_first() =~= Seq::<u8>::empty());
        assert(escape_byte(b) + Seq::<u8>::empty() =~= escape_byte(b));
        assert(escape_bytes(s.push(b)) == escape_byte(b) + escape_bytes(s.push(b).drop_first()));
        assert(escape_bytes(s) == Seq::<u8>::empty());
        assert(Seq::<u8>::empty() + escape_byte(b) =~= escape_byte(b));
    } else {
        assert(s.push(b).drop_first() =~= s.drop_first().push(b));
        lemma_escape_bytes_push(s.drop_first(), b);
        assert(escape_bytes(s.push(b)) == escape_byte(s[0]) + escape_bytes(s.push(b).drop_first()));
        assert(escape_bytes(s) == escape_byte(s[0]) + escape_bytes(s.drop_first()));
        assert(escape_byte(s[0]) + (escape_bytes(s.drop_first()) + escape_byte(b)) =~= (escape_byte(s[0]) + escape_bytes(s.drop_first())) + escape_byte(b));
    }
}

fn push_escaped_byte(out: &mut Vec<u8>, b: u8)
    ensures
        final(out)@ == old(out)@ + escape_byte(b),
{
    if b == 0x22 {
        out.push(0x5C);
        out.push(0x22);
    } else if b == 0x5C {
        out.push(0x5C);
        out.push(0x5C);
    } else if b < 0x20 {
        let h = b / 16;
        let l = b % 16;
        out.push(0x5C);
        out.push(0x75);
        out.push(0x30);
        out.push(0x30);
        out.push(if h < 10 { 0x30 + h } else { 0x61 + h - 10 });
        out.push(if l < 10 { 0x30 + l } else { 0x61 + l - 10 });
    } else {
        out.push(b);
    }
    assert(final(out)@ =~= old(out)@ + escape_byte(b));
}

/// Appends `s` as a JSON string literal.
pub fn push_quoted(out: &mut Vec<u8>, s: &[u8])
    ensures
        final(out)@ == old(out)@ + quoted(s@),
{
    out.push(0x22);
    let mut k: usize = 0;
    while k < s.len()
        invariant
            k <= s@.len(),
            out@ == old(out)@ + seq![0x22u8] + escape_bytes(s@.take(k as int)),
        decreases s@.len() - k,
    {
        proof {
            assert(s@.take(k + 1) =~= s@.take(k as int).push(s@[k as int]));
            lemma_escape_bytes_push(s@.take(k as int), s@[k as int]);
        }
        push_escaped_byte(out, s[k]);
        k = k + 1;
    }
    out.push(0x22);
    assert(s@.take(s@.len() as int) =~= s@);
    assert(out@ =~= old(out)@ + quoted(s@));
}

/// Scans a value at `i` that is of no interest, to its end: strings are
/// stepped over, brackets are counted, and a scalar ends at the first comma,
/// closing bracket or white space.
pub open spec fn scan_value(buf: Seq<u8>, i: int, depth: nat, in_str: bool, esc: bool) -> Option<int>
    decreases buf.len() - i,
{
    if i < 0 || i >= buf.len() {
        None
    } else {
        let b = buf[i];
        if in_str {
            if esc {
                scan_value(buf, i + 1, depth, true, false)
            } else if b == 0x5C {
                scan_value(buf, i + 1, depth, true, true)
            } else if b == 0x22 {
                if depth == 0 { Some(i + 1) } else { scan_value(buf, i + 1, depth, false, false) }
            } else {
                scan_value(buf, i + 1, depth, true, false)
            }
        } else if b == 0x22 {
            scan_value(buf, i + 1, depth, true, false)
        } else if b == 0x7B || b == 0x5B {
            scan_value(buf, i + 1, depth + 1, false, false)
        } else if b == 0x7D || b == 0x5D {
            if depth == 0 {
                Some(i)
            } else if depth == 1 {
                Some(i + 1)
            } else {
                scan_value(buf, i + 1, (depth - 1) as nat, false, false)
            }
        } else if depth == 0 && (b == 0x2C || is_ws(b)) {
            Some(i)
        } else {
            scan_value(buf, i + 1, depth, false, false)
        }
    }
}

/// Skips a value at `i`; it must not be empty.
pub open spec fn skip_value_spec(buf: Seq<u8>, i: int) -> Option<int> {
    match scan_value(buf, i, 0, false, false) {
        Some(e) => if e > i { Some(e) } else { None },
        None => None,
    }
}

proof fn lemma_scan_value_end(buf: Seq<u8>, i: int, depth: nat, in_str: bool, esc: bool)
    ensures
        scan_value(buf, i, depth, in_str, esc) matches Some(e) ==> i <= e <= buf.len(),
    decreases buf.len() - i,
{
    if 0 <= i < buf.len() {
        lemma_scan_value_end(buf, i + 1, depth, true, false);
        lemma_scan_value_end(buf, i + 1, depth, true, true);
        lemma_scan_value_end(buf, i + 1, depth, false, false);
        lemma_scan_value_end(buf, i + 1, depth + 1, false, false);
        if depth >= 1 {
            lemma_scan_value_end(buf, i + 1, (depth - 1) as nat, false, false);
        }
    }
}

/// Skips a value of no interest at `i`.
pub fn skip_value(buf: &[u8], i: usize) -> (r: Option<usize>)
    ensures
        r == match skip_value_spec(buf@, i as int) {
            Some(e) => Some(e as usize),
            None => None::<usize>,
        },
        r matches Some(e) ==> i < e <= buf@.len(),
        skip_value_spec(buf@, i as int) matches Some(e) ==> i < e <= buf@.len(),
        r matches Some(e) ==> skip_value_spec(buf@, i as int) == Some(e as int),
        r is None ==> skip_value_spec(buf@, i as int) is None,
{
    proof {
        lemma_scan_value_end(buf@, i as int, 0, false, false);
    }
    let mut j = i;
    let mut depth: u64 = 0;
    let mut in_str = false;
    let mut esc = false;
    while j < buf.len()
        invariant
            i <= j,
            depth <= j - i,
            esc ==> in_str,
            scan_value(buf@, j as int, depth as nat, in_str, esc) == scan_value(buf@, i as int, 0, false, false),
        decreases buf@.len() - j,
    {
        proof {
            lemma_scan_value_end(buf@, j as int, depth as nat, in_str, esc);
        }
        let b = buf[j];
        if in_str {
            if esc {
                esc = false;
            } else if b == 0x5C {
                esc = true;
            } else if b == 0x22 {
                if depth == 0 {
                    return if j + 1 > i { Some(j + 1) } else { None };
                }
                in_str = false;
            }
        } else if b == 0x22 {
            in_str = true;
        } else if b == 0x7B || b == 0x5B {
            depth = depth + 1;
        } else if b == 0x7D || b == 0x5D {
            if depth == 0 {
                return if j > i { Some(j) } else { None };
            } else if depth == 1 {
                return Some(j + 1);
            } else {
                depth = depth - 1;
            }
        } else if depth == 0 && (b == 0x2C || b == 0x20 || b == 0x09 || b == 0x0A || b == 0x0D) {
            return if j > i { Some(j) } else { None };
        }
        j = j + 1;
    }
    None
}

} // verus!
