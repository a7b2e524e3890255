//! Reading and checking HTTP header field names and values.

use vstd::prelude::*;
use vstd::string::StringSliceAdditionalSpecFns;
use crate::text::push_char;
use crate::protocol::frame::{
    HeaderList, MAX_HEADER_FIELDS, fields_set, fields_without, first_value, header_name_parse, spec_get_header,
    spec_header_value_valid, spec_set_header,
};

verus! {

/// Whether `b` is an ASCII digit.
pub open spec fn is_digit(b: u8) -> bool {
    48 <= b <= 57
}

/// The number that the decimal digits `s` write, most significant digit first.
pub open spec fn digits_value(s: Seq<u8>) -> nat
    decreases s.len(),
{
    if s.len() == 0 {
        0
    } else {
        digits_value(s.drop_last()) * 10 + (s.last() - 48) as nat
    }
}

/// The digits of an unsigned decimal number: `s` without one leading `+`.
pub open spec fn unsigned_digits(s: Seq<u8>) -> Seq<u8> {
    if s.len() > 0 && s[0] == 43 {
        s.drop_first()
    } else {
        s
    }
}

/// The value of `s` read as an unsigned decimal number (an optional `+`, then at least one
/// digit and nothing else), if it is one.
pub open spec fn decimal_value(s: Seq<u8>) -> Option<nat> {
    let d = unsigned_digits(s);
    if d.len() > 0 && forall|i: int| 0 <= i < d.len() ==> is_digit(d[i]) {
        Some(digits_value(d))
    } else {
        None
    }
}

/// `s` read as a `u64` (`str::parse::<u64>`): its decimal value, when that fits.
pub open spec fn spec_parse_u64(s: Seq<u8>) -> Option<u64> {
    match decimal_value(s) {
        Some(n) => if n <= u64::MAX {
            Some(n as u64)
        } else {
            None
        },
        None => None,
    }
}

proof fn lemma_digits_value_prefix(s: Seq<u8>, k: int)
    requires
        0 <= k <= s.len(),
        forall|i: int| 0 <= i < s.len() ==> is_digit(s[i]),
    ensures
        digits_value(s.subrange(0, k)) <= digits_value(s),
    decreases s.len() - k,
{
    if k < s.len() {
        lemma_digits_value_prefix(s, k + 1);
        assert(s.subrange(0, k + 1).drop_last() =~= s.subrange(0, k));
        assert(is_digit(s.subrange(0, k + 1).last()));
    } else {
        assert(s.subrange(0, k) =~= s);
    }
}

/// Reads `s` as an unsigned decimal `u64`, as `str::parse::<u64>` does.
pub fn parse_u64(s: &[u8]) -> (r: Option<u64>)
    ensures
        r == spec_parse_u64(s@),
{
    let start: usize = if s.len() > 0 && s[0] == 43u8 {
        1
    } else {
        0
    };
    let ghost d = unsigned_digits(s@);
    assert(d =~= s@.subrange(start as int, s@.len() as int));
    if start >= s.len() {
        return None;
    }
    let mut acc: u64 = 0;
    let mut i: usize = start;
    while i < s.len()
        invariant
            start <= i <= s@.len(),
            start < s@.len(),
            d == s@.subrange(start as int, s@.len() as int),
            d == unsigned_digits(s@),
            forall|j: int| start <= j < i ==> is_digit(s@[j]),
            acc == digits_value(s@.subrange(start as int, i as int)),
        decreases s@.len() - i,
    {
        let b = s[i];
        if b < 48u8 || b > 57u8 {
            assert(!is_digit(d[i - start]));
            return None;
        }
        let dig: u64 = (b - 48u8) as u64;
        let ghost next = s@.subrange(start as int, i + 1);
        assert(next.drop_last() =~= s@.subrange(start as int, i as int));
        assert(digits_value(next) == acc * 10 + dig);
        if acc > (u64::MAX - dig) / 10 {
            assert(acc * 10 + dig > u64::MAX) by (nonlinear_arith)
                requires
                    acc > (u64::MAX - dig) / 10,
                    dig <= 9,
            ;
            proof {
                if forall|j: int| 0 <= j < d.len() ==> is_digit(d[j]) {
                    lemma_digits_value_prefix(d, i + 1 - start);
                    assert(d.subrange(0, i + 1 - start) =~= next);
                }
            }
            return None;
        }
        assert(acc * 10 + dig <= u64::MAX) by (nonlinear_arith)
            requires
                acc <= (u64::MAX - dig) / 10,
                dig <= 9,
        ;
        acc = acc * 10 + dig;
        i = i + 1;
    }
    assert(s@.subrange(start as int, i as int) =~= d);
    Some(acc)
}

/// Whether `b` may stand in a header value that reads as text: visible ASCII or a tab.
pub open spec fn is_visible_ascii(b: u8) -> bool {
    (32 <= b && b < 127) || b == 9
}

/// The characters of the ASCII bytes `s`.
pub open spec fn ascii_chars(s: Seq<u8>) -> Seq<char> {
    Seq::new(s.len(), |i: int| s[i] as char)
}

/// The text of a header value (`HeaderValue::to_str`): present when every byte is visible ASCII
/// or a tab.
pub open spec fn spec_value_text(s: Seq<u8>) -> Option<Seq<char>> {
    if forall|i: int| 0 <= i < s.len() ==> is_visible_ascii(s[i]) {
        Some(ascii_chars(s))
    } else {
        None
    }
}

/// The text of a header value, when it is visible ASCII (tabs allowed).
pub fn value_text(v: &[u8]) -> (r: Option<String>)
    ensures
        match r {
            Some(t) => spec_value_text(v@) == Some(t@),
            None => spec_value_text(v@) is None,
        },
{
    let mut t = String::new();
    let mut i: usize = 0;
    while i < v.len()
        invariant
            0 <= i <= v@.len(),
            forall|j: int| 0 <= j < i ==> is_visible_ascii(v@[j]),
            t@ == ascii_chars(v@.subrange(0, i as int)),
        decreases v@.len() - i,
    {
        let b = v[i];
        if !((32u8 <= b && b < 127u8) || b == 9u8) {
            return None;
        }
        push_char(&mut t, b as char);
        assert(ascii_chars(v@.subrange(0, i + 1)) =~= ascii_chars(v@.subrange(0, i as int)).push(
            b as char,
        ));
        i = i + 1;
    }
    assert(v@.subrange(0, v@.len() as int) =~= v@);
    Some(t)
}

/// Sets the header `name` to `value` when the name is a valid header name and the value a valid
/// header value; otherwise leaves the headers as they are.
pub fn set_header(headers: &mut HeaderList, name: &str, value: &str)
    requires
        old(headers)@.len() <= MAX_HEADER_FIELDS,
    ensures
        final(headers)@ == spec_set_header(old(headers)@, name.spec_bytes(), value.spec_bytes()),
{
    headers.insert(name.as_bytes(), value.as_bytes());
}

/// The length that the first `content-length` field gives, when it reads as a `u64`.
pub open spec fn content_length_of(h: Seq<(Seq<u8>, Seq<u8>)>) -> Option<u64> {
    match spec_get_header(h, "content-length".spec_bytes()) {
        Some(v) => spec_parse_u64(v),
        None => None,
    }
}

/// The length that the first `content-length` field gives, when it reads as a `u64`.
pub fn content_length(headers: &HeaderList) -> (n: Option<u64>)
    ensures
        n == content_length_of(headers@),
{
    match headers.get("content-length".as_bytes()) {
        Some(v) => parse_u64(v),
        None => None,
    }
}

/// The text of the first field that `name` names, when its value reads as text.
pub open spec fn header_text_of(h: Seq<(Seq<u8>, Seq<u8>)>, name: Seq<u8>) -> Option<Seq<char>> {
    match spec_get_header(h, name) {
        Some(v) => spec_value_text(v),
        None => None,
    }
}

/// The text of the first field that `name` names, when its value reads as text.
pub fn header_text(headers: &HeaderList, name: &str) -> (t: Option<String>)
    ensures
        match t {
            Some(x) => header_text_of(headers@, name.spec_bytes()) == Some(x@),
            None => header_text_of(headers@, name.spec_bytes()) is None,
        },
{
    match headers.get(name.as_bytes()) {
        Some(v) => value_text(v),
        None => None,
    }
}

proof fn lemma_first_value_absent(h: Seq<(Seq<u8>, Seq<u8>)>, name: Seq<u8>)
    requires
        forall|j: int| 0 <= j < h.len() ==> h[j].0 != name,
    ensures
        first_value(h, name) is None,
    decreases h.len(),
{
    if h.len() > 0 {
        lemma_first_value_absent(h.drop_first(), name);
    }
}

proof fn lemma_without_lacks(h: Seq<(Seq<u8>, Seq<u8>)>, n: Seq<u8>)
    ensures
        forall|j: int| 0 <= j < fields_without(h, n).len() ==> fields_without(h, n)[j].0 != n,
    decreases h.len(),
{
    if h.len() > 0 {
        lemma_without_lacks(h.drop_last(), n);
        let w = fields_without(h.drop_last(), n);
        if h.last().0 != n {
            assert(fields_without(h, n) == w.push(h.last()));
            assert forall|j: int| 0 <= j < w.push(h.last()).len() implies w.push(h.last())[j].0
                != n by {
                if j < w.len() {
                    assert(w.push(h.last())[j] == w[j]);
                }
            }
        } else {
            assert(fields_without(h, n) == w);
        }
    }
}

proof fn lemma_first_value_push(s: Seq<(Seq<u8>, Seq<u8>)>, x: (Seq<u8>, Seq<u8>), m: Seq<u8>)
    ensures
        first_value(s.push(x), m) == match first_value(s, m) {
            Some(v) => Some(v),
            None => if x.0 == m {
                Some(x.1)
            } else {
                None
            },
        },
    decreases s.len(),
{
    let t = s.push(x);
    if s.len() > 0 {
        assert(t[0] == s[0]);
        assert(t.drop_first() =~= s.drop_first().push(x));
        lemma_first_value_push(s.drop_first(), x, m);
        assert(first_value(t, m) == if s[0].0 == m {
            Some(s[0].1)
        } else {
            first_value(s.drop_first().push(x), m)
        });
    } else {
        assert(t[0] == x);
        assert(t.drop_first() =~= Seq::<(Seq<u8>, Seq<u8>)>::empty());
        assert(first_value(t.drop_first(), m) is None);
    }
}

proof fn lemma_without_keeps_others(h: Seq<(Seq<u8>, Seq<u8>)>, n: Seq<u8>, m: Seq<u8>)
    requires
        m != n,
    ensures
        first_value(fields_without(h, n), m) == first_value(h, m),
    decreases h.len(),
{
    if h.len() > 0 {
        let init = h.drop_last();
        lemma_without_keeps_others(init, n, m);
        assert(init.push(h.last()) =~= h);
        lemma_first_value_push(init, h.last(), m);
        if h.last().0 != n {
            lemma_first_value_push(fields_without(init, n), h.last(), m);
        }
    }
}

proof fn lemma_first_value_cons(x: (Seq<u8>, Seq<u8>), s: Seq<(Seq<u8>, Seq<u8>)>, m: Seq<u8>)
    ensures
        first_value(seq![x] + s, m) == if x.0 == m {
            Some(x.1)
        } else {
            first_value(s, m)
        },
{
    assert((seq![x] + s)[0] == x);
    assert((seq![x] + s).drop_first() =~= s);
}

proof fn lemma_set_then_read(h: Seq<(Seq<u8>, Seq<u8>)>, n: Seq<u8>, v: Seq<u8>, m: Seq<u8>)
    ensures
        first_value(fields_set(h, n, v), n) == Some(v),
        m != n ==> first_value(fields_set(h, n, v), m) == first_value(h, m),
    decreases h.len(),
{
    if h.len() == 0 {
        lemma_first_value_cons((n, v), Seq::empty(), n);
        lemma_first_value_cons((n, v), Seq::empty(), m);
    } else if h[0].0 == n {
        let w = fields_without(h.drop_first(), n);
        lemma_first_value_cons((n, v), w, n);
        lemma_first_value_cons((n, v), w, m);
        lemma_first_value_cons(h[0], h.drop_first(), m);
        assert(h =~= seq![h[0]] + h.drop_first());
        if m != n {
            lemma_without_keeps_others(h.drop_first(), n, m);
        }
    } else {
        lemma_set_then_read(h.drop_first(), n, v, m);
        let r = fields_set(h.drop_first(), n, v);
        lemma_first_value_cons(h[0], r, n);
        lemma_first_value_cons(h[0], r, m);
        lemma_first_value_cons(h[0], h.drop_first(), m);
        assert(h =~= seq![h[0]] + h.drop_first());
    }
}

/// Setting a header and reading it back: when the name and value are valid, the header reads
/// as the value set and every other header reads as before; otherwise nothing changes.
pub proof fn lemma_set_header_then_read(
    h: Seq<(Seq<u8>, Seq<u8>)>,
    name: Seq<u8>,
    value: Seq<u8>,
    other: Seq<u8>,
)
    ensures
        header_name_parse(name) matches Some(n) ==> (spec_header_value_valid(value) ==> {
            &&& first_value(spec_set_header(h, name, value), n) == Some(value)
            &&& other != n ==> first_value(spec_set_header(h, name, value), other) == first_value(
                h,
                other,
            )
        }),
        header_name_parse(name) is None || !spec_header_value_valid(value) ==> spec_set_header(
            h,
            name,
            value,
        ) == h,
{
    if let Some(n) = header_name_parse(name) {
        lemma_set_then_read(h, n, value, other);
    }
}

} // verus!
