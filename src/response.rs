//! Parsing a raw HTTP/1.1 response: status line and body size.

use vstd::prelude::*;

verus! {

/// The bytes that end a line.
pub open spec fn crlf() -> Seq<u8> {
    seq![13u8, 10u8]
}

/// The bytes of the blank line that ends the header block.
pub open spec fn blank_line() -> Seq<u8> {
    seq![13u8, 10u8, 13u8, 10u8]
}

/// `needle` occurs in `hay` at position `i`.
pub open spec fn occurs_at(hay: Seq<u8>, needle: Seq<u8>, i: int) -> bool {
    0 <= i && i + needle.len() <= hay.len() && hay.subrange(i, i + needle.len()) == needle
}

/// The first position at or after `i` where `needle` occurs in `hay`.
pub open spec fn find_from(hay: Seq<u8>, needle: Seq<u8>, i: int) -> Option<int>
    decreases hay.len() + 1 - i,
{
    if i < 0 || i + needle.len() > hay.len() {
        None
    } else if occurs_at(hay, needle, i) {
        Some(i)
    } else {
        find_from(hay, needle, i + 1)
    }
}

/// Finds the first occurrence of `needle` in `hay`.
pub fn find_bytes(hay: &[u8], needle: &[u8]) -> (r: Option<usize>)
    ensures
        match r {
            Some(i) => find_from(hay@, needle@, 0) == Some(i as int),
            None => find_from(hay@, needle@, 0) is None,
        },
{
    let mut i: usize = 0;
    while i <= hay.len() && needle.len() <= hay.len() - i
        invariant
            find_from(hay@, needle@, 0) == find_from(hay@, needle@, i as int),
        decreases hay.len() - i,
    {
        let mut j: usize = 0;
        while j < needle.len() && hay[i + j] == needle[j]
            invariant
                i + needle.len() <= hay.len(),
                j <= needle.len(),
                forall|k: int| 0 <= k < j ==> hay@[i + k] == needle@[k],
            decreases needle.len() - j,
        {
            j = j + 1;
        }
        if j == needle.len() {
            assert(hay@.subrange(i as int, i + needle.len()) =~= needle@);
            return Some(i);
        }
        assert(hay@.subrange(i as int, i + needle.len())[j as int] != needle@[j as int]);
        i = i + 1;
    }
    None
}

/// ASCII whitespace: space, tab, line feed, vertical tab, form feed, carriage
/// return. The status line is read as bytes, so only these separate its
/// tokens; a non-ASCII space such as U+00A0 is part of a token.
pub open spec fn is_ws(b: u8) -> bool {
    b == 32u8 || (9u8 <= b && b <= 13u8)
}

/// The end of the run of non-whitespace bytes of `l` that starts at `i`.
pub open spec fn token_end(l: Seq<u8>, i: int) -> int
    decreases l.len() - i,
{
    if i < 0 || i >= l.len() || is_ws(l[i]) {
        i
    } else {
        token_end(l, i + 1)
    }
}

/// The end of the run of whitespace bytes of `l` that starts at `i`.
pub open spec fn gap_end(l: Seq<u8>, i: int) -> int
    decreases l.len() - i,
{
    if i < 0 || i >= l.len() || !is_ws(l[i]) {
        i
    } else {
        gap_end(l, i + 1)
    }
}

/// The status code token of a status line: the line is a protocol token, a
/// gap, the code token, a gap and the start of a reason phrase, then anything.
/// `None` when the line does not have that shape.
pub open spec fn code_token(l: Seq<u8>) -> Option<Seq<u8>> {
    let e1 = token_end(l, 0);
    let s2 = gap_end(l, e1);
    let e2 = token_end(l, s2);
    let s3 = gap_end(l, e2);
    if 0 < e1 && e1 < s2 && e2 < s3 && s3 < l.len() {
        Some(l.subrange(s2, e2))
    } else {
        None
    }
}

/// Every byte of `s` is an ASCII decimal digit.
pub open spec fn all_digits(s: Seq<u8>) -> bool {
    forall|i: int| 0 <= i < s.len() ==> 48u8 <= #[trigger] s[i] && s[i] <= 57u8
}

/// The number that the decimal digits `s` write.
pub open spec fn digits_value(s: Seq<u8>) -> nat
    decreases s.len(),
{
    if s.len() == 0 {
        0
    } else {
        digits_value(s.drop_last()) * 10 + (s.last() - 48) as nat
    }
}

/// An unsigned 16-bit number written in decimal, with an optional leading `+`.
pub open spec fn decimal_u16(t: Seq<u8>) -> Option<u16> {
    let d = if t.len() > 0 && t[0] == 43u8 { t.drop_first() } else { t };
    if d.len() > 0 && all_digits(d) && digits_value(d) <= 65535 {
        Some(digits_value(d) as u16)
    } else {
        None
    }
}

/// The status code given to a response whose code token is not a number.
pub const NO_STATUS_CODE: u16 = 0;

/// The code that means success.
pub const OK_STATUS_CODE: u16 = 200;

/// Success and status code of a status line, or `None` when it is malformed.
/// A code token that is not an unsigned 16-bit number gives a failure with
/// the code `NO_STATUS_CODE`.
pub open spec fn status_of(l: Seq<u8>) -> Option<(bool, u16)> {
    match code_token(l) {
        None => None,
        Some(t) => match decimal_u16(t) {
            Some(c) => Some((c == 200, c)),
            None => Some((false, 0u16)),
        },
    }
}

/// Why a response could not be read as an HTTP response.
#[derive(Clone, Copy, Debug, PartialEq, Eq, Structural)]
pub enum ResponseError {
    /// The response holds no line end, so it has no status line.
    NoLineEnd,
    /// The status line does not have the shape `PROTOCOL CODE REASON...`.
    MalformedStatusLine,
}

/// Success and status code of a whole response. An empty response (the peer
/// sent nothing before the connection ended or the read timed out) carries
/// no code, so it is a failure with the code `NO_STATUS_CODE`.
pub open spec fn response_status(r: Seq<u8>) -> Result<(bool, u16), ResponseError> {
    if r.len() == 0 {
        Ok((false, 0u16))
    } else {
        match find_from(r, crlf(), 0) {
            None => Err(ResponseError::NoLineEnd),
            Some(e) => match status_of(r.subrange(0, e)) {
                None => Err(ResponseError::MalformedStatusLine),
                Some(st) => Ok(st),
            },
        }
    }
}

/// The number of bytes after the first blank line; 0 when there is none.
pub open spec fn body_size(r: Seq<u8>) -> nat {
    match find_from(r, blank_line(), 0) {
        Some(p) => (r.len() - p - 4) as nat,
        None => 0,
    }
}

/// The end of the run of bytes of one class in `r[i..end]`: whitespace when
/// `ws`, else non-whitespace.
fn scan_run(r: &[u8], i: usize, end: usize, ws: bool) -> (k: usize)
    requires
        i <= end <= r@.len(),
    ensures
        i <= k <= end,
        k == (if ws { gap_end(r@.subrange(0, end as int), i as int) } else { token_end(
            r@.subrange(0, end as int),
            i as int,
        ) }),
{
    let ghost l = r@.subrange(0, end as int);
    let mut k = i;
    while k < end && (r[k] == 32 || (9 <= r[k] && r[k] <= 13)) == ws
        invariant
            i <= k <= end <= r@.len(),
            l == r@.subrange(0, end as int),
            ws ==> gap_end(l, i as int) == gap_end(l, k as int),
            !ws ==> token_end(l, i as int) == token_end(l, k as int),
        decreases end - k,
    {
        k = k + 1;
    }
    k
}

/// Reads the status code token `t` as an unsigned 16-bit decimal number.
fn parse_code(t: &[u8]) -> (r: Option<u16>)
    ensures
        r == decimal_u16(t@),
{
    let mut start: usize = 0;
    if t.len() > 0 && t[0] == 43 {
        start = 1;
    }
    let ghost d = t@.subrange(start as int, t@.len() as int);
    assert(d =~= (if t@.len() > 0 && t@[0] == 43u8 { t@.drop_first() } else { t@ }));
    if start == t.len() {
        return None;
    }
    let mut k = start;
    let mut v: u32 = 0;
    while k < t.len()
        invariant
            start <= k <= t@.len(),
            d == t@.subrange(start as int, t@.len() as int),
            d == (if t@.len() > 0 && t@[0] == 43u8 { t@.drop_first() } else { t@ }),
            all_digits(t@.subrange(start as int, k as int)),
            v <= 65535,
            v == digits_value(t@.subrange(start as int, k as int)),
        decreases t.len() - k,
    {
        let b = t[k];
        if b < 48 || b > 57 {
            assert(d[k - start] == b);
            assert(!all_digits(d));
            return None;
        }
        let ghost p = t@.subrange(start as int, k as int);
        let ghost q = t@.subrange(start as int, k + 1);
        assert(q.drop_last() =~= p);
        assert(all_digits(q)) by {
            assert forall|j: int| 0 <= j < q.len() implies 48u8 <= #[trigger] q[j] && q[j] <= 57u8 by {
                if j < p.len() {
                    assert(q[j] == p[j]);
                }
            }
        }
        let nv = v * 10 + (b - 48) as u32;
        assert(q.last() == b);
        assert(nv == digits_value(q));
        if nv > 65535 {
            proof {
                if all_digits(d) {
                    lemma_digits_value_prefix(d, (k + 1 - start) as int);
                    assert(d.subrange(0, (k + 1 - start) as int) =~= q);
                }
            }
            return None;
        }
        v = nv;
        k = k + 1;
    }
    assert(t@.subrange(start as int, k as int) =~= d);
    Some(v as u16)
}

/// A prefix of a digit sequence never writes a larger number.
pub proof fn lemma_digits_value_prefix(s: Seq<u8>, n: int)
    requires
        0 <= n <= s.len(),
        all_digits(s),
    ensures
        digits_value(s.subrange(0, n)) <= digits_value(s),
    decreases s.len(),
{
    if n < s.len() {
        let t = s.drop_last();
        assert(all_digits(t)) by {
            assert forall|j: int| 0 <= j < t.len() implies 48u8 <= #[trigger] t[j] && t[j] <= 57u8 by {
                assert(t[j] == s[j]);
            }
        }
        lemma_digits_value_prefix(t, n);
        assert(t.subrange(0, n) =~= s.subrange(0, n));
    } else {
        assert(s.subrange(0, n) =~= s);
    }
}

/// Success and status code of the status line `r[..end]`.
fn parse_status_line(r: &[u8], end: usize) -> (st: Option<(bool, u16)>)
    requires
        end <= r@.len(),
    ensures
        st == status_of(r@.subrange(0, end as int)),
{
    let ghost l = r@.subrange(0, end as int);
    let e1 = scan_run(r, 0, end, false);
    let s2 = scan_run(r, e1, end, true);
    let e2 = scan_run(r, s2, end, false);
    let s3 = scan_run(r, e2, end, true);
    if 0 < e1 && e1 < s2 && e2 < s3 && s3 < end {
        proof {
            lemma_token_end_bounds(l, s2 as int);
        }
        let mut tok: Vec<u8> = Vec::new();
        let mut k = s2;
        while k < e2
            invariant
                s2 <= k <= e2 <= end <= r@.len(),
                tok@ == r@.subrange(s2 as int, k as int),
            decreases e2 - k,
        {
            tok.push(r[k]);
            k = k + 1;
            assert(tok@ =~= r@.subrange(s2 as int, k as int));
        }
        assert(tok@ =~= l.subrange(s2 as int, e2 as int));
        match parse_code(tok.as_slice()) {
            Some(c) => Some((c == OK_STATUS_CODE, c)),
            None => Some((false, NO_STATUS_CODE)),
        }
    } else {
        None
    }
}

proof fn lemma_token_end_bounds(l: Seq<u8>, i: int)
    requires
        0 <= i <= l.len(),
    ensures
        i <= token_end(l, i) <= l.len(),
    decreases l.len() - i,
{
    if i < l.len() && !is_ws(l[i]) {
        lemma_token_end_bounds(l, i + 1);
    }
}

/// Success and status code of a whole response.
pub fn parse_status(r: &[u8]) -> (st: Result<(bool, u16), ResponseError>)
    ensures
        st == response_status(r@),
{
    if r.len() == 0 {
        return Ok((false, NO_STATUS_CODE));
    }
    let line_end: Vec<u8> = vec![13u8, 10u8];
    assert(line_end@ =~= crlf());
    match find_bytes(r, line_end.as_slice()) {
        None => Err(ResponseError::NoLineEnd),
        Some(e) => {
            proof {
                lemma_find_from_bounds(r@, crlf(), 0);
            }
            match parse_status_line(r, e) {
                None => Err(ResponseError::MalformedStatusLine),
                Some(st) => Ok(st),
            }
        },
    }
}

/// Where the body starts: just after the first blank line, if there is one.
pub fn body_start(r: &[u8]) -> (b: Option<usize>)
    ensures
        match b {
            Some(i) => find_from(r@, blank_line(), 0) == Some(i - 4),
            None => find_from(r@, blank_line(), 0) is None,
        },
        b matches Some(i) ==> 4 <= i <= r@.len() && body_size(r@) == r@.len() - i,
{
    let sep: Vec<u8> = vec![13u8, 10u8, 13u8, 10u8];
    assert(sep@ =~= blank_line());
    match find_bytes(r, sep.as_slice()) {
        None => None,
        Some(p) => {
            let n: usize = r.len();
            proof {
                lemma_find_from_bounds(r@, blank_line(), 0);
                assert(blank_line().len() == 4);
                assert(p + 4 <= n);
            }
            Some(p + 4)
        },
    }
}

/// The number of bytes after the first blank line; 0 when there is none.
pub fn body_size_of(r: &[u8]) -> (n: usize)
    ensures
        n == body_size(r@),
{
    match body_start(r) {
        None => 0,
        Some(i) => r.len() - i,
    }
}

/// A position that `find_from` returns is an occurrence, within bounds.
pub proof fn lemma_find_from_bounds(hay: Seq<u8>, needle: Seq<u8>, i: int)
    ensures
        find_from(hay, needle, i) matches Some(p) ==> i <= p && occurs_at(hay, needle, p),
    decreases hay.len() + 1 - i,
{
    if !(i < 0 || i + needle.len() > hay.len()) && !occurs_at(hay, needle, i) {
        lemma_find_from_bounds(hay, needle, i + 1);
    }
}

/// Where `needle` occurs nowhere in `hay` from `i` on, `find_from` finds nothing.
pub proof fn lemma_find_from_none(hay: Seq<u8>, needle: Seq<u8>, i: int)
    requires
        forall|j: int| i <= j ==> !#[trigger] occurs_at(hay, needle, j),
    ensures
        find_from(hay, needle, i) is None,
    decreases hay.len() + 1 - i,
{
    if !(i < 0 || i + needle.len() > hay.len()) {
        assert(!occurs_at(hay, needle, i));
        lemma_find_from_none(hay, needle, i + 1);
    }
}

/// A response without a blank line has an empty body.
pub proof fn lemma_no_blank_line_no_body(r: Seq<u8>)
    requires
        forall|j: int| !#[trigger] occurs_at(r, blank_line(), j),
    ensures
        body_size(r) == 0,
{
    lemma_find_from_none(r, blank_line(), 0);
}

/// A run of non-whitespace bytes from `i` up to `j`, ended by whitespace or
/// by the end of `l`, is one token.
pub proof fn lemma_token_end_run(l: Seq<u8>, i: int, j: int)
    requires
        0 <= i <= j <= l.len(),
        forall|k: int| i <= k < j ==> !is_ws(#[trigger] l[k]),
        j == l.len() || is_ws(l[j]),
    ensures
        token_end(l, i) == j,
    decreases j - i,
{
    if i < j {
        lemma_token_end_run(l, i + 1, j);
    }
}

/// A run of whitespace bytes from `i` up to `j`, ended by a non-whitespace
/// byte or by the end of `l`, is one gap.
pub proof fn lemma_gap_end_run(l: Seq<u8>, i: int, j: int)
    requires
        0 <= i <= j <= l.len(),
        forall|k: int| i <= k < j ==> is_ws(#[trigger] l[k]),
        j == l.len() || !is_ws(l[j]),
    ensures
        gap_end(l, i) == j,
    decreases j - i,
{
    if i < j {
        lemma_gap_end_run(l, i + 1, j);
    }
}

/// The success and code that a code token gives.
pub open spec fn code_status(t: Seq<u8>) -> (bool, u16) {
    match decimal_u16(t) {
        Some(c) => (c == 200, c),
        None => (false, 0u16),
    }
}

/// A response whose status line is a protocol token, a gap of whitespace, a
/// code token, a gap and a reason phrase, with no line end inside, has the
/// success and code that the code token gives, whatever follows the line:
/// for a code that reads as an unsigned 16-bit number `c`, success exactly
/// when `c` is 200, and the code `c`.
pub proof fn lemma_status_line_code(
    p: Seq<u8>,
    w1: Seq<u8>,
    t: Seq<u8>,
    w2: Seq<u8>,
    reason: Seq<u8>,
    rest: Seq<u8>,
)
    requires
        p.len() > 0,
        forall|k: int| 0 <= k < p.len() ==> !is_ws(#[trigger] p[k]),
        w1.len() > 0,
        forall|k: int| 0 <= k < w1.len() ==> is_ws(#[trigger] w1[k]),
        t.len() > 0,
        forall|k: int| 0 <= k < t.len() ==> !is_ws(#[trigger] t[k]),
        w2.len() > 0,
        forall|k: int| 0 <= k < w2.len() ==> is_ws(#[trigger] w2[k]),
        reason.len() > 0,
        !is_ws(reason[0]),
        forall|j: int| !#[trigger] occurs_at(p + w1 + t + w2 + reason, crlf(), j),
    ensures
        response_status(p + w1 + t + w2 + reason + crlf() + rest) == Ok::<(bool, u16), ResponseError>(
            code_status(t),
        ),
{
    let l = p + w1 + t + w2 + reason;
    let r = l + crlf() + rest;
    let e = l.len() as int;
    let a = p.len() as int;
    let b = a + w1.len();
    let c = b + t.len();
    let d = c + w2.len();
    assert forall|j: int| 0 <= j < e implies !#[trigger] occurs_at(r, crlf(), j) by {
        if j + 1 < e {
            assert(!occurs_at(l, crlf(), j));
            if occurs_at(r, crlf(), j) {
                assert(r.subrange(j, j + 2)[0] == r[j]);
                assert(r.subrange(j, j + 2)[1] == r[j + 1]);
                assert(r[j] == l[j]);
                assert(r[j + 1] == l[j + 1]);
                assert(l.subrange(j, j + 2) =~= crlf());
            }
        } else {
            assert(r[j + 1] == 13u8);
            assert(r.subrange(j, j + 2)[1] == r[j + 1]);
        }
    }
    assert(r.subrange(e, e + 2) =~= crlf());
    lemma_find_from_first(r, crlf(), 0, e);
    assert(r.subrange(0, e) =~= l);
    assert forall|k: int| 0 <= k < a implies !is_ws(#[trigger] l[k]) by {
        assert(l[k] == p[k]);
    }
    assert forall|k: int| a <= k < b implies is_ws(#[trigger] l[k]) by {
        assert(l[k] == w1[k - a]);
    }
    assert forall|k: int| b <= k < c implies !is_ws(#[trigger] l[k]) by {
        assert(l[k] == t[k - b]);
    }
    assert forall|k: int| c <= k < d implies is_ws(#[trigger] l[k]) by {
        assert(l[k] == w2[k - c]);
    }
    assert(l[a] == w1[0]);
    assert(l[b] == t[0]);
    assert(l[c] == w2[0]);
    assert(l[d] == reason[0]);
    lemma_token_end_run(l, 0, a);
    lemma_gap_end_run(l, a, b);
    lemma_token_end_run(l, b, c);
    lemma_gap_end_run(l, c, d);
    assert(l.subrange(b, c) =~= t);
}

/// The status line `HTTP/1.1 200 OK`.
pub open spec fn ok_status_line() -> Seq<u8> {
    seq![72u8, 84u8, 84u8, 80u8, 47u8, 49u8, 46u8, 49u8, 32u8, 50u8, 48u8, 48u8, 32u8, 79u8, 75u8]
}

/// `find_from` returns the first occurrence at or after `i`.
pub proof fn lemma_find_from_first(hay: Seq<u8>, needle: Seq<u8>, i: int, e: int)
    requires
        0 <= i <= e,
        occurs_at(hay, needle, e),
        forall|j: int| i <= j < e ==> !#[trigger] occurs_at(hay, needle, j),
    ensures
        find_from(hay, needle, i) == Some(e),
    decreases e - i,
{
    if i < e {
        assert(!occurs_at(hay, needle, i));
        lemma_find_from_first(hay, needle, i + 1, e);
    }
}

/// A response whose status line is `HTTP/1.1 200 OK` is a success with the
/// code 200, whatever follows the line.
pub proof fn lemma_ok_status_line_succeeds(r: Seq<u8>)
    requires
        r.len() >= 17,
        r.subrange(0, 17) == ok_status_line() + crlf(),
    ensures
        response_status(r) == Ok::<(bool, u16), ResponseError>((true, 200u16)),
{
    let head = ok_status_line() + crlf();
    assert forall|j: int| 0 <= j < 15 implies !#[trigger] occurs_at(r, crlf(), j) by {
        assert(r[j] == head[j]);
    }
    assert(r.subrange(15, 17) =~= crlf()) by {
        assert(r[15] == head[15]);
        assert(r[16] == head[16]);
    }
    lemma_find_from_first(r, crlf(), 0, 15);
    assert(r.subrange(0, 15) =~= ok_status_line()) by {
        assert forall|j: int| 0 <= j < 15 implies r.subrange(0, 15)[j] == ok_status_line()[j] by {
            assert(r[j] == head[j]);
        }
    }
    let l = ok_status_line();
    assert(token_end(l, 0) == 8) by {
        reveal_with_fuel(token_end, 10);
    }
    assert(gap_end(l, 8) == 9) by {
        reveal_with_fuel(gap_end, 3);
    }
    assert(token_end(l, 9) == 12) by {
        reveal_with_fuel(token_end, 5);
    }
    assert(gap_end(l, 12) == 13) by {
        reveal_with_fuel(gap_end, 3);
    }
    let t = l.subrange(9, 12);
    assert(t =~= seq![50u8, 48u8, 48u8]);
    assert(digits_value(t) == 200) by {
        reveal_with_fuel(digits_value, 4);
        assert(t.drop_last() =~= seq![50u8, 48u8]);
        assert(t.drop_last().drop_last() =~= seq![50u8]);
        assert(t.drop_last().drop_last().drop_last() =~= Seq::<u8>::empty());
    }
    assert(decimal_u16(t) == Some(200u16));
}

} // verus!
