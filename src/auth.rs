//! The shared-secret check of the front end: HTTP Basic credentials, whose
//! secret is what follows the first `:` of the base64-decoded pair.
use vstd::prelude::*;

verus! {

/// The 6-bit value of a character of the standard base64 alphabet.
pub open spec fn sextet(c: u8) -> Option<u8> {
    if 65 <= c <= 90 {
        Some((c - 65) as u8)
    } else if 97 <= c <= 122 {
        Some((c - 71) as u8)
    } else if 48 <= c <= 57 {
        Some((c + 4) as u8)
    } else if c == 43 {
        Some(62u8)
    } else if c == 47 {
        Some(63u8)
    } else {
        None
    }
}

fn sextet_of(c: u8) -> (r: Option<u8>)
    ensures
        r == sextet(c),
        r matches Some(v) ==> v < 64,
{
    if 65 <= c && c <= 90 {
        Some(c - 65)
    } else if 97 <= c && c <= 122 {
        Some(c - 71)
    } else if 48 <= c && c <= 57 {
        Some(c + 4)
    } else if c == 43 {
        Some(62)
    } else if c == 47 {
        Some(63)
    } else {
        None
    }
}

pub open spec fn byte0(a: u8, b: u8) -> u8 {
    (a * 4 + b / 16) as u8
}

pub open spec fn byte1(b: u8, c: u8) -> u8 {
    ((b % 16) * 16 + c / 4) as u8
}

pub open spec fn byte2(c: u8, d: u8) -> u8 {
    ((c % 4) * 64 + d) as u8
}

/// The bytes of one group of four characters; `last` allows the padding
/// (`=` or `==`) that only the final group may have.
pub open spec fn decode_group(q: Seq<u8>, last: bool) -> Option<Seq<u8>> {
    match (sextet(q[0]), sextet(q[1]), sextet(q[2]), sextet(q[3])) {
        (Some(a), Some(b), Some(c), Some(d)) => Some(seq![byte0(a, b), byte1(b, c), byte2(c, d)]),
        (Some(a), Some(b), Some(c), None) => if last && q[3] == 61 {
            Some(seq![byte0(a, b), byte1(b, c)])
        } else {
            None
        },
        (Some(a), Some(b), None, None) => if last && q[2] == 61 && q[3] == 61 {
            Some(seq![byte0(a, b)])
        } else {
            None
        },
        _ => None,
    }
}

/// `p` before what `o` holds, if it holds anything.
pub open spec fn prepend(p: Seq<u8>, o: Option<Seq<u8>>) -> Option<Seq<u8>> {
    match o {
        Some(r) => Some(p + r),
        None => None,
    }
}

/// Standard padded base64: groups of four characters, of which only the
/// last may end in padding.
pub open spec fn decode_base64(s: Seq<u8>) -> Option<Seq<u8>>
    decreases s.len(),
{
    if s.len() == 0 {
        Some(Seq::empty())
    } else if s.len() < 4 {
        None
    } else if s.len() == 4 {
        decode_group(s, true)
    } else {
        match decode_group(s.subrange(0, 4), false) {
            Some(b) => prepend(b, decode_base64(s.subrange(4, s.len() as int))),
            None => None,
        }
    }
}

fn decode_group_at(s: &[u8], i: usize, last: bool) -> (r: Option<Vec<u8>>)
    requires
        i + 4 <= s@.len(),
    ensures
        match decode_group(s@.subrange(i as int, i + 4), last) {
            Some(b) => r is Some && r->Some_0@ == b,
            None => r is None,
        },
{
    let ghost q = s@.subrange(i as int, i + 4);
    let a = sextet_of(s[i]);
    let b = sextet_of(s[i + 1]);
    let c = sextet_of(s[i + 2]);
    let d = sextet_of(s[i + 3]);
    assert(q[0] == s@[i as int] && q[1] == s@[i + 1] && q[2] == s@[i + 2] && q[3] == s@[i + 3]);
    match (a, b, c, d) {
        (Some(a), Some(b), Some(c), Some(d)) => {
            let mut v: Vec<u8> = Vec::new();
            v.push(a * 4 + b / 16);
            v.push((b % 16) * 16 + c / 4);
            v.push((c % 4) * 64 + d);
            assert(v@ =~= seq![byte0(a, b), byte1(b, c), byte2(c, d)]);
            Some(v)
        },
        (Some(a), Some(b), Some(c), None) => if last && s[i + 3] == 61 {
            let mut v: Vec<u8> = Vec::new();
            v.push(a * 4 + b / 16);
            v.push((b % 16) * 16 + c / 4);
            assert(v@ =~= seq![byte0(a, b), byte1(b, c)]);
            Some(v)
        } else {
            None
        },
        (Some(a), Some(b), None, None) => if last && s[i + 2] == 61 && s[i + 3] == 61 {
            let mut v: Vec<u8> = Vec::new();
            v.push(a * 4 + b / 16);
            assert(v@ =~= seq![byte0(a, b)]);
            Some(v)
        } else {
            None
        },
        _ => None,
    }
}

/// Decodes standard padded base64.
pub fn base64_decode(s: &[u8]) -> (r: Option<Vec<u8>>)
    ensures
        match decode_base64(s@) {
            Some(b) => r is Some && r->Some_0@ == b,
            None => r is None,
        },
{
    let mut out: Vec<u8> = Vec::new();
    let mut i: usize = 0;
    assert(s@.subrange(0, s@.len() as int) =~= s@);
    assert(out@ + Seq::<u8>::empty() =~= out@);
    while i < s.len()
        invariant
            i <= s@.len(),
            decode_base64(s@) == prepend(out@, decode_base64(s@.subrange(i as int, s@.len() as int))),
        decreases s.len() - i,
    {
        let ghost rest = s@.subrange(i as int, s@.len() as int);
        let ghost before = out@;
        if s.len() - i < 4 {
            return None;
        }
        let last = s.len() - i == 4;
        assert(rest.subrange(0, 4) =~= s@.subrange(i as int, i + 4));
        match decode_group_at(s, i, last) {
            Some(mut b) => {
                out.append(&mut b);
            },
            None => {
                return None;
            },
        }
        if last {
            assert(s@.subrange(i + 4, s@.len() as int) =~= Seq::<u8>::empty());
        } else {
            assert(rest.subrange(4, rest.len() as int) =~= s@.subrange(i + 4, s@.len() as int));
        }
        proof {
            let tail = decode_base64(s@.subrange(i + 4, s@.len() as int));
            if let Some(t) = tail {
                let g = out@.subrange(before.len() as int, out@.len() as int);
                assert(before + (g + t) =~= out@ + t);
            }
        }
        i = i + 4;
    }
    assert(out@ + Seq::<u8>::empty() =~= out@);
    Some(out)
}

/// Index of the first `b` in `s`, or the length of `s` when there is none.
pub open spec fn find_byte(s: Seq<u8>, b: u8) -> int
    decreases s.len(),
{
    if s.len() == 0 {
        0
    } else if s[0] == b {
        0
    } else {
        1 + find_byte(s.drop_first(), b)
    }
}

proof fn lemma_find_byte(s: Seq<u8>, b: u8, k: int)
    requires
        0 <= k <= s.len(),
        forall|j: int| 0 <= j < k ==> s[j] != b,
        k == s.len() || s[k] == b,
    ensures
        find_byte(s, b) == k,
    decreases k,
{
    if k > 0 {
        assert forall|j: int| 0 <= j < k - 1 implies s.drop_first()[j] != b by {
            assert(s[j + 1] != b);
        }
        lemma_find_byte(s.drop_first(), b, k - 1);
    }
}

/// `Basic ` and a space, the scheme of an HTTP Basic credential.
pub open spec fn basic_scheme() -> Seq<u8> {
    seq![66u8, 97u8, 115u8, 105u8, 99u8, 32u8]
}

/// The secret of an `Authorization` header value: the scheme `Basic `, then
/// base64 of `user:secret`; the secret follows the first `:`.
pub open spec fn basic_secret(h: Seq<u8>) -> Option<Seq<u8>> {
    if h.len() >= 6 && h.subrange(0, 6) == basic_scheme() {
        match decode_base64(h.subrange(6, h.len() as int)) {
            Some(pair) => {
                let k = find_byte(pair, 58);
                if 0 <= k < pair.len() {
                    Some(pair.subrange(k + 1, pair.len() as int))
                } else {
                    None
                }
            },
            None => None,
        }
    } else {
        None
    }
}

/// The secret of the `Authorization` header value `h`, if it is a Basic credential.
pub fn basic_secret_of(h: &[u8]) -> (r: Option<Vec<u8>>)
    ensures
        match basic_secret(h@) {
            Some(x) => r is Some && r->Some_0@ == x,
            None => r is None,
        },
{
    if h.len() < 6 || h[0] != 66 || h[1] != 97 || h[2] != 115 || h[3] != 105 || h[4] != 99 || h[5]
        != 32 {
        proof {
            if h@.len() >= 6 {
                assert(h@.subrange(0, 6)[0] == h@[0]);
                assert(h@.subrange(0, 6)[1] == h@[1]);
                assert(h@.subrange(0, 6)[2] == h@[2]);
                assert(h@.subrange(0, 6)[3] == h@[3]);
                assert(h@.subrange(0, 6)[4] == h@[4]);
                assert(h@.subrange(0, 6)[5] == h@[5]);
            }
        }
        return None;
    }
    assert(h@.subrange(0, 6) =~= basic_scheme());
    let mut tail: Vec<u8> = Vec::new();
    let mut i: usize = 6;
    while i < h.len()
        invariant
            6 <= i <= h@.len(),
            tail@ == h@.subrange(6, i as int),
        decreases h.len() - i,
    {
        tail.push(h[i]);
        i = i + 1;
        assert(tail@ =~= h@.subrange(6, i as int));
    }
    let pair = match base64_decode(tail.as_slice()) {
        Some(p) => p,
        None => {
            return None;
        },
    };
    let mut k: usize = 0;
    while k < pair.len() && pair[k] != 58
        invariant
            k <= pair@.len(),
            forall|j: int| 0 <= j < k ==> pair@[j] != 58,
        decreases pair.len() - k,
    {
        k = k + 1;
    }
    proof {
        lemma_find_byte(pair@, 58, k as int);
    }
    if k == pair.len() {
        return None;
    }
    let mut secret: Vec<u8> = Vec::new();
    let mut j: usize = k + 1;
    while j < pair.len()
        invariant
            k < j <= pair@.len(),
            secret@ == pair@.subrange(k + 1, j as int),
        decreases pair.len() - j,
    {
        secret.push(pair[j]);
        j = j + 1;
        assert(secret@ =~= pair@.subrange(k + 1, j as int));
    }
    Some(secret)
}

/// Whether a request with the `Authorization` header value `authorization`
/// is let through: always when no password is set, else only with a Basic
/// credential whose secret is the password's UTF-8 bytes.
pub open spec fn admits(password: Option<Seq<char>>, authorization: Option<Seq<u8>>) -> bool {
    match password {
        None => true,
        Some(p) => match authorization {
            Some(h) => basic_secret(h) == Some(vstd::utf8::encode_utf8(p)),
            None => false,
        },
    }
}

#[verifier::loop_isolation(false)]
pub fn authorized(password: &Option<String>, authorization: Option<&[u8]>) -> (r: bool)
    ensures
        r == admits(
            match password {
                Some(p) => Some(p@),
                None => None,
            },
            match authorization {
                Some(h) => Some(h@),
                None => None,
            },
        ),
{
    match password {
        None => true,
        Some(p) => match authorization {
            Some(h) => match basic_secret_of(h) {
                Some(secret) => {
                    let want = p.as_str().as_bytes();
                    if secret.len() != want.len() {
                        assert(secret@.len() != want@.len());
                        return false;
                    }
                    let mut i: usize = 0;
                    while i < want.len()
                        invariant
                            secret@.len() == want@.len(),
                            i <= want@.len(),
                            forall|j: int| 0 <= j < i ==> secret@[j] == want@[j],
                        decreases want.len() - i,
                    {
                        if secret[i] != want[i] {
                            assert(secret@[i as int] != want@[i as int]);
                            return false;
                        }
                        i = i + 1;
                    }
                    assert(secret@ =~= want@);
                    true
                },
                None => false,
            },
            None => false,
        },
    }
}

/// Optional white space around a header value: space, tab, and the
/// carriage return that ends a line.
pub open spec fn is_ows(b: u8) -> bool {
    b == 32 || b == 9 || b == 13
}

pub open spec fn trim_ows_start(s: Seq<u8>) -> Seq<u8>
    decreases s.len(),
{
    if s.len() > 0 && is_ows(s[0]) {
        trim_ows_start(s.drop_first())
    } else {
        s
    }
}

pub open spec fn trim_ows_end(s: Seq<u8>) -> Seq<u8>
    decreases s.len(),
{
    if s.len() > 0 && is_ows(s.last()) {
        trim_ows_end(s.drop_last())
    } else {
        s
    }
}

proof fn lemma_trim_ows_start(s: Seq<u8>, a: int)
    requires
        0 <= a <= s.len(),
        forall|j: int| 0 <= j < a ==> is_ows(s[j]),
        a == s.len() || !is_ows(s[a]),
    ensures
        trim_ows_start(s) == s.subrange(a, s.len() as int),
    decreases a,
{
    if a == 0 {
        assert(s.subrange(0, s.len() as int) =~= s);
    } else {
        assert forall|j: int| 0 <= j < a - 1 implies is_ows(s.drop_first()[j]) by {
            assert(is_ows(s[j + 1]));
        }
        lemma_trim_ows_start(s.drop_first(), a - 1);
        assert(s.drop_first().subrange(a - 1, s.len() - 1) =~= s.subrange(a, s.len() as int));
    }
}

proof fn lemma_trim_ows_end(s: Seq<u8>, b: int)
    requires
        0 <= b <= s.len(),
        forall|j: int| b <= j < s.len() ==> is_ows(s[j]),
        b == 0 || !is_ows(s[b - 1]),
    ensures
        trim_ows_end(s) == s.subrange(0, b),
    decreases s.len() - b,
{
    if b == s.len() {
        assert(s.subrange(0, b) =~= s);
    } else {
        assert forall|j: int| b <= j < s.len() - 1 implies is_ows(s.drop_last()[j]) by {
            assert(is_ows(s[j]));
        }
        lemma_trim_ows_end(s.drop_last(), b);
        assert(s.drop_last().subrange(0, b) =~= s.subrange(0, b));
    }
}

/// An ASCII byte in lower case.
pub open spec fn lower(b: u8) -> u8 {
    if 65 <= b <= 90 {
        (b + 32) as u8
    } else {
        b
    }
}

/// `authorization`, in lower case.
pub open spec fn authorization_name() -> Seq<u8> {
    seq![97u8, 117u8, 116u8, 104u8, 111u8, 114u8, 105u8, 122u8, 97u8, 116u8, 105u8, 111u8, 110u8]
}

/// Whether a header name is `Authorization`, in any case.
pub open spec fn is_authorization(name: Seq<u8>) -> bool {
    name.len() == authorization_name().len() && forall|i: int|
        0 <= i < name.len() ==> lower(#[trigger] name[i]) == authorization_name()[i]
}

/// The value of a header line, when its name is `Authorization`.
pub open spec fn authorization_in_line(line: Seq<u8>) -> Option<Seq<u8>> {
    let k = find_byte(line, 58);
    if 0 <= k < line.len() && is_authorization(line.subrange(0, k)) {
        Some(trim_ows_start(trim_ows_end(line.subrange(k + 1, line.len() as int))))
    } else {
        None
    }
}

/// The value of the first `Authorization` header among the lines of `s`.
pub open spec fn authorization_header(s: Seq<u8>) -> Option<Seq<u8>>
    decreases s.len(),
{
    if s.len() == 0 {
        None
    } else {
        let e = find_byte(s, 10);
        match authorization_in_line(s.subrange(0, e)) {
            Some(v) => Some(v),
            None => if 0 <= e < s.len() {
                authorization_header(s.subrange(e + 1, s.len() as int))
            } else {
                None
            },
        }
    }
}

fn lower_byte(b: u8) -> (r: u8)
    ensures
        r == lower(b),
{
    if 65 <= b && b <= 90 {
        b + 32
    } else {
        b
    }
}

/// The value of the `Authorization` header in the line `head[from..to]`.
#[verifier::loop_isolation(false)]
fn authorization_in(head: &[u8], from: usize, to: usize) -> (r: Option<Vec<u8>>)
    requires
        from <= to <= head@.len(),
    ensures
        match authorization_in_line(head@.subrange(from as int, to as int)) {
            Some(v) => r is Some && r->Some_0@ == v,
            None => r is None,
        },
{
    let ghost line = head@.subrange(from as int, to as int);
    let mut k = from;
    while k < to && head[k] != 58
        invariant
            from <= k <= to <= head@.len(),
            forall|j: int| from <= j < k ==> head@[j] != 58,
        decreases to - k,
    {
        k = k + 1;
    }
    proof {
        assert forall|j: int| 0 <= j < k - from implies line[j] != 58 by {
            assert(line[j] == head@[from + j]);
        }
        lemma_find_byte(line, 58, k - from);
    }
    if k == to {
        return None;
    }
    let ghost name = head@.subrange(from as int, k as int);
    assert(line.subrange(0, k - from) =~= name);
    proof {
        reveal_strlit("authorization");
    }
    let want: &[u8] = "authorization".as_bytes();
    assert(want@ =~= authorization_name()) by {
        reveal_strlit("authorization");
        vstd::string::is_ascii_spec_bytes("authorization");
    }
    if k - from != want.len() {
        return None;
    }
    let mut i: usize = 0;
    while i < want.len()
        invariant
            from <= k <= to <= head@.len(),
            k - from == want@.len(),
            want@ == authorization_name(),
            name == head@.subrange(from as int, k as int),
            i <= want@.len(),
            forall|j: int| 0 <= j < i ==> lower(#[trigger] name[j]) == authorization_name()[j],
        decreases want.len() - i,
    {
        if lower_byte(head[from + i]) != want[i] {
            assert(lower(name[i as int]) != authorization_name()[i as int]);
            return None;
        }
        i = i + 1;
    }
    let ghost rest = head@.subrange(k + 1, to as int);
    assert(line.subrange(k - from + 1, line.len() as int) =~= rest);
    let mut b = to;
    while b > k + 1 && (head[b - 1] == 32 || head[b - 1] == 9 || head[b - 1] == 13)
        invariant
            k + 1 <= b <= to <= head@.len(),
            forall|j: int| b <= j < to ==> is_ows(#[trigger] head@[j]),
        decreases b,
    {
        b = b - 1;
    }
    proof {
        assert forall|j: int| b - k - 1 <= j < rest.len() implies is_ows(rest[j]) by {
            assert(rest[j] == head@[k + 1 + j]);
        }
        lemma_trim_ows_end(rest, b - k - 1);
    }
    let mut a = k + 1;
    while a < b && (head[a] == 32 || head[a] == 9 || head[a] == 13)
        invariant
            k + 1 <= a <= b <= to <= head@.len(),
            forall|j: int| k + 1 <= j < a ==> is_ows(#[trigger] head@[j]),
        decreases b - a,
    {
        a = a + 1;
    }
    proof {
        let t = rest.subrange(0, b - k - 1);
        assert forall|j: int| 0 <= j < a - k - 1 implies is_ows(t[j]) by {
            assert(t[j] == head@[k + 1 + j]);
        }
        lemma_trim_ows_start(t, a - k - 1);
        assert(t.subrange(a - k - 1, t.len() as int) =~= head@.subrange(a as int, b as int));
    }
    let mut v: Vec<u8> = Vec::new();
    let mut j = a;
    while j < b
        invariant
            a <= j <= b <= head@.len(),
            v@ == head@.subrange(a as int, j as int),
        decreases b - j,
    {
        v.push(head[j]);
        j = j + 1;
        assert(v@ =~= head@.subrange(a as int, j as int));
    }
    Some(v)
}

/// The value of the first `Authorization` header in a request head, its
/// lines ending in a newline.
pub fn find_authorization(head: &[u8]) -> (r: Option<Vec<u8>>)
    ensures
        match authorization_header(head@) {
            Some(v) => r is Some && r->Some_0@ == v,
            None => r is None,
        },
{
    let mut start: usize = 0;
    assert(head@.subrange(0, head@.len() as int) =~= head@);
    while start < head.len()
        invariant
            start <= head@.len(),
            authorization_header(head@) == authorization_header(
                head@.subrange(start as int, head@.len() as int),
            ),
        decreases head.len() - start,
    {
        let ghost rest = head@.subrange(start as int, head@.len() as int);
        let mut e = start;
        while e < head.len() && head[e] != 10
            invariant
                start <= e <= head@.len(),
                forall|j: int| start <= j < e ==> head@[j] != 10,
            decreases head.len() - e,
        {
            e = e + 1;
        }
        proof {
            assert forall|j: int| 0 <= j < e - start implies rest[j] != 10 by {
                assert(rest[j] == head@[start + j]);
            }
            lemma_find_byte(rest, 10, e - start);
            assert(rest.subrange(0, e - start) =~= head@.subrange(start as int, e as int));
            if e < head.len() {
                assert(rest.subrange(e - start + 1, rest.len() as int) =~= head@.subrange(
                    e + 1,
                    head@.len() as int,
                ));
            }
        }
        match authorization_in(head, start, e) {
            Some(v) => {
                return Some(v);
            },
            None => {},
        }
        if e == head.len() {
            return None;
        }
        start = e + 1;
    }
    None
}

/// Whether the four bytes of `s` that end at `i` are `\r\n\r\n`.
pub open spec fn blank_line_ends_at(s: Seq<u8>, i: int) -> bool {
    4 <= i <= s.len() && s[i - 4] == 13 && s[i - 3] == 10 && s[i - 2] == 13 && s[i - 1] == 10
}

/// The length of the request head in `buf`: up to and with the first empty
/// line, or `None` while `buf` holds no empty line yet.
pub fn head_len(buf: &[u8]) -> (r: Option<usize>)
    ensures
        r matches Some(n) ==> blank_line_ends_at(buf@, n as int) && forall|j: int|
            0 <= j < n ==> !blank_line_ends_at(buf@, j),
        r is None ==> forall|j: int| 0 <= j <= buf@.len() ==> !blank_line_ends_at(buf@, j),
{
    let mut i: usize = 3;
    if buf.len() < 4 {
        return None;
    }
    while i < buf.len()
        invariant
            3 <= i <= buf@.len(),
            forall|j: int| 0 <= j <= i ==> !blank_line_ends_at(buf@, j),
        decreases buf.len() - i,
    {
        if buf[i - 3] == 13 && buf[i - 2] == 10 && buf[i - 1] == 13 && buf[i] == 10 {
            return Some(i + 1);
        }
        i = i + 1;
    }
    None
}

/// Whether a request whose head is `head` is let through by the password `password`.
pub fn admit_request(password: &Option<String>, head: &[u8]) -> (r: bool)
    ensures
        r == admits(
            match password {
                Some(p) => Some(p@),
                None => None,
            },
            authorization_header(head@),
        ),
{
    let found = find_authorization(head);
    match found {
        Some(v) => authorized(password, Some(v.as_slice())),
        None => authorized(password, None),
    }
}

/// The answer to a request that the password check refuses.
pub fn unauthorized_response() -> (r: &'static str)
    ensures
        r@ == "HTTP/1.1 401 Unauthorized\r\nWWW-Authenticate: Basic realm=\"thunder\"\r\nContent-Length: 0\r\nConnection: close\r\n\r\n"@,
{
    "HTTP/1.1 401 Unauthorized\r\nWWW-Authenticate: Basic realm=\"thunder\"\r\nContent-Length: 0\r\nConnection: close\r\n\r\n"
}

} // verus!
