use vstd::prelude::*;

use crate::text::{push_all, matches_at};

verus! {

/// Lower-case hexadecimal digits, indexed by value.
pub open spec fn hex_digits() -> Seq<char> {
    seq!['0', '1', '2', '3', '4', '5', '6', '7', '8', '9', 'a', 'b', 'c', 'd', 'e', 'f']
}

/// The JSON escape of one character inside a string literal: the short
/// forms for quote, backslash and the five named control characters, a
/// `\u00XX` form for the other control characters, the character itself
/// otherwise.
pub open spec fn esc_char(c: char) -> Seq<char> {
    if c == '"' {
        seq!['\\', '"']
    } else if c == '\\' {
        seq!['\\', '\\']
    } else if c == '\u{8}' {
        seq!['\\', 'b']
    } else if c == '\u{c}' {
        seq!['\\', 'f']
    } else if c == '\n' {
        seq!['\\', 'n']
    } else if c == '\r' {
        seq!['\\', 'r']
    } else if c == '\t' {
        seq!['\\', 't']
    } else if (c as u32) < 32 {
        seq!['\\', 'u', '0', '0', hex_digits()[(c as u32) as int / 16], hex_digits()[(c as u32) as int % 16]]
    } else {
        seq![c]
    }
}

/// The escaped body of a JSON string literal.
pub open spec fn esc(s: Seq<char>) -> Seq<char>
    decreases s.len(),
{
    if s.len() == 0 {
        seq![]
    } else {
        esc_char(s[0]) + esc(s.drop_first())
    }
}

/// A JSON string literal: the escaped body between quotes.
pub open spec fn quoted(s: Seq<char>) -> Seq<char> {
    seq!['"'] + esc(s) + seq!['"']
}

/// The value of a hexadecimal digit of either case, or -1.
pub open spec fn hex_val(c: char) -> int {
    let v = c as u32;
    if 48 <= v <= 57 {
        v - 48
    } else if 97 <= v <= 102 {
        v - 87
    } else if 65 <= v <= 70 {
        v - 55
    } else {
        -1
    }
}

/// The value of the four hexadecimal digits at `i`, or -1.
pub open spec fn hex4(t: Seq<char>, i: int) -> int {
    if 0 <= i && i + 4 <= t.len() && hex_val(t[i]) >= 0 && hex_val(t[i + 1]) >= 0 && hex_val(
        t[i + 2],
    ) >= 0 && hex_val(t[i + 3]) >= 0 {
        hex_val(t[i]) * 4096 + hex_val(t[i + 1]) * 256 + hex_val(t[i + 2]) * 16 + hex_val(t[i + 3])
    } else {
        -1
    }
}

/// The code point of a character.
pub open spec fn code_of(c: char) -> int {
    (c as u32) as int
}

/// The character whose code point is `v`.
pub open spec fn code_char(v: int) -> char {
    choose|c: char| #[trigger] code_of(c) == v
}

/// Reads one character of a JSON string body at the front of `t`: the
/// character and the number of input characters it took. Every JSON escape
/// is read: the two-character ones, `\uXXXX` of a code point outside the
/// surrogates, and a surrogate pair written as two `\u` escapes. `None`
/// where the front is a quote, a control character or no valid escape.
pub open spec fn unesc_one(t: Seq<char>) -> Option<(char, int)> {
    if t.len() == 0 {
        None
    } else if t[0] != '\\' {
        if (t[0] as u32) < 32 || t[0] == '"' {
            None
        } else {
            Some((t[0], 1))
        }
    } else if t.len() < 2 {
        None
    } else if t[1] == '"' {
        Some(('"', 2))
    } else if t[1] == '\\' {
        Some(('\\', 2))
    } else if t[1] == '/' {
        Some(('/', 2))
    } else if t[1] == 'b' {
        Some(('\u{8}', 2))
    } else if t[1] == 'f' {
        Some(('\u{c}', 2))
    } else if t[1] == 'n' {
        Some(('\n', 2))
    } else if t[1] == 'r' {
        Some(('\r', 2))
    } else if t[1] == 't' {
        Some(('\t', 2))
    } else if t[1] == 'u' && hex4(t, 2) >= 0 {
        let v = hex4(t, 2);
        if 0xD800 <= v < 0xDC00 {
            if t.len() >= 12 && t[6] == '\\' && t[7] == 'u' && 0xDC00 <= hex4(t, 8) < 0xE000 {
                Some((code_char(0x10000 + (v - 0xD800) * 1024 + (hex4(t, 8) - 0xDC00)), 12))
            } else {
                None
            }
        } else if 0xDC00 <= v < 0xE000 {
            None
        } else {
            Some((code_char(v), 6))
        }
    } else {
        None
    }
}

/// Reads an escaped string body up to its closing quote: the string and the
/// position of that quote.
pub open spec fn unq(t: Seq<char>) -> Option<(Seq<char>, int)>
    decreases t.len(),
{
    if t.len() == 0 {
        None
    } else if t[0] == '"' {
        Some((seq![], 0))
    } else {
        match unesc_one(t) {
            Some((c, n)) => if 1 <= n <= t.len() {
                match unq(t.subrange(n, t.len() as int)) {
                    Some((s, k)) => Some((seq![c] + s, k + n)),
                    None => None,
                }
            } else {
                None
            },
            None => None,
        }
    }
}

proof fn lemma_hex_digits()
    ensures
        forall|d: int| 0 <= d < 16 ==> hex_val(#[trigger] hex_digits()[d]) == d,
{
}

proof fn lemma_unesc_one_complete(c: char, rest: Seq<char>)
    ensures
        unesc_one(esc_char(c) + rest) == Some((c, esc_char(c).len() as int)),
{
    let t = esc_char(c) + rest;
    lemma_hex_digits();
    if (c as u32) < 32 && c != '\u{8}' && c != '\u{c}' && c != '\n' && c != '\r' && c != '\t' {
        let v = (c as u32) as int;
        assert(hex_val(t[2]) == 0 && hex_val(t[3]) == 0);
        assert(hex_val(t[4]) == v / 16 && hex_val(t[5]) == v % 16);
        assert(hex4(t, 2) == v);
        assert(code_of(c) == v);
        assert(code_of(code_char(v)) == v);
    }
}

proof fn lemma_unesc_one_len(t: Seq<char>)
    ensures
        unesc_one(t) matches Some((c, n)) ==> 1 <= n <= t.len(),
{
}

proof fn lemma_esc_char_shape(c: char)
    ensures
        1 <= esc_char(c).len() <= 6,
        esc_char(c)[0] != '"',
{
}

/// Escaping distributes over concatenation.
pub proof fn lemma_esc_concat(a: Seq<char>, b: Seq<char>)
    ensures
        esc(a + b) == esc(a) + esc(b),
    decreases a.len(),
{
    if a.len() == 0 {
        assert(a + b =~= b);
        assert(esc(a) + esc(b) =~= esc(b));
    } else {
        assert((a + b).drop_first() =~= a.drop_first() + b);
        lemma_esc_concat(a.drop_first(), b);
        assert(esc(a + b) =~= esc(a) + esc(b));
    }
}

/// A string's escaped body followed by a quote reads back as that string.
pub proof fn lemma_unq_complete(s: Seq<char>, rest: Seq<char>)
    ensures
        unq(esc(s) + seq!['"'] + rest) == Some((s, esc(s).len() as int)),
    decreases s.len(),
{
    let t = esc(s) + seq!['"'] + rest;
    if s.len() == 0 {
        assert(t[0] == '"');
        assert(seq![] =~= s);
    } else {
        let c = s[0];
        let e = esc_char(c);
        lemma_esc_char_shape(c);
        let tail = esc(s.drop_first()) + seq!['"'] + rest;
        assert(t =~= e + tail);
        lemma_unesc_one_complete(c, tail);
        assert(t.subrange(e.len() as int, t.len() as int) =~= tail);
        lemma_unq_complete(s.drop_first(), rest);
        assert(seq![c] + s.drop_first() =~= s);
    }
}

/// A string body read back ends at a quote inside the text.
pub proof fn lemma_unq_sound(t: Seq<char>)
    ensures
        unq(t) matches Some((s, k)) ==> 0 <= k < t.len() && t[k] == '"',
    decreases t.len(),
{
    if t.len() > 0 && t[0] != '"' {
        lemma_unesc_one_len(t);
        if let Some((c, n)) = unesc_one(t) {
            let u = t.subrange(n, t.len() as int);
            lemma_unq_sound(u);
        }
    }
}

fn hex_digit_chars() -> (r: Vec<char>)
    ensures
        r@ == hex_digits(),
{
    let r: Vec<char> = vec!['0', '1', '2', '3', '4', '5', '6', '7', '8', '9', 'a', 'b', 'c', 'd', 'e', 'f'];
    assert(r@ =~= hex_digits());
    r
}

/// Appends the escape of one character.
fn push_esc_char(out: &mut Vec<char>, c: char)
    ensures
        final(out)@ == old(out)@ + esc_char(c),
{
    let e: Vec<char> = if c == '"' {
        vec!['\\', '"']
    } else if c == '\\' {
        vec!['\\', '\\']
    } else if c == '\u{8}' {
        vec!['\\', 'b']
    } else if c == '\u{c}' {
        vec!['\\', 'f']
    } else if c == '\n' {
        vec!['\\', 'n']
    } else if c == '\r' {
        vec!['\\', 'r']
    } else if c == '\t' {
        vec!['\\', 't']
    } else if (c as u32) < 32 {
        let digits = hex_digit_chars();
        let v = c as u32;
        vec!['\\', 'u', '0', '0', digits[(v / 16) as usize], digits[(v % 16) as usize]]
    } else {
        vec![c]
    };
    assert(e@ =~= esc_char(c));
    push_all(out, &e);
}

/// Appends the JSON string literal of `s`.
pub(crate) fn push_quoted(out: &mut Vec<char>, s: &Vec<char>)
    ensures
        final(out)@ == old(out)@ + quoted(s@),
{
    out.push('"');
    let ghost start = out@;
    let mut k: usize = 0;
    while k < s.len()
        invariant
            k <= s.len(),
            out@ == start + esc(s@.take(k as int)),
        decreases s.len() - k,
    {
        let ghost before = s@.take(k as int);
        push_esc_char(out, s[k]);
        k = k + 1;
        proof {
            assert(s@.take(k as int) =~= before + seq![s@[k - 1]]);
            lemma_esc_concat(before, seq![s@[k - 1]]);
            assert(seq![s@[k - 1]].drop_first() =~= Seq::<char>::empty());
            assert(esc(Seq::<char>::empty()) == Seq::<char>::empty());
            assert(esc_char(s@[k - 1]) + Seq::<char>::empty() =~= esc_char(s@[k - 1]));
            assert(esc(seq![s@[k - 1]]) =~= esc_char(s@[k - 1]));
        }
    }
    out.push('"');
    assert(s@.take(k as int) =~= s@);
    assert(out@ =~= old(out)@ + quoted(s@));
}

/// Relies on `char::from_u32`: the character of a code point, and `Some`
/// for every Unicode scalar value.
#[verifier::external_body]
fn char_from_code(v: u32) -> (r: Option<char>)
    ensures
        r matches Some(c) ==> c as u32 == v,
        (v < 0xD800 || 0xE000 <= v <= 0x10FFFF) ==> r is Some,
{
    char::from_u32(v)
}

fn hex_value(c: char) -> (r: Option<u32>)
    ensures
        r matches Some(v) ==> v as int == hex_val(c) && v < 16,
        r is None ==> hex_val(c) == -1,
{
    let v = c as u32;
    if 48 <= v && v <= 57 {
        Some(v - 48)
    } else if 97 <= v && v <= 102 {
        Some(v - 87)
    } else if 65 <= v && v <= 70 {
        Some(v - 55)
    } else {
        None
    }
}

fn hex4_at(t: &Vec<char>, i: usize) -> (r: Option<u32>)
    ensures
        r matches Some(v) ==> v as int == hex4(t@, i as int) && hex4(t@, i as int) >= 0,
        r is None ==> hex4(t@, i as int) == -1,
{
    if i > t.len() || t.len() - i < 4 {
        return None;
    }
    let a = match hex_value(t[i]) { Some(x) => x, None => return None };
    let b = match hex_value(t[i + 1]) { Some(x) => x, None => return None };
    let c = match hex_value(t[i + 2]) { Some(x) => x, None => return None };
    let d = match hex_value(t[i + 3]) { Some(x) => x, None => return None };
    Some(a * 4096 + b * 256 + c * 16 + d)
}

proof fn lemma_char_code_injective(a: char, b: char)
    requires
        a as u32 == b as u32,
    ensures
        a == b,
{
}

fn code_char_exec(v: u32) -> (r: char)
    requires
        v < 0xD800 || 0xE000 <= v <= 0x10FFFF,
    ensures
        r == code_char(v as int),
{
    match char_from_code(v) {
        Some(c) => {
            assert(code_of(c) == v);
            assert(code_of(code_char(v as int)) == v);
            proof {
                lemma_char_code_injective(c, code_char(v as int));
            }
            c
        },
        None => {
            assert(false);
            ' '
        },
    }
}

/// Reads a `\\u` escape at position `p`, alone or as a surrogate pair.
#[verifier::rlimit(50)]
fn unesc_u_at(t: &Vec<char>, p: usize) -> (r: Option<(char, usize)>)
    requires
        p + 2 <= t@.len(),
        t@[p as int] == '\\',
        t@[p + 1] == 'u',
    ensures
        r matches Some((c, n)) ==> unesc_one(t@.subrange(p as int, t@.len() as int)) == Some((c, n as int)),
        r is None ==> unesc_one(t@.subrange(p as int, t@.len() as int)) is None,
{
    let ghost u = t@.subrange(p as int, t@.len() as int);
    assert(t@.len() == t.len());
    let v = match hex4_at(t, p + 2) {
        Some(v) => v,
        None => {
            assert(hex4(u, 2) == hex4(t@, p + 2)) by {
                assert(forall|k: int| 0 <= k < u.len() ==> u[k] == t@[p + k]);
            }
            return None;
        },
    };
    assert(hex4(u, 2) == hex4(t@, p + 2)) by {
        assert(forall|k: int| 0 <= k < u.len() ==> u[k] == t@[p + k]);
    }
    if 0xD800 <= v && v < 0xDC00 {
        if t.len() - p >= 12 && t[p + 6] == '\\' && t[p + 7] == 'u' {
            let w = match hex4_at(t, p + 8) {
                Some(w) => w,
                None => {
                    assert(hex4(u, 8) == hex4(t@, p + 8)) by {
                        assert(forall|k: int| 0 <= k < u.len() ==> u[k] == t@[p + k]);
                    }
                    return None;
                },
            };
            assert(hex4(u, 8) == hex4(t@, p + 8)) by {
                assert(forall|k: int| 0 <= k < u.len() ==> u[k] == t@[p + k]);
            }
            if 0xDC00 <= w && w < 0xE000 {
                let code = 0x10000 + (v - 0xD800) * 1024 + (w - 0xDC00);
                return Some((code_char_exec(code), 12));
            }
        }
        None
    } else if 0xDC00 <= v && v < 0xE000 {
        None
    } else {
        Some((code_char_exec(v), 6))
    }
}

/// Reads one character of a string body at position `p`.
#[verifier::rlimit(50)]
fn unesc_at(t: &Vec<char>, p: usize) -> (r: Option<(char, usize)>)
    requires
        p < t@.len(),
    ensures
        r matches Some((c, n)) ==> unesc_one(t@.subrange(p as int, t@.len() as int)) == Some((c, n as int)),
        r is None ==> unesc_one(t@.subrange(p as int, t@.len() as int)) is None,
{
    let ghost u = t@.subrange(p as int, t@.len() as int);
    let c = t[p];
    if c != '\\' {
        if (c as u32) < 32 || c == '"' {
            return None;
        }
        return Some((c, 1));
    }
    if t.len() - p < 2 {
        return None;
    }
    let e = t[p + 1];
    if e == '"' {
        Some(('"', 2))
    } else if e == '\\' {
        Some(('\\', 2))
    } else if e == '/' {
        Some(('/', 2))
    } else if e == 'b' {
        Some(('\u{8}', 2))
    } else if e == 'f' {
        Some(('\u{c}', 2))
    } else if e == 'n' {
        Some(('\n', 2))
    } else if e == 'r' {
        Some(('\r', 2))
    } else if e == 't' {
        Some(('\t', 2))
    } else if e == 'u' {
        unesc_u_at(t, p)
    } else {
        None
    }
}

/// Reads the JSON string literal that begins at position `i`: the string and
/// the position after its closing quote.
pub(crate) fn read_quoted(t: &Vec<char>, i: usize) -> (r: Option<(Vec<char>, usize)>)
    ensures
        r matches Some((s, j)) ==> read_quoted_spec(t@, i as int) == Some((s@, j as int)),
        r is None ==> read_quoted_spec(t@, i as int) is None,
{
    if i >= t.len() || t[i] != '"' {
        return None;
    }
    let ghost base = t@.subrange(i + 1, t@.len() as int);
    let mut out: Vec<char> = Vec::new();
    let mut p: usize = i + 1;
    while p < t.len()
        invariant
            i + 1 <= p <= t@.len(),
            t@[i as int] == '"',
            base == t@.subrange(i + 1, t@.len() as int),
            unq(base) == match unq(t@.subrange(p as int, t@.len() as int)) {
                Some((s, k)) => Some((out@ + s, k + p - (i + 1))),
                None => None,
            },
        decreases t.len() - p,
    {
        let ghost u = t@.subrange(p as int, t@.len() as int);
        if t[p] == '"' {
            assert(unq(u) == Some((Seq::<char>::empty(), 0int)));
            assert(out@ + Seq::<char>::empty() =~= out@);
            assert(unq(base) == Some((out@ + Seq::<char>::empty(), 0 + p - (i + 1))));
            assert(unq(base) == Some((out@, p - (i + 1))));
            assert(t@[i as int] == '"');
            assert(read_quoted_spec(t@, i as int) == Some((out@, (p + 1) as int)));
            return Some((out, p + 1));
        }
        match unesc_at(t, p) {
            Some((c, n)) => {
                proof {
                    lemma_unesc_one_len(u);
                    assert(u.subrange(n as int, u.len() as int) =~= t@.subrange(p + n, t@.len() as int));
                    match unq(t@.subrange(p + n, t@.len() as int)) {
                        Some((s, k)) => assert(out@.push(c) + s =~= out@ + (seq![c] + s)),
                        None => {},
                    }
                }
                out.push(c);
                p = p + n;
            },
            None => {
                return None;
            },
        }
    }
    assert(t@.subrange(p as int, t@.len() as int).len() == 0);
    None
}

/// The JSON string literal at position `i`: its string and the position
/// after its closing quote.
pub open spec fn read_quoted_spec(t: Seq<char>, i: int) -> Option<(Seq<char>, int)> {
    if 0 <= i < t.len() && t[i] == '"' {
        match unq(t.subrange(i + 1, t.len() as int)) {
            Some((s, k)) => Some((s, i + 1 + k + 1)),
            None => None,
        }
    } else {
        None
    }
}

/// A literal read at `i` ends inside the text.
pub proof fn lemma_read_quoted_sound(t: Seq<char>, i: int)
    ensures
        read_quoted_spec(t, i) matches Some((s, j)) ==> i < j <= t.len(),
{
    if 0 <= i < t.len() && t[i] == '"' {
        lemma_unq_sound(t.subrange(i + 1, t.len() as int));
    }
}

/// A quoted string at `i` reads back as that string.
pub proof fn lemma_read_quoted_complete(t: Seq<char>, i: int, s: Seq<char>, rest: Seq<char>)
    requires
        0 <= i <= t.len(),
        t.subrange(i, t.len() as int) == quoted(s) + rest,
    ensures
        read_quoted_spec(t, i) == Some((s, i + quoted(s).len())),
{
    let w = t.subrange(i, t.len() as int);
    let body = esc(s) + seq!['"'] + rest;
    assert(quoted(s) + rest =~= seq!['"'] + body);
    assert(w.drop_first() =~= body);
    assert(t.subrange(i + 1, t.len() as int) =~= w.drop_first());
    assert(t[i] == w[0]);
    lemma_unq_complete(s, rest);
    assert(unq(t.subrange(i + 1, t.len() as int)) == Some((s, esc(s).len() as int)));
}

} // verus!
