//! The wire form of the response envelope: a compact JSON object
//! `{"code":...,"msg":"...","data":...}` whose payload field is omitted
//! entirely when absent. Rendering and reading are defined here over
//! plain characters; an already-rendered payload is spliced in verbatim.

use vstd::prelude::*;

use crate::parse::all_digits;
use crate::parse::dec_val;
use crate::parse::digit_val;
use crate::parse::is_dec_digit;
use crate::parse::str_chars;

verus! {

/// The character of one decimal digit.
pub open spec fn digit_char(d: nat) -> char {
    ((48 + d) as u8) as char
}

/// The lowercase character of one hexadecimal digit.
pub open spec fn hex_char(d: nat) -> char {
    if d < 10 {
        ((48 + d) as u8) as char
    } else {
        ((87 + d) as u8) as char
    }
}

/// The decimal digits of `n`, most significant first, no leading zeros.
pub open spec fn dec_digits(n: nat) -> Seq<char>
    decreases n,
{
    if n < 10 {
        seq![digit_char(n)]
    } else {
        dec_digits(n / 10).push(digit_char(n % 10))
    }
}

/// The decimal rendering of an integer: a minus sign exactly when it is
/// negative, then its digits.
pub open spec fn int_str(n: int) -> Seq<char> {
    if n < 0 {
        seq!['-'] + dec_digits((-n) as nat)
    } else {
        dec_digits(n as nat)
    }
}

/// The escaped form of one character inside a JSON string: quote and
/// backslash take a backslash, other control characters take the
/// four-digit hexadecimal escape, everything else stands as itself.
pub open spec fn esc_char(c: char) -> Seq<char> {
    if c == '"' {
        seq!['\\', '"']
    } else if c == '\\' {
        seq!['\\', '\\']
    } else if (c as u32) < 32 {
        seq!['\\', 'u', '0', '0', hex_char((c as u32 / 16) as nat), hex_char(
            (c as u32 % 16) as nat,
        )]
    } else {
        seq![c]
    }
}

/// The escaped form of a whole string.
pub open spec fn esc(s: Seq<char>) -> Seq<char>
    decreases s.len(),
{
    if s.len() == 0 {
        Seq::empty()
    } else {
        esc_char(s[0]) + esc(s.drop_first())
    }
}

/// The rendered envelope: the code, the escaped message, and — only when
/// a payload is present — a `data` field holding the already-rendered
/// payload verbatim. An absent payload leaves no trace, not a `null`.
pub open spec fn envelope_json(code: int, msg: Seq<char>, data: Option<Seq<char>>) -> Seq<char> {
    "{\"code\":"@ + int_str(code) + ",\"msg\":\""@ + esc(msg) + "\""@ + (match data {
        None => Seq::<char>::empty(),
        Some(d) => ",\"data\":"@ + d,
    }) + "}"@
}

/// Escaping distributes over appending one character.
pub proof fn lemma_esc_push(t: Seq<char>, c: char)
    ensures
        esc(t.push(c)) == esc(t) + esc_char(c),
    decreases t.len(),
{
    if t.len() == 0 {
        assert(t.push(c).drop_first() =~= t);
        assert(esc(t.push(c)) =~= esc(t) + esc_char(c));
    } else {
        lemma_esc_push(t.drop_first(), c);
        assert(t.push(c).drop_first() =~= t.drop_first().push(c));
        assert(esc(t.push(c)) == esc_char(t[0]) + (esc(t.drop_first()) + esc_char(c)));
        assert(esc_char(t[0]) + (esc(t.drop_first()) + esc_char(c)) =~= (esc_char(t[0]) + esc(
            t.drop_first(),
        )) + esc_char(c));
    }
}

/// Appends the characters of `s` to `out`.
fn push_str_chars(s: &str, out: &mut Vec<char>)
    ensures
        final(out)@ == old(out)@ + s@,
{
    let v = str_chars(s);
    let mut i: usize = 0;
    while i < v.len()
        invariant
            i <= v@.len(),
            v@ == s@,
            out@ == old(out)@ + s@.take(i as int),
        decreases v@.len() - i,
    {
        out.push(v[i]);
        proof {
            assert(old(out)@ + s@.take(i + 1) =~= (old(out)@ + s@.take(i as int)).push(
                s@[i as int],
            ));
        }
        i += 1;
    }
    proof {
        assert(s@.take(s@.len() as int) =~= s@);
    }
}

/// Appends the decimal digits of `n` to `out`.
fn push_digits(n: u32, out: &mut Vec<char>)
    ensures
        final(out)@ == old(out)@ + dec_digits(n as nat),
{
    let mut tmp: Vec<char> = Vec::new();
    let mut m: u32 = n;
    proof {
        assert(tmp@.reverse() =~= Seq::<char>::empty());
        assert(dec_digits(m as nat) + tmp@.reverse() =~= dec_digits(n as nat));
    }
    while m >= 10
        invariant
            dec_digits(n as nat) == dec_digits(m as nat) + tmp@.reverse(),
        decreases m,
    {
        let d: u8 = (m % 10) as u8;
        let ghost old_tmp = tmp@;
        tmp.push((48 + d) as char);
        proof {
            assert(digit_char((m % 10) as nat) == (48 + d) as char);
            assert(tmp@.reverse() =~= seq![digit_char((m % 10) as nat)] + old_tmp.reverse());
            assert(dec_digits((m / 10) as nat) + tmp@.reverse() =~= (dec_digits(
                (m / 10) as nat,
            ).push(digit_char((m % 10) as nat))) + old_tmp.reverse());
            assert(dec_digits(m as nat) == dec_digits((m / 10) as nat).push(
                digit_char((m % 10) as nat),
            ));
        }
        m = m / 10;
    }
    let d: u8 = m as u8;
    let ghost old_tmp = tmp@;
    tmp.push((48 + d) as char);
    proof {
        assert(digit_char(m as nat) == (48 + d) as char);
        assert(tmp@.reverse() =~= seq![digit_char(m as nat)] + old_tmp.reverse());
        assert(dec_digits(m as nat) =~= seq![digit_char(m as nat)]);
        assert(dec_digits(n as nat) == tmp@.reverse());
    }
    let k = tmp.len();
    let mut i: usize = 0;
    while i < k
        invariant
            i <= k,
            k == tmp@.len(),
            dec_digits(n as nat) == tmp@.reverse(),
            out@ == old(out)@ + tmp@.reverse().take(i as int),
        decreases k - i,
    {
        out.push(tmp[k - 1 - i]);
        proof {
            assert(tmp@.reverse()[i as int] == tmp@[k - 1 - i]);
            assert(old(out)@ + tmp@.reverse().take(i + 1) =~= (old(out)@ + tmp@.reverse().take(
                i as int,
            )).push(tmp@.reverse()[i as int]));
        }
        i += 1;
    }
    proof {
        assert(tmp@.reverse().take(tmp@.len() as int) =~= tmp@.reverse());
    }
}

/// Appends the decimal rendering of `code` to `out`.
fn push_i32(code: i32, out: &mut Vec<char>)
    ensures
        final(out)@ == old(out)@ + int_str(code as int),
{
    if code < 0 {
        out.push('-');
        let mag: u32 = if code == -2147483648i32 {
            2147483648u32
        } else {
            (-code) as u32
        };
        push_digits(mag, out);
        proof {
            assert(out@ =~= old(out)@ + (seq!['-'] + dec_digits(mag as nat)));
        }
    } else {
        push_digits(code as u32, out);
    }
}

/// Appends the escaped form of `msg` to `out`.
fn push_escaped(msg: &Vec<char>, out: &mut Vec<char>)
    ensures
        final(out)@ == old(out)@ + esc(msg@),
{
    let mut i: usize = 0;
    proof {
        assert(esc(msg@.take(0)) =~= Seq::<char>::empty());
        assert(out@ + esc(msg@.take(0)) =~= out@);
    }
    while i < msg.len()
        invariant
            i <= msg@.len(),
            out@ == old(out)@ + esc(msg@.take(i as int)),
        decreases msg@.len() - i,
    {
        let c = msg[i];
        let ghost done = out@;
        if c == '"' {
            out.push('\\');
            out.push('"');
        } else if c == '\\' {
            out.push('\\');
            out.push('\\');
        } else if (c as u32) < 32 {
            let x: u32 = c as u32;
            out.push('\\');
            out.push('u');
            out.push('0');
            out.push('0');
            out.push(hex_char_exec(x / 16));
            out.push(hex_char_exec(x % 16));
        } else {
            out.push(c);
        }
        proof {
            assert(out@ =~= done + esc_char(msg@[i as int]));
            lemma_esc_push(msg@.take(i as int), msg@[i as int]);
            assert(msg@.take(i + 1) =~= msg@.take(i as int).push(msg@[i as int]));
            assert(done + esc_char(msg@[i as int]) =~= old(out)@ + esc(msg@.take(i + 1)));
        }
        i += 1;
    }
    proof {
        assert(msg@.take(msg@.len() as int) =~= msg@);
    }
}

/// The lowercase character of one hexadecimal digit.
fn hex_char_exec(d: u32) -> (r: char)
    requires
        d < 16,
    ensures
        r == hex_char(d as nat),
{
    if d < 10 {
        ((48 + d) as u8) as char
    } else {
        ((87 + d) as u8) as char
    }
}

/// Relies on collecting an iterator of `char` into `String`: the string
/// holds exactly the given characters in order.
#[verifier::external_body]
fn chars_to_string(v: &Vec<char>) -> (r: String)
    ensures
        r@ == v@,
{
    v.iter().collect()
}

/// Renders the envelope with the given code and message around an
/// optional already-rendered payload. The payload field is omitted
/// entirely when the payload is absent.
pub fn encode_envelope(code: i32, msg: &str, data: Option<&str>) -> (r: String)
    ensures
        r@ == envelope_json(
            code as int,
            msg@,
            match data {
                Some(d) => Some(d@),
                None => None,
            },
        ),
{
    let mut out: Vec<char> = Vec::new();
    push_str_chars("{\"code\":", &mut out);
    push_i32(code, &mut out);
    push_str_chars(",\"msg\":\"", &mut out);
    let mv = str_chars(msg);
    push_escaped(&mv, &mut out);
    push_str_chars("\"", &mut out);
    match data {
        Some(d) => {
            push_str_chars(",\"data\":", &mut out);
            push_str_chars(d, &mut out);
        },
        None => {},
    }
    push_str_chars("}", &mut out);
    proof {
        let dv = match data {
            Some(d) => Some(d@),
            None => None,
        };
        assert(out@ =~= envelope_json(code as int, msg@, dv));
    }
    chars_to_string(&out)
}

/// A digit string with no leading zero has a positive value, and at
/// least ten when it has two or more digits.
proof fn lemma_dec_val_pos(t: Seq<char>)
    requires
        t.len() >= 1,
        all_digits(t),
        t[0] != '0',
    ensures
        dec_val(t) >= 1,
        t.len() >= 2 ==> dec_val(t) >= 10,
    decreases t.len(),
{
    if t.len() == 1 {
        assert(is_dec_digit(t[0]));
    } else {
        assert(t.drop_last()[0] == t[0]);
        assert(all_digits(t.drop_last()));
        lemma_dec_val_pos(t.drop_last());
    }
}

/// A digit string with no leading zero is exactly the canonical rendering
/// of its value.
proof fn lemma_dec_digits_canon(t: Seq<char>)
    requires
        t.len() >= 1,
        all_digits(t),
        t.len() >= 2 ==> t[0] != '0',
    ensures
        t == dec_digits(dec_val(t)),
    decreases t.len(),
{
    if t.len() == 1 {
        assert(is_dec_digit(t[0]));
        assert(dec_val(t) == digit_val(t[0])) by {
            assert(t.drop_last() =~= Seq::<char>::empty());
            assert(t.last() == t[0]);
            assert(dec_val(Seq::<char>::empty()) == 0);
        }
        assert(digit_char(digit_val(t[0])) == t[0]);
        assert(t =~= dec_digits(dec_val(t)));
    } else {
        let u = t.drop_last();
        let d = t.last();
        assert(u[0] == t[0]);
        assert(all_digits(u));
        assert(is_dec_digit(d));
        lemma_dec_val_pos(u);
        let a = dec_val(u);
        let b = digit_val(d);
        assert(dec_val(t) == a * 10 + b);
        assert(a * 10 + b >= 10) by (nonlinear_arith)
            requires
                a >= 1,
                b >= 0,
        ;
        assert((a * 10 + b) / 10 == a && (a * 10 + b) % 10 == b) by (nonlinear_arith)
            requires
                0 <= b < 10,
                0 <= a,
        ;
        lemma_dec_digits_canon(u);
        assert(digit_char(b) == d);
        assert(dec_digits(dec_val(t)) == dec_digits(a).push(d));
        assert(t =~= u.push(d));
    }
}

/// Whether `c` is a lowercase hexadecimal digit.
spec fn is_hex_lower(c: char) -> bool {
    ('0' <= c && c <= '9') || ('a' <= c && c <= 'f')
}

/// The value of a lowercase hexadecimal digit.
spec fn hex_val(c: char) -> nat {
    if '0' <= c && c <= '9' {
        (c as int - 48) as nat
    } else {
        (c as int - 87) as nat
    }
}

/// Compares the characters at `pos` against `lit`: true exactly when the
/// literal fits there and matches.
fn match_lit(v: &Vec<char>, pos: usize, lit: &str) -> (r: bool)
    ensures
        r <==> (pos + lit@.len() <= v@.len() && v@.subrange(pos as int, pos + lit@.len())
            == lit@),
{
    let n = lit.unicode_len();
    let vlen = v.len();
    if pos > vlen || n > vlen - pos {
        return false;
    }
    let mut j: usize = 0;
    while j < n
        invariant
            j <= n,
            n == lit@.len(),
            vlen == v@.len(),
            pos + n <= vlen,
            forall|k: int| 0 <= k < j ==> v@[pos + k] == lit@[k],
        decreases n - j,
    {
        if v[pos + j] != lit.get_char(j) {
            proof {
                if v@.subrange(pos as int, pos + lit@.len()) == lit@ {
                    assert(v@.subrange(pos as int, pos + lit@.len())[j as int] == v@[pos + j]);
                    assert(false);
                }
            }
            return false;
        }
        j += 1;
    }
    proof {
        assert(v@.subrange(pos as int, pos + lit@.len()) =~= lit@);
    }
    true
}

/// The end of the digit run beginning at `from`.
fn digits_end(v: &Vec<char>, from: usize) -> (q: usize)
    requires
        from <= v@.len(),
    ensures
        from <= q <= v@.len(),
        all_digits(v@.subrange(from as int, q as int)),
        q < v@.len() ==> !is_dec_digit(v@[q as int]),
{
    let mut q = from;
    while q < v.len()
        invariant
            from <= q <= v@.len(),
            forall|j: int| from <= j < q ==> is_dec_digit(#[trigger] v@[j]),
        decreases v@.len() - q,
    {
        let c = v[q];
        if c < '0' || c > '9' {
            proof {
                lemma_digit_range(v@, from as int, q as int);
            }
            return q;
        }
        q += 1;
    }
    proof {
        lemma_digit_range(v@, from as int, v@.len() as int);
    }
    q
}

/// Digits seen one by one make the whole range all digits.
proof fn lemma_digit_range(s: Seq<char>, from: int, to: int)
    requires
        0 <= from <= to <= s.len(),
        forall|j: int| from <= j < to ==> is_dec_digit(#[trigger] s[j]),
    ensures
        all_digits(s.subrange(from, to)),
{
    assert forall|j: int| 0 <= j < to - from implies is_dec_digit(
        #[trigger] s.subrange(from, to)[j],
    ) by {
        assert(s.subrange(from, to)[j] == s[from + j]);
    }
}

/// The canonical digits never begin with a zero unless they are the one
/// digit of zero itself.
proof fn lemma_dec_digits_lead(n: nat)
    ensures
        dec_digits(n).len() >= 2 ==> dec_digits(n)[0] != '0',
    decreases n,
{
    if n >= 10 {
        let u = dec_digits(n / 10);
        assert(dec_digits(n) == u.push(digit_char(n % 10)));
        lemma_dec_digits_value(n / 10);
        assert(dec_digits(n)[0] == u[0]);
        if n / 10 < 10 {
            assert(u == seq![digit_char(n / 10)]);
            assert(n / 10 >= 1);
            assert(digit_char(n / 10) != '0');
        } else {
            lemma_dec_digits_lead(n / 10);
            assert(u.len() >= 2) by {
                lemma_dec_digits_value(n / 10 / 10);
                assert(u == dec_digits(n / 10 / 10).push(digit_char((n / 10) % 10)));
            }
        }
    }
}

/// Hexadecimal digits render as lowercase hexadecimal characters, and
/// reading one back gives the digit.
proof fn lemma_hex_char_props(d: nat)
    requires
        d < 16,
    ensures
        is_hex_lower(hex_char(d)),
        hex_val(hex_char(d)) == d,
{
    if d < 10 {
    } else {
    }
}

/// Escaped text splits after any fully-escaped prefix: when a region is
/// an escaped string followed by a quote-opened tail, and a prefix of it
/// is the escape of some characters, the rest of the region is the escape
/// of the remaining characters followed by that same tail.
proof fn lemma_esc_split(ms: Seq<char>, rest: Seq<char>, out: Seq<char>, tail: Seq<char>)
    requires
        esc(ms) + (seq!['"'] + rest) == esc(out) + tail,
    ensures
        exists|mt: Seq<char>| #![auto] ms == out + mt && tail == esc(mt) + (seq!['"'] + rest),
    decreases out.len(),
{
    if out.len() == 0 {
        let mt = ms;
        assert(out + mt =~= ms);
        assert(esc(out) + tail =~= tail);
        assert(esc(ms) + (seq!['"'] + rest) == tail);
        assert(ms == out + mt && tail == esc(mt) + (seq!['"'] + rest));
    } else if ms.len() == 0 {
        assert((esc(ms) + (seq!['"'] + rest))[0] == '"') by {
            assert(esc(ms).len() == 0);
            assert((seq!['"'] + rest)[0] == '"');
        }
        assert(esc(out) == esc_char(out[0]) + esc(out.drop_first()));
        assert((esc(out) + tail)[0] == esc_char(out[0])[0]);
        assert(esc_char(out[0])[0] != '"');
        assert(false);
    } else {
        assert(esc(ms) == esc_char(ms[0]) + esc(ms.drop_first()));
        assert(esc(out) == esc_char(out[0]) + esc(out.drop_first()));
        assert(esc_char(ms[0]) + (esc(ms.drop_first()) + (seq!['"'] + rest)) =~= esc(ms) + (seq![
            '"',
        ] + rest));
        assert(esc_char(out[0]) + (esc(out.drop_first()) + tail) =~= esc(out) + tail);
        lemma_esc_char_determined(
            ms[0],
            out[0],
            esc(ms.drop_first()) + (seq!['"'] + rest),
            esc(out.drop_first()) + tail,
        );
        lemma_esc_split(ms.drop_first(), rest, out.drop_first(), tail);
        let mt = choose|mt: Seq<char>|
            #![auto]
            ms.drop_first() == out.drop_first() + mt && tail == esc(mt) + (seq!['"'] + rest);
        assert(ms =~= out + mt) by {
            assert(ms[0] == out[0]);
            assert(forall|j: int| 1 <= j < ms.len() ==> ms[j] == ms.drop_first()[j - 1]);
            assert(forall|j: int|
                1 <= j < out.len() ==> (out + mt)[j] == out[j] && out[j] == out.drop_first()[j
                    - 1]);
        }
        assert(ms == out + mt && tail == esc(mt) + (seq!['"'] + rest));
    }
}

/// What is left to scan after a fully-escaped prefix: the rest of the
/// region is the escape of the remaining characters followed by the same
/// quote-opened tail.
proof fn lemma_scan_tail(w: Seq<char>, start: int, i: int, out: Seq<char>, ms: Seq<char>, rest: Seq<char>)
    requires
        0 <= start <= i <= w.len(),
        esc(out) == w.subrange(start, i),
        w.subrange(start, w.len() as int) == esc(ms) + (seq!['"'] + rest),
    ensures
        exists|mt: Seq<char>|
            #![auto]
            ms == out + mt && w.subrange(i, w.len() as int) == esc(mt) + (seq!['"'] + rest),
{
    assert(w.subrange(start, w.len() as int) =~= w.subrange(start, i) + w.subrange(
        i,
        w.len() as int,
    ));
    lemma_esc_split(ms, rest, out, w.subrange(i, w.len() as int));
}

/// Whether the region of `w` from `start` onward is an escaped string
/// followed by a closing quote and anything after it.
spec fn quote_terminated(w: Seq<char>, start: int) -> bool {
    exists|ms: Seq<char>, rest: Seq<char>|
        #![auto]
        w.subrange(start, w.len() as int) == esc(ms) + (seq!['"'] + rest)
}

/// What the remaining region begins with: the closing quote when nothing
/// is left to escape, else the full escape of the next character.
proof fn lemma_tail_head(mt: Seq<char>, rest: Seq<char>, tail: Seq<char>)
    requires
        tail == esc(mt) + (seq!['"'] + rest),
    ensures
        tail.len() >= 1,
        mt.len() == 0 ==> tail[0] == '"',
        mt.len() > 0 ==> tail.len() >= esc_char(mt[0]).len() + 1,
        mt.len() > 0 ==> forall|k: int|
            0 <= k < esc_char(mt[0]).len() ==> tail[k] == #[trigger] esc_char(mt[0])[k],
{
    if mt.len() == 0 {
        assert(esc(mt).len() == 0);
        assert(tail =~= seq!['"'] + rest);
    } else {
        assert(esc(mt) == esc_char(mt[0]) + esc(mt.drop_first()));
        assert(tail =~= esc_char(mt[0]) + (esc(mt.drop_first()) + (seq!['"'] + rest)));
        assert((esc(mt.drop_first()) + (seq!['"'] + rest)).len() >= 1);
        assert(forall|k: int|
            0 <= k < esc_char(mt[0]).len() ==> tail[k] == #[trigger] esc_char(mt[0])[k]);
    }
}

/// Where the scanner can make no step: the region ends before a closing
/// quote, or holds something the escaper never produces.
spec fn scan_stuck(w: Seq<char>, i: int) -> bool {
    if i >= w.len() {
        true
    } else {
        let c = w[i];
        if c == '"' {
            false
        } else if c == '\\' {
            if i + 1 >= w.len() {
                true
            } else {
                let e = w[i + 1];
                if e == '"' || e == '\\' {
                    false
                } else if e == 'u' {
                    if i + 5 >= w.len() {
                        true
                    } else if w[i + 2] != '0' || w[i + 3] != '0' {
                        true
                    } else if !is_hex_lower(w[i + 4]) || !is_hex_lower(w[i + 5]) {
                        true
                    } else if hex_val(w[i + 4]) * 16 + hex_val(w[i + 5]) >= 32 {
                        true
                    } else {
                        false
                    }
                } else {
                    true
                }
            }
        } else if (c as u32) < 32 {
            true
        } else {
            false
        }
    }
}

/// The scanner never gets stuck inside a quote-terminated region: after
/// any fully-escaped prefix, the region continues with a closing quote or
/// with the complete escape of one more character.
proof fn lemma_scan_not_stuck(w: Seq<char>, start: int, i: int, out: Seq<char>)
    requires
        0 <= start <= i <= w.len(),
        esc(out) == w.subrange(start, i),
        quote_terminated(w, start),
    ensures
        !scan_stuck(w, i),
{
    let (ms, rest) = choose|ms: Seq<char>, rest: Seq<char>|
        #![auto]
        w.subrange(start, w.len() as int) == esc(ms) + (seq!['"'] + rest);
    lemma_scan_tail(w, start, i, out, ms, rest);
    let mt = choose|mt: Seq<char>|
        #![auto]
        ms == out + mt && w.subrange(i, w.len() as int) == esc(mt) + (seq!['"'] + rest);
    let tail = w.subrange(i, w.len() as int);
    lemma_tail_head(mt, rest, tail);
    assert(tail.len() == w.len() - i);
    assert(i < w.len());
    assert(tail[0] == w[i]);
    let c = w[i];
    if mt.len() == 0 {
        assert(c == '"');
        assert(!scan_stuck(w, i));
    } else {
        let a = mt[0];
        if !(a == '"' || a == '\\' || (a as u32) < 32) {
            assert(esc_char(a) =~= seq![a]);
            assert(c == a);
            assert(!scan_stuck(w, i));
        } else {
            assert(esc_char(a)[0] == '\\');
            assert(c == '\\');
            assert(esc_char(a).len() >= 2);
            assert(i + 1 < w.len());
            assert(tail[1] == w[i + 1]);
            if a == '"' || a == '\\' {
                assert(esc_char(a) =~= seq!['\\', a]);
                assert(w[i + 1] == a);
                assert(!scan_stuck(w, i));
            } else {
                let cc = a as u32;
                assert(esc_char(a) =~= seq!['\\', 'u', '0', '0', hex_char((cc / 16) as nat),
                    hex_char((cc % 16) as nat)]);
                assert(tail.len() >= 7);
                assert(i + 5 < w.len());
                assert(w[i + 1] == 'u');
                assert(tail[2] == w[i + 2] && w[i + 2] == '0');
                assert(tail[3] == w[i + 3] && w[i + 3] == '0');
                assert(tail[4] == w[i + 4] && w[i + 4] == hex_char((cc / 16) as nat));
                assert(tail[5] == w[i + 5] && w[i + 5] == hex_char((cc % 16) as nat));
                lemma_hex_char_props((cc / 16) as nat);
                lemma_hex_char_props((cc % 16) as nat);
                assert(hex_val(w[i + 4]) == cc / 16 && hex_val(w[i + 5]) == cc % 16);
                assert(hex_val(w[i + 4]) * 16 + hex_val(w[i + 5]) == cc);
                assert(cc < 32);
                assert(!scan_stuck(w, i));
            }
        }
    }
}

/// Reads the message region beginning at `start`: unescapes up to the
/// first closing quote, refusing anything the escaper would not have
/// produced, so that whatever is accepted escapes back to the input;
/// and accepting everything that is an escaped string up to a quote.
fn scan_msg(v: &Vec<char>, start: usize) -> (r: Option<(Vec<char>, usize)>)
    requires
        start <= v@.len(),
    ensures
        r matches Some(p) ==> start <= p.1 < v@.len() && v@[p.1 as int] == '"' && esc(p.0@)
            == v@.subrange(start as int, p.1 as int),
        quote_terminated(v@, start as int) ==> r is Some,
{
    let mut msg: Vec<char> = Vec::new();
    let mut i: usize = start;
    proof {
        assert(esc(msg@) =~= v@.subrange(start as int, start as int));
    }
    while i < v.len()
        invariant
            start <= i <= v@.len(),
            esc(msg@) == v@.subrange(start as int, i as int),
        decreases v@.len() - i,
    {
        let c = v[i];
        let ghost old_msg = msg@;
        if c == '"' {
            return Some((msg, i));
        } else if c == '\\' {
            if v.len() - i < 2 {
                proof {
                    if quote_terminated(v@, start as int) {
                        lemma_scan_not_stuck(v@, start as int, i as int, msg@);
                        assert(scan_stuck(v@, i as int));
                    }
                }
                return None;
            }
            let e = v[i + 1];
            if e == '"' || e == '\\' {
                msg.push(e);
                proof {
                    lemma_esc_push(old_msg, e);
                    assert(esc_char(e) =~= seq!['\\', e]);
                    assert(v@.subrange(start as int, i + 2) =~= v@.subrange(
                        start as int,
                        i as int,
                    ) + seq![v@[i as int], v@[i + 1]]);
                    assert(esc(msg@) =~= v@.subrange(start as int, i + 2));
                }
                i += 2;
            } else if e == 'u' {
                if v.len() - i < 6 {
                    proof {
                        if quote_terminated(v@, start as int) {
                            lemma_scan_not_stuck(v@, start as int, i as int, msg@);
                        }
                    }
                    return None;
                }
                if v[i + 2] != '0' || v[i + 3] != '0' {
                    proof {
                        if quote_terminated(v@, start as int) {
                            lemma_scan_not_stuck(v@, start as int, i as int, msg@);
                        }
                    }
                    return None;
                }
                let h1 = v[i + 4];
                let h2 = v[i + 5];
                if !hex_ok(h1) || !hex_ok(h2) {
                    proof {
                        if quote_terminated(v@, start as int) {
                            lemma_scan_not_stuck(v@, start as int, i as int, msg@);
                        }
                    }
                    return None;
                }
                let x: u32 = hex_val_exec(h1) * 16 + hex_val_exec(h2);
                if x >= 32 {
                    proof {
                        if quote_terminated(v@, start as int) {
                            lemma_scan_not_stuck(v@, start as int, i as int, msg@);
                        }
                    }
                    return None;
                }
                let u: char = (x as u8) as char;
                msg.push(u);
                proof {
                    lemma_esc_push(old_msg, u);
                    assert((x / 16) as nat == hex_val(h1) && (x % 16) as nat == hex_val(h2))
                        by (nonlinear_arith)
                        requires
                            x == hex_val(h1) * 16 + hex_val(h2),
                            0 <= hex_val(h2) < 16,
                            0 <= hex_val(h1),
                    ;
                    assert(hex_char(hex_val(h1)) == h1);
                    assert(hex_char(hex_val(h2)) == h2);
                    assert(u as u32 == x);
                    assert(esc_char(u) =~= seq!['\\', 'u', '0', '0', h1, h2]);
                    assert(v@.subrange(start as int, i + 6) =~= v@.subrange(
                        start as int,
                        i as int,
                    ) + seq![
                        v@[i as int],
                        v@[i + 1],
                        v@[i + 2],
                        v@[i + 3],
                        v@[i + 4],
                        v@[i + 5],
                    ]);
                    assert(esc(msg@) =~= v@.subrange(start as int, i + 6));
                }
                i += 6;
            } else {
                proof {
                    if quote_terminated(v@, start as int) {
                        lemma_scan_not_stuck(v@, start as int, i as int, msg@);
                        assert(scan_stuck(v@, i as int));
                    }
                }
                return None;
            }
        } else if (c as u32) < 32 {
            proof {
                if quote_terminated(v@, start as int) {
                    lemma_scan_not_stuck(v@, start as int, i as int, msg@);
                    assert(scan_stuck(v@, i as int));
                }
            }
            return None;
        } else {
            msg.push(c);
            proof {
                lemma_esc_push(old_msg, c);
                assert(esc_char(c) =~= seq![c]);
                assert(v@.subrange(start as int, i + 1) =~= v@.subrange(start as int, i as int)
                    + seq![v@[i as int]]);
                assert(esc(msg@) =~= v@.subrange(start as int, i + 1));
            }
            i += 1;
        }
    }
    proof {
        if quote_terminated(v@, start as int) {
            lemma_scan_not_stuck(v@, start as int, i as int, msg@);
            assert(scan_stuck(v@, i as int));
        }
    }
    None
}

/// Whether `c` is a lowercase hexadecimal digit.
fn hex_ok(c: char) -> (r: bool)
    ensures
        r == is_hex_lower(c),
{
    ('0' <= c && c <= '9') || ('a' <= c && c <= 'f')
}

/// The value of a lowercase hexadecimal digit.
fn hex_val_exec(c: char) -> (r: u32)
    requires
        is_hex_lower(c),
    ensures
        r == hex_val(c),
        r < 16,
{
    if '0' <= c && c <= '9' {
        (c as u32) - 48
    } else {
        (c as u32) - 87
    }
}

/// How a rendering decomposes: where each region of the rendered
/// envelope sits and what it holds.
proof fn lemma_envelope_structure(c: int, m: Seq<char>, d: Option<Seq<char>>, s: Seq<char>)
    requires
        s == envelope_json(c, m, d),
    ensures
        int_str(c).len() >= 1,
        s.len() == 18 + int_str(c).len() + esc(m).len() + (match d {
            None => 0,
            Some(dd) => 8 + dd.len(),
        }),
        s.subrange(0, 8) == "{\"code\":"@,
        s.subrange(8, 8 + int_str(c).len() as int) == int_str(c),
        s.subrange(8 + int_str(c).len() as int, 16 + int_str(c).len() as int) == ",\"msg\":\""@,
        s[8 + int_str(c).len() as int] == ',',
        s.subrange(
            16 + int_str(c).len() as int,
            16 + int_str(c).len() + esc(m).len() as int,
        ) == esc(m),
        s[16 + int_str(c).len() + esc(m).len() as int] == '"',
        s[s.len() - 1] == '}',
        d matches Some(dd) ==> s.subrange(
            17 + int_str(c).len() + esc(m).len() as int,
            25 + int_str(c).len() + esc(m).len() as int,
        ) == ",\"data\":"@,
        d matches Some(dd) ==> s.subrange(25 + int_str(c).len() + esc(m).len() as int, s.len() - 1)
            == dd,
{
    reveal_strlit("{\"code\":");
    reveal_strlit(",\"msg\":\"");
    reveal_strlit("\"");
    reveal_strlit(",\"data\":");
    reveal_strlit("}");
    lemma_int_str_chars(c);
    let il = int_str(c).len() as int;
    let el = esc(m).len() as int;
    assert(s.subrange(0, 8) =~= "{\"code\":"@) by {
        assert forall|k: int| 0 <= k < 8 implies s[k] == "{\"code\":"@[k] by {}
    }
    assert(s.subrange(8, 8 + il) =~= int_str(c)) by {
        assert forall|k: int| 0 <= k < il implies s[8 + k] == int_str(c)[k] by {}
    }
    assert(s.subrange(8 + il, 16 + il) =~= ",\"msg\":\""@) by {
        assert forall|k: int| 0 <= k < 8 implies s[8 + il + k] == ",\"msg\":\""@[k] by {}
    }
    assert(s[8 + il] == s.subrange(8 + il, 16 + il)[0]);
    assert(s.subrange(16 + il, 16 + il + el) =~= esc(m)) by {
        assert forall|k: int| 0 <= k < el implies s[16 + il + k] == esc(m)[k] by {}
    }
    match d {
        None => {},
        Some(dd) => {
            assert(s.subrange(17 + il + el, 25 + il + el) =~= ",\"data\":"@) by {
                assert forall|k: int| 0 <= k < 8 implies s[17 + il + el + k] == ",\"data\":"@[k]
                    by {}
            }
            assert(s.subrange(25 + il + el, s.len() - 1) =~= dd) by {
                assert forall|k: int| 0 <= k < dd.len() implies s[25 + il + el + k] == dd[k]
                    by {}
            }
        },
    }
}

/// Where the decoder's digit run ends on a rendered envelope: exactly at
/// the comma after the rendered code, holding its canonical digits.
proof fn lemma_decode_digits(
    c: int,
    m: Seq<char>,
    d: Option<Seq<char>>,
    s: Seq<char>,
    p: int,
    q: int,
)
    requires
        s == envelope_json(c, m, d),
        -0x8000_0000 <= c <= 0x7fff_ffff,
        p == (if s[8] == '-' {
            9int
        } else {
            8int
        }),
        p <= q <= s.len(),
        all_digits(s.subrange(p, q)),
        q < s.len() ==> !is_dec_digit(s[q]),
    ensures
        (s[8] == '-') <==> c < 0,
        q == 8 + int_str(c).len() as int,
        q - p >= 1,
        s.subrange(p, q) == dec_digits((if c < 0 {
            -c
        } else {
            c
        }) as nat),
        dec_val(s.subrange(p, q)) == (if c < 0 {
            -c
        } else {
            c
        }),
        dec_val(s.subrange(p, q)) <= 2147483648,
        q - p >= 2 ==> s[p] != '0',
{
    lemma_envelope_structure(c, m, d, s);
    let il = int_str(c).len() as int;
    let n = (if c < 0 {
        -c
    } else {
        c
    }) as nat;
    lemma_dec_digits_value(n);
    lemma_dec_digits_lead(n);
    let dstart = if c < 0 {
        9int
    } else {
        8int
    };
    if c < 0 {
        assert(int_str(c) == seq!['-'] + dec_digits(n));
        assert(s[8] == s.subrange(8, 8 + il)[0]);
        assert(int_str(c)[0] == '-');
    } else {
        assert(int_str(c) == dec_digits(n));
        assert(s[8] == s.subrange(8, 8 + il)[0]);
        assert(is_dec_digit(int_str(c)[0]));
        assert(s[8] != '-');
    }
    assert(p == dstart);
    assert(8 + il - dstart == dec_digits(n).len());
    assert forall|k: int| dstart <= k < 8 + il implies s[k] == dec_digits(n)[k - dstart] by {
        assert(s[k] == s.subrange(8, 8 + il)[k - 8]);
        if c < 0 {
            assert(int_str(c)[k - 8] == dec_digits(n)[k - 9]);
        }
    }
    if q < 8 + il {
        assert(s[q] == dec_digits(n)[q - dstart]);
        assert(is_dec_digit(s[q]));
        assert(false);
    }
    if q > 8 + il {
        assert(s.subrange(p, q)[8 + il - p] == s[8 + il]);
        assert(is_dec_digit(s[8 + il]));
        assert(s[8 + il] == ',');
        assert(false);
    }
    assert(s.subrange(p, q) =~= dec_digits(n));
    if q - p >= 2 {
        assert(s[p] == dec_digits(n)[0]);
    }
}

/// Where the scanned message ends on a rendered envelope: exactly at the
/// closing quote after the escaped message, having read the message.
#[verifier::spinoff_prover]
#[verifier::rlimit(100)]
proof fn lemma_msg_aligned(
    c: int,
    m: Seq<char>,
    d: Option<Seq<char>>,
    s: Seq<char>,
    mm: Seq<char>,
    m_end: int,
)
    requires
        s == envelope_json(c, m, d),
        16 + int_str(c).len() as int <= m_end < s.len(),
        s[m_end] == '"',
        esc(mm) == s.subrange(16 + int_str(c).len() as int, m_end),
    ensures
        mm == m,
        m_end == 16 + int_str(c).len() + esc(m).len() as int,
{
    lemma_envelope_structure(c, m, d, s);
    let il = int_str(c).len() as int;
    let el = esc(m).len() as int;
    let r1 = seq!['"'] + s.skip(17 + il + el);
    let r2 = s.subrange(m_end, s.len() as int);
    assert(s.subrange(16 + il, s.len() as int) =~= s.subrange(16 + il, 16 + il + el) + (
    s.subrange(16 + il + el, 17 + il + el) + s.skip(17 + il + el)));
    assert(s.subrange(16 + il + el, 17 + il + el) =~= seq!['"']);
    assert(esc(m) + r1 =~= s.subrange(16 + il, s.len() as int));
    assert(s.subrange(16 + il, s.len() as int) =~= s.subrange(16 + il, m_end) + s.subrange(
        m_end,
        s.len() as int,
    ));
    assert(esc(mm) + r2 =~= s.subrange(16 + il, s.len() as int));
    assert(r1.len() > 0 && r1[0] == '"');
    assert(r2.len() > 0 && r2[0] == '"');
    lemma_esc_prefix(m, mm, r1, r2);
}

/// Whether `s` is the rendering of some envelope whose code fits a
/// signed 32-bit integer.
pub open spec fn is_rendered_envelope(s: Seq<char>) -> bool {
    exists|c: int, m: Seq<char>, d: Option<Seq<char>>|
        -0x8000_0000 <= c <= 0x7fff_ffff && s == #[trigger] envelope_json(c, m, d)
}

/// Reads a rendered envelope back into its code, message and optional
/// payload text. Whatever this reader accepts is exactly the rendering
/// of what it returns, and it accepts every rendering of an envelope, so
/// that reading back a rendered envelope can only yield that envelope.
/// On a rendered envelope, what follows the digit run: the message
/// literal, then an escaped string closed by a quote.
#[verifier::spinoff_prover]
#[verifier::rlimit(100)]
proof fn lemma_rendered_msg_region(s: Seq<char>, q: int)
    requires
        is_rendered_envelope(s),
        8 < q <= s.len(),
        q > (if s[8] == '-' { 9int } else { 8int }),
        all_digits(s.subrange(if s[8] == '-' { 9int } else { 8int }, q)),
        q < s.len() ==> !is_dec_digit(s[q]),
    ensures
        q + 8 < s.len(),
        s.subrange(q, q + 8) == ",\"msg\":\""@,
        ",\"msg\":\""@.len() == 8,
        quote_terminated(s, q + 8),
{
    reveal_strlit(",\"msg\":\"");
    let (c, m, d) = choose|c: int, m: Seq<char>, d: Option<Seq<char>>|
        -0x8000_0000 <= c <= 0x7fff_ffff && s == #[trigger] envelope_json(c, m, d);
    lemma_decode_digits(c, m, d, s, if s[8] == '-' { 9int } else { 8int }, q);
    lemma_envelope_structure(c, m, d, s);
    let il = int_str(c).len() as int;
    let el = esc(m).len() as int;
    assert(s.subrange(q + 8, s.len() as int) =~= s.subrange(16 + il, 16 + il + el) + (
    s.subrange(16 + il + el, 17 + il + el) + s.skip(17 + il + el)));
    assert(s.subrange(16 + il + el, 17 + il + el) =~= seq!['"']);
    assert(s.subrange(q + 8, s.len() as int) == esc(m) + (seq!['"'] + s.skip(17 + il + el)));
    assert(quote_terminated(s, q + 8));
}

/// On a rendered envelope, what follows the scanned message: either the
/// closing brace right away, or the payload literal and a final brace.
#[verifier::spinoff_prover]
#[verifier::rlimit(100)]
proof fn lemma_rendered_tail(s: Seq<char>, q: int, mm: Seq<char>, m_end: int)
    requires
        is_rendered_envelope(s),
        8 < q <= s.len(),
        q > (if s[8] == '-' { 9int } else { 8int }),
        all_digits(s.subrange(if s[8] == '-' { 9int } else { 8int }, q)),
        q < s.len() ==> !is_dec_digit(s[q]),
        q + 8 <= m_end < s.len(),
        s[m_end] == '"',
        esc(mm) == s.subrange(q + 8, m_end),
    ensures
        m_end + 1 < s.len(),
        s[s.len() - 1] == '}',
        m_end + 2 == s.len() ==> s[m_end + 1] == '}',
        m_end + 2 != s.len() ==> m_end + 9 < s.len() && s.subrange(m_end + 1, m_end + 9)
            == ",\"data\":"@,
        ",\"data\":"@.len() == 8,
{
    reveal_strlit(",\"data\":");
    let (c, m, d) = choose|c: int, m: Seq<char>, d: Option<Seq<char>>|
        -0x8000_0000 <= c <= 0x7fff_ffff && s == #[trigger] envelope_json(c, m, d);
    lemma_decode_digits(c, m, d, s, if s[8] == '-' { 9int } else { 8int }, q);
    lemma_msg_aligned(c, m, d, s, mm, m_end);
    lemma_envelope_structure(c, m, d, s);
    let il = int_str(c).len() as int;
    let el = esc(m).len() as int;
    assert(m_end == 16 + il + el);
    match d {
        None => {
            assert(s.len() == 18 + il + el);
        },
        Some(dd) => {
            assert(s.len() == 26 + il + el + dd.len());
            assert(s.subrange(m_end + 1, m_end + 9) == ",\"data\":"@);
        },
    }
}

/// Reads the opening brace, the code field and its value: the region up
/// to the comma is the rendering of the returned code, and on a rendered
/// envelope this step always succeeds.
#[verifier::spinoff_prover]
#[verifier::rlimit(100)]
fn decode_code(v: &Vec<char>) -> (r: Option<(i32, usize)>)
    ensures
        r matches Some(t) ==> {
            let p2 = if v@[8] == '-' { 9int } else { 8int };
            &&& 8 < t.1 <= v@.len()
            &&& v@.subrange(0, 8) == "{\"code\":"@
            &&& v@.subrange(8, t.1 as int) == int_str(t.0 as int)
            &&& t.1 > p2
            &&& all_digits(v@.subrange(p2, t.1 as int))
            &&& (t.1 < v@.len() ==> !is_dec_digit(v@[t.1 as int]))
        },
        is_rendered_envelope(v@) ==> r is Some,
{
    if !match_lit(v, 0, "{\"code\":") {
        proof {
            if is_rendered_envelope(v@) {
                let (c, m, d) = choose|c: int, m: Seq<char>, d: Option<Seq<char>>|
                    -0x8000_0000 <= c <= 0x7fff_ffff && v@ == #[trigger] envelope_json(c, m, d);
                lemma_envelope_structure(c, m, d, v@);
                reveal_strlit("{\"code\":");
                assert(false);
            }
        }
        return None;
    }
    proof {
        reveal_strlit("{\"code\":");
    }
    let mut p: usize = 8;
    if p >= v.len() {
        proof {
            if is_rendered_envelope(v@) {
                let (c, m, d) = choose|c: int, m: Seq<char>, d: Option<Seq<char>>|
                    -0x8000_0000 <= c <= 0x7fff_ffff && v@ == #[trigger] envelope_json(c, m, d);
                lemma_envelope_structure(c, m, d, v@);
                assert(false);
            }
        }
        return None;
    }
    let neg = v[p] == '-';
    if neg {
        p += 1;
        if p > v.len() {
            proof {
                if is_rendered_envelope(v@) {
                    let (c, m, d) = choose|c: int, m: Seq<char>, d: Option<Seq<char>>|
                        -0x8000_0000 <= c <= 0x7fff_ffff && v@ == #[trigger] envelope_json(
                            c,
                            m,
                            d,
                        );
                    lemma_envelope_structure(c, m, d, v@);
                    assert(false);
                }
            }
            return None;
        }
    }
    let q = digits_end(v, p);
    if q == p {
        proof {
            if is_rendered_envelope(v@) {
                let (c, m, d) = choose|c: int, m: Seq<char>, d: Option<Seq<char>>|
                    -0x8000_0000 <= c <= 0x7fff_ffff && v@ == #[trigger] envelope_json(c, m, d);
                lemma_decode_digits(c, m, d, v@, p as int, q as int);
                assert(false);
            }
        }
        return None;
    }
    if q > p + 1 && v[p] == '0' {
        proof {
            if is_rendered_envelope(v@) {
                let (c, m, d) = choose|c: int, m: Seq<char>, d: Option<Seq<char>>|
                    -0x8000_0000 <= c <= 0x7fff_ffff && v@ == #[trigger] envelope_json(c, m, d);
                lemma_decode_digits(c, m, d, v@, p as int, q as int);
                assert(false);
            }
        }
        return None;
    }
    let ghost digits = v@.subrange(p as int, q as int);
    let mag: u64 = match crate::parse::parse_dec_bounded(v, p, q, 2147483648) {
        Some(x) => x,
        None => {
            proof {
                if is_rendered_envelope(v@) {
                    let (c, m, d) = choose|c: int, m: Seq<char>, d: Option<Seq<char>>|
                        -0x8000_0000 <= c <= 0x7fff_ffff && v@ == #[trigger] envelope_json(
                            c,
                            m,
                            d,
                        );
                    lemma_decode_digits(c, m, d, v@, p as int, q as int);
                    assert(false);
                }
            }
            return None;
        },
    };
    let code: i32 = if neg {
        if mag == 0 {
            proof {
                if is_rendered_envelope(v@) {
                    let (c, m, d) = choose|c: int, m: Seq<char>, d: Option<Seq<char>>|
                        -0x8000_0000 <= c <= 0x7fff_ffff && v@ == #[trigger] envelope_json(
                            c,
                            m,
                            d,
                        );
                    lemma_decode_digits(c, m, d, v@, p as int, q as int);
                    assert(c < 0);
                    assert(mag >= 1);
                    assert(false);
                }
            }
            return None;
        }
        if mag == 2147483648 {
            -2147483648i32
        } else {
            -(mag as i32)
        }
    } else {
        if mag > 2147483647 {
            proof {
                if is_rendered_envelope(v@) {
                    let (c, m, d) = choose|c: int, m: Seq<char>, d: Option<Seq<char>>|
                        -0x8000_0000 <= c <= 0x7fff_ffff && v@ == #[trigger] envelope_json(
                            c,
                            m,
                            d,
                        );
                    lemma_decode_digits(c, m, d, v@, p as int, q as int);
                    assert(c >= 0);
                    assert(mag <= 2147483647);
                    assert(false);
                }
            }
            return None;
        }
        mag as i32
    };
    proof {
        assert(digits.len() >= 2 ==> digits[0] != '0');
        lemma_dec_digits_canon(digits);
        if neg {
            assert(v@.subrange(8, q as int) =~= seq!['-'] + digits);
            assert(v@.subrange(8, q as int) == int_str(code as int));
        } else {
            assert(v@.subrange(8, q as int) == int_str(code as int));
        }
    }
    Some((code, q))
}

/// Reads a rendered envelope back into its code, message and optional
/// payload text. Whatever this reader accepts is exactly the rendering
/// of what it returns, and it accepts every rendering of an envelope, so
/// that reading back a rendered envelope can only yield that envelope.
#[verifier::spinoff_prover]
#[verifier::rlimit(100)]
pub fn decode_envelope(s: &str) -> (r: Option<(i32, String, Option<String>)>)
    ensures
        r matches Some(t) ==> s@ == envelope_json(
            t.0 as int,
            t.1@,
            match t.2 {
                Some(d) => Some(d@),
                None => None,
            },
        ),
        is_rendered_envelope(s@) ==> r is Some,
{
    let v = str_chars(s);
    let vlen = v.len();
    let (code, q) = match decode_code(&v) {
        Some(t) => t,
        None => {
            return None;
        },
    };
    if !match_lit(&v, q, ",\"msg\":\"") {
        proof {
            if is_rendered_envelope(s@) {
                lemma_rendered_msg_region(s@, q as int);
                assert(false);
            }
        }
        return None;
    }
    proof {
        reveal_strlit(",\"msg\":\"");
    }
    let m_start = q + 8;
    if m_start > v.len() {
        proof {
            if is_rendered_envelope(s@) {
                lemma_rendered_msg_region(s@, q as int);
                assert(false);
            }
        }
        return None;
    }
    let (msg_chars, m_end) = match scan_msg(&v, m_start) {
        Some(pr) => pr,
        None => {
            proof {
                if is_rendered_envelope(s@) {
                    lemma_rendered_msg_region(s@, q as int);
                    assert(quote_terminated(s@, m_start as int));
                    assert(false);
                }
            }
            return None;
        },
    };
    let after = m_end + 1;
    if after < v.len() && after + 1 == v.len() {
        if v[after] == '}' {
            proof {
                reveal_strlit("\"");
                reveal_strlit("}");
                assert(v@ =~= v@.subrange(0, 8) + v@.subrange(8, q as int) + v@.subrange(
                    q as int,
                    m_start as int,
                ) + v@.subrange(m_start as int, m_end as int) + seq![v@[m_end as int]] + seq![
                    v@[after as int],
                ]);
                assert(v@ =~= envelope_json(code as int, msg_chars@, None));
            }
            return Some((code, chars_to_string(&msg_chars), None));
        }
        proof {
            if is_rendered_envelope(s@) {
                lemma_rendered_tail(s@, q as int, msg_chars@, m_end as int);
                assert(false);
            }
        }
        return None;
    }
    if !match_lit(&v, after, ",\"data\":") {
        proof {
            if is_rendered_envelope(s@) {
                lemma_rendered_tail(s@, q as int, msg_chars@, m_end as int);
                assert(after + 8 < s@.len());
                assert(v@.subrange(after as int, after + 8) == ",\"data\":"@);
                assert(false);
            }
        }
        return None;
    }
    proof {
        reveal_strlit(",\"data\":");
    }
    proof {
        assert(after + 8 <= vlen);
    }
    let d_start = after + 8;
    if d_start >= vlen {
        proof {
            if is_rendered_envelope(s@) {
                lemma_rendered_tail(s@, q as int, msg_chars@, m_end as int);
                assert(false);
            }
        }
        return None;
    }
    if v[v.len() - 1] != '}' {
        proof {
            if is_rendered_envelope(s@) {
                lemma_rendered_tail(s@, q as int, msg_chars@, m_end as int);
                assert(false);
            }
        }
        return None;
    }
    let data_chars = copy_range(&v, d_start, v.len() - 1);
    proof {
        reveal_strlit("\"");
        reveal_strlit("}");
        assert(v@ =~= v@.subrange(0, 8) + v@.subrange(8, q as int) + v@.subrange(
            q as int,
            m_start as int,
        ) + v@.subrange(m_start as int, m_end as int) + seq![v@[m_end as int]] + v@.subrange(
            after as int,
            d_start as int,
        ) + v@.subrange(d_start as int, v@.len() - 1) + seq![v@[v@.len() - 1]]);
        assert(v@ =~= envelope_json(code as int, msg_chars@, Some(data_chars@)));
    }
    Some((code, chars_to_string(&msg_chars), Some(chars_to_string(&data_chars))))
}

/// The characters `v[from..to]`, copied out in order.
fn copy_range(v: &Vec<char>, from: usize, to: usize) -> (r: Vec<char>)
    requires
        from <= to <= v@.len(),
    ensures
        r@ == v@.subrange(from as int, to as int),
{
    let mut r: Vec<char> = Vec::new();
    let mut i: usize = from;
    while i < to
        invariant
            from <= i <= to <= v@.len(),
            r@ == v@.subrange(from as int, i as int),
        decreases to - i,
    {
        r.push(v[i]);
        proof {
            assert(v@.subrange(from as int, i + 1) =~= v@.subrange(from as int, i as int).push(
                v@[i as int],
            ));
        }
        i += 1;
    }
    r
}

/// Reading back the canonical digits of `n` gives `n`, and they are all
/// digit characters.
proof fn lemma_dec_digits_value(n: nat)
    ensures
        dec_val(dec_digits(n)) == n,
        all_digits(dec_digits(n)),
        dec_digits(n).len() >= 1,
    decreases n,
{
    if n < 10 {
        let t = dec_digits(n);
        assert(t =~= seq![digit_char(n)]);
        assert(is_dec_digit(digit_char(n)));
        assert(t.drop_last() =~= Seq::<char>::empty());
        assert(t.last() == digit_char(n));
        assert(dec_val(Seq::<char>::empty()) == 0);
        assert(digit_val(digit_char(n)) == n);
        assert(dec_val(t) == digit_val(digit_char(n)));
    } else {
        lemma_dec_digits_value(n / 10);
        let u = dec_digits(n / 10);
        let d = digit_char(n % 10);
        assert(is_dec_digit(d));
        assert(u.push(d).drop_last() =~= u);
        assert(dec_val(u.push(d)) == dec_val(u) * 10 + digit_val(d));
        assert(forall|k: int|
            0 <= k < u.push(d).len() ==> is_dec_digit(#[trigger] u.push(d)[k]));
    }
}

/// Every character of a rendered integer is a sign or a digit; the
/// rendering is never empty and never starts with a digit when signed.
proof fn lemma_int_str_chars(n: int)
    ensures
        int_str(n).len() >= 1,
        forall|k: int|
            0 <= k < int_str(n).len() ==> (#[trigger] int_str(n)[k] == '-' || is_dec_digit(
                int_str(n)[k],
            )),
{
    if n < 0 {
        lemma_dec_digits_value((-n) as nat);
        assert(forall|k: int|
            1 <= k < int_str(n).len() ==> is_dec_digit(#[trigger] int_str(n)[k]));
    } else {
        lemma_dec_digits_value(n as nat);
    }
}

/// Equal renderings mean equal integers.
proof fn lemma_int_str_injective(a: int, b: int)
    requires
        int_str(a) == int_str(b),
    ensures
        a == b,
{
    lemma_dec_digits_value((if a < 0 {
        -a
    } else {
        a
    }) as nat);
    lemma_dec_digits_value((if b < 0 {
        -b
    } else {
        b
    }) as nat);
    if a < 0 && b < 0 {
        assert(int_str(a).drop_first() =~= dec_digits((-a) as nat));
        assert(int_str(b).drop_first() =~= dec_digits((-b) as nat));
        assert(dec_val(dec_digits((-a) as nat)) == dec_val(dec_digits((-b) as nat)));
    } else if a >= 0 && b >= 0 {
        assert(dec_val(dec_digits(a as nat)) == dec_val(dec_digits(b as nat)));
    } else if a < 0 && b >= 0 {
        assert(int_str(a)[0] == '-');
        assert(is_dec_digit(int_str(b)[0])) by {
            assert(int_str(b) == dec_digits(b as nat));
            assert(all_digits(dec_digits(b as nat)));
        }
        assert(false);
    } else {
        assert(int_str(b)[0] == '-');
        assert(is_dec_digit(int_str(a)[0])) by {
            assert(int_str(a) == dec_digits(a as nat));
            assert(all_digits(dec_digits(a as nat)));
        }
        assert(false);
    }
}

/// The escape of a non-empty string never begins with a bare quote.
proof fn lemma_esc_first(m: Seq<char>)
    requires
        m.len() > 0,
    ensures
        esc(m).len() > 0,
        esc(m)[0] != '"',
{
    assert(esc(m) == esc_char(m[0]) + esc(m.drop_first()));
    assert(esc(m)[0] == esc_char(m[0])[0]);
}

/// Two escapes of single characters that open the same text are the same
/// character.
proof fn lemma_esc_char_determined(a: char, b: char, x: Seq<char>, y: Seq<char>)
    requires
        esc_char(a) + x == esc_char(b) + y,
    ensures
        a == b,
        x == y,
{
    let s = esc_char(a) + x;
    assert(s[0] == esc_char(a)[0] && s[0] == esc_char(b)[0]);
    let pa = !(a == '"' || a == '\\' || (a as u32) < 32);
    let pb = !(b == '"' || b == '\\' || (b as u32) < 32);
    if pa && pb {
        assert(a == b);
    } else if pa != pb {
        assert(esc_char(a)[0] == (if pa {
            a
        } else {
            '\\'
        }));
        assert(esc_char(b)[0] == (if pb {
            b
        } else {
            '\\'
        }));
        assert(false);
    } else {
        assert(s[1] == esc_char(a)[1] && s[1] == esc_char(b)[1]);
        if a == '"' || a == '\\' {
            if b == '"' || b == '\\' {
                assert(a == b);
            } else {
                assert(esc_char(b)[1] == 'u');
                assert(false);
            }
        } else {
            if b == '"' || b == '\\' {
                assert(esc_char(a)[1] == 'u');
                assert(false);
            } else {
                assert(s[4] == esc_char(a)[4] && s[4] == esc_char(b)[4]);
                assert(s[5] == esc_char(a)[5] && s[5] == esc_char(b)[5]);
                assert(hex_char((a as u32 / 16) as nat) == hex_char((b as u32 / 16) as nat));
                assert(hex_char((a as u32 % 16) as nat) == hex_char((b as u32 % 16) as nat));
                assert(a as u32 / 16 == b as u32 / 16);
                assert(a as u32 % 16 == b as u32 % 16);
                assert(a as u32 == b as u32);
                assert(a == b);
            }
        }
    }
    assert(x =~= y) by {
        let k = esc_char(a).len();
        assert(forall|j: int| 0 <= j < x.len() ==> x[j] == s[k + j]);
        assert(forall|j: int| 0 <= j < y.len() ==> y[j] == s[k + j]);
    }
}

/// Escaping is a prefix code up to a closing quote: when two escaped
/// strings followed by quote-opened tails read the same, the strings and
/// the tails agree.
proof fn lemma_esc_prefix(m1: Seq<char>, m2: Seq<char>, r1: Seq<char>, r2: Seq<char>)
    requires
        esc(m1) + r1 == esc(m2) + r2,
        r1.len() > 0,
        r2.len() > 0,
        r1[0] == '"',
        r2[0] == '"',
    ensures
        m1 == m2,
        r1 == r2,
    decreases m1.len(),
{
    if m1.len() == 0 && m2.len() == 0 {
        assert(r1 =~= r2) by {
            assert(esc(m1) + r1 =~= r1);
            assert(esc(m2) + r2 =~= r2);
        }
        assert(m1 =~= m2);
    } else if m1.len() == 0 {
        lemma_esc_first(m2);
        assert((esc(m1) + r1)[0] == r1[0]) by {
            assert(esc(m1).len() == 0);
        }
        assert((esc(m2) + r2)[0] == esc(m2)[0]);
        assert(false);
    } else if m2.len() == 0 {
        lemma_esc_first(m1);
        assert((esc(m2) + r2)[0] == r2[0]) by {
            assert(esc(m2).len() == 0);
        }
        assert((esc(m1) + r1)[0] == esc(m1)[0]);
        assert(false);
    } else {
        let a = m1[0];
        let b = m2[0];
        assert(esc(m1) == esc_char(a) + esc(m1.drop_first()));
        assert(esc(m2) == esc_char(b) + esc(m2.drop_first()));
        assert(esc_char(a) + (esc(m1.drop_first()) + r1) =~= esc(m1) + r1);
        assert(esc_char(b) + (esc(m2.drop_first()) + r2) =~= esc(m2) + r2);
        lemma_esc_char_determined(a, b, esc(m1.drop_first()) + r1, esc(m2.drop_first()) + r2);
        lemma_esc_prefix(m1.drop_first(), m2.drop_first(), r1, r2);
        assert(m1 =~= m2) by {
            assert(m1.drop_first() == m2.drop_first());
            assert(forall|j: int| 1 <= j < m1.len() ==> m1[j] == m1.drop_first()[j - 1]);
            assert(forall|j: int| 1 <= j < m2.len() ==> m2[j] == m2.drop_first()[j - 1]);
        }
    }
}

/// The rendering determines the envelope: two envelopes that render to
/// the same text carry the same code, the same message and the same
/// payload. Together with the reader's two guarantees — it accepts every
/// rendering, and whatever it accepts is the rendering of what it
/// returns — this pins the round trip: reading a rendered envelope back
/// succeeds and yields exactly that envelope.
#[verifier::rlimit(100)]
pub proof fn lemma_envelope_injective(
    c1: int,
    m1: Seq<char>,
    d1: Option<Seq<char>>,
    c2: int,
    m2: Seq<char>,
    d2: Option<Seq<char>>,
)
    requires
        envelope_json(c1, m1, d1) == envelope_json(c2, m2, d2),
    ensures
        c1 == c2,
        m1 == m2,
        d1 == d2,
{
    reveal_strlit("{\"code\":");
    reveal_strlit(",\"msg\":\"");
    reveal_strlit("\"");
    reveal_strlit(",\"data\":");
    reveal_strlit("}");
    let s = envelope_json(c1, m1, d1);
    let i1 = int_str(c1);
    let i2 = int_str(c2);
    let e1 = esc(m1);
    let e2 = esc(m2);
    let dd1: Seq<char> = match d1 {
        None => Seq::empty(),
        Some(d) => ",\"data\":"@ + d,
    };
    let dd2: Seq<char> = match d2 {
        None => Seq::empty(),
        Some(d) => ",\"data\":"@ + d,
    };
    lemma_int_str_chars(c1);
    lemma_int_str_chars(c2);
    assert(s.len() == 8 + i1.len() + 8 + e1.len() + 1 + dd1.len() + 1);
    assert(s.len() == 8 + i2.len() + 8 + e2.len() + 1 + dd2.len() + 1);

    // The integer regions end at the first comma, so they have one length.
    assert forall|k: int| 0 <= k < i1.len() implies s[8 + k] == i1[k] by {}
    assert forall|k: int| 0 <= k < i2.len() implies s[8 + k] == i2[k] by {}
    assert(s[8 + i1.len() as int] == ',');
    assert(s[8 + i2.len() as int] == ',');
    if i1.len() < i2.len() {
        assert(s[8 + i1.len() as int] == i2[i1.len() as int]);
        assert(i2[i1.len() as int] == '-' || is_dec_digit(i2[i1.len() as int]));
        assert(false);
    }
    if i2.len() < i1.len() {
        assert(s[8 + i2.len() as int] == i1[i2.len() as int]);
        assert(i1[i2.len() as int] == '-' || is_dec_digit(i1[i2.len() as int]));
        assert(false);
    }
    assert(i1 =~= i2);
    lemma_int_str_injective(c1, c2);

    // The escaped messages and their tails read the same text.
    let p = 16 + i1.len() as int;
    let r1 = s.skip(p + e1.len());
    let r2 = s.skip(p + e2.len());
    assert(esc(m1) + r1 =~= s.skip(p)) by {
        assert forall|k: int| 0 <= k < e1.len() implies s[p + k] == e1[k] by {}
    }
    assert(esc(m2) + r2 =~= s.skip(p)) by {
        assert forall|k: int| 0 <= k < e2.len() implies s[p + k] == e2[k] by {}
    }
    assert(r1[0] == '"');
    assert(r2[0] == '"');
    lemma_esc_prefix(m1, m2, r1, r2);

    // Same tail: either both payload-free or the same spliced payload.
    assert(r1 =~= seq!['"'] + dd1 + seq!['}']) by {
        assert forall|k: int| 0 <= k < dd1.len() implies s[p + e1.len() + 1 + k] == dd1[k] by {}
    }
    assert(r2 =~= seq!['"'] + dd2 + seq!['}']) by {
        assert forall|k: int| 0 <= k < dd2.len() implies s[p + e2.len() + 1 + k] == dd2[k] by {}
    }
    assert(dd1 =~= r1.subrange(1, r1.len() - 1));
    assert(dd2 =~= r2.subrange(1, r2.len() - 1));
    assert(dd1 == dd2);
    match (d1, d2) {
        (None, None) => {
        },
        (None, Some(y)) => {
            assert(dd2.len() >= 8);
            assert(false);
        },
        (Some(x), None) => {
            assert(dd1.len() >= 8);
            assert(false);
        },
        (Some(x), Some(y)) => {
            assert(x =~= dd1.subrange(8, dd1.len() as int));
            assert(y =~= dd2.subrange(8, dd2.len() as int));
        },
    }
}

/// Round trip: the rendering of any envelope whose code fits a signed
/// 32-bit integer is itself a rendered envelope, so the reader's
/// contracts apply to it: reading it back succeeds, returns an envelope
/// that renders to the same text, and by injectivity that envelope is
/// the one that was rendered.
pub proof fn lemma_round_trip(c: int, m: Seq<char>, d: Option<Seq<char>>)
    requires
        -0x8000_0000 <= c <= 0x7fff_ffff,
    ensures
        is_rendered_envelope(envelope_json(c, m, d)),
{
}

impl crate::envelope::RespRet {
    /// The wire form of this payload-free envelope body.
    pub fn to_json(&self) -> (r: String)
        ensures
            r@ == envelope_json(self.code as int, self.msg@, None),
    {
        encode_envelope(self.code, self.msg.as_str(), None)
    }
}

impl crate::error::RespErr {
    /// The wire form of this error body: its code and message, no payload.
    pub fn to_json(&self) -> (r: String)
        ensures
            r@ == envelope_json(self.code as int, self.msg@, None),
    {
        encode_envelope(self.code, self.msg.as_str(), None)
    }
}

/// A payload-free envelope renders with nothing after the message: no
/// `data` field and no `null`, just the closing brace.
pub proof fn lemma_no_payload_compact(code: int, msg: Seq<char>)
    ensures
        envelope_json(code, msg, None) == "{\"code\":"@ + int_str(code) + ",\"msg\":\""@ + esc(
            msg,
        ) + "\"}"@,
{
    reveal_strlit("\"");
    reveal_strlit("}");
    reveal_strlit("\"}");
    assert(envelope_json(code, msg, None) =~= "{\"code\":"@ + int_str(code) + ",\"msg\":\""@
        + esc(msg) + "\"}"@);
}

} // verus!
