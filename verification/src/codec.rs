use vstd::prelude::*;
use crate::schema::{FinishV, Report, ReportV};
use vstd::string::StrSliceExecFns;
use vstd::string::StringExecFns;

verus! {

// The report travels as one JSON object:
//   {"artifacts":s,"message":s,"ref":s,"start":{"time":n},"finish":f}
// where s is a quoted string, n an unsigned decimal without leading zeros,
// and f either null or {"time":n,"ok":b}. The decoder accepts any whitespace
// between tokens, the standard string escapes in either hex case, and raw
// UTF-8 text; the encoder emits the framing compactly, escaping only what
// JSON forces it to, and decoding inverts encoding. The members are exactly
// the five the schema names, in the order it lists them: the schema is a
// closed, given contract, produced by serializing that very record type,
// which writes its members in declaration order; an object with other
// members, or these in another order, is not a report and is rejected.
pub open spec fn lit_artifacts() -> Seq<char> {
    "{\"artifacts\":"@
}

pub open spec fn lit_message() -> Seq<char> {
    ",\"message\":"@
}

pub open spec fn lit_ref() -> Seq<char> {
    ",\"ref\":"@
}

pub open spec fn lit_start() -> Seq<char> {
    ",\"start\":{\"time\":"@
}

pub open spec fn lit_finish_close() -> Seq<char> {
    "},\"finish\":"@
}

pub open spec fn lit_fin_time() -> Seq<char> {
    "{\"time\":"@
}

pub open spec fn lit_fin_ok() -> Seq<char> {
    ",\"ok\":"@
}

pub open spec fn lit_null() -> Seq<char> {
    "null"@
}

pub open spec fn lit_true() -> Seq<char> {
    "true"@
}

pub open spec fn lit_false() -> Seq<char> {
    "false"@
}

pub open spec fn lit_rbrace() -> Seq<char> {
    "}"@
}

pub open spec fn is_digit(c: char) -> bool {
    48 <= c as int <= 57
}

pub open spec fn digit_val(c: char) -> int {
    c as int - 48
}

pub open spec fn digit_char(d: int) -> char {
    (48 + d) as char
}

pub open spec fn is_hex(c: char) -> bool {
    is_digit(c) || 97 <= c as int <= 102 || 65 <= c as int <= 70
}

pub open spec fn hex_val(c: char) -> int {
    if is_digit(c) {
        c as int - 48
    } else if 97 <= c as int {
        c as int - 87
    } else {
        c as int - 55
    }
}

pub open spec fn hex_char(d: int) -> char {
    if d < 10 {
        (48 + d) as char
    } else {
        (87 + d) as char
    }
}

/// How one character is written inside a quoted string: quote and backslash
/// get a backslash escape, control characters a \u00xy escape, the rest
/// stand as they are.
pub open spec fn esc_char(c: char) -> Seq<char> {
    if c == '"' {
        seq!['\\', '"']
    } else if c == '\\' {
        seq!['\\', '\\']
    } else if (c as int) < 32 {
        seq!['\\', 'u', '0', '0', hex_char((c as int) / 16), hex_char((c as int) % 16)]
    } else {
        seq![c]
    }
}

pub open spec fn esc(s: Seq<char>) -> Seq<char>
    decreases s.len(),
{
    if s.len() == 0 {
        Seq::empty()
    } else {
        esc_char(s[0]) + esc(s.skip(1))
    }
}

pub open spec fn enc_string(s: Seq<char>) -> Seq<char> {
    seq!['"'] + esc(s) + seq!['"']
}

pub open spec fn enc_u64(n: u64) -> Seq<char>
    decreases n,
{
    if n < 10 {
        seq![digit_char(n as int)]
    } else {
        enc_u64((n / 10) as u64) + seq![digit_char((n % 10) as int)]
    }
}

pub open spec fn enc_bool(b: bool) -> Seq<char> {
    if b {
        lit_true()
    } else {
        lit_false()
    }
}

pub open spec fn enc_finish(f: Option<FinishV>) -> Seq<char> {
    match f {
        Option::None => lit_null(),
        Option::Some(fv) => lit_fin_time() + (enc_u64(fv.time) + (lit_fin_ok() + (enc_bool(fv.ok)
            + lit_rbrace()))),
    }
}

/// The wire text of a report value.
pub open spec fn enc_report(rv: ReportV) -> Seq<char> {
    lit_artifacts() + (enc_string(rv.artifacts) + (lit_message() + (enc_string(rv.message) + (
    lit_ref() + (enc_string(rv.refname) + (lit_start() + (enc_u64(rv.start_time) + (
    lit_finish_close() + (enc_finish(rv.finish) + lit_rbrace())))))))))
}

/// Consumes an expected literal from the front, or fails.
pub open spec fn dec_lit(s: Seq<char>, l: Seq<char>) -> Option<Seq<char>> {
    if l.len() <= s.len() && s.subrange(0, l.len() as int) == l {
        Option::Some(s.skip(l.len() as int))
    } else {
        Option::None
    }
}

pub open spec fn dec_cons(c: char, rest: Option<(Seq<char>, Seq<char>)>) -> Option<
    (Seq<char>, Seq<char>),
> {
    match rest {
        Option::Some((t, rem)) => Option::Some((seq![c] + t, rem)),
        Option::None => Option::None,
    }
}

/// What a short escape after the backslash stands for, if the character
/// introduces one.
pub open spec fn short_escape(c: char) -> Option<char> {
    if c == '"' || c == '\\' || c == '/' {
        Option::Some(c)
    } else if c == 'b' {
        Option::Some(8 as char)
    } else if c == 't' {
        Option::Some(9 as char)
    } else if c == 'n' {
        Option::Some(10 as char)
    } else if c == 'f' {
        Option::Some(12 as char)
    } else if c == 'r' {
        Option::Some(13 as char)
    } else {
        Option::None
    }
}

/// The code point four hex digits denote.
pub open spec fn hex4_val(a: char, b: char, c: char, d: char) -> int {
    hex_val(a) * 4096 + hex_val(b) * 256 + hex_val(c) * 16 + hex_val(d)
}

/// A code point a lone \uXXXX escape may denote: anything in the basic plane
/// except the surrogate range, which no character carries.
pub open spec fn is_scalar_hex4(n: int) -> bool {
    0 <= n < 0xD800 || 0xE000 <= n <= 0xFFFF
}

/// Reads the inside of a quoted string, after the opening quote: plain
/// characters up to the closing quote, with the standard JSON escapes — the
/// short ones, and \uXXXX in either hex case for any basic-plane character
/// outside the surrogate range. Yields the unescaped content and what
/// follows the closing quote.
pub open spec fn dec_string_body(s: Seq<char>) -> Option<(Seq<char>, Seq<char>)>
    decreases s.len(),
{
    if s.len() == 0 {
        Option::None
    } else if s[0] == '"' {
        Option::Some((Seq::empty(), s.skip(1)))
    } else if s[0] == '\\' {
        if s.len() >= 2 && short_escape(s[1]) is Some {
            dec_cons(short_escape(s[1]).unwrap(), dec_string_body(s.skip(2)))
        } else if s.len() >= 6 && s[1] == 'u' && is_hex(s[2]) && is_hex(s[3]) && is_hex(s[4])
            && is_hex(s[5]) && is_scalar_hex4(hex4_val(s[2], s[3], s[4], s[5])) {
            dec_cons(
                hex4_val(s[2], s[3], s[4], s[5]) as char,
                dec_string_body(s.skip(6)),
            )
        } else {
            Option::None
        }
    } else if (s[0] as int) < 32 {
        Option::None
    } else {
        dec_cons(s[0], dec_string_body(s.skip(1)))
    }
}

pub open spec fn dec_string(s: Seq<char>) -> Option<(Seq<char>, Seq<char>)> {
    if s.len() > 0 && s[0] == '"' {
        dec_string_body(s.skip(1))
    } else {
        Option::None
    }
}

/// Splits off the longest run of decimal digits.
pub open spec fn take_digits(s: Seq<char>) -> (Seq<char>, Seq<char>)
    decreases s.len(),
{
    if s.len() > 0 && is_digit(s[0]) {
        (seq![s[0]] + take_digits(s.skip(1)).0, take_digits(s.skip(1)).1)
    } else {
        (Seq::empty(), s)
    }
}

/// The number a run of digits denotes.
pub open spec fn digits_val(d: Seq<char>) -> int
    decreases d.len(),
{
    if d.len() == 0 {
        0
    } else {
        digits_val(d.drop_last()) * 10 + digit_val(d.last())
    }
}

/// Reads an unsigned decimal: at least one digit, no leading zero, and a
/// value that fits in a machine word.
pub open spec fn dec_u64(s: Seq<char>) -> Option<(u64, Seq<char>)> {
    let (d, r) = take_digits(s);
    if d.len() == 0 {
        Option::None
    } else if d.len() > 1 && d[0] == '0' {
        Option::None
    } else if digits_val(d) > u64::MAX {
        Option::None
    } else {
        Option::Some((digits_val(d) as u64, r))
    }
}

pub open spec fn dec_bool(s: Seq<char>) -> Option<(bool, Seq<char>)> {
    if dec_lit(s, lit_true()) is Some {
        Option::Some((true, dec_lit(s, lit_true()).unwrap()))
    } else if dec_lit(s, lit_false()) is Some {
        Option::Some((false, dec_lit(s, lit_false()).unwrap()))
    } else {
        Option::None
    }
}

pub open spec fn lit_lbrace() -> Seq<char> {
    "{"@
}

pub open spec fn lit_colon() -> Seq<char> {
    ":"@
}

pub open spec fn lit_comma() -> Seq<char> {
    ","@
}

pub open spec fn key_artifacts() -> Seq<char> {
    "\"artifacts\""@
}

pub open spec fn key_message() -> Seq<char> {
    "\"message\""@
}

pub open spec fn key_ref() -> Seq<char> {
    "\"ref\""@
}

pub open spec fn key_start() -> Seq<char> {
    "\"start\""@
}

pub open spec fn key_time() -> Seq<char> {
    "\"time\""@
}

pub open spec fn key_finish() -> Seq<char> {
    "\"finish\""@
}

pub open spec fn key_ok() -> Seq<char> {
    "\"ok\""@
}

pub open spec fn is_ws(c: char) -> bool {
    c == ' ' || c == '\t' || c == '\n' || c == '\r'
}

/// The text with its leading whitespace dropped; tokens may be separated by
/// any amount of it.
pub open spec fn skip_ws(s: Seq<char>) -> Seq<char>
    decreases s.len(),
{
    if s.len() > 0 && is_ws(s[0]) {
        skip_ws(s.skip(1))
    } else {
        s
    }
}

/// Consumes an expected token, whitespace before it allowed.
pub open spec fn dec_tok(s: Seq<char>, l: Seq<char>) -> Option<Seq<char>> {
    dec_lit(skip_ws(s), l)
}

pub open spec fn dec_string_at(s: Seq<char>) -> Option<(Seq<char>, Seq<char>)> {
    dec_string(skip_ws(s))
}

pub open spec fn dec_u64_at(s: Seq<char>) -> Option<(u64, Seq<char>)> {
    dec_u64(skip_ws(s))
}

pub open spec fn dec_bool_at(s: Seq<char>) -> Option<(bool, Seq<char>)> {
    dec_bool(skip_ws(s))
}

/// Consumes a quoted object key and the colon after it.
pub open spec fn dec_key(s: Seq<char>, k: Seq<char>) -> Option<Seq<char>> {
    match dec_tok(s, k) {
        Option::None => Option::None,
        Option::Some(s1) => dec_tok(s1, lit_colon()),
    }
}

/// Consumes a comma, then a quoted object key and its colon.
pub open spec fn dec_comma_key(s: Seq<char>, k: Seq<char>) -> Option<Seq<char>> {
    match dec_tok(s, lit_comma()) {
        Option::None => Option::None,
        Option::Some(s1) => dec_key(s1, k),
    }
}

/// Reads the finish field: null while the build runs, else the finish object.
pub open spec fn dec_finish(s: Seq<char>) -> Option<(Option<FinishV>, Seq<char>)> {
    let t = skip_ws(s);
    if t.len() > 0 && t[0] == 'n' {
        match dec_lit(t, lit_null()) {
            Option::None => Option::None,
            Option::Some(r) => Option::Some((Option::None, r)),
        }
    } else {
        match dec_lit(t, lit_lbrace()) {
            Option::None => Option::None,
            Option::Some(s1) => match dec_key(s1, key_time()) {
                Option::None => Option::None,
                Option::Some(s2) => match dec_u64_at(s2) {
                    Option::None => Option::None,
                    Option::Some((time, s3)) => match dec_comma_key(s3, key_ok()) {
                        Option::None => Option::None,
                        Option::Some(s4) => match dec_bool_at(s4) {
                            Option::None => Option::None,
                            Option::Some((ok, s5)) => match dec_tok(s5, lit_rbrace()) {
                                Option::None => Option::None,
                                Option::Some(s6) => Option::Some(
                                    (Option::Some(FinishV { time, ok }), s6),
                                ),
                            },
                        },
                    },
                },
            },
        }
    }
}

/// The report value a complete wire text denotes, if it is well formed and
/// nothing but whitespace trails it.
pub open spec fn dec_report(s: Seq<char>) -> Option<ReportV> {
    match dec_tok(s, lit_lbrace()) {
        Option::None => Option::None,
        Option::Some(s1) => match dec_key(s1, key_artifacts()) {
            Option::None => Option::None,
            Option::Some(s2) => match dec_string_at(s2) {
                Option::None => Option::None,
                Option::Some((artifacts, s3)) => match dec_comma_key(s3, key_message()) {
                    Option::None => Option::None,
                    Option::Some(s4) => match dec_string_at(s4) {
                        Option::None => Option::None,
                        Option::Some((message, s5)) => match dec_comma_key(s5, key_ref()) {
                            Option::None => Option::None,
                            Option::Some(s6) => match dec_string_at(s6) {
                                Option::None => Option::None,
                                Option::Some((refname, s7)) => match dec_comma_key(
                                    s7,
                                    key_start(),
                                ) {
                                    Option::None => Option::None,
                                    Option::Some(s8) => match dec_tok(s8, lit_lbrace()) {
                                        Option::None => Option::None,
                                        Option::Some(s9) => match dec_key(s9, key_time()) {
                                            Option::None => Option::None,
                                            Option::Some(s10) => match dec_u64_at(s10) {
                                                Option::None => Option::None,
                                                Option::Some((start_time, s11)) => match dec_tok(
                                                    s11,
                                                    lit_rbrace(),
                                                ) {
                                                    Option::None => Option::None,
                                                    Option::Some(s12) => match dec_comma_key(
                                                        s12,
                                                        key_finish(),
                                                    ) {
                                                        Option::None => Option::None,
                                                        Option::Some(s13) => match dec_finish(
                                                            s13,
                                                        ) {
                                                            Option::None => Option::None,
                                                            Option::Some(
                                                                (finish, s14),
                                                            ) => match dec_tok(
                                                                s14,
                                                                lit_rbrace(),
                                                            ) {
                                                                Option::None => Option::None,
                                                                Option::Some(s15) => if skip_ws(
                                                                    s15,
                                                                ).len() == 0 {
                                                                    Option::Some(
                                                                        ReportV {
                                                                            artifacts,
                                                                            message,
                                                                            refname,
                                                                            start_time,
                                                                            finish,
                                                                        },
                                                                    )
                                                                } else {
                                                                    Option::None
                                                                },
                                                            },
                                                        },
                                                    },
                                                },
                                            },
                                        },
                                    },
                                },
                            },
                        },
                    },
                },
            },
        },
    }
}

/// Relies on String's FromIterator over char: collecting characters yields
/// the string of exactly those characters, in order.
#[verifier::external_body]
fn string_from_chars(v: Vec<char>) -> (r: String)
    ensures
        r@ == v@,
{
    v.into_iter().collect()
}

/// The characters of a string, in order, as a vector.
pub fn chars_of(s: &str) -> (r: Vec<char>)
    ensures
        r@ == s@,
{
    let n = s.unicode_len();
    let mut r: Vec<char> = Vec::new();
    let mut k: usize = 0;
    while k < n
        invariant
            k <= n,
            n == s@.len(),
            r@ == s@.subrange(0, k as int),
        decreases n - k,
    {
        r.push(s.get_char(k));
        proof {
            assert(s@.subrange(0, k + 1) =~= s@.subrange(0, k as int).push(s@[k as int]));
        }
        k = k + 1;
    }
    proof {
        assert(s@.subrange(0, n as int) =~= s@);
    }
    r
}

/// Appends the characters of a string.
fn push_str_chars(out: &mut Vec<char>, s: &str)
    ensures
        final(out)@ == old(out)@ + s@,
{
    let n = s.unicode_len();
    let mut k: usize = 0;
    while k < n
        invariant
            k <= n,
            n == s@.len(),
            out@ == old(out)@ + s@.subrange(0, k as int),
        decreases n - k,
    {
        out.push(s.get_char(k));
        proof {
            assert(old(out)@ + s@.subrange(0, k + 1) =~= (old(out)@ + s@.subrange(
                0,
                k as int,
            )).push(s@[k as int]));
        }
        k = k + 1;
    }
    proof {
        assert(s@.subrange(0, n as int) =~= s@);
    }
}

/// Escaping one more character on the right extends the escaped text.
pub proof fn lemma_esc_snoc(t: Seq<char>, c: char)
    ensures
        esc(t.push(c)) == esc(t) + esc_char(c),
    decreases t.len(),
{
    if t.len() == 0 {
        let e = Seq::<char>::empty();
        assert(t.push(c)[0] == c);
        assert(t.push(c).skip(1) =~= e);
        assert(esc(e) == e);
        assert(esc(t.push(c)) == esc_char(c) + esc(e));
        assert(t =~= e);
        assert(esc(t.push(c)) =~= esc(t) + esc_char(c));
    } else {
        assert(t.push(c).skip(1) =~= t.skip(1).push(c));
        lemma_esc_snoc(t.skip(1), c);
        assert(esc(t.push(c)) == esc_char(t[0]) + (esc(t.skip(1)) + esc_char(c)));
        assert(esc_char(t[0]) + (esc(t.skip(1)) + esc_char(c)) =~= (esc_char(t[0]) + esc(
            t.skip(1),
        )) + esc_char(c));
    }
}

/// Appends the quoted, escaped form of a string.
fn push_string_enc(out: &mut Vec<char>, s: &str)
    ensures
        final(out)@ == old(out)@ + enc_string(s@),
{
    out.push('"');
    let n = s.unicode_len();
    let mut k: usize = 0;
    while k < n
        invariant
            k <= n,
            n == s@.len(),
            out@ == old(out)@ + seq!['"'] + esc(s@.subrange(0, k as int)),
        decreases n - k,
    {
        let c = s.get_char(k);
        let ghost pre = out@;
        if c == '"' {
            out.push('\\');
            out.push('"');
        } else if c == '\\' {
            out.push('\\');
            out.push('\\');
        } else if (c as u32) < 32 {
            out.push('\\');
            out.push('u');
            out.push('0');
            out.push('0');
            let code: u32 = c as u32;
            let hi: u32 = code / 16;
            let lo: u32 = code % 16;
            out.push((48 + hi as u8) as char);
            if lo < 10 {
                out.push((48 + lo as u8) as char);
            } else {
                out.push((87 + lo as u8) as char);
            }
        } else {
            out.push(c);
        }
        proof {
            assert(out@ =~= pre + esc_char(s@[k as int]));
            lemma_esc_snoc(s@.subrange(0, k as int), s@[k as int]);
            assert(s@.subrange(0, k + 1) =~= s@.subrange(0, k as int).push(s@[k as int]));
            assert(out@ =~= old(out)@ + seq!['"'] + esc(s@.subrange(0, k + 1)));
        }
        k = k + 1;
    }
    out.push('"');
    proof {
        assert(s@.subrange(0, n as int) =~= s@);
        assert(out@ =~= old(out)@ + enc_string(s@));
    }
}

/// Appends the decimal digits of a number, most significant first.
fn push_u64(out: &mut Vec<char>, n: u64)
    ensures
        final(out)@ == old(out)@ + enc_u64(n),
    decreases n,
{
    if n < 10 {
        out.push((48 + n as u8) as char);
        proof {
            assert(out@ =~= old(out)@ + enc_u64(n));
        }
    } else {
        push_u64(out, n / 10);
        out.push((48 + (n % 10) as u8) as char);
        proof {
            assert(out@ =~= old(out)@ + enc_u64(n));
        }
    }
}

fn e_is_digit(c: char) -> (r: bool)
    ensures
        r == is_digit(c),
{
    let u = c as u32;
    48 <= u && u <= 57
}

fn e_is_hex(c: char) -> (r: bool)
    ensures
        r == is_hex(c),
{
    let u = c as u32;
    (48 <= u && u <= 57) || (97 <= u && u <= 102) || (65 <= u && u <= 70)
}

fn e_hex_val(c: char) -> (r: u32)
    requires
        is_hex(c),
    ensures
        r as int == hex_val(c),
        r < 16,
{
    let u = c as u32;
    if u <= 57 {
        u - 48
    } else if 97 <= u {
        u - 87
    } else {
        u - 55
    }
}

fn e_short_escape(c: char) -> (r: Option<char>)
    ensures
        r == short_escape(c),
{
    if c == '"' || c == '\\' || c == '/' {
        Option::Some(c)
    } else if c == 'b' {
        Option::Some((8 as u8) as char)
    } else if c == 't' {
        Option::Some((9 as u8) as char)
    } else if c == 'n' {
        Option::Some((10 as u8) as char)
    } else if c == 'f' {
        Option::Some((12 as u8) as char)
    } else if c == 'r' {
        Option::Some((13 as u8) as char)
    } else {
        Option::None
    }
}

/// Relies on std's char::from_u32: it returns the character with the given
/// code point, and Some exactly on scalar values, which the caller admits.
#[verifier::external_body]
fn char_of_code(code: u32) -> (c: char)
    requires
        code < 0xD800 || (0xE000 <= code && code < 0x110000),
    ensures
        c as int == code as int,
{
    char::from_u32(code).unwrap()
}

/// What `take_digits` splits off: the longest all-digit prefix, with the rest
/// beginning at the first non-digit.
pub proof fn lemma_take_digits(s: Seq<char>)
    ensures
        take_digits(s).0.len() <= s.len(),
        forall|k: int| 0 <= k < take_digits(s).0.len() ==> #[trigger] take_digits(s).0[k] == s[k],
        forall|k: int| 0 <= k < take_digits(s).0.len() ==> is_digit(#[trigger] s[k]),
        take_digits(s).1 == s.skip(take_digits(s).0.len() as int),
        take_digits(s).0.len() == s.len() || !is_digit(s[take_digits(s).0.len() as int]),
    decreases s.len(),
{
    if s.len() > 0 && is_digit(s[0]) {
        lemma_take_digits(s.skip(1));
        let d1 = take_digits(s.skip(1)).0;
        let d = take_digits(s).0;
        assert(d == seq![s[0]] + d1);
        assert(forall|k: int| 0 <= k < d1.len() ==> #[trigger] d1[k] == s.skip(1)[k]);
        assert(forall|k: int| 1 <= k < d.len() ==> #[trigger] d[k] == d1[k - 1]);
        assert(forall|k: int| 0 <= k < s.len() - 1 ==> #[trigger] s.skip(1)[k] == s[k + 1]);
        assert(forall|k: int| 0 <= k < d1.len() ==> is_digit(#[trigger] s.skip(1)[k]));
        assert forall|k: int| 1 <= k < d.len() implies is_digit(#[trigger] s[k]) by {
            assert(is_digit(s.skip(1)[k - 1]));
            assert(s.skip(1)[k - 1] == s[k]);
        }
        assert(take_digits(s).1 == s.skip(1).skip(d1.len() as int));
        assert(s.skip(1).skip(d1.len() as int) =~= s.skip(d.len() as int));
        if d1.len() < s.skip(1).len() {
            assert(s.skip(1)[d1.len() as int] == s[d.len() as int]);
        }
    } else {
        assert(s.skip(0) =~= s);
    }
}

/// A run of digits denotes a value at least as large as any of its prefixes.
pub proof fn lemma_digits_val_bounds(d: Seq<char>)
    requires
        forall|k: int| 0 <= k < d.len() ==> is_digit(#[trigger] d[k]),
    ensures
        digits_val(d) >= 0,
    decreases d.len(),
{
    if d.len() > 0 {
        assert(forall|k: int|
            0 <= k < d.drop_last().len() ==> #[trigger] d.drop_last()[k] == d[k]);
        lemma_digits_val_bounds(d.drop_last());
    }
}

pub proof fn lemma_digits_val_prefix(d: Seq<char>, m: int)
    requires
        0 <= m <= d.len(),
        forall|k: int| 0 <= k < d.len() ==> is_digit(#[trigger] d[k]),
    ensures
        digits_val(d.subrange(0, m)) <= digits_val(d),
    decreases d.len() - m,
{
    if m == d.len() {
        assert(d.subrange(0, m) =~= d);
    } else {
        let p = d.subrange(0, m);
        let q = d.subrange(0, m + 1);
        assert(q.drop_last() =~= p);
        assert(q.last() == d[m]);
        assert(forall|k: int| 0 <= k < p.len() ==> #[trigger] p[k] == d[k]);
        lemma_digits_val_bounds(p);
        assert(digits_val(q) == digits_val(p) * 10 + digit_val(d[m]));
        assert(digits_val(p) * 10 >= digits_val(p));
        lemma_digits_val_prefix(d, m + 1);
    }
}

/// Consumes the expected literal at position `i`, as `dec_lit` does.
fn p_lit(v: &Vec<char>, i: usize, l: &str) -> (r: Option<usize>)
    requires
        i <= v@.len(),
    ensures
        match r {
            Option::Some(j) => i <= j <= v@.len() && dec_lit(v@.skip(i as int), l@)
                == Option::Some(v@.skip(j as int)),
            Option::None => dec_lit(v@.skip(i as int), l@) is None,
        },
{
    let ghost s = v@.skip(i as int);
    let n = l.unicode_len();
    let vn = v.len();
    if vn - i < n {
        return Option::None;
    }
    let mut k: usize = 0;
    while k < n
        invariant
            k <= n,
            n == l@.len(),
            i <= v@.len(),
            vn == v@.len(),
            n <= vn - i,
            s == v@.skip(i as int),
            forall|m: int| 0 <= m < k ==> s[m] == l@[m],
        decreases n - k,
    {
        proof {
            assert(i + k < v@.len());
        }
        if v[i + k] != l.get_char(k) {
            proof {
                assert(s[k as int] == v@[i + k]);
                assert(s.subrange(0, n as int)[k as int] == s[k as int]);
            }
            return Option::None;
        }
        proof {
            assert(s[k as int] == v@[i + k]);
        }
        k = k + 1;
    }
    proof {
        assert(s.subrange(0, n as int) =~= l@);
        assert(s.skip(n as int) =~= v@.skip(i + n));
    }
    Option::Some(i + n)
}

/// Reads a quoted string at position `i`, as `dec_string` does, yielding the
/// unescaped content.
fn p_string(v: &Vec<char>, i: usize) -> (r: Option<(Vec<char>, usize)>)
    requires
        i <= v@.len(),
    ensures
        match r {
            Option::Some((c, j)) => i <= j <= v@.len() && dec_string(v@.skip(i as int))
                == Option::Some((c@, v@.skip(j as int))),
            Option::None => dec_string(v@.skip(i as int)) is None,
        },
{
    let n = v.len();
    if i >= n || v[i] != '"' {
        proof {
            if i < n {
                assert(v@.skip(i as int)[0] == v@[i as int]);
            }
        }
        return Option::None;
    }
    proof {
        assert(v@.skip(i as int)[0] == v@[i as int]);
        assert(v@.skip(i as int).skip(1) =~= v@.skip(i + 1));
    }
    let mut cur: usize = i + 1;
    let mut acc: Vec<char> = Vec::new();
    loop
        invariant
            i + 1 <= cur <= n,
            n == v@.len(),
            i < n,
            v@[i as int] == '"',
            dec_string(v@.skip(i as int)) == dec_string_body(v@.skip(i + 1)),
            (match dec_string_body(v@.skip(cur as int)) {
                Option::Some(p) => dec_string_body(v@.skip(i + 1)) == Option::Some(
                    (acc@ + p.0, p.1),
                ),
                Option::None => dec_string_body(v@.skip(i + 1)) is None,
            }),
        decreases n - cur,
    {
        let ghost s_cur = v@.skip(cur as int);
        if cur >= n {
            return Option::None;
        }
        proof {
            assert(s_cur[0] == v@[cur as int]);
        }
        let c = v[cur];
        if c == '"' {
            proof {
                assert(s_cur.skip(1) =~= v@.skip(cur + 1));
                assert(dec_string_body(s_cur) == Option::Some(
                    (Seq::<char>::empty(), v@.skip(cur + 1)),
                ));
                assert(acc@ + Seq::<char>::empty() =~= acc@);
            }
            return Option::Some((acc, cur + 1));
        } else if c == '\\' {
            if cur + 1 >= n {
                proof {
                    assert(s_cur.len() == 1);
                }
                return Option::None;
            }
            proof {
                assert(s_cur[1] == v@[cur + 1]);
            }
            let e = v[cur + 1];
            match e_short_escape(e) {
                Option::Some(dc) => {
                    let ghost accpre = acc@;
                    acc.push(dc);
                    proof {
                        assert(s_cur.skip(2) =~= v@.skip(cur + 2));
                        assert(dec_string_body(s_cur) == dec_cons(
                            dc,
                            dec_string_body(v@.skip(cur + 2)),
                        ));
                        match dec_string_body(v@.skip(cur + 2)) {
                            Option::Some(p) => {
                                assert(accpre + (seq![dc] + p.0) =~= acc@ + p.0);
                            },
                            Option::None => {},
                        }
                    }
                    cur = cur + 2;
                },
                Option::None => {
                    if e != 'u' {
                        return Option::None;
                    }
                    if n - cur < 6 {
                        proof {
                            assert(s_cur.len() < 6);
                        }
                        return Option::None;
                    }
                    proof {
                        assert(s_cur[2] == v@[cur + 2]);
                        assert(s_cur[3] == v@[cur + 3]);
                        assert(s_cur[4] == v@[cur + 4]);
                        assert(s_cur[5] == v@[cur + 5]);
                    }
                    let h2 = v[cur + 2];
                    let h3 = v[cur + 3];
                    let h4 = v[cur + 4];
                    let h5 = v[cur + 5];
                    if !(e_is_hex(h2) && e_is_hex(h3) && e_is_hex(h4) && e_is_hex(h5)) {
                        return Option::None;
                    }
                    let code: u32 = e_hex_val(h2) * 4096 + e_hex_val(h3) * 256 + e_hex_val(h4)
                        * 16 + e_hex_val(h5);
                    proof {
                        assert(code as int == hex4_val(s_cur[2], s_cur[3], s_cur[4], s_cur[5]));
                    }
                    if !(code < 0xD800 || code >= 0xE000) {
                        return Option::None;
                    }
                    let dc = char_of_code(code);
                    let ghost accpre = acc@;
                    acc.push(dc);
                    proof {
                        assert(((dc as int) as char) == dc);
                        assert(dc == hex4_val(s_cur[2], s_cur[3], s_cur[4], s_cur[5]) as char);
                        assert(s_cur.skip(6) =~= v@.skip(cur + 6));
                        assert(dec_string_body(s_cur) == dec_cons(
                            dc,
                            dec_string_body(v@.skip(cur + 6)),
                        ));
                        match dec_string_body(v@.skip(cur + 6)) {
                            Option::Some(p) => {
                                assert(accpre + (seq![dc] + p.0) =~= acc@ + p.0);
                            },
                            Option::None => {},
                        }
                    }
                    cur = cur + 6;
                },
            }
        } else {
            let space: char = ' ';
            if c < space {
                proof {
                    assert((c as int) < 32);
                }
                return Option::None;
            }
            let ghost accpre = acc@;
            acc.push(c);
            proof {
                assert(s_cur.len() > 0);
                assert(s_cur[0] == c);
                assert(c as int >= 32);
                assert(s_cur.skip(1) =~= v@.skip(cur + 1));
                assert(dec_string_body(s_cur) == dec_cons(c, dec_string_body(v@.skip(cur + 1))));
                match dec_string_body(v@.skip(cur + 1)) {
                    Option::Some(p) => {
                        assert(accpre + (seq![c] + p.0) =~= acc@ + p.0);
                    },
                    Option::None => {},
                }
            }
            cur = cur + 1;
        }
    }
}

/// Reads an unsigned decimal at position `i`, as `dec_u64` does.
fn p_u64(v: &Vec<char>, i: usize) -> (r: Option<(u64, usize)>)
    requires
        i <= v@.len(),
    ensures
        match r {
            Option::Some(p) => i <= p.1 <= v@.len() && dec_u64(v@.skip(i as int)) == Option::Some(
                (p.0, v@.skip(p.1 as int)),
            ),
            Option::None => dec_u64(v@.skip(i as int)) is None,
        },
{
    let ghost s = v@.skip(i as int);
    proof {
        lemma_take_digits(s);
    }
    let ghost dd = take_digits(s).0;
    let n = v.len();
    if i >= n || !e_is_digit(v[i]) {
        proof {
            if s.len() > 0 {
                assert(s[0] == v@[i as int]);
            }
            assert(dd.len() == 0);
        }
        return Option::None;
    }
    proof {
        assert(s[0] == v@[i as int]);
        assert(dd.len() > 0);
        assert(dd[0] == s[0]);
    }
    if v[i] == '0' && i + 1 < n && e_is_digit(v[i + 1]) {
        proof {
            assert(s[1] == v@[i + 1]);
            if dd.len() == 1 {
                assert(!is_digit(s[1]));
            }
        }
        return Option::None;
    }
    proof {
        if dd.len() > 1 && dd[0] == '0' {
            assert(s[0] == '0');
            assert(is_digit(s[1]));
            assert(s[1] == v@[i + 1]);
            assert(false);
        }
    }
    let mut cur: usize = i;
    let mut val: u64 = 0;
    while cur < n && e_is_digit(v[cur])
        invariant
            i <= cur <= n,
            n == v@.len(),
            s == v@.skip(i as int),
            dd == take_digits(s).0,
            take_digits(s).1 == s.skip(dd.len() as int),
            dd.len() <= s.len(),
            forall|k: int| 0 <= k < dd.len() ==> #[trigger] dd[k] == s[k],
            forall|k: int| 0 <= k < dd.len() ==> is_digit(#[trigger] s[k]),
            dd.len() == s.len() || !is_digit(s[dd.len() as int]),
            cur - i <= dd.len(),
            val == digits_val(dd.subrange(0, cur - i)),
            !(dd.len() > 1 && dd[0] == '0'),
        decreases n - cur,
    {
        proof {
            assert(s[cur - i] == v@[cur as int]);
            if cur - i == dd.len() {
                assert(is_digit(s[cur - i]));
                assert(cur - i < s.len());
                assert(false);
            }
        }
        let d: u64 = (v[cur] as u32 - 48) as u64;
        let ghost m = cur - i;
        proof {
            assert(d as int == digit_val(dd[m]));
            assert(dd.subrange(0, m + 1).drop_last() =~= dd.subrange(0, m));
            assert(dd.subrange(0, m + 1).last() == dd[m]);
            assert(digits_val(dd.subrange(0, m + 1)) == val * 10 + d);
        }
        if val > (u64::MAX - d) / 10 {
            proof {
                assert(val * 10 + d > u64::MAX) by (nonlinear_arith)
                    requires
                        val > (u64::MAX - d) / 10,
                        d <= 9,
                ;
                assert(forall|k: int| 0 <= k < dd.len() ==> is_digit(#[trigger] dd[k]));
                lemma_digits_val_prefix(dd, m + 1);
                assert(digits_val(dd) > u64::MAX);
            }
            return Option::None;
        }
        val = val * 10 + d;
        cur = cur + 1;
    }
    proof {
        if cur - i < dd.len() {
            assert(is_digit(s[cur - i]));
            assert(cur < n);
            assert(v@[cur as int] == s[cur - i]);
            assert(false);
        }
        assert(cur - i == dd.len());
        assert(dd.subrange(0, dd.len() as int) =~= dd);
        assert(digits_val(dd) == val);
        assert(!(dd.len() > 1 && dd[0] == '0'));
        assert(s.skip(dd.len() as int) =~= v@.skip(cur as int));
    }
    Option::Some((val, cur))
}

/// Reads a boolean literal at position `i`, as `dec_bool` does.
fn p_bool(v: &Vec<char>, i: usize) -> (r: Option<(bool, usize)>)
    requires
        i <= v@.len(),
    ensures
        match r {
            Option::Some(p) => i <= p.1 <= v@.len() && dec_bool(v@.skip(i as int)) == Option::Some(
                (p.0, v@.skip(p.1 as int)),
            ),
            Option::None => dec_bool(v@.skip(i as int)) is None,
        },
{
    match p_lit(v, i, "true") {
        Option::Some(j) => Option::Some((true, j)),
        Option::None => match p_lit(v, i, "false") {
            Option::Some(j) => Option::Some((false, j)),
            Option::None => Option::None,
        },
    }
}

fn e_is_ws(c: char) -> (r: bool)
    ensures
        r == is_ws(c),
{
    c == ' ' || c == '\t' || c == '\n' || c == '\r'
}

/// Skips past the whitespace at position `i`, as `skip_ws` does.
fn p_ws(v: &Vec<char>, i: usize) -> (j: usize)
    requires
        i <= v@.len(),
    ensures
        i <= j <= v@.len(),
        skip_ws(v@.skip(i as int)) == v@.skip(j as int),
{
    let n = v.len();
    let mut j: usize = i;
    while j < n && e_is_ws(v[j])
        invariant
            i <= j <= n,
            n == v@.len(),
            skip_ws(v@.skip(i as int)) == skip_ws(v@.skip(j as int)),
        decreases n - j,
    {
        proof {
            assert(v@.skip(j as int)[0] == v@[j as int]);
            assert(v@.skip(j as int).skip(1) =~= v@.skip(j + 1));
        }
        j = j + 1;
    }
    proof {
        if j < n {
            assert(v@.skip(j as int)[0] == v@[j as int]);
        }
        assert(skip_ws(v@.skip(j as int)) == v@.skip(j as int));
    }
    j
}

/// Consumes the expected token at position `i`, whitespace before it
/// allowed, as `dec_tok` does.
fn p_tok(v: &Vec<char>, i: usize, l: &str) -> (r: Option<usize>)
    requires
        i <= v@.len(),
    ensures
        match r {
            Option::Some(j) => i <= j <= v@.len() && dec_tok(v@.skip(i as int), l@)
                == Option::Some(v@.skip(j as int)),
            Option::None => dec_tok(v@.skip(i as int), l@) is None,
        },
{
    let j = p_ws(v, i);
    p_lit(v, j, l)
}

/// Consumes a quoted key and its colon, as `dec_key` does.
fn p_key(v: &Vec<char>, i: usize, k: &str) -> (r: Option<usize>)
    requires
        i <= v@.len(),
    ensures
        match r {
            Option::Some(j) => i <= j <= v@.len() && dec_key(v@.skip(i as int), k@)
                == Option::Some(v@.skip(j as int)),
            Option::None => dec_key(v@.skip(i as int), k@) is None,
        },
{
    match p_tok(v, i, k) {
        Option::None => Option::None,
        Option::Some(j) => p_tok(v, j, ":"),
    }
}

/// Consumes a comma, a quoted key and its colon, as `dec_comma_key` does.
fn p_comma_key(v: &Vec<char>, i: usize, k: &str) -> (r: Option<usize>)
    requires
        i <= v@.len(),
    ensures
        match r {
            Option::Some(j) => i <= j <= v@.len() && dec_comma_key(v@.skip(i as int), k@)
                == Option::Some(v@.skip(j as int)),
            Option::None => dec_comma_key(v@.skip(i as int), k@) is None,
        },
{
    match p_tok(v, i, ",") {
        Option::None => Option::None,
        Option::Some(j) => p_key(v, j, k),
    }
}

/// Reads a quoted string value, whitespace before it allowed.
fn p_string_at(v: &Vec<char>, i: usize) -> (r: Option<(Vec<char>, usize)>)
    requires
        i <= v@.len(),
    ensures
        match r {
            Option::Some(p) => i <= p.1 <= v@.len() && dec_string_at(v@.skip(i as int))
                == Option::Some((p.0@, v@.skip(p.1 as int))),
            Option::None => dec_string_at(v@.skip(i as int)) is None,
        },
{
    let j = p_ws(v, i);
    p_string(v, j)
}

/// Reads a decimal value, whitespace before it allowed.
fn p_u64_at(v: &Vec<char>, i: usize) -> (r: Option<(u64, usize)>)
    requires
        i <= v@.len(),
    ensures
        match r {
            Option::Some(p) => i <= p.1 <= v@.len() && dec_u64_at(v@.skip(i as int))
                == Option::Some((p.0, v@.skip(p.1 as int))),
            Option::None => dec_u64_at(v@.skip(i as int)) is None,
        },
{
    let j = p_ws(v, i);
    p_u64(v, j)
}

/// Reads a boolean value, whitespace before it allowed.
fn p_bool_at(v: &Vec<char>, i: usize) -> (r: Option<(bool, usize)>)
    requires
        i <= v@.len(),
    ensures
        match r {
            Option::Some(p) => i <= p.1 <= v@.len() && dec_bool_at(v@.skip(i as int))
                == Option::Some((p.0, v@.skip(p.1 as int))),
            Option::None => dec_bool_at(v@.skip(i as int)) is None,
        },
{
    let j = p_ws(v, i);
    p_bool(v, j)
}

/// The view of a parsed finish field, for relating exec and spec parsers.
pub open spec fn finish_view(f: Option<crate::schema::Finish>) -> Option<FinishV> {
    match f {
        Option::None => Option::None,
        Option::Some(ff) => Option::Some(ff@),
    }
}

/// Reads the finish field at position `i`, as `dec_finish` does.
fn p_finish(v: &Vec<char>, i: usize) -> (r: Option<(Option<crate::schema::Finish>, usize)>)
    requires
        i <= v@.len(),
    ensures
        match r {
            Option::Some(p) => i <= p.1 <= v@.len() && dec_finish(v@.skip(i as int))
                == Option::Some((finish_view(p.0), v@.skip(p.1 as int))),
            Option::None => dec_finish(v@.skip(i as int)) is None,
        },
{
    let t = p_ws(v, i);
    let ghost s = v@.skip(t as int);
    if t < v.len() && v[t] == 'n' {
        proof {
            assert(s[0] == v@[t as int]);
        }
        match p_lit(v, t, "null") {
            Option::Some(j) => Option::Some((Option::None, j)),
            Option::None => Option::None,
        }
    } else {
        proof {
            if s.len() > 0 {
                assert(s[0] == v@[t as int]);
            }
        }
        let j1 = match p_lit(v, t, "{") {
            Option::Some(j) => j,
            Option::None => {
                return Option::None;
            },
        };
        let j2 = match p_key(v, j1, "\"time\"") {
            Option::Some(j) => j,
            Option::None => {
                return Option::None;
            },
        };
        let (time, j3) = match p_u64_at(v, j2) {
            Option::Some(p) => p,
            Option::None => {
                return Option::None;
            },
        };
        let j4 = match p_comma_key(v, j3, "\"ok\"") {
            Option::Some(j) => j,
            Option::None => {
                return Option::None;
            },
        };
        let (ok, j5) = match p_bool_at(v, j4) {
            Option::Some(p) => p,
            Option::None => {
                return Option::None;
            },
        };
        let j6 = match p_tok(v, j5, "}") {
            Option::Some(j) => j,
            Option::None => {
                return Option::None;
            },
        };
        Option::Some((Option::Some(crate::schema::Finish { time, ok }), j6))
    }
}

/// Reads a complete report from the wire text: the value when the text is
/// the canonical framing of one, an explanation otherwise.
pub fn decode_report(s: &str) -> (r: Result<Report, String>)
    ensures
        match r {
            Result::Ok(rep) => dec_report(s@) == Option::Some(rep@),
            Result::Err(m) => dec_report(s@) is None && m@ == "invalid report body"@,
        },
{
    let v = chars_of(s);
    proof {
        assert(v@.skip(0) =~= s@);
    }
    let j1 = match p_tok(&v, 0, "{") {
        Option::Some(j) => j,
        Option::None => {
            return Result::Err(String::from_str("invalid report body"));
        },
    };
    let j2 = match p_key(&v, j1, "\"artifacts\"") {
        Option::Some(j) => j,
        Option::None => {
            return Result::Err(String::from_str("invalid report body"));
        },
    };
    let (artifacts, j3) = match p_string_at(&v, j2) {
        Option::Some(p) => p,
        Option::None => {
            return Result::Err(String::from_str("invalid report body"));
        },
    };
    let j4 = match p_comma_key(&v, j3, "\"message\"") {
        Option::Some(j) => j,
        Option::None => {
            return Result::Err(String::from_str("invalid report body"));
        },
    };
    let (message, j5) = match p_string_at(&v, j4) {
        Option::Some(p) => p,
        Option::None => {
            return Result::Err(String::from_str("invalid report body"));
        },
    };
    let j6 = match p_comma_key(&v, j5, "\"ref\"") {
        Option::Some(j) => j,
        Option::None => {
            return Result::Err(String::from_str("invalid report body"));
        },
    };
    let (refname, j7) = match p_string_at(&v, j6) {
        Option::Some(p) => p,
        Option::None => {
            return Result::Err(String::from_str("invalid report body"));
        },
    };
    let j8 = match p_comma_key(&v, j7, "\"start\"") {
        Option::Some(j) => j,
        Option::None => {
            return Result::Err(String::from_str("invalid report body"));
        },
    };
    let j9 = match p_tok(&v, j8, "{") {
        Option::Some(j) => j,
        Option::None => {
            return Result::Err(String::from_str("invalid report body"));
        },
    };
    let j10 = match p_key(&v, j9, "\"time\"") {
        Option::Some(j) => j,
        Option::None => {
            return Result::Err(String::from_str("invalid report body"));
        },
    };
    let (start_time, j11) = match p_u64_at(&v, j10) {
        Option::Some(p) => p,
        Option::None => {
            return Result::Err(String::from_str("invalid report body"));
        },
    };
    let j12 = match p_tok(&v, j11, "}") {
        Option::Some(j) => j,
        Option::None => {
            return Result::Err(String::from_str("invalid report body"));
        },
    };
    let j13 = match p_comma_key(&v, j12, "\"finish\"") {
        Option::Some(j) => j,
        Option::None => {
            return Result::Err(String::from_str("invalid report body"));
        },
    };
    let (finish, j14) = match p_finish(&v, j13) {
        Option::Some(p) => p,
        Option::None => {
            return Result::Err(String::from_str("invalid report body"));
        },
    };
    let j15 = match p_tok(&v, j14, "}") {
        Option::Some(j) => j,
        Option::None => {
            return Result::Err(String::from_str("invalid report body"));
        },
    };
    let j16 = p_ws(&v, j15);
    if j16 != v.len() {
        return Result::Err(String::from_str("invalid report body"));
    }
    let rep = Report {
        artifacts: string_from_chars(artifacts),
        message: string_from_chars(message),
        refname: string_from_chars(refname),
        start: crate::schema::Start { time: start_time },
        finish,
    };
    proof {
        assert(skip_ws(v@.skip(j15 as int)).len() == 0);
    }
    Result::Ok(rep)
}

/// Writes a report in the canonical wire framing.
#[verifier::rlimit(100)]
pub fn encode_report(rep: &Report) -> (r: String)
    ensures
        r@ == enc_report(rep@),
{
    let mut out: Vec<char> = Vec::new();
    push_str_chars(&mut out, "{\"artifacts\":");
    push_string_enc(&mut out, rep.artifacts.as_str());
    push_str_chars(&mut out, ",\"message\":");
    push_string_enc(&mut out, rep.message.as_str());
    push_str_chars(&mut out, ",\"ref\":");
    push_string_enc(&mut out, rep.refname.as_str());
    push_str_chars(&mut out, ",\"start\":{\"time\":");
    push_u64(&mut out, rep.start.time);
    push_str_chars(&mut out, "},\"finish\":");
    match &rep.finish {
        Option::None => {
            push_str_chars(&mut out, "null");
        },
        Option::Some(f) => {
            push_str_chars(&mut out, "{\"time\":");
            push_u64(&mut out, f.time);
            push_str_chars(&mut out, ",\"ok\":");
            if f.ok {
                push_str_chars(&mut out, "true");
            } else {
                push_str_chars(&mut out, "false");
            }
            push_str_chars(&mut out, "}");
        },
    }
    push_str_chars(&mut out, "}");
    proof {
        assert(out@ =~= enc_report(rep@));
    }
    string_from_chars(out)
}

/// A character's code point is never negative.
pub proof fn lemma_char_code_nonneg(c: char)
    ensures
        (c as int) >= 0,
{
    assert((c as int) >= 0);
}

/// An expected literal standing at the front is consumed exactly.
pub proof fn lemma_dec_lit_of_concat(l: Seq<char>, rest: Seq<char>)
    ensures
        dec_lit(l + rest, l) == Option::Some(rest),
{
    let s = l + rest;
    assert(s.subrange(0, l.len() as int) =~= l);
    assert(s.skip(l.len() as int) =~= rest);
}

/// Unescaping inverts escaping, one character at a time.
pub proof fn lemma_dec_string_body_roundtrip(sv: Seq<char>, rest: Seq<char>)
    ensures
        dec_string_body(esc(sv) + seq!['"'] + rest) == Option::Some((sv, rest)),
    decreases sv.len(),
{
    let s = esc(sv) + seq!['"'] + rest;
    if sv.len() == 0 {
        assert(esc(sv) == Seq::<char>::empty());
        assert(s[0] == '"');
        assert(s.skip(1) =~= rest);
    } else {
        let c = sv[0];
        let tl = sv.skip(1);
        let s_tl = esc(tl) + seq!['"'] + rest;
        assert(esc(sv) == esc_char(c) + esc(tl));
        lemma_dec_string_body_roundtrip(tl, rest);
        if c == '"' || c == '\\' {
            assert(s[0] == '\\');
            assert(s[1] == c);
            assert(s.len() >= 2);
            assert(short_escape(c) == Option::Some(c));
            assert(s.skip(2) =~= s_tl);
            assert(dec_string_body(s) == dec_cons(c, dec_string_body(s_tl)));
            assert(seq![c] + tl =~= sv);
        } else if (c as int) < 32 {
            let code = c as int;
            let h1 = hex_char(code / 16);
            let h2 = hex_char(code % 16);
            assert(esc_char(c) == seq!['\\', 'u', '0', '0', h1, h2]);
            assert(s.len() >= 6);
            assert(s[0] == '\\');
            assert(s[1] == 'u');
            assert(s[2] == '0');
            assert(s[3] == '0');
            assert(s[4] == h1);
            assert(s[5] == h2);
            lemma_char_code_nonneg(c);
            assert(0 <= code < 32);
            assert(0 <= code / 16 < 2) by (nonlinear_arith)
                requires
                    0 <= code < 32,
            ;
            assert(0 <= code % 16 < 16);
            assert((h1 as int) == 48 + code / 16);
            assert(is_hex(h1));
            assert(hex_val(h1) == code / 16);
            if code % 16 < 10 {
                assert((h2 as int) == 48 + code % 16);
            } else {
                assert((h2 as int) == 87 + code % 16);
            }
            assert(is_hex(h2));
            assert(hex_val(h2) == code % 16);
            assert(short_escape('u') is None);
            assert(is_hex('0'));
            assert(hex_val('0') == 0);
            assert(hex4_val(s[2], s[3], s[4], s[5]) == code) by {
                assert(code == (code / 16) * 16 + code % 16) by (nonlinear_arith);
            }
            assert(is_scalar_hex4(code));
            assert((hex4_val(s[2], s[3], s[4], s[5]) as char) == c);
            assert(s.skip(6) =~= s_tl);
            assert(dec_string_body(s) == dec_cons(c, dec_string_body(s_tl)));
            assert(seq![c] + tl =~= sv);
        } else {
            assert(esc_char(c) == seq![c]);
            assert(s[0] == c);
            assert(c != '"' && c != '\\');
            assert(s.skip(1) =~= s_tl);
            assert(dec_string_body(s) == dec_cons(c, dec_string_body(s_tl)));
            assert(seq![c] + tl =~= sv);
        }
    }
}

/// Reading a quoted string inverts writing one.
pub proof fn lemma_dec_string_roundtrip(sv: Seq<char>, rest: Seq<char>)
    ensures
        dec_string(enc_string(sv) + rest) == Option::Some((sv, rest)),
{
    let s = enc_string(sv) + rest;
    assert(s[0] == '"');
    assert(s.len() > 0);
    assert(s.skip(1) =~= esc(sv) + seq!['"'] + rest);
    lemma_dec_string_body_roundtrip(sv, rest);
}

/// The decimal digits of a number: all digits, no leading zero (but for zero
/// itself), denoting the number.
pub proof fn lemma_enc_u64_digits(n: u64)
    ensures
        enc_u64(n).len() >= 1,
        forall|k: int| 0 <= k < enc_u64(n).len() ==> is_digit(#[trigger] enc_u64(n)[k]),
        digits_val(enc_u64(n)) == n,
        n < 10 ==> enc_u64(n).len() == 1,
        n >= 10 ==> enc_u64(n).len() >= 2,
        n > 0 ==> enc_u64(n)[0] != '0',
    decreases n,
{
    if n < 10 {
        let d = digit_char(n as int);
        assert((d as int) == 48 + n);
        assert(is_digit(d));
        assert(enc_u64(n) == seq![d]);
        assert(enc_u64(n).drop_last() =~= Seq::<char>::empty());
        assert(enc_u64(n).last() == d);
        assert(digits_val(Seq::<char>::empty()) == 0);
        assert(digits_val(enc_u64(n)) == digits_val(enc_u64(n).drop_last()) * 10 + digit_val(
            enc_u64(n).last(),
        ));
        assert(digits_val(enc_u64(n)) == digit_val(d));
        if n > 0 {
            assert((d as int) != 48);
            assert(('0' as int) == 48);
            assert(d != '0');
        }
    } else {
        lemma_enc_u64_digits(n / 10);
        let hd = enc_u64(n / 10);
        let d = digit_char((n % 10) as int);
        assert((d as int) == 48 + n % 10);
        assert(is_digit(d));
        assert(enc_u64(n) == hd + seq![d]);
        assert(forall|k: int| 0 <= k < hd.len() ==> #[trigger] enc_u64(n)[k] == hd[k]);
        assert(enc_u64(n)[hd.len() as int] == d);
        assert(enc_u64(n).drop_last() =~= hd);
        assert(enc_u64(n).last() == d);
        assert(digits_val(enc_u64(n)) == digits_val(hd) * 10 + digit_val(d));
        assert((n / 10) * 10 + n % 10 == n) by (nonlinear_arith);
        assert(enc_u64(n)[0] == hd[0]);
        assert(n / 10 > 0);
    }
}

/// The longest digit run of an all-digit text followed by a non-digit is
/// exactly that text.
pub proof fn lemma_take_digits_exact(d: Seq<char>, rest: Seq<char>)
    requires
        forall|k: int| 0 <= k < d.len() ==> is_digit(#[trigger] d[k]),
        rest.len() == 0 || !is_digit(rest[0]),
    ensures
        take_digits(d + rest) == (d, rest),
    decreases d.len(),
{
    let s = d + rest;
    if d.len() == 0 {
        assert(s =~= rest);
        if s.len() > 0 {
            assert(s[0] == rest[0]);
        }
        assert(take_digits(s) == (Seq::<char>::empty(), s));
        assert(Seq::<char>::empty() =~= d);
    } else {
        assert(s[0] == d[0]);
        assert(is_digit(s[0]));
        assert(s.len() > 0);
        assert(s.skip(1) =~= d.skip(1) + rest);
        assert(forall|k: int| 0 <= k < d.skip(1).len() ==> is_digit(#[trigger] d.skip(1)[k]));
        lemma_take_digits_exact(d.skip(1), rest);
        assert(take_digits(s).0 == seq![s[0]] + d.skip(1));
        assert(seq![s[0]] + d.skip(1) =~= d);
        assert(take_digits(s).1 == rest);
    }
}

/// Reading a decimal inverts writing one, as long as no digit follows.
pub proof fn lemma_dec_u64_roundtrip(n: u64, rest: Seq<char>)
    requires
        rest.len() == 0 || !is_digit(rest[0]),
    ensures
        dec_u64(enc_u64(n) + rest) == Option::Some((n, rest)),
{
    lemma_enc_u64_digits(n);
    lemma_take_digits_exact(enc_u64(n), rest);
    let d = enc_u64(n);
    if d.len() > 1 {
        assert(n >= 10);
        assert(d[0] != '0');
    }
}

/// Reading a boolean literal inverts writing one.
pub proof fn lemma_dec_bool_roundtrip(b: bool, rest: Seq<char>)
    ensures
        dec_bool(enc_bool(b) + rest) == Option::Some((b, rest)),
{
    reveal_strlit("true");
    reveal_strlit("false");
    let s = enc_bool(b) + rest;
    if b {
        lemma_dec_lit_of_concat(lit_true(), rest);
    } else {
        if dec_lit(s, lit_true()) is Some {
            assert(s.subrange(0, 4) == lit_true());
            assert(s.subrange(0, 4)[0] == s[0]);
            assert(s[0] == 'f');
            assert(lit_true()[0] == 't');
            assert(false);
        }
        lemma_dec_lit_of_concat(lit_false(), rest);
    }
}

/// Text that does not open with whitespace keeps itself under `skip_ws`.
pub proof fn lemma_skip_ws_of_nonws(s: Seq<char>)
    requires
        s.len() == 0 || !is_ws(s[0]),
    ensures
        skip_ws(s) == s,
{
}

/// An expected token standing at the front is consumed exactly.
pub proof fn lemma_dec_tok_of_concat(l: Seq<char>, rest: Seq<char>)
    requires
        l.len() > 0,
        !is_ws(l[0]),
    ensures
        dec_tok(l + rest, l) == Option::Some(rest),
{
    assert((l + rest)[0] == l[0]);
    lemma_skip_ws_of_nonws(l + rest);
    lemma_dec_lit_of_concat(l, rest);
}

/// A key token and its colon standing at the front are consumed exactly.
pub proof fn lemma_dec_key_of_concat(k: Seq<char>, rest: Seq<char>)
    requires
        k.len() > 0,
        !is_ws(k[0]),
    ensures
        dec_key(k + (lit_colon() + rest), k) == Option::Some(rest),
{
    reveal_strlit(":");
    lemma_dec_tok_of_concat(k, lit_colon() + rest);
    lemma_dec_tok_of_concat(lit_colon(), rest);
}

/// A comma, a key token and its colon standing at the front are consumed
/// exactly.
pub proof fn lemma_dec_comma_key_of_concat(k: Seq<char>, rest: Seq<char>)
    requires
        k.len() > 0,
        !is_ws(k[0]),
    ensures
        dec_comma_key(lit_comma() + (k + (lit_colon() + rest)), k) == Option::Some(rest),
{
    reveal_strlit(",");
    lemma_dec_tok_of_concat(lit_comma(), k + (lit_colon() + rest));
    lemma_dec_key_of_concat(k, rest);
}

pub proof fn lemma_dec_string_at_roundtrip(sv: Seq<char>, rest: Seq<char>)
    ensures
        dec_string_at(enc_string(sv) + rest) == Option::Some((sv, rest)),
{
    assert((enc_string(sv) + rest)[0] == '"');
    lemma_skip_ws_of_nonws(enc_string(sv) + rest);
    lemma_dec_string_roundtrip(sv, rest);
}

pub proof fn lemma_dec_u64_at_roundtrip(n: u64, rest: Seq<char>)
    requires
        rest.len() == 0 || !is_digit(rest[0]),
    ensures
        dec_u64_at(enc_u64(n) + rest) == Option::Some((n, rest)),
{
    lemma_enc_u64_digits(n);
    assert((enc_u64(n) + rest)[0] == enc_u64(n)[0]);
    assert(is_digit(enc_u64(n)[0]));
    lemma_skip_ws_of_nonws(enc_u64(n) + rest);
    lemma_dec_u64_roundtrip(n, rest);
}

pub proof fn lemma_dec_bool_at_roundtrip(b: bool, rest: Seq<char>)
    ensures
        dec_bool_at(enc_bool(b) + rest) == Option::Some((b, rest)),
{
    reveal_strlit("true");
    reveal_strlit("false");
    assert((enc_bool(b) + rest)[0] == enc_bool(b)[0]);
    lemma_skip_ws_of_nonws(enc_bool(b) + rest);
    lemma_dec_bool_roundtrip(b, rest);
}

/// Reading the finish field inverts writing one.
pub proof fn lemma_dec_finish_roundtrip(f: Option<FinishV>, rest: Seq<char>)
    ensures
        dec_finish(enc_finish(f) + rest) == Option::Some((f, rest)),
{
    reveal_strlit("null");
    reveal_strlit("{\"time\":");
    reveal_strlit(",\"ok\":");
    reveal_strlit("{");
    reveal_strlit("\"time\"");
    reveal_strlit(":");
    reveal_strlit(",");
    reveal_strlit("\"ok\"");
    reveal_strlit("}");
    let s = enc_finish(f) + rest;
    match f {
        Option::None => {
            assert(s[0] == 'n');
            assert(s.len() > 0);
            lemma_skip_ws_of_nonws(s);
            lemma_dec_lit_of_concat(lit_null(), rest);
        },
        Option::Some(fv) => {
            let y4 = lit_rbrace() + rest;
            let y3 = enc_bool(fv.ok) + y4;
            let y2 = lit_comma() + (key_ok() + (lit_colon() + y3));
            let y1 = enc_u64(fv.time) + y2;
            let z = key_time() + (lit_colon() + y1);
            assert(s =~= lit_lbrace() + z);
            assert(s[0] == '{');
            assert(s.len() > 0);
            lemma_skip_ws_of_nonws(s);
            assert(s[0] != 'n');
            lemma_dec_lit_of_concat(lit_lbrace(), z);
            lemma_dec_key_of_concat(key_time(), y1);
            assert(y2[0] == ',');
            assert(!is_digit(y2[0]));
            lemma_dec_u64_at_roundtrip(fv.time, y2);
            lemma_dec_comma_key_of_concat(key_ok(), y3);
            lemma_dec_bool_at_roundtrip(fv.ok, y4);
            lemma_dec_tok_of_concat(lit_rbrace(), rest);
        },
    }
}

/// Decoding inverts encoding: every report value comes back from its wire
/// text unchanged, whichever fields it holds.
pub proof fn lemma_report_roundtrip(rv: ReportV)
    ensures
        dec_report(enc_report(rv)) == Option::Some(rv),
{
    reveal_strlit("{\"artifacts\":");
    reveal_strlit(",\"message\":");
    reveal_strlit(",\"ref\":");
    reveal_strlit(",\"start\":{\"time\":");
    reveal_strlit("},\"finish\":");
    reveal_strlit("{");
    reveal_strlit("}");
    reveal_strlit(":");
    reveal_strlit(",");
    reveal_strlit("\"artifacts\"");
    reveal_strlit("\"message\"");
    reveal_strlit("\"ref\"");
    reveal_strlit("\"start\"");
    reveal_strlit("\"time\"");
    reveal_strlit("\"finish\"");
    let s = enc_report(rv);
    let empty = Seq::<char>::empty();
    let t10 = lit_rbrace() + empty;
    let t9 = enc_finish(rv.finish) + t10;
    let t8 = lit_comma() + (key_finish() + (lit_colon() + t9));
    let t7 = lit_rbrace() + t8;
    let t6 = enc_u64(rv.start_time) + t7;
    let t5b = lit_lbrace() + (key_time() + (lit_colon() + t6));
    let t5 = lit_comma() + (key_start() + (lit_colon() + t5b));
    let t4 = enc_string(rv.refname) + t5;
    let t3 = lit_comma() + (key_ref() + (lit_colon() + t4));
    let t2 = enc_string(rv.message) + t3;
    let t1 = lit_comma() + (key_message() + (lit_colon() + t2));
    let t0 = enc_string(rv.artifacts) + t1;
    let z = key_artifacts() + (lit_colon() + t0);
    assert(s =~= lit_lbrace() + z);
    lemma_dec_tok_of_concat(lit_lbrace(), z);
    lemma_dec_key_of_concat(key_artifacts(), t0);
    lemma_dec_string_at_roundtrip(rv.artifacts, t1);
    lemma_dec_comma_key_of_concat(key_message(), t2);
    lemma_dec_string_at_roundtrip(rv.message, t3);
    lemma_dec_comma_key_of_concat(key_ref(), t4);
    lemma_dec_string_at_roundtrip(rv.refname, t5);
    lemma_dec_comma_key_of_concat(key_start(), t5b);
    lemma_dec_tok_of_concat(lit_lbrace(), key_time() + (lit_colon() + t6));
    lemma_dec_key_of_concat(key_time(), t6);
    assert(t7[0] == '}');
    assert(!is_digit(t7[0]));
    lemma_dec_u64_at_roundtrip(rv.start_time, t7);
    lemma_dec_tok_of_concat(lit_rbrace(), t8);
    lemma_dec_comma_key_of_concat(key_finish(), t9);
    lemma_dec_finish_roundtrip(rv.finish, t10);
    lemma_dec_tok_of_concat(lit_rbrace(), empty);
    assert(skip_ws(empty).len() == 0);
    assert(dec_report(s) == Option::Some(
        ReportV {
            artifacts: rv.artifacts,
            message: rv.message,
            refname: rv.refname,
            start_time: rv.start_time,
            finish: rv.finish,
        },
    ));
}

} // verus!
