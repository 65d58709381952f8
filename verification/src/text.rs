//! Text helpers: UTF-8 in both directions, prefixes, decimal numbers, percent
//! encoding, JSON objects and event ids.

use vstd::prelude::*;
use vstd::string::*;
use vstd::utf8::*;

verus! {

/// What `String::from_utf8_lossy` makes of bytes that are not UTF-8.
pub uninterp spec fn utf8_lossy(bytes: Seq<u8>) -> Seq<char>;

/// The text that any bytes are read as: what they encode, or, where they are
/// not UTF-8, the text with replacements.
pub open spec fn lossy_text(bytes: Seq<u8>) -> Seq<char> {
    if valid_utf8(bytes) {
        decode_utf8(bytes)
    } else {
        utf8_lossy(bytes)
    }
}

/// `String::from_utf8`: the text that `bytes` encode, or `None` where they
/// are not UTF-8.
#[verifier::external_body]
pub(crate) fn text_from_utf8(bytes: Vec<u8>) -> (text: Option<String>)
    ensures
        text is Some <==> valid_utf8(bytes@),
        text matches Some(t) ==> t@ == decode_utf8(bytes@),
{
    String::from_utf8(bytes).ok()
}

/// `String::from_utf8_lossy`: text for any bytes. Bytes that are UTF-8 are
/// decoded; elsewhere the replacement character stands in for what is not, so
/// an ASCII character of the result is always a byte of the input.
#[verifier::external_body]
pub(crate) fn text_from_utf8_lossy(bytes: &[u8]) -> (text: String)
    ensures
        valid_utf8(bytes@) ==> text@ == decode_utf8(bytes@),
        !valid_utf8(bytes@) ==> text@ == utf8_lossy(bytes@),
        forall|i: int|
            0 <= i < text@.len() && (#[trigger] text@[i] as u32) < 128 ==> bytes@.contains(
                text@[i] as u8,
            ),
{
    String::from_utf8_lossy(bytes).into_owned()
}

/// The decimal digit of a number below ten.
pub open spec fn digit(d: int) -> char {
    (48 + d) as char
}

/// A number in decimal, without leading zeros.
pub open spec fn decimal(n: nat) -> Seq<char>
    decreases n,
{
    if n < 10 {
        seq![digit(n as int)]
    } else {
        decimal(n / 10).push(digit((n % 10) as int))
    }
}

/// The number that decimal digits stand for.
pub open spec fn decimal_value(s: Seq<char>) -> int
    decreases s.len(),
{
    if s.len() == 0 {
        0
    } else {
        decimal_value(s.drop_last()) * 10 + (s.last() as int - 48)
    }
}

fn digit_text(d: u64) -> (text: &'static str)
    requires
        d < 10,
    ensures
        text@ == seq![digit(d as int)],
{
    proof {
        reveal_strlit("0");
        reveal_strlit("1");
        reveal_strlit("2");
        reveal_strlit("3");
        reveal_strlit("4");
        reveal_strlit("5");
        reveal_strlit("6");
        reveal_strlit("7");
        reveal_strlit("8");
        reveal_strlit("9");
    }
    let text = if d == 0 {
        "0"
    } else if d == 1 {
        "1"
    } else if d == 2 {
        "2"
    } else if d == 3 {
        "3"
    } else if d == 4 {
        "4"
    } else if d == 5 {
        "5"
    } else if d == 6 {
        "6"
    } else if d == 7 {
        "7"
    } else if d == 8 {
        "8"
    } else {
        "9"
    };
    assert(text@ =~= seq![digit(d as int)]);
    text
}

/// Writes a number in decimal.
pub fn decimal_text(n: u64) -> (text: String)
    ensures
        text@ == decimal(n as nat),
    decreases n,
{
    if n < 10 {
        digit_text(n).to_owned()
    } else {
        let mut text = decimal_text(n / 10);
        text.append(digit_text(n % 10));
        assert(text@ =~= decimal((n / 10) as nat).push(digit((n % 10) as int)));
        text
    }
}

/// The word for a truth value.
pub open spec fn bool_word(b: bool) -> Seq<char> {
    if b {
        "true"@
    } else {
        "false"@
    }
}

/// Writes a truth value.
pub fn bool_text(b: bool) -> (text: &'static str)
    ensures
        text@ == bool_word(b),
        b ==> text@ == "true"@,
        !b ==> text@ == "false"@,
{
    if b {
        "true"
    } else {
        "false"
    }
}

pub(crate) proof fn lemma_encode_concat(a: Seq<char>, b: Seq<char>)
    ensures
        encode_utf8(a + b) == encode_utf8(a) + encode_utf8(b),
    decreases a.len(),
{
    if a.len() == 0 {
        assert(a + b =~= b);
        assert(encode_utf8(a) + encode_utf8(b) =~= encode_utf8(b));
    } else {
        lemma_encode_concat(a.drop_first(), b);
        assert((a + b).drop_first() =~= a.drop_first() + b);
        assert(encode_utf8(a + b) =~= encode_utf8(a) + encode_utf8(b));
    }
}

proof fn lemma_encode_prefix(a: Seq<char>, s: Seq<char>)
    requires
        encode_utf8(a).len() <= encode_utf8(s).len(),
        encode_utf8(s).take(encode_utf8(a).len() as int) == encode_utf8(a),
    ensures
        a.is_prefix_of(s),
    decreases a.len(),
{
    let ea = encode_utf8(a);
    let es = encode_utf8(s);
    if a.len() > 0 {
        encode_utf8_first_scalar(a);
        assert(s.len() > 0);
        encode_utf8_first_scalar(s);
        assert(forall|i: int|
            0 <= i < ea.len() ==> ea[i] == #[trigger] es.take(ea.len() as int)[i]);
        assert(ea[0] == es[0]);
        let n = encode_scalar(a[0] as u32).len() as int;
        assert(encode_scalar(s[0] as u32).len() == n);
        assert(n > 1 ==> ea[1] == es[1]);
        assert(n > 2 ==> ea[2] == es[2]);
        assert(n > 3 ==> ea[3] == es[3]);
        assert(a[0] as u32 == s[0] as u32);
        char_u32_cast(a[0], a[0] as u32);
        char_u32_cast(s[0], s[0] as u32);
        let ra = encode_utf8(a.drop_first());
        let rs = encode_utf8(s.drop_first());
        assert(ra =~= ea.skip(n));
        assert(rs =~= es.skip(n));
        assert(rs.take(ra.len() as int) =~= ra);
        lemma_encode_prefix(a.drop_first(), s.drop_first());
        assert(a.drop_first().is_prefix_of(s.drop_first()));
        assert forall|i: int| 0 <= i < a.len() implies a[i] == s[i] by {
            if i > 0 {
                assert(a[i] == a.drop_first()[i - 1]);
                assert(s[i] == s.drop_first()[i - 1]);
            }
        }
    }
    assert(a =~= s.take(a.len() as int));
}

/// Whether `text` starts with `prefix`.
pub fn starts_with(text: &str, prefix: &str) -> (r: bool)
    ensures
        r == prefix@.is_prefix_of(text@),
        r <==> exists|rest: Seq<char>| text@ == #[trigger] (prefix@ + rest),
{
    proof {
        if prefix@.is_prefix_of(text@) {
            assert(text@ =~= prefix@ + text@.skip(prefix@.len() as int));
        }
        if exists|rest: Seq<char>| text@ == #[trigger] (prefix@ + rest) {
            let rest = choose|rest: Seq<char>| text@ == #[trigger] (prefix@ + rest);
            assert(prefix@ =~= (prefix@ + rest).take(prefix@.len() as int));
        }
    }
    let t = text.as_bytes();
    let p = prefix.as_bytes();
    proof {
        if prefix@.is_prefix_of(text@) {
            assert(text@ =~= prefix@ + text@.skip(prefix@.len() as int));
            lemma_encode_concat(prefix@, text@.skip(prefix@.len() as int));
        }
    }
    if p.len() > t.len() {
        return false;
    }
    let mut i: usize = 0;
    while i < p.len()
        invariant
            i <= p@.len(),
            p@.len() <= t@.len(),
            p@ == encode_utf8(prefix@),
            t@ == encode_utf8(text@),
            prefix@.is_prefix_of(text@) ==> t@ == p@ + encode_utf8(
                text@.skip(prefix@.len() as int),
            ),
            forall|j: int| 0 <= j < i ==> p@[j] == t@[j],
        decreases p@.len() - i,
    {
        if p[i] != t[i] {
            return false;
        }
        i += 1;
    }
    proof {
        assert(t@.take(p@.len() as int) =~= p@);
        lemma_encode_prefix(prefix@, text@);
    }
    true
}

/// A byte that percent encoding leaves as it is: a letter, a digit or one of
/// `-`, `_`, `.`, `~`.
pub open spec fn unreserved(b: u8) -> bool {
    ||| 48 <= b <= 57
    ||| 65 <= b <= 90
    ||| 97 <= b <= 122
    ||| b == 45
    ||| b == 46
    ||| b == 95
    ||| b == 126
}

/// The upper-case hexadecimal digit of a number below sixteen.
pub open spec fn hex_digit(d: int) -> char {
    if d < 10 {
        (48 + d) as char
    } else {
        (55 + d) as char
    }
}

/// One byte, percent encoded.
pub open spec fn percent_byte(b: u8) -> Seq<char> {
    if unreserved(b) {
        seq![b as char]
    } else {
        seq!['%', hex_digit(b as int / 16), hex_digit(b as int % 16)]
    }
}

/// Bytes, percent encoded one by one.
pub open spec fn percent_encoded(bytes: Seq<u8>) -> Seq<char>
    decreases bytes.len(),
{
    if bytes.len() == 0 {
        Seq::empty()
    } else {
        percent_encoded(bytes.drop_last()) + percent_byte(bytes.last())
    }
}

/// A character that percent-encoded text is made of.
pub open spec fn percent_char(c: char) -> bool {
    c == '%' || ((c as u32) < 128 && unreserved(c as u8))
}

/// `urlencoding::encode`: the UTF-8 bytes of `text`, percent encoded, with
/// every byte kept that is a letter, a digit or one of `-`, `_`, `.`, `~`.
#[verifier::external_body]
pub(crate) fn percent_encode(text: &str) -> (encoded: String)
    ensures
        encoded@ == percent_encoded(encode_utf8(text@)),
{
    urlencoding::encode(text).into_owned()
}

/// One character of a JSON string: quotation mark, reverse solidus and control
/// characters are escaped.
pub open spec fn json_char(c: char) -> Seq<char> {
    if c == '"' || c == '\\' {
        seq!['\\', c]
    } else if c as u32 == 8 {
        seq!['\\', 'b']
    } else if c as u32 == 9 {
        seq!['\\', 't']
    } else if c as u32 == 10 {
        seq!['\\', 'n']
    } else if c as u32 == 12 {
        seq!['\\', 'f']
    } else if c as u32 == 13 {
        seq!['\\', 'r']
    } else if (c as u32) < 32 {
        seq!['\\', 'u', '0', '0', lower_hex_digit(c as int / 16), lower_hex_digit(c as int % 16)]
    } else {
        seq![c]
    }
}

/// The lower-case hexadecimal digit of a number below sixteen.
pub open spec fn lower_hex_digit(d: int) -> char {
    if d < 10 {
        (48 + d) as char
    } else {
        (87 + d) as char
    }
}

/// The inside of a JSON string.
pub open spec fn json_chars(s: Seq<char>) -> Seq<char>
    decreases s.len(),
{
    if s.len() == 0 {
        Seq::empty()
    } else {
        json_chars(s.drop_last()) + json_char(s.last())
    }
}

/// A JSON string.
pub open spec fn json_string(s: Seq<char>) -> Seq<char> {
    seq!['"'] + json_chars(s) + seq!['"']
}

/// A JSON object with one string in it.
pub open spec fn json_object(key: Seq<char>, value: Seq<char>) -> Seq<char> {
    seq!['{'] + json_string(key) + seq![':'] + json_string(value) + seq!['}']
}

/// `serde_json::to_string` of a map with one entry, a string under a string:
/// the JSON object of it, without white space. It does not fail.
#[verifier::external_body]
pub(crate) fn json_object_text(key: &str, value: &str) -> (text: Option<String>)
    ensures
        text is Some,
        text->0@ == json_object(key@, value@),
{
    let mut object = std::collections::BTreeMap::new();
    object.insert(key, value);
    serde_json::to_string(&object).ok()
}

/// The character that stands at `i` in an event id.
pub open spec fn event_id_char(i: int, c: char) -> bool {
    if i == 8 || i == 13 || i == 18 || i == 23 {
        c == '-'
    } else if i == 14 {
        c == '4'
    } else if i == 19 {
        c == '8' || c == '9' || c == 'a' || c == 'b'
    } else {
        ('0' <= c && c <= '9') || ('a' <= c && c <= 'f')
    }
}

/// The form of an event id: a random UUID in lower-case hexadecimal, with
/// hyphens.
pub open spec fn is_event_id(s: Seq<char>) -> bool {
    &&& s.len() == 36
    &&& forall|i: int| 0 <= i < 36 ==> event_id_char(i, #[trigger] s[i])
}

/// `uuid::Uuid::new_v4` and its `to_string`: a fresh random UUID as text, of
/// which only the form is known.
#[verifier::external_body]
pub(crate) fn new_event_id() -> (id: String)
    ensures
        is_event_id(id@),
{
    uuid::Uuid::new_v4().to_string()
}

/// Reading decimal digits undoes writing them.
pub proof fn law_decimal_round_trip(n: nat)
    ensures
        decimal_value(decimal(n)) == n,
    decreases n,
{
    let s = decimal(n);
    if n < 10 {
        assert(s.drop_last() =~= Seq::empty());
        assert(decimal_value(s.drop_last()) == 0);
        assert(s.last() == digit(n as int));
    } else {
        law_decimal_round_trip(n / 10);
        assert(s.drop_last() =~= decimal(n / 10));
    }
}

pub(crate) proof fn lemma_decimal_digits(n: nat)
    ensures
        forall|i: int| 0 <= i < decimal(n).len() ==> '0' <= #[trigger] decimal(n)[i] <= '9',
    decreases n,
{
    let s = decimal(n);
    if n >= 10 {
        lemma_decimal_digits(n / 10);
    }
    assert forall|i: int| 0 <= i < s.len() implies '0' <= #[trigger] s[i] <= '9' by {
        if i < s.len() - 1 {
            assert(s[i] == decimal(n / 10)[i]);
        } else {
            assert(s[i] == digit((n % 10) as int));
        }
    }
}

/// Percent-encoded text is made of letters, digits, `-`, `_`, `.`, `~` and `%`
/// alone: nothing in it can end a query parameter.
pub proof fn law_percent_encoded_chars(bytes: Seq<u8>)
    ensures
        forall|i: int|
            0 <= i < percent_encoded(bytes).len() ==> percent_char(
                #[trigger] percent_encoded(bytes)[i],
            ),
    decreases bytes.len(),
{
    if bytes.len() > 0 {
        law_percent_encoded_chars(bytes.drop_last());
        let head = percent_encoded(bytes.drop_last());
        let b = bytes.last();
        let e = percent_encoded(bytes);
        assert forall|i: int| 0 <= i < e.len() implies percent_char(#[trigger] e[i]) by {
            if i < head.len() {
                assert(e[i] == head[i]);
            } else {
                assert(e[i] == percent_byte(b)[i - head.len()]);
            }
        }
    }
}

/// The number that an upper-case hexadecimal digit stands for.
pub open spec fn hex_value(c: char) -> int {
    if c as int <= 57 {
        c as int - 48
    } else {
        c as int - 55
    }
}

/// The bytes that percent-encoded text stands for.
pub open spec fn percent_decoded(s: Seq<char>) -> Seq<u8>
    decreases s.len(),
{
    if s.len() == 0 {
        Seq::empty()
    } else if s.len() >= 3 && s[s.len() - 3] == '%' {
        percent_decoded(s.take(s.len() - 3)).push(
            (hex_value(s[s.len() - 2]) * 16 + hex_value(s[s.len() - 1])) as u8,
        )
    } else {
        percent_decoded(s.drop_last()).push(s.last() as u8)
    }
}

proof fn lemma_percent_tail(bytes: Seq<u8>)
    ensures
        ({
            let e = percent_encoded(bytes);
            &&& e.len() >= 1 ==> e[e.len() - 1] != '%'
            &&& e.len() >= 2 ==> e[e.len() - 2] != '%'
        }),
    decreases bytes.len(),
{
    if bytes.len() > 0 {
        lemma_percent_tail(bytes.drop_last());
        let b = bytes.last();
        let head = percent_encoded(bytes.drop_last());
        let e = percent_encoded(bytes);
        assert(e == head + percent_byte(b));
        if unreserved(b) {
            assert(e[e.len() - 1] == b as char);
            if head.len() >= 1 {
                assert(e[e.len() - 2] == head[head.len() - 1]);
            }
        } else {
            assert(e[e.len() - 1] == hex_digit(b as int % 16));
            assert(e[e.len() - 2] == hex_digit(b as int / 16));
        }
    }
}

/// Decoding undoes percent encoding: no two byte strings encode alike.
pub proof fn law_percent_round_trip(bytes: Seq<u8>)
    ensures
        percent_decoded(percent_encoded(bytes)) == bytes,
    decreases bytes.len(),
{
    let e = percent_encoded(bytes);
    if bytes.len() == 0 {
        assert(percent_decoded(e) =~= bytes);
    } else {
        let b = bytes.last();
        let head = percent_encoded(bytes.drop_last());
        law_percent_round_trip(bytes.drop_last());
        lemma_percent_tail(bytes.drop_last());
        assert(e == head + percent_byte(b));
        if unreserved(b) {
            if e.len() >= 3 {
                assert(e[e.len() - 3] == head[head.len() - 2]);
            }
            assert(e.drop_last() =~= head);
            assert(e.last() == b as char);
        } else {
            assert(e[e.len() - 3] == '%');
            assert(e.take(e.len() - 3) =~= head);
            assert(e[e.len() - 2] == hex_digit(b as int / 16));
            assert(e[e.len() - 1] == hex_digit(b as int % 16));
        }
        assert(percent_decoded(e) =~= bytes.drop_last().push(b));
        assert(bytes =~= bytes.drop_last().push(b));
    }
}

/// The number that a lower-case hexadecimal digit stands for.
pub open spec fn lower_hex_value(c: char) -> int {
    if c as int <= 57 {
        c as int - 48
    } else {
        c as int - 87
    }
}

/// The character that one after a reverse solidus stands for.
pub open spec fn json_unescaped(c: char) -> char {
    if c == 'b' {
        8u8 as char
    } else if c == 't' {
        9u8 as char
    } else if c == 'n' {
        10u8 as char
    } else if c == 'f' {
        12u8 as char
    } else if c == 'r' {
        13u8 as char
    } else {
        c
    }
}

/// The text that the inside of a JSON string stands for.
pub open spec fn json_decoded(s: Seq<char>) -> Seq<char>
    decreases s.len(),
{
    if s.len() == 0 {
        Seq::empty()
    } else if s[0] != '\\' || s.len() < 2 {
        seq![s[0]] + json_decoded(s.skip(1))
    } else if s[1] == 'u' && s.len() >= 6 {
        seq![(lower_hex_value(s[4]) * 16 + lower_hex_value(s[5])) as char] + json_decoded(s.skip(6))
    } else {
        seq![json_unescaped(s[1])] + json_decoded(s.skip(2))
    }
}

proof fn lemma_json_char_decoded(c: char, rest: Seq<char>)
    ensures
        json_decoded(json_char(c) + rest) == seq![c] + json_decoded(rest),
{
    let e = json_char(c);
    let s = e + rest;
    assert(s.skip(e.len() as int) =~= rest);
    assert(s[0] == e[0]);
    if e.len() > 1 {
        assert(s[1] == e[1]);
    }
    if e.len() == 6 {
        assert(s[4] == e[4] && s[5] == e[5]);
        assert(lower_hex_value(e[4]) == c as int / 16);
        assert(lower_hex_value(e[5]) == c as int % 16);
    }
}

proof fn lemma_json_chars_front(s: Seq<char>)
    requires
        s.len() > 0,
    ensures
        json_chars(s) == json_char(s[0]) + json_chars(s.drop_first()),
    decreases s.len(),
{
    let rest = s.drop_first();
    if s.len() == 1 {
        assert(s.drop_last() =~= Seq::empty());
        assert(rest =~= Seq::empty());
        assert(json_chars(s) =~= json_char(s[0]) + json_chars(rest));
    } else {
        lemma_json_chars_front(s.drop_last());
        assert(s.drop_last().drop_first() =~= rest.drop_last());
        assert(s.last() == rest.last());
        assert(json_chars(s) =~= json_char(s[0]) + json_chars(rest));
    }
}

/// Reading the inside of a JSON string undoes writing it.
pub proof fn law_json_round_trip(s: Seq<char>)
    ensures
        json_decoded(json_chars(s)) == s,
    decreases s.len(),
{
    if s.len() == 0 {
        assert(json_decoded(json_chars(s)) =~= s);
    } else {
        lemma_json_chars_front(s);
        lemma_json_char_decoded(s[0], json_chars(s.drop_first()));
        law_json_round_trip(s.drop_first());
        assert(seq![s[0]] + s.drop_first() =~= s);
    }
}

/// A number below ten is its digit, and ten times a number and a digit is the
/// number followed by the digit.
pub proof fn law_decimal_digits(n: nat, d: nat)
    requires
        d < 10,
    ensures
        decimal(d) == seq![(48 + d) as char],
        n > 0 ==> decimal(10 * n + d) == decimal(n).push((48 + d) as char),
{
    if n > 0 {
        assert((10 * n + d) / 10 == n);
        assert((10 * n + d) % 10 == d);
    }
}

/// Bytes that are the UTF-8 form of a text are read as that text, and others as
/// what `String::from_utf8_lossy` makes of them.
pub proof fn law_utf8_text_is_read(text: Seq<char>, bytes: Seq<u8>)
    ensures
        lossy_text(encode_utf8(text)) == text,
        !valid_utf8(bytes) ==> lossy_text(bytes) == utf8_lossy(bytes),
{
    encode_utf8_valid_utf8(text);
    encode_utf8_decode_utf8(text);
}

/// Text without quotation marks, reverse solidi and control characters stands in
/// a JSON string as it is.
pub proof fn law_plain_text_is_json(s: Seq<char>)
    requires
        forall|i: int|
            0 <= i < s.len() ==> (#[trigger] s[i]) as u32 >= 32 && s[i] != '"' && s[i] != '\\',
    ensures
        json_chars(s) == s,
    decreases s.len(),
{
    if s.len() > 0 {
        let head = s.drop_last();
        assert forall|i: int| 0 <= i < head.len() implies (#[trigger] head[i]) as u32 >= 32
            && head[i] != '"' && head[i] != '\\' by {
            assert(head[i] == s[i]);
        }
        law_plain_text_is_json(head);
        assert(s[s.len() - 1] == s.last());
        assert(head + seq![s.last()] =~= s);
    }
}

/// A JSON object with one string in it: the key and the string, each between
/// quotation marks.
pub proof fn law_json_object(key: Seq<char>, value: Seq<char>)
    ensures
        json_object(key, value) == "{\""@ + json_chars(key) + "\":\""@ + json_chars(value)
            + "\"}"@,
{
    reveal_strlit("{\"");
    reveal_strlit("\":\"");
    reveal_strlit("\"}");
    assert(json_object(key, value) =~= "{\""@ + json_chars(key) + "\":\""@ + json_chars(value)
        + "\"}"@);
}

/// Text of letters and digits alone is percent encoded as it is.
pub proof fn law_letters_and_digits_are_kept(bytes: Seq<u8>)
    requires
        forall|i: int|
            0 <= i < bytes.len() ==> (48 <= #[trigger] bytes[i] <= 57 || 65 <= bytes[i] <= 90
                || 97 <= bytes[i] <= 122),
    ensures
        percent_encoded(bytes) == bytes.map_values(|b: u8| b as char),
    decreases bytes.len(),
{
    let chars = bytes.map_values(|b: u8| b as char);
    if bytes.len() == 0 {
        assert(percent_encoded(bytes) =~= chars);
    } else {
        let head = bytes.drop_last();
        assert forall|i: int| 0 <= i < head.len() implies (48 <= #[trigger] head[i] <= 57 || 65
            <= head[i] <= 90 || 97 <= head[i] <= 122) by {
            assert(head[i] == bytes[i]);
        }
        law_letters_and_digits_are_kept(head);
        assert(bytes[bytes.len() - 1] == bytes.last());
        assert(percent_encoded(bytes) =~= chars);
    }
}

} // verus!
